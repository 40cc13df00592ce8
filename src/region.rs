use vstd::prelude::*;

use crate::error::Error;
use crate::error::ErrorType;
use crate::primitive_type::PrimitiveType;
use crate::reference_map::ReferenceMap;
use crate::value::{is_slotted_type, slot_bits, Value, LIST_PREFIX, OBJECT_PREFIX, TEXT_PREFIX, TUPLE_PREFIX};

verus! {

/// How many slots a region holds.
pub const REGION_SLOT_SIZE: usize = 578;

pub const BASE_WHITE: u8 = 0b00;
pub const BASE_BLACK: u8 = 0b11;
pub const BASE_GRAY: u8 = 0b01;

/// The tag prefix of a slot-bearing primitive type.
pub open spec fn prefix_of(t: PrimitiveType) -> u64 {
    match t {
        PrimitiveType::Text => TEXT_PREFIX,
        PrimitiveType::List => LIST_PREFIX,
        PrimitiveType::Tuple => TUPLE_PREFIX,
        _ => OBJECT_PREFIX,
    }
}

/// The slot index that a value names.
pub open spec fn index_of(v: Value) -> int {
    (v.bits() & 0xffff) as int
}

/// The region id that a value names.
pub open spec fn region_of(v: Value) -> u64 {
    (v.bits() >> 16) & 0xffff_ffff
}

/// How many entries of `s` are `false`: for the empties bitmap, how many slots are
/// occupied.
pub open spec fn count_false(s: Seq<bool>) -> nat
    decreases s.len(),
{
    if s.len() == 0 {
        0
    } else {
        count_false(s.drop_last()) + if s.last() {
            0nat
        } else {
            1nat
        }
    }
}

proof fn lemma_count_false_update(s: Seq<bool>, i: int, b: bool)
    requires
        0 <= i < s.len(),
    ensures
        count_false(s.update(i, b)) == count_false(s) - (if s[i] {
            0int
        } else {
            1int
        }) + (if b {
            0int
        } else {
            1int
        }),
    decreases s.len(),
{
    if i < s.len() - 1 {
        lemma_count_false_update(s.drop_last(), i, b);
        assert(s.update(i, b).drop_last() =~= s.drop_last().update(i, b));
    } else {
        assert(s.update(i, b).drop_last() =~= s.drop_last());
    }
}

proof fn lemma_count_false_bound(s: Seq<bool>)
    ensures
        count_false(s) <= s.len(),
    decreases s.len(),
{
    if s.len() > 0 {
        lemma_count_false_bound(s.drop_last());
    }
}

proof fn lemma_count_false_all_true(s: Seq<bool>)
    requires
        forall|k: int| 0 <= k < s.len() ==> s[k],
    ensures
        count_false(s) == 0,
    decreases s.len(),
{
    if s.len() > 0 {
        lemma_count_false_all_true(s.drop_last());
    }
}

proof fn lemma_count_false_all_false(s: Seq<bool>)
    requires
        forall|k: int| 0 <= k < s.len() ==> !s[k],
    ensures
        count_false(s) == s.len(),
    decreases s.len(),
{
    if s.len() > 0 {
        lemma_count_false_all_false(s.drop_last());
    }
}

/// Slots at or past the bump pointer are free, so no more slots are occupied than
/// lie below it.
proof fn lemma_occupied_within_next(region: &Region)
    requires
        region.wf(),
    ensures
        region.spec_occupied() <= region.spec_next_empty(),
{
    let n = region.next_empty_slot_index as int;
    let e = region.empties@;
    lemma_count_false_split(e, n);
    lemma_count_false_bound(e.take(n));
    lemma_count_false_all_true(e.skip(n));
}

proof fn lemma_count_false_split(s: Seq<bool>, n: int)
    requires
        0 <= n <= s.len(),
    ensures
        count_false(s) == count_false(s.take(n)) + count_false(s.skip(n)),
    decreases s.len(),
{
    if n == s.len() {
        assert(s.take(n) =~= s);
        assert(s.skip(n) =~= Seq::<bool>::empty());
    } else {
        lemma_count_false_split(s.drop_last(), n);
        assert(s.drop_last().take(n) =~= s.take(n));
        assert(s.skip(n).drop_last() =~= s.drop_last().skip(n));
    }
}

/// The slot-bearing value of type `t` at `slot` of region `region`.
fn make_slot_value(t: PrimitiveType, region: u32, slot: u32) -> (r: Value)
    requires
        is_slotted_type(t),
        slot <= 0xffff,
    ensures
        r.bits() == slot_bits(prefix_of(t), region, slot),
        r.spec_type() == t,
        region_of(r) == region,
        index_of(r) == slot,
{
    match t {
        PrimitiveType::Text => Value::make_text(region, slot),
        PrimitiveType::List => Value::make_list(region, slot),
        PrimitiveType::Tuple => Value::make_tuple(region, slot),
        _ => Value::make_object(region, slot),
    }
}

/// A moved slot's forwarding record: the value it answered to, where it went, and
/// the references that still reach it by the old value.
pub struct Redirection {
    pub from: Value,
    pub target: Value,
    pub references: ReferenceMap,
}

/// What a slot holds that moves with it between regions.
pub struct SlotRecordSnapshot {
    pub primitive_type: PrimitiveType,
    pub sealed: bool,
    pub color: u8,
    pub prototype: Value,
}

/// `new` is `old` after freezing the live slot `v` into `snapshot`.
pub open spec fn froze(old: Region, new: Region, v: Value, snapshot: SlotRecordSnapshot, in_nursery: bool) -> bool {
    let i = index_of(v);
    &&& old.available(v) && old.is_alive_at(i)
    &&& snapshot.primitive_type == old.type_at(i)
    &&& snapshot.sealed == old.is_sealed_at(i)
    &&& snapshot.color == old.color_at(i)
    &&& snapshot.prototype == old.prototype_at(i)
    &&& in_nursery == old.in_nursery(i)
    &&& !new.is_alive_at(i) && new.bit(i) && !new.empty(i)
    &&& new.outer_total(i) == 0
    &&& new.spec_occupied() == old.spec_occupied()
    &&& new.only_slot_changed(&old, i)
}

/// `new` is `old` after restoring `snapshot` into the slot that `w` names.
pub open spec fn restored(old: Region, new: Region, snapshot: SlotRecordSnapshot, in_nursery: bool, w: Value) -> bool {
    let i = index_of(w);
    &&& new.addresses(w)
    &&& w.spec_type() == snapshot.primitive_type
    &&& old.empty(i)
    &&& new.bit(i) && !new.empty(i) && new.is_alive_at(i)
    &&& new.type_at(i) == snapshot.primitive_type
    &&& new.is_sealed_at(i) == snapshot.sealed
    &&& new.color_at(i) == snapshot.color
    &&& new.prototype_at(i) == snapshot.prototype
    &&& new.in_nursery(i) == in_nursery
    &&& new.outer_total(i) == 0
    &&& new.spec_occupied() == old.spec_occupied() + 1
    &&& new.only_slot_changed(&old, i)
}

/// A fixed-size arena of slots with occupancy and empties bitmaps, a nursery and
/// forwarding records.
pub struct Region {
    id: u32,
    occupied: u16,
    next_empty_slot_index: u16,
    bitmap: Vec<bool>,
    empties: Vec<bool>,
    nursery: Vec<bool>,
    alive: Vec<bool>,
    sealed: Vec<bool>,
    colors: Vec<u8>,
    types: Vec<PrimitiveType>,
    prototypes: Vec<Value>,
    outer_references: Vec<ReferenceMap>,
    redirections: Vec<Option<Redirection>>,
    redirection_froms: Vec<Vec<Value>>,
}

impl Region {
    pub closed spec fn spec_id(&self) -> u32 {
        self.id
    }

    /// Slots in use, live or forwarding.
    pub closed spec fn spec_occupied(&self) -> nat {
        self.occupied as nat
    }

    /// The bump pointer: every slot from here on is free.
    pub closed spec fn spec_next_empty(&self) -> nat {
        self.next_empty_slot_index as nat
    }

    /// Occupancy bitmap bit of slot `i`.
    pub closed spec fn bit(&self, i: int) -> bool {
        self.bitmap@[i]
    }

    /// Empties bitmap bit of slot `i`: the slot is wholly free.
    pub closed spec fn empty(&self, i: int) -> bool {
        self.empties@[i]
    }

    pub closed spec fn in_nursery(&self, i: int) -> bool {
        self.nursery@[i]
    }

    pub closed spec fn is_alive_at(&self, i: int) -> bool {
        self.alive@[i]
    }

    pub closed spec fn is_sealed_at(&self, i: int) -> bool {
        self.sealed@[i]
    }

    pub closed spec fn color_at(&self, i: int) -> u8 {
        self.colors@[i]
    }

    pub closed spec fn type_at(&self, i: int) -> PrimitiveType {
        self.types@[i]
    }

    /// The prototype of the value in slot `i`.
    pub closed spec fn prototype_at(&self, i: int) -> Value {
        self.prototypes@[i]
    }

    /// How often `v` references slot `i` directly.
    pub closed spec fn outer_count(&self, i: int, v: Value) -> nat {
        self.outer_references@[i].spec_count(v)
    }

    /// How many direct references slot `i` has.
    pub closed spec fn outer_total(&self, i: int) -> nat {
        self.outer_references@[i].spec_total()
    }

    /// The forwarding record of slot `i`: the value it answered to and its target.
    pub closed spec fn redirection_at(&self, i: int) -> Option<(Value, Value)> {
        match self.redirections@[i] {
            Some(r) => Some((r.from, r.target)),
            None => None,
        }
    }

    /// How often `v` still reaches slot `i` through its forwarding record.
    pub closed spec fn redirection_count(&self, i: int, v: Value) -> nat {
        match self.redirections@[i] {
            Some(r) => r.references.spec_count(v),
            None => 0,
        }
    }

    /// How many references still reach slot `i` through its forwarding record.
    pub closed spec fn redirection_total(&self, i: int) -> nat {
        match self.redirections@[i] {
            Some(r) => r.references.spec_total(),
            None => 0,
        }
    }

    /// The values that were moved into slot `i` and still forward to it.
    pub closed spec fn froms_at(&self, i: int) -> Seq<Value> {
        self.redirection_froms@[i]@
    }

    /// `v` is a slot-bearing value of this region whose index lies in the region.
    pub open spec fn addresses(&self, v: Value) -> bool {
        is_slotted_type(v.spec_type()) && region_of(v) == self.spec_id() && index_of(v)
            < REGION_SLOT_SIZE
    }

    /// The error for a value that this region does not address.
    pub open spec fn address_error(&self, v: Value) -> ErrorType {
        if !is_slotted_type(v.spec_type()) {
            ErrorType::TypeNotMatch
        } else {
            ErrorType::FatalError
        }
    }

    /// Slot `j` is the same in both regions.
    pub closed spec fn same_slot(&self, other: &Region, j: int) -> bool {
        &&& self.bitmap@[j] == other.bitmap@[j]
        &&& self.empties@[j] == other.empties@[j]
        &&& self.nursery@[j] == other.nursery@[j]
        &&& self.alive@[j] == other.alive@[j]
        &&& self.sealed@[j] == other.sealed@[j]
        &&& self.colors@[j] == other.colors@[j]
        &&& self.types@[j] == other.types@[j]
        &&& self.prototypes@[j] == other.prototypes@[j]
        &&& self.outer_references@[j] == other.outer_references@[j]
        &&& self.redirections@[j] == other.redirections@[j]
        &&& self.redirection_froms@[j] == other.redirection_froms@[j]
    }

    /// Every slot other than `i` is unchanged, and so is the region's id.
    pub open spec fn only_slot_changed(&self, other: &Region, i: int) -> bool {
        &&& self.spec_id() == other.spec_id()
        &&& forall|j: int| 0 <= j < REGION_SLOT_SIZE && j != i ==> #[trigger] self.same_slot(other, j)
    }

    pub closed spec fn wf(&self) -> bool {
        &&& self.bitmap@.len() == REGION_SLOT_SIZE
        &&& self.empties@.len() == REGION_SLOT_SIZE
        &&& self.nursery@.len() == REGION_SLOT_SIZE
        &&& self.alive@.len() == REGION_SLOT_SIZE
        &&& self.sealed@.len() == REGION_SLOT_SIZE
        &&& self.colors@.len() == REGION_SLOT_SIZE
        &&& self.types@.len() == REGION_SLOT_SIZE
        &&& self.prototypes@.len() == REGION_SLOT_SIZE
        &&& self.outer_references@.len() == REGION_SLOT_SIZE
        &&& self.redirections@.len() == REGION_SLOT_SIZE
        &&& self.redirection_froms@.len() == REGION_SLOT_SIZE
        &&& self.next_empty_slot_index <= REGION_SLOT_SIZE
        &&& self.occupied == count_false(self.empties@)
        &&& forall|j: int|
            self.next_empty_slot_index <= j < REGION_SLOT_SIZE ==> !self.bitmap@[j]
                && self.empties@[j]
        &&& forall|j: int| 0 <= j < REGION_SLOT_SIZE && self.bitmap@[j] ==> !self.empties@[j]
        &&& forall|j: int|
            0 <= j < REGION_SLOT_SIZE && self.bitmap@[j] ==> is_slotted_type(self.types@[j])
        &&& forall|j: int| 0 <= j < REGION_SLOT_SIZE && self.alive@[j] ==> self.bitmap@[j]
        &&& forall|j: int| 0 <= j < REGION_SLOT_SIZE && self.nursery@[j] ==> self.bitmap@[j]
        &&& forall|j: int|
            0 <= j < REGION_SLOT_SIZE && (self.alive@[j] || self.empties@[j]) ==> self.redirections@[j] is None
        &&& forall|j: int| 0 <= j < REGION_SLOT_SIZE ==> (#[trigger] self.outer_references@[j]).wf()
        &&& forall|j: int|
            0 <= j < REGION_SLOT_SIZE && (#[trigger] self.redirections@[j]) is Some
                ==> self.redirections@[j]->Some_0.references.wf()
    }

    /// An empty region with the given id.
    pub fn new(id: u32) -> (r: Region)
        ensures
            r.wf(),
            r.spec_id() == id,
            r.spec_occupied() == 0,
            r.spec_next_empty() == 0,
            forall|j: int|
                0 <= j < REGION_SLOT_SIZE ==> !r.bit(j) && r.empty(j) && !r.in_nursery(j)
                    && !r.is_alive_at(j) && r.redirection_at(j) is None && r.froms_at(j).len() == 0,
    {
        let mut bitmap: Vec<bool> = Vec::new();
        let mut empties: Vec<bool> = Vec::new();
        let mut nursery: Vec<bool> = Vec::new();
        let mut alive: Vec<bool> = Vec::new();
        let mut sealed: Vec<bool> = Vec::new();
        let mut colors: Vec<u8> = Vec::new();
        let mut types: Vec<PrimitiveType> = Vec::new();
        let mut prototypes: Vec<Value> = Vec::new();
        let mut outer_references: Vec<ReferenceMap> = Vec::new();
        let mut redirections: Vec<Option<Redirection>> = Vec::new();
        let mut redirection_froms: Vec<Vec<Value>> = Vec::new();
        let mut i: usize = 0;
        while i < REGION_SLOT_SIZE
            invariant
                i <= REGION_SLOT_SIZE,
                bitmap@.len() == i,
                empties@.len() == i,
                nursery@.len() == i,
                alive@.len() == i,
                sealed@.len() == i,
                colors@.len() == i,
                types@.len() == i,
                prototypes@.len() == i,
                outer_references@.len() == i,
                redirections@.len() == i,
                redirection_froms@.len() == i,
                forall|j: int| 0 <= j < i ==> !bitmap@[j],
                forall|j: int| 0 <= j < i ==> empties@[j],
                forall|j: int| 0 <= j < i ==> !nursery@[j],
                forall|j: int| 0 <= j < i ==> !alive@[j],
                forall|j: int| 0 <= j < i ==> redirections@[j] is None,
                forall|j: int| 0 <= j < i ==> redirection_froms@[j]@.len() == 0,
                forall|j: int| 0 <= j < i ==> (#[trigger] outer_references@[j]).wf(),
            decreases REGION_SLOT_SIZE - i,
        {
            bitmap.push(false);
            empties.push(true);
            nursery.push(false);
            alive.push(false);
            sealed.push(false);
            colors.push(0);
            types.push(PrimitiveType::Undefined);
            prototypes.push(Value::make_null());
            outer_references.push(ReferenceMap::new());
            redirections.push(None);
            redirection_froms.push(Vec::new());
            i = i + 1;
        }
        proof {
            lemma_count_false_all_true(empties@);
        }
        let r = Region {
            id,
            occupied: 0,
            next_empty_slot_index: 0,
            bitmap,
            empties,
            nursery,
            alive,
            sealed,
            colors,
            types,
            prototypes,
            outer_references,
            redirections,
            redirection_froms,
        };
        assert(forall|j: int| 0 <= j < REGION_SLOT_SIZE ==> !r.bitmap@[j] && r.empties@[j]);
        assert(forall|j: int| 0 <= j < REGION_SLOT_SIZE ==> (#[trigger] r.outer_references@[j]).wf());
        assert(forall|j: int| 0 <= j < REGION_SLOT_SIZE ==> (#[trigger] r.redirections@[j]) is None);
        r
    }

    pub fn get_id(&self) -> (r: u32)
        ensures
            r == self.spec_id(),
    {
        self.id
    }

    /// Every slot is in use.
    pub fn is_full(&self) -> (r: bool)
        ensures
            r == (self.spec_occupied() == REGION_SLOT_SIZE),
    {
        self.occupied as usize == REGION_SLOT_SIZE
    }

    /// No slot is in use and no forwarding record is kept: the region may be
    /// recycled.
    pub fn is_empty(&self) -> (r: bool)
        requires
            self.wf(),
        ensures
            r == (self.spec_occupied() == 0 && forall|j: int|
                0 <= j < REGION_SLOT_SIZE ==> self.redirection_at(j) is None),
    {
        if self.occupied != 0 {
            return false;
        }
        let mut i: usize = 0;
        while i < REGION_SLOT_SIZE
            invariant
                self.wf(),
                i <= REGION_SLOT_SIZE,
                forall|j: int| 0 <= j < i ==> self.redirection_at(j) is None,
            decreases REGION_SLOT_SIZE - i,
        {
            if self.redirections[i].is_some() {
                assert(self.redirection_at(i as int) is Some);
                return false;
            }
            i = i + 1;
        }
        true
    }

    /// The share of unused slots below the bump pointer exceeds `numerator /
    /// denominator`.
    pub open spec fn fragmented(&self, numerator: u32, denominator: u32) -> bool {
        self.spec_next_empty() > 0 && (self.spec_next_empty() - self.spec_occupied()) * denominator
            > numerator * self.spec_next_empty()
    }

    /// Whether the share of unused slots below the bump pointer exceeds
    /// `numerator / denominator`: `1 - occupied / next_empty > numerator / denominator`.
    pub fn fragmentation_exceeds(&self, numerator: u32, denominator: u32) -> (r: bool)
        requires
            self.wf(),
            denominator > 0,
        ensures
            r == self.fragmented(numerator, denominator),
    {
        if self.next_empty_slot_index == 0 {
            return false;
        }
        proof {
            lemma_occupied_within_next(self);
        }
        let next = self.next_empty_slot_index as u64;
        let unused = next - self.occupied as u64;
        assert(unused * (denominator as u64) <= 578 * 0xffff_ffff) by (nonlinear_arith)
            requires
                unused <= 578,
                denominator <= 0xffff_ffff,
        ;
        assert((numerator as u64) * next <= 0xffff_ffff * 578) by (nonlinear_arith)
            requires
                next <= 578,
                numerator <= 0xffff_ffff,
        ;
        unused * (denominator as u64) > (numerator as u64) * next
    }

    /// The bump pointer has not reached the end.
    pub fn could_gain_slot_quickly(&self) -> (r: bool)
        ensures
            r == (self.spec_next_empty() != REGION_SLOT_SIZE),
    {
        self.next_empty_slot_index as usize != REGION_SLOT_SIZE
    }

    /// How many slots are in use.
    pub fn get_occupied(&self) -> (r: u16)
        ensures
            r == self.spec_occupied(),
    {
        self.occupied
    }

    /// The bump pointer.
    pub fn get_next_empty_slot_index(&self) -> (r: u16)
        ensures
            r == self.spec_next_empty(),
    {
        self.next_empty_slot_index
    }

    /// The index of the slot that `value` names in this region.
    fn slot_of(&self, value: Value) -> (r: Result<usize, Error>)
        ensures
            r is Ok <==> self.addresses(value),
            r matches Ok(i) ==> i == index_of(value),
            r matches Err(e) ==> e.error_type == self.address_error(value),
    {
        let region = value.get_region_id()?;
        if region != self.id {
            return Err(Error::new(ErrorType::FatalError, "Incorrect region ID"));
        }
        let slot = value.get_region_slot()?;
        if slot as usize >= REGION_SLOT_SIZE {
            return Err(Error::new(ErrorType::FatalError, "Incorrect slot state"));
        }
        Ok(slot as usize)
    }

    /// Allocates the slot at the bump pointer for a value of type `primitive_type`:
    /// occupied, alive, and in the nursery. Fails `FatalError` for a type that does
    /// not live in slots, `OutOfSpace` when the region is full or the bump pointer
    /// has reached the end.
    pub fn gain_slot(&mut self, primitive_type: PrimitiveType) -> (r: Result<Value, Error>)
        requires
            old(self).wf(),
        ensures
            final(self).wf(),
            !is_slotted_type(primitive_type) ==> (r matches Err(e) && e.error_type
                == ErrorType::FatalError),
            is_slotted_type(primitive_type) ==> (r is Err <==> (old(self).spec_occupied()
                == REGION_SLOT_SIZE || old(self).spec_next_empty() == REGION_SLOT_SIZE)),
            r matches Err(e) ==> (is_slotted_type(primitive_type) ==> e.error_type
                == ErrorType::OutOfSpace) && *final(self) == *old(self),
            r matches Ok(v) ==> {
                let i = old(self).spec_next_empty() as int;
                &&& v.bits() == slot_bits(prefix_of(primitive_type), old(self).spec_id(), i as u32)
                &&& v.spec_type() == primitive_type
                &&& final(self).addresses(v)
                &&& index_of(v) == i
                &&& final(self).bit(i) && !final(self).empty(i) && final(self).in_nursery(i)
                &&& final(self).is_alive_at(i) && !final(self).is_sealed_at(i)
                &&& final(self).type_at(i) == primitive_type
                &&& final(self).prototype_at(i) == Value::spec_null()
                &&& final(self).outer_total(i) == old(self).outer_total(i)
                &&& final(self).redirection_at(i) is None
                &&& final(self).froms_at(i) == old(self).froms_at(i)
                &&& final(self).spec_next_empty() == i + 1
                &&& final(self).spec_occupied() == old(self).spec_occupied() + 1
                &&& final(self).only_slot_changed(old(self), i)
            },
    {
        if !(primitive_type == PrimitiveType::Text || primitive_type == PrimitiveType::List
            || primitive_type == PrimitiveType::Tuple || primitive_type == PrimitiveType::Object) {
            return Err(Error::new(ErrorType::FatalError, "Region slot is not available for this type"));
        }
        if self.occupied as usize == REGION_SLOT_SIZE || self.next_empty_slot_index as usize
            == REGION_SLOT_SIZE {
            return Err(Error::new(ErrorType::OutOfSpace, "Out of slots"));
        }
        let slot = self.next_empty_slot_index as usize;
        proof {
            lemma_count_false_update(self.empties@, slot as int, false);
            lemma_count_false_bound(self.empties@.update(slot as int, false));
        }
        self.bitmap.set(slot, true);
        self.empties.set(slot, false);
        self.occupied = self.occupied + 1;
        self.next_empty_slot_index = self.next_empty_slot_index + 1;
        let id = make_slot_value(primitive_type, self.id, slot as u32);
        self.nursery.set(slot, true);
        self.alive.set(slot, true);
        self.sealed.set(slot, false);
        self.types.set(slot, primitive_type);
        self.prototypes.set(slot, Value::make_null());
        Ok(id)
    }

    /// Slot `i` may be read: its occupancy bit is set.
    pub open spec fn available(&self, v: Value) -> bool {
        self.addresses(v) && self.bit(index_of(v))
    }

    /// The index of an occupied slot that `value` names; `FatalError` when the
    /// slot is not in use.
    fn available_slot_of(&self, value: Value) -> (r: Result<usize, Error>)
        requires
            self.wf(),
        ensures
            r is Ok <==> self.available(value),
            r matches Ok(i) ==> i == index_of(value) && !self.empty(i as int),
            r matches Err(e) ==> e.error_type == if self.addresses(value) {
                ErrorType::FatalError
            } else {
                self.address_error(value)
            },
    {
        let slot = self.slot_of(value)?;
        if !self.bitmap[slot] {
            return Err(Error::new(ErrorType::FatalError, "Incorrect slot state"));
        }
        Ok(slot)
    }

    /// Gives slot `value` back. Refused (`FatalError`) while the slot is not in use,
    /// is in the nursery, is alive with references from other slots, or is the
    /// target of forwarding records. With `drop_value` the slot becomes free;
    /// without it (after a move) it stays occupied as a forwarding host.
    pub fn recycle_slot(&mut self, value: Value, drop_value: bool) -> (r: Result<(), Error>)
        requires
            old(self).wf(),
        ensures
            final(self).wf(),
            r is Err <==> !old(self).available(value) || old(self).in_nursery(index_of(value)) || (old(
                self).is_alive_at(index_of(value)) && old(self).outer_total(index_of(value)) > 0)
                || old(self).froms_at(index_of(value)).len() > 0,
            r is Err ==> *final(self) == *old(self),
            r matches Err(e) ==> e.error_type == if old(self).addresses(value) {
                ErrorType::FatalError
            } else {
                old(self).address_error(value)
            },
            r is Ok ==> {
                let i = index_of(value);
                &&& final(self).bit(i) == !drop_value
                &&& final(self).empty(i) == drop_value
                &&& !final(self).in_nursery(i)
                &&& !final(self).is_alive_at(i)
                &&& final(self).spec_occupied() == old(self).spec_occupied() - if drop_value {
                    1int
                } else {
                    0int
                }
                &&& final(self).spec_next_empty() == old(self).spec_next_empty()
                &&& final(self).outer_total(i) == if old(self).is_alive_at(i) {
                    0
                } else {
                    old(self).outer_total(i)
                }
                &&& final(self).redirection_at(i) == if drop_value {
                    None
                } else {
                    old(self).redirection_at(i)
                }
                &&& final(self).only_slot_changed(old(self), i)
            },
    {
        let slot = self.available_slot_of(value)?;
        if self.nursery[slot] {
            return Err(Error::new(ErrorType::FatalError, "Value in nursery"));
        }
        if self.alive[slot] && !self.outer_references[slot].is_empty() {
            return Err(Error::new(ErrorType::FatalError, "Slot has outer references"));
        }
        if self.redirection_froms[slot].len() > 0 {
            return Err(Error::new(ErrorType::FatalError, "Slot has outer references"));
        }
        if drop_value {
            proof {
                lemma_count_false_update(self.empties@, slot as int, true);
            }
            self.empties.set(slot, true);
            self.redirections.set(slot, None);
            self.occupied = self.occupied - 1;
            self.bitmap.set(slot, false);
        }
        if self.alive[slot] {
            self.alive.set(slot, false);
            self.sealed.set(slot, false);
            self.colors.set(slot, 0);
            self.outer_references.set(slot, ReferenceMap::new());
        }
        Ok(())
    }

    /// What resolving `value` one step gives.
    pub open spec fn resolved(&self, value: Value) -> Result<Value, ErrorType> {
        if !self.addresses(value) {
            Err(self.address_error(value))
        } else {
            match self.redirection_at(index_of(value)) {
                Some((from, target)) if from == value => Ok(target),
                _ => if self.bit(index_of(value)) {
                    Ok(value)
                } else {
                    Err(ErrorType::FatalError)
                },
            }
        }
    }

    /// Where `value` now lives: the target of its forwarding record, or `value`
    /// itself when its slot is in use and it has none. `FatalError` otherwise.
    pub fn resolve_redirection(&self, value: Value) -> (r: Result<Value, Error>)
        requires
            self.wf(),
        ensures
            match r {
                Ok(v) => self.resolved(value) == Ok::<Value, ErrorType>(v),
                Err(e) => self.resolved(value) == Err::<Value, ErrorType>(e.error_type),
            },
    {
        let slot = self.slot_of(value)?;
        match &self.redirections[slot] {
            Some(redirection) => {
                if redirection.from == value {
                    return Ok(redirection.target);
                }
            },
            None => {},
        }
        if !self.bitmap[slot] {
            return Err(Error::new(ErrorType::FatalError, "Incorrect slot state"));
        }
        Ok(value)
    }

    /// Turns the occupied, no longer alive slot `value` into a forwarding record to
    /// `redirection`, when a reference map comes with it, and takes it out of the
    /// nursery. `FatalError` when the slot is not in use or still alive.
    pub fn redirect_slot(&mut self, value: Value, redirection: Value, reference_map: Option<ReferenceMap>) -> (r: Result<(), Error>)
        requires
            old(self).wf(),
            reference_map matches Some(m) ==> m.wf(),
        ensures
            final(self).wf(),
            r is Err <==> !old(self).available(value) || old(self).is_alive_at(index_of(value)),
            r is Err ==> *final(self) == *old(self),
            r is Ok ==> {
                let i = index_of(value);
                &&& !final(self).in_nursery(i)
                &&& final(self).redirection_at(i) == if reference_map is Some {
                    Some((value, redirection))
                } else {
                    old(self).redirection_at(i)
                }
                &&& reference_map matches Some(m) ==> final(self).redirection_total(i) == m.spec_total()
                &&& final(self).bit(i) == old(self).bit(i)
                &&& final(self).empty(i) == old(self).empty(i)
                &&& final(self).is_alive_at(i) == old(self).is_alive_at(i)
                &&& final(self).froms_at(i) == old(self).froms_at(i)
                &&& final(self).spec_occupied() == old(self).spec_occupied()
                &&& final(self).spec_next_empty() == old(self).spec_next_empty()
                &&& final(self).only_slot_changed(old(self), i)
            },
    {
        let slot = self.available_slot_of(value)?;
        if self.alive[slot] {
            return Err(Error::new(ErrorType::FatalError, "Incorrect slot state"));
        }
        match reference_map {
            Some(references) => {
                self.redirections.set(slot, Some(Redirection { from: value, target: redirection, references }));
            },
            None => {},
        }
        self.nursery.set(slot, false);
        Ok(())
    }

    /// Takes slot `value` out of the nursery. `FatalError` when it is not in use.
    pub fn move_out_from_nursery(&mut self, value: Value) -> (r: Result<(), Error>)
        requires
            old(self).wf(),
        ensures
            final(self).wf(),
            r is Err <==> !old(self).available(value),
            r is Err ==> *final(self) == *old(self),
            r is Ok ==> !final(self).in_nursery(index_of(value)) && final(self).bit(index_of(value))
                && final(self).is_alive_at(index_of(value)) == old(self).is_alive_at(index_of(value))
                && final(self).spec_occupied() == old(self).spec_occupied()
                && final(self).spec_next_empty() == old(self).spec_next_empty()
                && final(self).only_slot_changed(old(self), index_of(value)),
    {
        let slot = self.available_slot_of(value)?;
        self.nursery.set(slot, false);
        Ok(())
    }

    /// Whether slot `value` is in use and holds a live value.
    pub fn is_value_alive(&self, value: Value) -> (r: Result<bool, Error>)
        requires
            self.wf(),
        ensures
            r is Err <==> !self.addresses(value),
            r matches Ok(b) ==> b == (self.bit(index_of(value)) && self.is_alive_at(index_of(value))),
    {
        let slot = self.slot_of(value)?;
        Ok(self.bitmap[slot] && self.alive[slot])
    }

    /// Whether slot `value` is in use, live or forwarding.
    pub fn is_value_occupied(&self, value: Value) -> (r: Result<bool, Error>)
        requires
            self.wf(),
        ensures
            r is Err <==> !self.addresses(value),
            r matches Ok(b) ==> b == !self.empty(index_of(value)),
    {
        let slot = self.slot_of(value)?;
        Ok(!self.empties[slot])
    }

    /// Whether the value in slot `value` is sealed.
    pub fn is_sealed(&self, value: Value) -> (r: Result<bool, Error>)
        requires
            self.wf(),
        ensures
            r is Err <==> !self.available(value),
            r matches Ok(b) ==> b == self.is_sealed_at(index_of(value)),
    {
        let slot = self.available_slot_of(value)?;
        Ok(self.sealed[slot])
    }

    /// Seals the value in slot `value`; sealing is one-way.
    pub fn seal_slot(&mut self, value: Value) -> (r: Result<(), Error>)
        requires
            old(self).wf(),
        ensures
            final(self).wf(),
            r is Err <==> !old(self).available(value),
            r is Err ==> *final(self) == *old(self),
            r is Ok ==> final(self).is_sealed_at(index_of(value)) && final(self).bit(index_of(value))
                && final(self).is_alive_at(index_of(value)) == old(self).is_alive_at(index_of(value))
                && final(self).in_nursery(index_of(value)) == old(self).in_nursery(index_of(value))
                && final(self).spec_occupied() == old(self).spec_occupied()
                && final(self).spec_next_empty() == old(self).spec_next_empty()
                && final(self).only_slot_changed(old(self), index_of(value)),
    {
        let slot = self.available_slot_of(value)?;
        self.sealed.set(slot, true);
        Ok(())
    }

    fn set_color(&mut self, value: Value, color: u8) -> (r: Result<(), Error>)
        requires
            old(self).wf(),
        ensures
            final(self).wf(),
            r is Err <==> !old(self).available(value),
            r is Err ==> *final(self) == *old(self),
            r is Ok ==> final(self).color_at(index_of(value)) == color && final(self).bit(index_of(value))
                && final(self).is_alive_at(index_of(value)) == old(self).is_alive_at(index_of(value))
                && final(self).in_nursery(index_of(value)) == old(self).in_nursery(index_of(value))
                && final(self).spec_occupied() == old(self).spec_occupied()
                && final(self).spec_next_empty() == old(self).spec_next_empty()
                && final(self).only_slot_changed(old(self), index_of(value)),
    {
        let slot = self.available_slot_of(value)?;
        self.colors.set(slot, color);
        Ok(())
    }

    /// Colors slot `value` white relative to the base color `base`.
    pub fn mark_as_white(&mut self, value: Value, base: u8) -> (r: Result<(), Error>)
        requires
            old(self).wf(),
        ensures
            final(self).wf(),
            r is Err <==> !old(self).available(value),
            r is Err ==> *final(self) == *old(self),
            r is Ok ==> final(self).color_at(index_of(value)) == (BASE_WHITE ^ base) & 0b11
                && final(self).only_slot_changed(old(self), index_of(value))
                && final(self).spec_occupied() == old(self).spec_occupied(),
    {
        self.set_color(value, (BASE_WHITE ^ base) & 0b11)
    }

    /// Colors slot `value` black relative to the base color `base`.
    pub fn mark_as_black(&mut self, value: Value, base: u8) -> (r: Result<(), Error>)
        requires
            old(self).wf(),
        ensures
            final(self).wf(),
            r is Err <==> !old(self).available(value),
            r is Err ==> *final(self) == *old(self),
            r is Ok ==> final(self).color_at(index_of(value)) == (BASE_BLACK ^ base) & 0b11
                && final(self).only_slot_changed(old(self), index_of(value))
                && final(self).spec_occupied() == old(self).spec_occupied(),
    {
        self.set_color(value, (BASE_BLACK ^ base) & 0b11)
    }

    /// Colors slot `value` gray if it is white; returns whether it did.
    pub fn mark_as_gray(&mut self, value: Value, base: u8) -> (r: Result<bool, Error>)
        requires
            old(self).wf(),
        ensures
            final(self).wf(),
            r is Err <==> !old(self).available(value),
            r matches Ok(b) ==> b == ((old(self).color_at(index_of(value)) ^ base) & 0b11
                == BASE_WHITE),
            r matches Ok(true) ==> final(self).color_at(index_of(value)) == BASE_GRAY
                && final(self).only_slot_changed(old(self), index_of(value))
                && final(self).spec_occupied() == old(self).spec_occupied(),
            !(r matches Ok(true)) ==> *final(self) == *old(self),
    {
        let slot = self.available_slot_of(value)?;
        if (self.colors[slot] ^ base) & 0b11 == BASE_WHITE {
            self.colors.set(slot, BASE_GRAY);
            Ok(true)
        } else {
            Ok(false)
        }
    }

    /// Whether slot `value` is white relative to `base`.
    pub fn is_white(&self, value: Value, base: u8) -> (r: Result<bool, Error>)
        requires
            self.wf(),
        ensures
            r is Err <==> !self.available(value),
            r matches Ok(b) ==> b == ((self.color_at(index_of(value)) ^ base) & 0b11 == BASE_WHITE),
    {
        let slot = self.available_slot_of(value)?;
        Ok((self.colors[slot] ^ base) & 0b11 == BASE_WHITE)
    }

    /// Whether slot `value` is black relative to `base`.
    pub fn is_black(&self, value: Value, base: u8) -> (r: Result<bool, Error>)
        requires
            self.wf(),
        ensures
            r is Err <==> !self.available(value),
            r matches Ok(b) ==> b == ((self.color_at(index_of(value)) ^ base) & 0b11 == BASE_BLACK),
    {
        let slot = self.available_slot_of(value)?;
        Ok((self.colors[slot] ^ base) & 0b11 == BASE_BLACK)
    }

    /// Whether slot `value` is gray.
    pub fn is_gray(&self, value: Value, base: u8) -> (r: Result<bool, Error>)
        requires
            self.wf(),
        ensures
            r is Err <==> !self.available(value),
            r matches Ok(b) ==> b == (self.color_at(index_of(value)) == BASE_GRAY),
    {
        let slot = self.available_slot_of(value)?;
        Ok(self.colors[slot] == BASE_GRAY)
    }

    /// The slot `value` names is in use, live or forwarding.
    pub open spec fn referencable(&self, v: Value) -> bool {
        self.addresses(v) && !self.empty(index_of(v))
    }

    /// `value` is the key of the forwarding record of its slot.
    pub open spec fn forwards(&self, v: Value) -> bool {
        self.redirection_at(index_of(v)) matches Some((from, _)) && from == v
    }

    fn referencable_slot_of(&self, value: Value) -> (r: Result<usize, Error>)
        requires
            self.wf(),
        ensures
            r is Ok <==> self.referencable(value),
            r matches Ok(i) ==> i == index_of(value),
            r matches Err(e) ==> e.error_type == if self.addresses(value) {
                ErrorType::FatalError
            } else {
                self.address_error(value)
            },
    {
        let slot = self.slot_of(value)?;
        if self.empties[slot] {
            return Err(Error::new(ErrorType::FatalError, "Incorrect slot state"));
        }
        Ok(slot)
    }

    fn forwards_at(&self, slot: usize, value: Value) -> (r: bool)
        requires
            self.wf(),
            slot == index_of(value),
            slot < REGION_SLOT_SIZE,
        ensures
            r == self.forwards(value),
    {
        match &self.redirections[slot] {
            Some(redirection) => redirection.from == value,
            None => false,
        }
    }

    /// Records a reference from `from` to slot `reference`: on its forwarding record
    /// when `reference` is forwarded, otherwise on the slot, which then leaves the
    /// nursery. `FatalError` when the slot is free.
    pub fn add_reference(&mut self, reference: Value, from: Value) -> (r: Result<(), Error>)
        requires
            old(self).wf(),
            old(self).outer_total(index_of(reference)) < u32::MAX,
            old(self).redirection_total(index_of(reference)) < u32::MAX,
        ensures
            final(self).wf(),
            r is Err <==> !old(self).referencable(reference) || (!old(self).forwards(reference)
                && !old(self).is_alive_at(index_of(reference))),
            r is Err ==> *final(self) == *old(self),
            r is Ok ==> {
                let i = index_of(reference);
                &&& old(self).forwards(reference) ==> final(self).redirection_total(i) == old(
                    self).redirection_total(i) + 1 && final(self).redirection_at(i) == old(
                    self).redirection_at(i) && final(self).outer_total(i) == old(self).outer_total(i)
                    && final(self).in_nursery(i) == old(self).in_nursery(i)
                &&& !old(self).forwards(reference) ==> final(self).outer_total(i) == old(
                    self).outer_total(i) + 1 && final(self).outer_count(i, from) == old(
                    self).outer_count(i, from) + 1 && !final(self).in_nursery(i)
                    && final(self).redirection_at(i) == old(self).redirection_at(i)
                &&& final(self).bit(i) == old(self).bit(i)
                &&& final(self).empty(i) == old(self).empty(i)
                &&& final(self).is_alive_at(i) == old(self).is_alive_at(i)
                &&& final(self).spec_occupied() == old(self).spec_occupied()
                &&& final(self).spec_next_empty() == old(self).spec_next_empty()
                &&& final(self).only_slot_changed(old(self), i)
            },
    {
        let slot = self.referencable_slot_of(reference)?;
        if self.forwards_at(slot, reference) {
            let mut taken: Option<Redirection> = None;
            std::mem::swap(&mut taken, &mut self.redirections[slot]);
            let mut redirection = taken.unwrap();
            let result = redirection.references.add_reference(from);
            self.redirections.set(slot, Some(redirection));
            return result;
        }
        if !self.alive[slot] {
            return Err(Error::new(ErrorType::FatalError, "Slot not alive"));
        }
        let result = self.outer_references[slot].add_reference(from);
        self.nursery.set(slot, false);
        result
    }

    /// Removes a reference from `from` to slot `reference`. On a forwarded value the
    /// forwarding record loses it, and once none is left the record goes and the
    /// slot becomes free: the result is then `(true, target)`; otherwise
    /// `(false, target)`. On a direct value the slot loses it and the result is
    /// `(false, undefined)`. `FatalError` when the slot is free or no such
    /// reference is recorded.
    pub fn remove_reference(&mut self, reference: Value, from: Value) -> (r: Result<(bool, Value), Error>)
        requires
            old(self).wf(),
        ensures
            final(self).wf(),
            r is Err ==> *final(self) == *old(self),
            !old(self).referencable(reference) ==> r is Err,
            old(self).referencable(reference) && !old(self).forwards(reference) ==> {
                let i = index_of(reference);
                &&& (r is Err <==> !old(self).is_alive_at(i) || old(self).outer_count(i, from) == 0)
                &&& r matches Ok((freed, target)) ==> !freed && target == Value::spec_undefined()
                    && final(self).outer_count(i, from) == old(self).outer_count(i, from) - 1
                    && final(self).outer_total(i) == old(self).outer_total(i) - 1
                    && final(self).redirection_at(i) == old(self).redirection_at(i)
                    && final(self).empty(i) == old(self).empty(i)
                    && final(self).bit(i) == old(self).bit(i)
                    && final(self).is_alive_at(i) == old(self).is_alive_at(i)
                    && final(self).spec_occupied() == old(self).spec_occupied()
                    && final(self).only_slot_changed(old(self), i)
            },
            old(self).referencable(reference) && old(self).forwards(reference) ==> {
                let i = index_of(reference);
                &&& (r is Err <==> old(self).redirection_count(i, from) == 0)
                &&& r matches Ok((freed, target)) ==> {
                    &&& old(self).redirection_at(i) == Some((reference, target))
                    &&& freed == (old(self).redirection_total(i) == 1)
                    &&& freed ==> final(self).redirection_at(i) is None && final(self).empty(i)
                        && !final(self).bit(i) && final(self).spec_occupied() == old(
                        self).spec_occupied() - 1
                    &&& !freed ==> final(self).redirection_at(i) == old(self).redirection_at(i)
                        && final(self).redirection_total(i) == old(self).redirection_total(i) - 1
                        && final(self).spec_occupied() == old(self).spec_occupied()
                    &&& final(self).only_slot_changed(old(self), i)
                }
            },
    {
        let slot = self.referencable_slot_of(reference)?;
        if self.forwards_at(slot, reference) {
            let known = match &self.redirections[slot] {
                Some(redirection) => redirection.references.has_reference(from),
                None => false,
            };
            if !known {
                return Err(Error::new(ErrorType::FatalError, "No references recorded"));
            }
            let mut taken: Option<Redirection> = None;
            std::mem::swap(&mut taken, &mut self.redirections[slot]);
            let mut redirection = taken.unwrap();
            let target = redirection.target;
            let _ = redirection.references.remove_reference(from);
            if redirection.references.is_empty() {
                proof {
                    lemma_count_false_update(self.empties@, slot as int, true);
                }
                self.redirections.set(slot, None);
                self.empties.set(slot, true);
                self.bitmap.set(slot, false);
                self.alive.set(slot, false);
                self.nursery.set(slot, false);
                self.occupied = self.occupied - 1;
                return Ok((true, target));
            }
            self.redirections.set(slot, Some(redirection));
            return Ok((false, target));
        }
        if !self.alive[slot] {
            return Err(Error::new(ErrorType::FatalError, "Slot not alive"));
        }
        if !self.outer_references[slot].has_reference(from) {
            return Err(Error::new(ErrorType::FatalError, "No reference available"));
        }
        let _ = self.outer_references[slot].remove_reference(from);
        Ok((false, Value::make_undefined()))
    }

    /// Takes the contents of the live slot `value` out for a move: returns them,
    /// whether the slot was in the nursery, and its references from other slots,
    /// if any. The slot stays occupied and is no longer alive. `FatalError` when
    /// the slot is not in use or not alive.
    pub fn freeze_slot(&mut self, value: Value) -> (r: Result<(SlotRecordSnapshot, bool, Option<ReferenceMap>), Error>)
        requires
            old(self).wf(),
        ensures
            final(self).wf(),
            r is Err <==> !old(self).available(value) || !old(self).is_alive_at(index_of(value)),
            r is Err ==> *final(self) == *old(self),
            r matches Ok((snapshot, in_nursery, _)) ==> froze(*old(self), *final(self), value, snapshot, in_nursery),
            r matches Ok((snapshot, _, _)) ==> is_slotted_type(snapshot.primitive_type),
            r matches Ok((snapshot, in_nursery, references)) ==> {
                let i = index_of(value);
                &&& snapshot.primitive_type == old(self).type_at(i)
                &&& snapshot.sealed == old(self).is_sealed_at(i)
                &&& in_nursery == old(self).in_nursery(i)
                &&& (references is Some <==> old(self).outer_total(i) > 0)
                &&& references matches Some(m) ==> m.wf() && m.spec_total() == old(self).outer_total(i)
                    && forall|v: Value| m.spec_count(v) == old(self).outer_count(i, v)
                &&& !final(self).is_alive_at(i)
                &&& final(self).bit(i) && !final(self).empty(i)
                &&& final(self).in_nursery(i) == old(self).in_nursery(i)
                &&& final(self).outer_total(i) == 0
                &&& final(self).redirection_at(i) == old(self).redirection_at(i)
                &&& final(self).froms_at(i) == old(self).froms_at(i)
                &&& final(self).spec_occupied() == old(self).spec_occupied()
                &&& final(self).spec_next_empty() == old(self).spec_next_empty()
                &&& final(self).only_slot_changed(old(self), i)
            },
    {
        let slot = self.available_slot_of(value)?;
        if !self.alive[slot] {
            return Err(Error::new(ErrorType::FatalError, "Slot is not alive"));
        }
        let snapshot = SlotRecordSnapshot {
            primitive_type: self.types[slot],
            sealed: self.sealed[slot],
            color: self.colors[slot],
            prototype: self.prototypes[slot],
        };
        let in_nursery = self.nursery[slot];
        let mut references = ReferenceMap::new();
        std::mem::swap(&mut references, &mut self.outer_references[slot]);
        let references = if references.is_empty() {
            None
        } else {
            Some(references)
        };
        self.alive.set(slot, false);
        self.sealed.set(slot, false);
        self.colors.set(slot, 0);
        Ok((snapshot, in_nursery, references))
    }

    /// Installs moved contents in the lowest free slot and returns the value that
    /// now names them. With `in_nursery` the new slot enters the nursery; with a
    /// reference map, `from` is recorded as forwarding to it. `OutOfSpace` when no
    /// slot is free; `FatalError` for contents of a type that does not live in slots.
    pub fn restore_slot(&mut self, from: Value, snapshot: SlotRecordSnapshot, in_nursery: bool, reference_map: &Option<ReferenceMap>) -> (r: Result<Value, Error>)
        requires
            old(self).wf(),
        ensures
            final(self).wf(),
            r is Err ==> *final(self) == *old(self),
            !is_slotted_type(snapshot.primitive_type) ==> (r matches Err(e) && e.error_type
                == ErrorType::FatalError),
            is_slotted_type(snapshot.primitive_type) ==> (r is Err <==> old(self).spec_occupied()
                == REGION_SLOT_SIZE),
            r matches Ok(v) ==> restored(*old(self), *final(self), snapshot, in_nursery, v),
            r matches Ok(v) ==> final(self).redirection_at(index_of(v)) is None,
            r matches Ok(v) ==> {
                let i = index_of(v);
                &&& final(self).addresses(v)
                &&& v.spec_type() == snapshot.primitive_type
                &&& old(self).empty(i)
                &&& forall|j: int| 0 <= j < i ==> !old(self).empty(j)
                &&& final(self).bit(i) && !final(self).empty(i) && final(self).is_alive_at(i)
                &&& final(self).type_at(i) == snapshot.primitive_type
                &&& final(self).is_sealed_at(i) == snapshot.sealed
                &&& final(self).in_nursery(i) == in_nursery
                &&& final(self).outer_total(i) == 0
                &&& final(self).froms_at(i).contains(from) == (reference_map is Some || old(self).froms_at(i).contains(from))
                &&& forall|w: Value| w != from ==> (final(self).froms_at(i).contains(w) == old(self).froms_at(i).contains(w))
                &&& final(self).spec_occupied() == old(self).spec_occupied() + 1
                &&& final(self).spec_next_empty() == if i >= old(self).spec_next_empty() {
                    i + 1
                } else {
                    old(self).spec_next_empty() as int
                }
                &&& final(self).only_slot_changed(old(self), i)
            },
    {
        let t = snapshot.primitive_type;
        if !(t == PrimitiveType::Text || t == PrimitiveType::List || t == PrimitiveType::Tuple || t
            == PrimitiveType::Object) {
            return Err(Error::new(ErrorType::FatalError, "Slot is not supported for this type"));
        }
        if self.occupied as usize == REGION_SLOT_SIZE {
            return Err(Error::new(ErrorType::OutOfSpace, "Out of slots"));
        }
        let mut slot: usize = 0;
        while slot < REGION_SLOT_SIZE && !self.empties[slot]
            invariant
                self.wf(),
                slot <= REGION_SLOT_SIZE,
                forall|j: int| 0 <= j < slot ==> !self.empties@[j],
            decreases REGION_SLOT_SIZE - slot,
        {
            slot = slot + 1;
        }
        if slot >= REGION_SLOT_SIZE {
            proof {
                lemma_count_false_all_false(self.empties@);
            }
            return Err(Error::new(ErrorType::OutOfSpace, "No empty slot is available"));
        }
        if slot >= self.next_empty_slot_index as usize {
            self.next_empty_slot_index = (slot + 1) as u16;
        }
        proof {
            lemma_count_false_update(self.empties@, slot as int, false);
            lemma_count_false_bound(self.empties@.update(slot as int, false));
        }
        self.bitmap.set(slot, true);
        self.empties.set(slot, false);
        self.occupied = self.occupied + 1;
        self.alive.set(slot, true);
        self.types.set(slot, t);
        self.sealed.set(slot, snapshot.sealed);
        self.colors.set(slot, snapshot.color);
        self.prototypes.set(slot, snapshot.prototype);
        self.outer_references.set(slot, ReferenceMap::new());
        self.nursery.set(slot, in_nursery);
        let id = make_slot_value(t, self.id, slot as u32);
        let ghost mid = *self;
        let ghost froms_before = self.redirection_froms@[slot as int]@;
        assert(self.only_slot_changed(old(self), slot as int));
        if reference_map.is_some() {
            let mut contains = false;
            let mut k: usize = 0;
            while k < self.redirection_froms[slot].len()
                invariant
                    slot < REGION_SLOT_SIZE,
                    self.redirection_froms@.len() == REGION_SLOT_SIZE,
                    k <= self.redirection_froms@[slot as int]@.len(),
                    contains == exists|m: int| 0 <= m < k && self.redirection_froms@[slot as int]@[m] == from,
                decreases self.redirection_froms@[slot as int]@.len() - k,
            {
                if self.redirection_froms[slot][k] == from {
                    contains = true;
                }
                k = k + 1;
            }
            if !contains {
                self.redirection_froms[slot].push(from);
                assert(self.redirection_froms@[slot as int]@ == froms_before.push(from));
                assert(self.redirection_froms@[slot as int]@[froms_before.len() as int] == from);
                assert forall|w: Value| w != from implies (self.froms_at(slot as int).contains(w)
                    == froms_before.contains(w)) by {
                    if froms_before.contains(w) {
                        let m = choose|m: int| 0 <= m < froms_before.len() && froms_before[m] == w;
                        assert(self.redirection_froms@[slot as int]@[m] == w);
                    }
                }
            } else {
                assert(froms_before.contains(from));
            }
            assert forall|j: int| 0 <= j < REGION_SLOT_SIZE && j != slot implies #[trigger] self.same_slot(old(self), j) by {
                assert(mid.same_slot(old(self), j));
                assert(self.redirection_froms@[j] == mid.redirection_froms@[j]);
            }
        }
        Ok(id)
    }

    /// Forgets that `from` forwards to slot `to`. Returns whether no value forwards
    /// to it any more. `FatalError` when none did.
    pub fn remove_redirection_from(&mut self, from: Value, to: Value) -> (r: Result<bool, Error>)
        requires
            old(self).wf(),
        ensures
            final(self).wf(),
            r is Err <==> !old(self).addresses(to) || old(self).froms_at(index_of(to)).len() == 0,
            r matches Err(e) ==> e.error_type == ErrorType::FatalError && *final(self) == *old(self),
            r matches Ok(b) ==> {
                let i = index_of(to);
                &&& !final(self).froms_at(i).contains(from)
                &&& forall|w: Value| w != from ==> (final(self).froms_at(i).contains(w) == old(self).froms_at(i).contains(w))
                &&& b == (final(self).froms_at(i).len() == 0)
                &&& final(self).bit(i) == old(self).bit(i)
                &&& final(self).redirection_at(i) == old(self).redirection_at(i)
                &&& final(self).empty(i) == old(self).empty(i)
                &&& final(self).is_alive_at(i) == old(self).is_alive_at(i)
                &&& final(self).spec_occupied() == old(self).spec_occupied()
                &&& final(self).spec_next_empty() == old(self).spec_next_empty()
                &&& final(self).only_slot_changed(old(self), i)
            },
    {
        let slot = match self.slot_of(to) {
            Ok(slot) => slot,
            Err(_) => {
                return Err(Error::new(ErrorType::FatalError, "No redirection from found"));
            },
        };
        if self.redirection_froms[slot].len() == 0 {
            return Err(Error::new(ErrorType::FatalError, "No redirection from found"));
        }
        let mut kept: Vec<Value> = Vec::new();
        let mut k: usize = 0;
        while k < self.redirection_froms[slot].len()
            invariant
                slot < REGION_SLOT_SIZE,
                self.redirection_froms@.len() == REGION_SLOT_SIZE,
                k <= self.redirection_froms@[slot as int]@.len(),
                forall|w: Value| #[trigger] kept@.contains(w) <==> (w != from && exists|m: int|
                    0 <= m < k && self.redirection_froms@[slot as int]@[m] == w),
            decreases self.redirection_froms@[slot as int]@.len() - k,
        {
            let w = self.redirection_froms[slot][k];
            let ghost before = kept@;
            if w != from {
                kept.push(w);
            }
            proof {
                assert forall|x: Value| #[trigger] kept@.contains(x) <==> (x != from && exists|m: int|
                    0 <= m < k + 1 && self.redirection_froms@[slot as int]@[m] == x) by {
                    if kept@.contains(x) && !before.contains(x) {
                        assert(x == w);
                        assert(self.redirection_froms@[slot as int]@[k as int] == x);
                    }
                    if x != from && (exists|m: int| 0 <= m < k + 1 && self.redirection_froms@[slot as int]@[m] == x) {
                        let m = choose|m: int| 0 <= m < k + 1 && self.redirection_froms@[slot as int]@[m] == x;
                        if m < k {
                            assert(before.contains(x));
                            let n = choose|n: int| 0 <= n < before.len() && before[n] == x;
                            assert(kept@[n] == x);
                        } else {
                            assert(kept@[kept@.len() - 1] == x);
                        }
                    }
                }
            }
            k = k + 1;
        }
        let empty = kept.len() == 0;
        self.redirection_froms.set(slot, kept);
        Ok(empty)
    }

    /// Moves the bump pointer down to just above the highest slot in use.
    pub fn recalculate_next_empty_slot_index(&mut self) -> (r: Result<(), Error>)
        requires
            old(self).wf(),
        ensures
            final(self).wf(),
            r is Ok,
            old(self).spec_occupied() == REGION_SLOT_SIZE ==> *final(self) == *old(self),
            final(self).spec_id() == old(self).spec_id(),
            old(self).spec_occupied() < REGION_SLOT_SIZE ==> {
                &&& final(self).spec_next_empty() <= old(self).spec_next_empty()
                &&& forall|j: int|
                    final(self).spec_next_empty() <= j < REGION_SLOT_SIZE ==> final(self).empty(j)
                &&& final(self).spec_next_empty() == 0 || !final(self).empty(
                    final(self).spec_next_empty() - 1,
                )
                &&& final(self).spec_occupied() == old(self).spec_occupied()
                &&& forall|j: int| 0 <= j < REGION_SLOT_SIZE ==> #[trigger] final(self).same_slot(old(self), j)
            },
    {
        if self.occupied as usize == REGION_SLOT_SIZE {
            return Ok(());
        }
        let mut slot: usize = self.next_empty_slot_index as usize;
        while slot > 0 && self.empties[slot - 1]
            invariant
                self.wf(),
                slot <= self.next_empty_slot_index,
                forall|j: int| slot <= j < REGION_SLOT_SIZE ==> !self.bitmap@[j] && self.empties@[j],
            decreases slot,
        {
            slot = slot - 1;
        }
        self.next_empty_slot_index = slot as u16;
        assert(forall|j: int| 0 <= j < REGION_SLOT_SIZE ==> #[trigger] self.same_slot(old(self), j));
        Ok(())
    }

    /// Slot `j` holds a live value that is white relative to `base`.
    pub open spec fn sweepable(&self, j: int, base: u8) -> bool {
        self.bit(j) && self.is_alive_at(j) && (self.color_at(j) ^ base) & 0b11 == BASE_WHITE
    }

    /// What sweeping did to slot `j`, which was sweepable in `old`: referenced from
    /// other slots, it became a forwarding stub to undefined; otherwise it is free.
    pub closed spec fn swept(&self, old: &Region, j: int) -> bool {
        &&& !self.alive@[j]
        &&& !self.bitmap@[j]
        &&& !self.nursery@[j]
        &&& self.types@[j] == old.types@[j]
        &&& self.redirection_froms@[j] == old.redirection_froms@[j]
        &&& if old.outer_references@[j].spec_total() > 0 {
            &&& !self.empties@[j]
            &&& self.redirections@[j] matches Some(red) && red.target == Value::spec_undefined()
                && red.from.bits() == slot_bits(prefix_of(old.types@[j]), old.id, j as u32)
                && red.references == old.outer_references@[j]
        } else {
            &&& self.empties@[j]
            &&& self.redirections@[j] == old.redirections@[j]
        }
    }

    /// Reclaims every live slot that is still white relative to `base`: a slot that
    /// other slots still reference becomes a forwarding stub, the others are freed.
    /// Returns the values of the freed slots, in slot order.
    pub fn sweep_values(&mut self, base: u8) -> (r: Vec<Value>)
        requires
            old(self).wf(),
        ensures
            final(self).wf(),
            final(self).spec_id() == old(self).spec_id(),
            final(self).spec_next_empty() == old(self).spec_next_empty(),
            forall|j: int|
                0 <= j < REGION_SLOT_SIZE ==> if old(self).sweepable(j, base) {
                    final(self).swept(old(self), j)
                } else {
                    final(self).same_slot(old(self), j)
                },
            forall|k: int|
                0 <= k < r@.len() ==> old(self).addresses(r@[k]) && old(self).sweepable(
                    index_of(r@[k]),
                    base,
                ) && old(self).outer_total(index_of(r@[k])) == 0 && r@[k].spec_type() == old(
                    self,
                ).type_at(index_of(r@[k])),
            forall|a: int, b: int| 0 <= a < b < r@.len() ==> index_of(r@[a]) < index_of(r@[b]),
            final(self).spec_occupied() == old(self).spec_occupied() - r@.len(),
    {
        let mut dropped: Vec<Value> = Vec::new();
        let mut i: usize = 0;
        while i < REGION_SLOT_SIZE
            invariant
                self.wf(),
                i <= REGION_SLOT_SIZE,
                self.id == old(self).id,
                self.next_empty_slot_index == old(self).next_empty_slot_index,
                old(self).wf(),
                forall|j: int|
                    0 <= j < i ==> if old(self).sweepable(j, base) {
                        self.swept(old(self), j)
                    } else {
                        self.same_slot(old(self), j)
                    },
                forall|j: int| i <= j < REGION_SLOT_SIZE ==> self.same_slot(old(self), j),
                forall|k: int|
                    0 <= k < dropped@.len() ==> old(self).addresses(dropped@[k]) && old(self).sweepable(
                        index_of(dropped@[k]),
                        base,
                    ) && old(self).outer_total(index_of(dropped@[k])) == 0 && dropped@[k].spec_type()
                        == old(self).type_at(index_of(dropped@[k])) && index_of(dropped@[k]) < i,
                forall|a: int, b: int|
                    0 <= a < b < dropped@.len() ==> index_of(dropped@[a]) < index_of(dropped@[b]),
                self.occupied == old(self).occupied - dropped@.len(),
            decreases REGION_SLOT_SIZE - i,
        {
            assert(self.same_slot(old(self), i as int));
            if self.bitmap[i] && self.alive[i] && (self.colors[i] ^ base) & 0b11 == BASE_WHITE {
                let id = make_slot_value(self.types[i], self.id, i as u32);
                let ghost before = *self;
                if !self.outer_references[i].is_empty() {
                    let mut references = ReferenceMap::new();
                    std::mem::swap(&mut references, &mut self.outer_references[i]);
                    self.redirections.set(
                        i,
                        Some(Redirection { from: id, target: Value::make_undefined(), references }),
                    );
                } else {
                    proof {
                        lemma_count_false_update(self.empties@, i as int, true);
                    }
                    self.empties.set(i, true);
                    self.occupied = self.occupied - 1;
                    dropped.push(id);
                }
                self.alive.set(i, false);
                self.bitmap.set(i, false);
                self.nursery.set(i, false);
                assert(forall|j: int| 0 <= j < REGION_SLOT_SIZE && j != i ==> #[trigger] self.same_slot(&before, j));
                assert forall|j: int| i < j < REGION_SLOT_SIZE implies self.same_slot(old(self), j) by {
                    assert(self.same_slot(&before, j));
                    assert(before.same_slot(old(self), j));
                }
            }
            i = i + 1;
        }
        dropped
    }

    /// The values of the live slots, in slot order.
    pub fn list_alive_values(&self) -> (r: Vec<Value>)
        requires
            self.wf(),
        ensures
            forall|k: int|
                0 <= k < r@.len() ==> self.addresses(r@[k]) && self.bit(index_of(r@[k]))
                    && self.is_alive_at(index_of(r@[k])) && r@[k].spec_type() == self.type_at(
                    index_of(r@[k]),
                ),
            forall|j: int|
                0 <= j < REGION_SLOT_SIZE && self.bit(j) && self.is_alive_at(j) ==> exists|k: int|
                    0 <= k < r@.len() && index_of(r@[k]) == j,
            forall|a: int, b: int| 0 <= a < b < r@.len() ==> index_of(r@[a]) < index_of(r@[b]),
    {
        let mut values: Vec<Value> = Vec::new();
        let mut i: usize = 0;
        while i < REGION_SLOT_SIZE
            invariant
                self.wf(),
                i <= REGION_SLOT_SIZE,
                forall|k: int|
                    0 <= k < values@.len() ==> self.addresses(values@[k]) && self.bit(
                        index_of(values@[k]),
                    ) && self.is_alive_at(index_of(values@[k])) && values@[k].spec_type()
                        == self.type_at(index_of(values@[k])) && index_of(values@[k]) < i,
                forall|j: int|
                    0 <= j < i && self.bit(j) && self.is_alive_at(j) ==> exists|k: int|
                        0 <= k < values@.len() && index_of(values@[k]) == j,
                forall|a: int, b: int|
                    0 <= a < b < values@.len() ==> index_of(values@[a]) < index_of(values@[b]),
            decreases REGION_SLOT_SIZE - i,
        {
            let ghost before = values@;
            if self.bitmap[i] && self.alive[i] {
                let id = make_slot_value(self.types[i], self.id, i as u32);
                values.push(id);
            }
            proof {
                assert forall|j: int| 0 <= j < i + 1 && self.bit(j) && self.is_alive_at(j) implies exists|k: int|
                    0 <= k < values@.len() && index_of(values@[k]) == j by {
                    if j < i {
                        let k = choose|k: int| 0 <= k < before.len() && index_of(before[k]) == j;
                        assert(values@[k] == before[k]);
                    } else {
                        assert(index_of(values@[values@.len() - 1]) == j);
                    }
                }
            }
            i = i + 1;
        }
        values
    }

    /// The values of the slots in the nursery, in slot order.
    pub fn list_values_in_nursery(&self) -> (r: Vec<Value>)
        requires
            self.wf(),
        ensures
            forall|k: int|
                0 <= k < r@.len() ==> self.addresses(r@[k]) && self.in_nursery(index_of(r@[k]))
                    && r@[k].spec_type() == self.type_at(index_of(r@[k])),
            forall|j: int|
                0 <= j < REGION_SLOT_SIZE && self.in_nursery(j) ==> exists|k: int|
                    0 <= k < r@.len() && index_of(r@[k]) == j,
            forall|a: int, b: int| 0 <= a < b < r@.len() ==> index_of(r@[a]) < index_of(r@[b]),
    {
        let mut values: Vec<Value> = Vec::new();
        let mut i: usize = 0;
        while i < REGION_SLOT_SIZE
            invariant
                self.wf(),
                i <= REGION_SLOT_SIZE,
                forall|k: int|
                    0 <= k < values@.len() ==> self.addresses(values@[k]) && self.in_nursery(
                        index_of(values@[k]),
                    ) && values@[k].spec_type() == self.type_at(index_of(values@[k]))
                        && index_of(values@[k]) < i,
                forall|j: int|
                    0 <= j < i && self.in_nursery(j) ==> exists|k: int|
                        0 <= k < values@.len() && index_of(values@[k]) == j,
                forall|a: int, b: int|
                    0 <= a < b < values@.len() ==> index_of(values@[a]) < index_of(values@[b]),
            decreases REGION_SLOT_SIZE - i,
        {
            let ghost before = values@;
            if self.nursery[i] {
                let id = make_slot_value(self.types[i], self.id, i as u32);
                values.push(id);
            }
            proof {
                assert forall|j: int| 0 <= j < i + 1 && self.in_nursery(j) implies exists|k: int|
                    0 <= k < values@.len() && index_of(values@[k]) == j by {
                    if j < i {
                        let k = choose|k: int| 0 <= k < before.len() && index_of(before[k]) == j;
                        assert(values@[k] == before[k]);
                    } else {
                        assert(index_of(values@[values@.len() - 1]) == j);
                    }
                }
            }
            i = i + 1;
        }
        values
    }

    /// Whether other slots reference the slot that `value` names.
    pub fn has_outer_references(&self, value: Value) -> (r: Result<bool, Error>)
        requires
            self.wf(),
        ensures
            r is Err <==> !self.available(value),
            r matches Ok(b) ==> b == (self.outer_total(index_of(value)) > 0),
    {
        let slot = self.available_slot_of(value)?;
        Ok(!self.outer_references[slot].is_empty())
    }

    /// Whether some moved value still forwards to the slot that `value` names.
    pub fn is_forwarding_target(&self, value: Value) -> (r: Result<bool, Error>)
        requires
            self.wf(),
        ensures
            r is Err <==> !self.available(value),
            r matches Ok(b) ==> b == (self.froms_at(index_of(value)).len() > 0),
    {
        let slot = self.available_slot_of(value)?;
        Ok(self.redirection_froms[slot].len() > 0)
    }

    /// The prototype of the live value in slot `value`. `FatalError` when the slot
    /// is not in use or not alive.
    pub fn get_prototype(&self, value: Value) -> (r: Result<Value, Error>)
        requires
            self.wf(),
        ensures
            r is Ok <==> self.available(value) && self.is_alive_at(index_of(value)),
            r matches Ok(p) ==> p == self.prototype_at(index_of(value)),
            r matches Err(e) ==> e.error_type == ErrorType::FatalError || e.error_type == ErrorType::TypeNotMatch,
    {
        let slot = self.available_slot_of(value)?;
        if !self.alive[slot] {
            return Err(Error::new(ErrorType::FatalError, "Slot not alive"));
        }
        Ok(self.prototypes[slot])
    }

    /// Sets the prototype of the live value in slot `value`.
    /// `MutatingSealedPrototype` when the value is sealed; `FatalError` when the
    /// slot is not in use or not alive.
    pub fn set_prototype(&mut self, value: Value, prototype: Value) -> (r: Result<(), Error>)
        requires
            old(self).wf(),
        ensures
            final(self).wf(),
            r is Ok <==> old(self).available(value) && old(self).is_alive_at(index_of(value))
                && !old(self).is_sealed_at(index_of(value)),
            r matches Err(e) ==> *final(self) == *old(self) && (old(self).available(value)
                && old(self).is_alive_at(index_of(value)) ==> e.error_type == ErrorType::MutatingSealedPrototype),
            r is Ok ==> final(self).prototype_at(index_of(value)) == prototype
                && final(self).is_alive_at(index_of(value)) && final(self).bit(index_of(value))
                && final(self).is_sealed_at(index_of(value)) == old(self).is_sealed_at(index_of(value))
                && final(self).spec_occupied() == old(self).spec_occupied()
                && final(self).spec_next_empty() == old(self).spec_next_empty()
                && final(self).only_slot_changed(old(self), index_of(value)),
    {
        let slot = self.available_slot_of(value)?;
        if !self.alive[slot] {
            return Err(Error::new(ErrorType::FatalError, "Slot not alive"));
        }
        if self.sealed[slot] {
            return Err(Error::new(ErrorType::MutatingSealedPrototype, "Slot is sealed"));
        }
        self.prototypes.set(slot, prototype);
        Ok(())
    }
}

/// What two regions that agree on slot `j` agree on.
pub proof fn lemma_same_slot(a: &Region, b: &Region, j: int)
    requires
        a.same_slot(b, j),
    ensures
        a.bit(j) == b.bit(j),
        a.empty(j) == b.empty(j),
        a.in_nursery(j) == b.in_nursery(j),
        a.is_alive_at(j) == b.is_alive_at(j),
        a.is_sealed_at(j) == b.is_sealed_at(j),
        a.color_at(j) == b.color_at(j),
        a.type_at(j) == b.type_at(j),
        a.prototype_at(j) == b.prototype_at(j),
        a.outer_total(j) == b.outer_total(j),
        a.redirection_at(j) == b.redirection_at(j),
        a.froms_at(j) == b.froms_at(j),
{
}

/// What the invariant of a well-formed region says of one slot: a live slot is in
/// use, and a slot in use is occupied.
pub proof fn lemma_slot_in_use(region: &Region, j: int)
    requires
        region.wf(),
        0 <= j < REGION_SLOT_SIZE,
    ensures
        region.is_alive_at(j) ==> region.bit(j),
        region.bit(j) ==> !region.empty(j),
        region.spec_occupied() <= REGION_SLOT_SIZE,
{
    lemma_count_false_bound(region.empties@);
}

/// Freezing a live slot and restoring its contents in the same region keeps every
/// observable property of the value but its slot index: its region, type, seal,
/// colour, prototype, nursery membership and liveness; the references it had move with the
/// forwarding record, so the new slot starts with none.
pub proof fn law_freeze_restore(
    r0: Region,
    r1: Region,
    r2: Region,
    v: Value,
    snapshot: SlotRecordSnapshot,
    in_nursery: bool,
    w: Value,
)
    requires
        froze(r0, r1, v, snapshot, in_nursery),
        restored(r1, r2, snapshot, in_nursery, w),
    ensures
        r2.spec_id() == r0.spec_id(),
        r2.addresses(w),
        w.spec_type() == r0.type_at(index_of(v)),
        r2.type_at(index_of(w)) == r0.type_at(index_of(v)),
        r2.is_sealed_at(index_of(w)) == r0.is_sealed_at(index_of(v)),
        r2.color_at(index_of(w)) == r0.color_at(index_of(v)),
        r2.prototype_at(index_of(w)) == r0.prototype_at(index_of(v)),
        r2.in_nursery(index_of(w)) == r0.in_nursery(index_of(v)),
        r2.is_alive_at(index_of(w)) && r0.is_alive_at(index_of(v)),
        index_of(w) != index_of(v),
        r2.spec_occupied() == r0.spec_occupied() + 1,
{
}

/// Once a slot has been turned into a forwarding record for `v`, resolving `v` in
/// that region gives the record's target.
pub proof fn law_redirection_resolves(region: Region, v: Value, target: Value)
    requires
        region.addresses(v),
        region.redirection_at(index_of(v)) == Some((v, target)),
    ensures
        region.resolved(v) == Ok::<Value, ErrorType>(target),
{
}

/// Sweeping a region in which every occupied slot holds a live, white value that
/// no other slot references frees every slot: afterwards no slot is occupied.
pub proof fn law_sweep_unreachable_empties(r0: Region, r1: Region, base: u8)
    requires
        r0.wf(),
        r1.wf(),
        forall|j: int|
            0 <= j < REGION_SLOT_SIZE && !r0.empty(j) ==> r0.sweepable(j, base) && r0.outer_total(j)
                == 0,
        forall|j: int|
            0 <= j < REGION_SLOT_SIZE ==> if r0.sweepable(j, base) {
                r1.swept(&r0, j)
            } else {
                r1.same_slot(&r0, j)
            },
    ensures
        r1.spec_occupied() == 0,
{
    assert forall|k: int| 0 <= k < r1.empties@.len() implies r1.empties@[k] by {
        if r0.sweepable(k, base) {
            assert(!r0.empty(k));
            assert(r0.outer_total(k) == 0);
            assert(r1.swept(&r0, k));
        } else {
            if !r0.empty(k) {
                assert(r0.sweepable(k, base));
            }
            assert(r1.same_slot(&r0, k));
        }
    }
    lemma_count_false_all_true(r1.empties@);
}


} // verus!
