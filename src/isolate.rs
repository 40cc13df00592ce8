use vstd::prelude::*;

use crate::error::Error;
use crate::error::ErrorType;
use crate::primitive_type::PrimitiveType;
use crate::region::{index_of, lemma_same_slot, lemma_slot_in_use, region_of, Region, REGION_SLOT_SIZE};
use crate::reference_map::ReferenceMap;
use crate::root::{Roots, WeakIdGenerator};
use crate::value::{is_slotted_type, Value};
use crate::text::{string_from_chars, Text};

verus! {

/// The regions of an isolate, region `i` at index `i`, and the strong roots over
/// them: the part of an isolate that allocating, resolving and moving slots touch.
pub struct Isolate {
    regions: Vec<Region>,
    protected: Vec<bool>,
    roots: Vec<Roots>,
    prototypes: Vec<Value>,
    texts: Vec<(Value, Text)>,
    weak_roots: Vec<(u32, Option<Value>)>,
    weak_ids: WeakIdGenerator,
}

/// `entries` after the value `from` moved to `to`: weak roots of `from` follow.
pub open spec fn weak_refreshed(entries: Seq<(u32, Option<Value>)>, from: Value, to: Value) -> Seq<(u32, Option<Value>)> {
    entries.map_values(|e: (u32, Option<Value>)| if e.1 == Some(from) { (e.0, Some(to)) } else { e })
}

/// The text stored for slot value `v` in `entries`, the latest entry first.
pub open spec fn text_lookup(entries: Seq<(Value, Seq<char>)>, v: Value) -> Option<Seq<char>>
    decreases entries.len(),
{
    if entries.len() == 0 {
        None
    } else if entries.last().0 == v {
        Some(entries.last().1)
    } else {
        text_lookup(entries.drop_last(), v)
    }
}

/// `entries` with every key `from` replaced by `to`.
pub open spec fn rekeyed(entries: Seq<(Value, Seq<char>)>, from: Value, to: Value) -> Seq<(Value, Seq<char>)> {
    entries.map_values(|e: (Value, Seq<char>)| if e.0 == from { (to, e.1) } else { e })
}

/// The text of a value that does not live in a text slot; `float_text` stands
/// for the rendering of a double.
pub open spec fn plain_text_of(value: Value, float_text: Seq<char>) -> Seq<char> {
    match value.spec_type() {
        PrimitiveType::Undefined => "<undefined>"@,
        PrimitiveType::Null => "<null>"@,
        PrimitiveType::Boolean => if crate::value::boolean_of(value.bits()) {
            "<yes>"@
        } else {
            "<no>"@
        },
        PrimitiveType::Integer => signed_decimal(crate::value::integer_value(value.bits())),
        PrimitiveType::Float => float_text,
        PrimitiveType::Symbol => "<symbol>"@,
        PrimitiveType::List => "<list>"@,
        PrimitiveType::Tuple => "<tuple>"@,
        _ => "<object>"@,
    }
}

/// The decimal digit for `d`, which is below ten.
pub open spec fn digit_char(d: nat) -> char {
    ((d + 48) as u32) as char
}

/// The decimal notation of `n`, without leading zeros.
pub open spec fn decimal(n: nat) -> Seq<char>
    decreases n,
{
    if n < 10 {
        seq![digit_char(n)]
    } else {
        decimal(n / 10) + seq![digit_char(n % 10)]
    }
}

/// The decimal notation of the integer `n`, with a minus sign when negative.
pub open spec fn signed_decimal(n: int) -> Seq<char> {
    if n < 0 {
        seq!['-'] + decimal((-n) as nat)
    } else {
        decimal(n as nat)
    }
}

/// The decimal notation of `n`.
fn decimal_chars(n: u64) -> (r: Vec<char>)
    ensures
        r@ == decimal(n as nat),
{
    let mut result: Vec<char> = Vec::new();
    let mut m: u64 = n;
    loop
        invariant_except_break
            decimal(n as nat) == decimal(m as nat) + result@,
        ensures
            decimal(n as nat) == result@,
        decreases m,
    {
        let d = m % 10;
        let c = ((d + 48) as u8) as char;
        assert(c == digit_char(d as nat));
        let ghost before = result@;
        result.insert(0, c);
        assert(result@ =~= seq![c] + before);
        assert(decimal(n as nat) == decimal(m as nat) + before);
        if m < 10 {
            assert(decimal(m as nat) == seq![c]);
            break;
        }
        assert(decimal(m as nat) == decimal((m / 10) as nat) + seq![c]);
        assert(decimal((m / 10) as nat) + seq![c] + before =~= decimal((m / 10) as nat) + result@);
        m = m / 10;
    }
    result
}


/// How many builtin prototypes an isolate keeps: Object, Boolean, Integer, Float,
/// Symbol, Text, List and Tuple.
pub const BUILTIN_PROTOTYPES: usize = 8;

/// Where the builtin prototype of values of type `t` is kept.
pub open spec fn prototype_index(t: PrimitiveType) -> int {
    match t {
        PrimitiveType::Boolean => 1,
        PrimitiveType::Integer => 2,
        PrimitiveType::Float => 3,
        PrimitiveType::Symbol => 4,
        PrimitiveType::Text => 5,
        PrimitiveType::List => 6,
        PrimitiveType::Tuple => 7,
        _ => 0,
    }
}

impl Isolate {
    /// Region `i`.
    pub closed spec fn region(&self, i: int) -> Region {
        self.regions@[i]
    }

    pub closed spec fn region_count(&self) -> nat {
        self.regions@.len()
    }

    /// The root groups, one per rooted value.
    pub closed spec fn root_groups(&self) -> Seq<Roots> {
        self.roots@
    }

    pub closed spec fn wf(&self) -> bool {
        &&& self.regions@.len() <= u32::MAX
        &&& forall|i: int|
            0 <= i < self.regions@.len() ==> (#[trigger] self.regions@[i]).wf()
                && self.regions@[i].spec_id() == i
        &&& forall|i: int| 0 <= i < self.roots@.len() ==> (#[trigger] self.roots@[i]).wf()
        &&& self.protected@.len() == self.regions@.len()
        &&& self.prototypes@.len() == BUILTIN_PROTOTYPES
    }

    /// The texts stored for text slots, keyed by the slot value, oldest first.
    pub closed spec fn text_entries(&self) -> Seq<(Value, Seq<char>)> {
        self.texts@.map_values(|e: (Value, Text)| (e.0, e.1@))
    }

    /// The weak roots: each id with the value it watches, `None` once dropped.
    pub closed spec fn weak_entries(&self) -> Seq<(u32, Option<Value>)> {
        self.weak_roots@
    }

    /// The two isolates differ at most in which regions are protected.
    pub closed spec fn same_but_protection(&self, other: &Isolate) -> bool {
        &&& self.regions == other.regions
        &&& self.roots == other.roots
        &&& self.prototypes == other.prototypes
        &&& self.texts == other.texts
        &&& self.weak_roots == other.weak_roots
    }

    /// Region `i` is protected: it is never recycled.
    pub closed spec fn is_protected(&self, i: int) -> bool {
        self.protected@[i]
    }

    /// The builtin prototypes, in the order of `prototype_index`.
    pub closed spec fn builtin_prototypes(&self) -> Seq<Value> {
        self.prototypes@
    }

    /// The region that `v` names, if the isolate has it.
    pub open spec fn has_region_of(&self, v: Value) -> bool {
        is_slotted_type(v.spec_type()) && region_of(v) < self.region_count()
    }

    /// One step of resolution: the target of `v`'s forwarding record, if it has one.
    pub open spec fn next(&self, v: Value) -> Value {
        if self.has_region_of(v) {
            match self.region(region_of(v) as int).resolved(v) {
                Ok(w) => w,
                Err(_) => v,
            }
        } else {
            v
        }
    }

    /// `v` after `n` steps of resolution.
    pub open spec fn follow(&self, v: Value, n: nat) -> Value
        decreases n,
    {
        if n == 0 {
            v
        } else {
            self.follow(self.next(v), (n - 1) as nat)
        }
    }

    /// `v` resolves to itself: it is not in a region of the isolate, or it names a
    /// slot in use that does not forward.
    pub open spec fn settled(&self, v: Value) -> bool {
        !self.has_region_of(v) || self.region(region_of(v) as int).resolved(v) == Ok::<Value, ErrorType>(v)
    }

    /// A isolate of `region_count` empty regions.
    pub fn new(region_count: u32) -> (r: Isolate)
        ensures
            r.wf(),
            r.region_count() == region_count,
            r.root_groups().len() == 0,
            forall|i: int| 0 <= i < region_count ==> (#[trigger] r.region(i)).spec_occupied() == 0
                && r.region(i).spec_next_empty() == 0,
            forall|i: int| 0 <= i < region_count ==> !#[trigger] r.is_protected(i),
            forall|i: int| 0 <= i < BUILTIN_PROTOTYPES ==> #[trigger] r.builtin_prototypes()[i] == Value::spec_null(),
    {
        let mut regions: Vec<Region> = Vec::new();
        let mut protected: Vec<bool> = Vec::new();
        let mut i: u32 = 0;
        while i < region_count
            invariant
                i <= region_count,
                regions@.len() == i,
                protected@.len() == i,
                forall|k: int| 0 <= k < i ==> !protected@[k],
                forall|k: int| 0 <= k < i ==> (#[trigger] regions@[k]).wf() && regions@[k].spec_id() == k
                    && regions@[k].spec_occupied() == 0 && regions@[k].spec_next_empty() == 0,
            decreases region_count - i,
        {
            regions.push(Region::new(i));
            protected.push(false);
            i = i + 1;
        }
        let mut prototypes: Vec<Value> = Vec::new();
        let mut k: usize = 0;
        while k < BUILTIN_PROTOTYPES
            invariant
                k <= BUILTIN_PROTOTYPES,
                prototypes@.len() == k,
                forall|m: int| 0 <= m < k ==> prototypes@[m] == Value::spec_null(),
            decreases BUILTIN_PROTOTYPES - k,
        {
            prototypes.push(Value::make_null());
            k = k + 1;
        }
        Isolate { regions, protected, roots: Vec::new(), prototypes, texts: Vec::new(), weak_roots: Vec::new(), weak_ids: WeakIdGenerator::new() }
    }

    /// How many regions the isolate has; region ids run below it.
    pub fn get_region_count(&self) -> (r: usize)
        ensures
            r == self.region_count(),
    {
        self.regions.len()
    }

    /// Allocates a slot of type `primitive_type` in region `region_id`; see
    /// `Region::gain_slot`. `FatalError` when the isolate has no such region.
    pub fn gain_slot(&mut self, region_id: u32, primitive_type: PrimitiveType) -> (r: Result<Value, Error>)
        requires
            old(self).wf(),
        ensures
            final(self).wf(),
            final(self).region_count() == old(self).region_count(),
            final(self).root_groups() == old(self).root_groups(),
            region_id >= old(self).region_count() ==> r is Err,
            final(self).text_entries() == old(self).text_entries(),
            region_id < old(self).region_count() && is_slotted_type(primitive_type) ==> (r is Err <==> (
                old(self).region(region_id as int).spec_occupied() == REGION_SLOT_SIZE || old(self).region(
                region_id as int).spec_next_empty() == REGION_SLOT_SIZE)),
            !is_slotted_type(primitive_type) ==> r is Err,
            r is Err ==> forall|k: int| 0 <= k < final(self).region_count() ==> final(self).region(k) == old(self).region(k),
            r matches Ok(v) ==> index_of(v) == old(self).region(region_id as int).spec_next_empty()
                && final(self).region(region_id as int).spec_occupied() == old(self).region(region_id as int).spec_occupied() + 1
                && final(self).region(region_id as int).spec_next_empty() == old(self).region(region_id as int).spec_next_empty() + 1
                && final(self).region(region_id as int).type_at(index_of(v)) == primitive_type
                && final(self).region(region_id as int).prototype_at(index_of(v)) == Value::spec_null()
                && final(self).builtin_prototypes() == old(self).builtin_prototypes()
                && (forall|k: int| 0 <= k < final(self).region_count() ==> final(self).is_protected(k) == old(self).is_protected(k))
                && final(self).region(region_id as int).in_nursery(index_of(v))
                && final(self).region(region_id as int).only_slot_changed(&old(self).region(region_id as int), index_of(v))
                && (forall|k: int| 0 <= k < final(self).region_count() && k != region_id ==> #[trigger] final(self).region(k) == old(self).region(k)),
            r matches Ok(v) ==> final(self).has_region_of(v) && region_of(v) == region_id
                && v.spec_type() == primitive_type && final(self).region(region_id as int).is_alive_at(index_of(v))
                && final(self).settled(v),
    {
        if region_id as usize >= self.regions.len() {
            return Err(Error::new(ErrorType::FatalError, "Region not found"));
        }
        self.regions[region_id as usize].gain_slot(primitive_type)
    }

    /// A new isolate: region 0, and region 1, which holds the eight builtin
    /// prototypes (objects with a null prototype). Region 1 is protected while
    /// they are allocated and released afterwards.
    pub fn create() -> (r: Result<Isolate, Error>)
        ensures
            r is Ok,
            r matches Ok(isolate) ==> {
                &&& isolate.wf()
                &&& isolate.region_count() == 2
                &&& isolate.root_groups().len() == 0
                &&& !isolate.is_protected(0) && !isolate.is_protected(1)
                &&& isolate.region(1).spec_occupied() == BUILTIN_PROTOTYPES
                &&& forall|i: int| 0 <= i < BUILTIN_PROTOTYPES ==> {
                    let p = #[trigger] isolate.builtin_prototypes()[i];
                    &&& p.spec_type() == PrimitiveType::Object
                    &&& region_of(p) == 1
                    &&& index_of(p) == i
                    &&& isolate.region(1).is_alive_at(i)
                    &&& isolate.region(1).prototype_at(i) == Value::spec_null()
                }
            },
    {
        let mut isolate = Isolate::new(2);
        assert(isolate.region(1).spec_occupied() == 0 && isolate.region(1).spec_next_empty() == 0);
        isolate.protect_region(1);
        assert(isolate.region(1).spec_occupied() == 0 && isolate.region(1).spec_next_empty() == 0);
        let mut k: usize = 0;
        while k < BUILTIN_PROTOTYPES
            invariant
                isolate.wf(),
                isolate.region_count() == 2,
                isolate.root_groups().len() == 0,
                k <= BUILTIN_PROTOTYPES,
                isolate.region(1).spec_occupied() == k,
                isolate.region(1).spec_next_empty() == k,
                isolate.is_protected(1) && !isolate.is_protected(0),
                forall|i: int| 0 <= i < k ==> {
                    let p = #[trigger] isolate.builtin_prototypes()[i];
                    &&& p.spec_type() == PrimitiveType::Object
                    &&& region_of(p) == 1
                    &&& index_of(p) == i
                    &&& isolate.region(1).is_alive_at(i)
                    &&& isolate.region(1).prototype_at(i) == Value::spec_null()
                },
            decreases BUILTIN_PROTOTYPES - k,
        {
            let ghost before = isolate.region(1);
            let ghost iso_before = isolate;
            let prototype = match isolate.gain_slot(1, PrimitiveType::Object) {
                Ok(v) => v,
                Err(e) => {
                    return Err(e);
                },
            };
            proof {
                assert(index_of(prototype) == k);
                assert forall|i: int| 0 <= i < k implies isolate.region(1).is_alive_at(i)
                    && isolate.region(1).prototype_at(i) == Value::spec_null() by {
                    let p = iso_before.builtin_prototypes()[i];
                    assert(before.is_alive_at(i) && before.prototype_at(i) == Value::spec_null());
                    assert(isolate.region(1).same_slot(&before, i));
                    lemma_same_slot(&isolate.region(1), &before, i);
                }
            }
            isolate.prototypes.set(k, prototype);
            k = k + 1;
        }
        let ghost iso_before = isolate;
        isolate.unprotect_region(1);
        assert forall|i: int| 0 <= i < BUILTIN_PROTOTYPES implies {
            let p = #[trigger] isolate.builtin_prototypes()[i];
            &&& p.spec_type() == PrimitiveType::Object
            &&& region_of(p) == 1
            &&& index_of(p) == i
            &&& isolate.region(1).is_alive_at(i)
            &&& isolate.region(1).prototype_at(i) == Value::spec_null()
        } by {
            let p = iso_before.builtin_prototypes()[i];
        }
        Ok(isolate)
    }

    /// Protects region `region_id` from recycling; nothing happens for a missing
    /// region.
    pub fn protect_region(&mut self, region_id: u32)
        requires
            old(self).wf(),
        ensures
            final(self).wf(),
            final(self).same_but_protection(old(self)),
            forall|k: int| 0 <= k < final(self).region_count() ==> #[trigger] final(self).is_protected(k)
                == (k == region_id || old(self).is_protected(k)),
    {
        if (region_id as usize) < self.protected.len() {
            self.protected.set(region_id as usize, true);
        }
    }

    /// Releases the protection of region `region_id`.
    pub fn unprotect_region(&mut self, region_id: u32)
        requires
            old(self).wf(),
        ensures
            final(self).wf(),
            final(self).same_but_protection(old(self)),
            forall|k: int| 0 <= k < final(self).region_count() ==> #[trigger] final(self).is_protected(k)
                == (k != region_id && old(self).is_protected(k)),
    {
        if (region_id as usize) < self.protected.len() {
            self.protected.set(region_id as usize, false);
        }
    }

    /// Whether region `region_id` is protected; `FatalError` for a missing region.
    pub fn is_region_protected(&self, region_id: u32) -> (r: Result<bool, Error>)
        requires
            self.wf(),
        ensures
            r is Ok <==> region_id < self.region_count(),
            r matches Ok(b) ==> b == self.is_protected(region_id as int),
    {
        if region_id as usize >= self.protected.len() {
            return Err(Error::new(ErrorType::FatalError, "Region not found"));
        }
        Ok(self.protected[region_id as usize])
    }

    /// The prototype of `value`. Undefined and null have none
    /// (`VisitingUndefinedPrototype`, `VisitingNullPrototype`); every other kind but
    /// objects has its builtin prototype; an object has its own, found where it
    /// lives now (`FatalError` when it does not resolve to a live slot).
    pub fn get_prototype(&self, value: Value) -> (r: Result<Value, Error>)
        requires
            self.wf(),
        ensures
            value.spec_type() == PrimitiveType::Undefined ==> (r matches Err(e) && e.error_type
                == ErrorType::VisitingUndefinedPrototype),
            value.spec_type() == PrimitiveType::Null ==> (r matches Err(e) && e.error_type
                == ErrorType::VisitingNullPrototype),
            value.spec_type() != PrimitiveType::Undefined && value.spec_type() != PrimitiveType::Null
                && value.spec_type() != PrimitiveType::Object ==> r == Ok::<Value, Error>(
                self.builtin_prototypes()[prototype_index(value.spec_type())]),
            value.spec_type() == PrimitiveType::Object && r is Ok ==> exists|w: Value| {
                &&& self.settled(w)
                &&& (exists|n: nat| #[trigger] self.follow(value, n) == w)
                &&& self.has_region_of(w)
                &&& self.region(region_of(w) as int).is_alive_at(index_of(w))
                &&& r == Ok::<Value, Error>(self.region(region_of(w) as int).prototype_at(index_of(w)))
            },
            value.spec_type() == PrimitiveType::Object ==> (r matches Err(e) ==> e.error_type == ErrorType::FatalError
                || e.error_type == ErrorType::TypeNotMatch),
            value.spec_type() == PrimitiveType::Object ==> forall|n: nat|
                n < self.step_limit() && self.settled(#[trigger] self.follow(value, n)) && (forall|i: nat|
                    i < n ==> self.resolvable(self.follow(value, i))) && self.has_region_of(self.follow(value, n))
                    && self.region(region_of(self.follow(value, n)) as int).is_alive_at(index_of(self.follow(value, n)))
                    ==> r == Ok::<Value, Error>(self.region(region_of(self.follow(value, n)) as int).prototype_at(
                    index_of(self.follow(value, n)))),
    {
        match value.get_primitive_type() {
            PrimitiveType::Undefined => Err(Error::new(ErrorType::VisitingUndefinedPrototype, "Undefined has no prototype")),
            PrimitiveType::Null => Err(Error::new(ErrorType::VisitingNullPrototype, "Null has no prototype")),
            PrimitiveType::Boolean => Ok(self.prototypes[1]),
            PrimitiveType::Integer => Ok(self.prototypes[2]),
            PrimitiveType::Float => Ok(self.prototypes[3]),
            PrimitiveType::Symbol => Ok(self.prototypes[4]),
            PrimitiveType::Text => Ok(self.prototypes[5]),
            PrimitiveType::List => Ok(self.prototypes[6]),
            PrimitiveType::Tuple => Ok(self.prototypes[7]),
            PrimitiveType::Object => {
                let resolved_value = self.resolve_real_value(value)?;
                let region_id = resolved_value.get_region_id()?;
                if region_id as usize >= self.regions.len() {
                    return Err(Error::new(ErrorType::FatalError, "Region of slot not found"));
                }
                proof {
                    lemma_slot_in_use(&self.regions@[region_id as int], index_of(resolved_value));
                }
                let prototype = self.regions[region_id as usize].get_prototype(resolved_value)?;
                Ok(prototype)
            },
        }
    }

    /// Sets the prototype of an object, where it lives now. Undefined and null
    /// fail `MutatingUndefinedPrototype` and `MutatingNullPrototype`; every other
    /// kind has a fixed builtin prototype: `MutatingSealedPrototype`.
    pub fn set_prototype(&mut self, value: Value, prototype: Value) -> (r: Result<(), Error>)
        requires
            old(self).wf(),
        ensures
            final(self).wf(),
            final(self).region_count() == old(self).region_count(),
            final(self).root_groups() == old(self).root_groups(),
            final(self).builtin_prototypes() == old(self).builtin_prototypes(),
            value.spec_type() == PrimitiveType::Undefined ==> (r matches Err(e) && e.error_type
                == ErrorType::MutatingUndefinedPrototype),
            value.spec_type() == PrimitiveType::Null ==> (r matches Err(e) && e.error_type
                == ErrorType::MutatingNullPrototype),
            value.spec_type() != PrimitiveType::Undefined && value.spec_type() != PrimitiveType::Null
                && value.spec_type() != PrimitiveType::Object ==> (r matches Err(e) && e.error_type
                == ErrorType::MutatingSealedPrototype),
            r is Ok ==> exists|w: Value| {
                &&& old(self).settled(w)
                &&& (exists|n: nat| #[trigger] old(self).follow(value, n) == w)
                &&& final(self).has_region_of(w)
                &&& final(self).region(region_of(w) as int).prototype_at(index_of(w)) == prototype
            },
    {
        match value.get_primitive_type() {
            PrimitiveType::Undefined => Err(Error::new(ErrorType::MutatingUndefinedPrototype, "Undefined has no prototype")),
            PrimitiveType::Null => Err(Error::new(ErrorType::MutatingNullPrototype, "Null has no prototype")),
            PrimitiveType::Object => {
                let resolved_value = self.resolve_real_value(value)?;
                let region_id = resolved_value.get_region_id()?;
                if region_id as usize >= self.regions.len() {
                    return Err(Error::new(ErrorType::FatalError, "Region of slot not found"));
                }
                self.regions[region_id as usize].set_prototype(resolved_value, prototype)
            },
            _ => Err(Error::new(ErrorType::MutatingSealedPrototype, "Builtin prototypes are fixed")),
        }
    }

    /// Weak roots of `from` now watch `to`.
    fn refresh_weak_roots(&mut self, from: Value, to: Value)
        ensures
            final(self).regions == old(self).regions,
            final(self).protected == old(self).protected,
            final(self).prototypes == old(self).prototypes,
            final(self).roots == old(self).roots,
            final(self).texts == old(self).texts,
            final(self).weak_entries() == weak_refreshed(old(self).weak_entries(), from, to),
    {
        let mut i: usize = 0;
        while i < self.weak_roots.len()
            invariant
                i <= self.weak_roots@.len(),
                self.weak_roots@.len() == old(self).weak_roots@.len(),
                self.regions == old(self).regions,
                self.protected == old(self).protected,
                self.prototypes == old(self).prototypes,
                self.roots == old(self).roots,
                self.texts == old(self).texts,
                forall|k: int| 0 <= k < i ==> #[trigger] self.weak_roots@[k] == (if old(self).weak_roots@[k].1 == Some(from) {
                    (old(self).weak_roots@[k].0, Some(to))
                } else {
                    old(self).weak_roots@[k]
                }),
                forall|k: int| i <= k < self.weak_roots@.len() ==> #[trigger] self.weak_roots@[k] == old(self).weak_roots@[k],
            decreases self.weak_roots@.len() - i,
        {
            if self.weak_roots[i].1 == Some(from) {
                let id = self.weak_roots[i].0;
                self.weak_roots.set(i, (id, Some(to)));
            }
            i = i + 1;
        }
        assert(self.weak_entries() =~= weak_refreshed(old(self).weak_entries(), from, to));
    }

    /// Adds a weak root of `value`; returns its id.
    pub fn add_weak_root(&mut self, value: Value) -> (r: u32)
        requires
            old(self).wf(),
        ensures
            final(self).wf(),
            final(self).weak_entries() == old(self).weak_entries().push((r, Some(value))),
            final(self).region_count() == old(self).region_count(),
            forall|k: int| 0 <= k < final(self).region_count() ==> #[trigger] final(self).region(k) == old(self).region(k),
            final(self).root_groups() == old(self).root_groups(),
    {
        let id = self.weak_ids.generate();
        self.weak_roots.push((id, Some(value)));
        id
    }

    /// The value weak root `id` watches, `None` once dropped; `FatalError` when
    /// there is no such weak root.
    pub fn get_weak_root_value(&self, id: u32) -> (r: Result<Option<Value>, Error>)
        ensures
            r is Ok <==> exists|k: int| 0 <= k < self.weak_entries().len() && self.weak_entries()[k].0 == id,
            r matches Ok(v) ==> exists|k: int| 0 <= k < self.weak_entries().len() && self.weak_entries()[k] == (id, v),
    {
        let mut i: usize = 0;
        while i < self.weak_roots.len()
            invariant
                i <= self.weak_roots@.len(),
                forall|k: int| 0 <= k < i ==> self.weak_roots@[k].0 != id,
            decreases self.weak_roots@.len() - i,
        {
            if self.weak_roots[i].0 == id {
                assert(self.weak_entries()[i as int] == (id, self.weak_roots@[i as int].1));
                return Ok(self.weak_roots[i].1);
            }
            i = i + 1;
        }
        Err(Error::new(ErrorType::FatalError, "Weak root not found"))
    }

    /// Marks every weak root of `value` dropped: the slot was reclaimed. Returns
    /// their ids, whose drop listeners the caller tells, once each.
    pub fn notify_slot_drop(&mut self, value: Value) -> (r: Vec<u32>)
        ensures
            final(self).region_count() == old(self).region_count(),
            forall|k: int| 0 <= k < final(self).region_count() ==> #[trigger] final(self).region(k) == old(self).region(k),
            final(self).root_groups() == old(self).root_groups(),
            final(self).weak_entries().len() == old(self).weak_entries().len(),
            forall|k: int| 0 <= k < final(self).weak_entries().len() ==> #[trigger] final(self).weak_entries()[k] == (if old(
                self).weak_entries()[k].1 == Some(value) {
                (old(self).weak_entries()[k].0, None)
            } else {
                old(self).weak_entries()[k]
            }),
            forall|j: int| 0 <= j < r@.len() ==> old(self).weak_entries().contains((#[trigger] r@[j], Some(value))),
    {
        let mut dropped: Vec<u32> = Vec::new();
        let mut i: usize = 0;
        while i < self.weak_roots.len()
            invariant
                i <= self.weak_roots@.len(),
                self.weak_roots@.len() == old(self).weak_roots@.len(),
                self.regions == old(self).regions,
                self.roots == old(self).roots,
                forall|k: int| 0 <= k < i ==> #[trigger] self.weak_roots@[k] == (if old(self).weak_roots@[k].1 == Some(value) {
                    (old(self).weak_roots@[k].0, None)
                } else {
                    old(self).weak_roots@[k]
                }),
                forall|k: int| i <= k < self.weak_roots@.len() ==> #[trigger] self.weak_roots@[k] == old(self).weak_roots@[k],
                forall|j: int| 0 <= j < dropped@.len() ==> old(self).weak_entries().contains((#[trigger] dropped@[j], Some(value))),
            decreases self.weak_roots@.len() - i,
        {
            if self.weak_roots[i].1 == Some(value) {
                let id = self.weak_roots[i].0;
                assert(old(self).weak_entries()[i as int] == (id, Some(value)));
                let ghost before = dropped@;
                dropped.push(id);
                assert forall|j: int| 0 <= j < dropped@.len() implies old(self).weak_entries().contains((#[trigger] dropped@[j], Some(value))) by {
                    if j < before.len() {
                        assert(dropped@[j] == before[j]);
                    } else {
                        assert(old(self).weak_entries()[i as int] == (dropped@[j], Some(value)));
                    }
                }
                self.weak_roots.set(i, (id, None));
            }
            i = i + 1;
        }
        dropped
    }

    /// The text entries of `from` now belong to `to`.
    fn rekey_texts(&mut self, from: Value, to: Value)
        ensures
            final(self).regions == old(self).regions,
            final(self).protected == old(self).protected,
            final(self).prototypes == old(self).prototypes,
            final(self).roots == old(self).roots,
            final(self).weak_roots == old(self).weak_roots,
            final(self).text_entries() == rekeyed(old(self).text_entries(), from, to),
    {
        let mut i: usize = 0;
        while i < self.texts.len()
            invariant
                i <= self.texts@.len(),
                self.texts@.len() == old(self).texts@.len(),
                self.regions == old(self).regions,
                self.protected == old(self).protected,
                self.prototypes == old(self).prototypes,
                self.roots == old(self).roots,
                self.weak_roots == old(self).weak_roots,
                forall|k: int| 0 <= k < i ==> (#[trigger] self.texts@[k]).0 == (if old(self).texts@[k].0 == from {
                    to
                } else {
                    old(self).texts@[k].0
                }) && self.texts@[k].1@ == old(self).texts@[k].1@,
                forall|k: int| i <= k < self.texts@.len() ==> #[trigger] self.texts@[k] == old(self).texts@[k],
            decreases self.texts@.len() - i,
        {
            if self.texts[i].0 == from {
                self.texts[i].0 = to;
            }
            i = i + 1;
        }
        assert(self.text_entries() =~= rekeyed(old(self).text_entries(), from, to));
    }

    /// Allocates a text slot in region `region_id` and stores `text` for it; fails
    /// as `gain_slot` does.
    pub fn make_text(&mut self, region_id: u32, text: &str) -> (r: Result<Value, Error>)
        requires
            old(self).wf(),
            crate::text::utf8_len(text@) <= usize::MAX,
        ensures
            final(self).wf(),
            final(self).region_count() == old(self).region_count(),
            final(self).root_groups() == old(self).root_groups(),
            region_id < old(self).region_count() ==> (r is Err <==> (old(self).region(region_id as int).spec_occupied()
                == REGION_SLOT_SIZE || old(self).region(region_id as int).spec_next_empty() == REGION_SLOT_SIZE)),
            region_id >= old(self).region_count() ==> r is Err,
            r is Err ==> final(self).text_entries() == old(self).text_entries(),
            r matches Ok(v) ==> v.spec_type() == PrimitiveType::Text && final(self).has_region_of(v)
                && region_of(v) == region_id && final(self).settled(v)
                && final(self).text_entries() == old(self).text_entries().push((v, text@)),
    {
        let ghost before = self.text_entries();
        let v = self.gain_slot(region_id, PrimitiveType::Text)?;
        assert(self.text_entries() == before);
        let stored = Text::new(text);
        self.texts.push((v, stored));
        assert(self.text_entries() =~= before.push((v, text@)));
        Ok(v)
    }

    /// The text of `value`, as scripts see it: `<undefined>`, `<null>`, `<yes>`
    /// or `<no>`, integers in decimal, floats as `float_text` (the caller's
    /// rendering of the double), `<symbol>`, a text slot's stored text (`<text>`
    /// when none is stored), `<list>`, `<tuple>` and `<object>`.
    pub fn extract_text(&self, value: Value, float_text: &str) -> (r: String)
        requires
            self.wf(),
        ensures
            value.spec_type() != PrimitiveType::Text ==> r@ == plain_text_of(value, float_text@),
            value.spec_type() == PrimitiveType::Text ==> forall|n: nat|
                n < self.step_limit() && self.settled(#[trigger] self.follow(value, n)) && (forall|i: nat|
                    i < n ==> self.resolvable(self.follow(value, i))) ==> r@ == match text_lookup(
                    self.text_entries(),
                    self.follow(value, n),
                ) {
                    Some(t) => t,
                    None => "<text>"@,
                },
    {
        match value.get_primitive_type() {
            PrimitiveType::Undefined => "<undefined>".to_owned(),
            PrimitiveType::Null => "<null>".to_owned(),
            PrimitiveType::Boolean => if value.as_boolean() {
                "<yes>".to_owned()
            } else {
                "<no>".to_owned()
            },
            PrimitiveType::Integer => {
                proof {
                    crate::value::lemma_sign_bit(value.bits());
                }
                if value.is_cardinal() {
                    let c = value.extract_cardinal(0);
                    assert(c as int == crate::value::integer_value(value.bits()));
                    let result = string_from_chars(&decimal_chars(c as u64));
                    assert(result@ == plain_text_of(value, float_text@));
                    result
                } else {
                    let n = value.extract_integer(0);
                    assert(n as int == crate::value::integer_value(value.bits()));
                    assert(n < 0);
                    let mut chars: Vec<char> = Vec::new();
                    chars.push('-');
                    let digits = decimal_chars((-(n as i64)) as u64);
                    let mut i: usize = 0;
                    while i < digits.len()
                        invariant
                            i <= digits@.len(),
                            chars@ == seq!['-'] + digits@.take(i as int),
                        decreases digits@.len() - i,
                    {
                        chars.push(digits[i]);
                        i = i + 1;
                        assert(chars@ =~= seq!['-'] + digits@.take(i as int));
                    }
                    assert(digits@.take(i as int) =~= digits@);
                    let result = string_from_chars(&chars);
                    assert(result@ == plain_text_of(value, float_text@));
                    result
                }
            },
            PrimitiveType::Float => float_text.to_owned(),
            PrimitiveType::Symbol => "<symbol>".to_owned(),
            PrimitiveType::Text => {
                match self.resolve_real_value(value) {
                    Ok(resolved) => match self.find_text(resolved) {
                        Some(i) => self.texts[i].1.to_string(),
                        None => "<text>".to_owned(),
                    },
                    Err(_) => "<text>".to_owned(),
                }
            },
            PrimitiveType::List => "<list>".to_owned(),
            PrimitiveType::Tuple => "<tuple>".to_owned(),
            PrimitiveType::Object => "<object>".to_owned(),
        }
    }

    /// The latest text entry of `key`.
    fn find_text(&self, key: Value) -> (r: Option<usize>)
        ensures
            r is None ==> text_lookup(self.text_entries(), key) is None,
            r matches Some(i) ==> i < self.texts@.len() && text_lookup(self.text_entries(), key) == Some(self.texts@[i as int].1@),
    {
        let mut i: usize = self.texts.len();
        assert(self.text_entries().take(i as int) =~= self.text_entries());
        while i > 0
            invariant
                i <= self.texts@.len(),
                text_lookup(self.text_entries(), key) == text_lookup(self.text_entries().take(i as int), key),
            decreases i,
        {
            proof {
                assert(self.text_entries().take(i as int).drop_last() =~= self.text_entries().take(i - 1));
            }
            if self.texts[i - 1].0 == key {
                return Some(i - 1);
            }
            i = i - 1;
        }
        None
    }

    /// One step of resolution from `v` does not fail.
    pub open spec fn resolvable(&self, v: Value) -> bool {
        !self.has_region_of(v) || self.region(region_of(v) as int).resolved(v) is Ok
    }

    /// How many steps resolution takes at most before it calls a chain a cycle.
    pub open spec fn step_limit(&self) -> nat {
        (self.region_count() * REGION_SLOT_SIZE + 1) as nat
    }

    /// Where `value` now lives: its forwarding chain followed until it settles.
    /// A chain that settles within `step_limit` steps, every step resolving,
    /// gives the value it settles on; a chain that does not (a cycle, or a step
    /// that cannot resolve) gives `FatalError`.
    pub fn resolve_real_value(&self, value: Value) -> (r: Result<Value, Error>)
        requires
            self.wf(),
        ensures
            r matches Ok(w) ==> self.settled(w) && exists|n: nat| self.follow(value, n) == w,
            r matches Err(e) ==> e.error_type == ErrorType::FatalError,
            !self.has_region_of(value) ==> r == Ok::<Value, Error>(value),
            forall|n: nat|
                n < self.step_limit() && self.settled(#[trigger] self.follow(value, n)) && (forall|i: nat|
                    i < n ==> self.resolvable(self.follow(value, i))) ==> r == Ok::<Value, Error>(self.follow(value, n)),
    {
        if !value.is_slotted() {
            assert(self.follow(value, 0) == value);
            assert forall|n: nat| #[trigger] self.follow(value, n) == value by {
                lemma_follow_fixed(*self, value, n);
            }
            return Ok(value);
        }
        let limit: u64 = (self.regions.len() as u64) * (REGION_SLOT_SIZE as u64) + 1;
        let mut current = value;
        let mut steps: u64 = 0;
        let ghost n: nat = 0;
        while steps < limit
            invariant
                self.wf(),
                current == self.follow(value, n),
                steps == n,
                steps <= limit,
                limit == self.step_limit(),
                limit >= 1,
                !self.has_region_of(value) ==> current == value && steps == 0,
                current.spec_type() == value.spec_type() || self.has_region_of(value),
                forall|i: nat| i < n ==> !self.settled(#[trigger] self.follow(value, i)) && self.resolvable(self.follow(value, i)),
            decreases limit - steps,
        {
            let region_id = match current.get_region_id() {
                Ok(id) => id,
                Err(_) => {
                    proof {
                        self.lemma_settled_result(value, n);
                    }
                    return Ok(current);
                },
            };
            if region_id as usize >= self.regions.len() {
                proof {
                    self.lemma_settled_result(value, n);
                }
                return Ok(current);
            }
            let next = match self.regions[region_id as usize].resolve_redirection(current) {
                Ok(next) => next,
                Err(_) => {
                    proof {
                        assert(!self.resolvable(current));
                        assert forall|m: nat|
                            m < self.step_limit() && self.settled(#[trigger] self.follow(value, m)) && (forall|i: nat|
                                i < m ==> self.resolvable(self.follow(value, i))) implies false by {
                            if m < n {
                            } else if m == n {
                            } else {
                                assert(self.resolvable(self.follow(value, n)));
                            }
                        }
                    }
                    return Err(Error::new(ErrorType::FatalError, "Unresolvable value"));
                },
            };
            proof {
                lemma_follow_step(*self, value, n);
            }
            if next == current {
                proof {
                    self.lemma_settled_result(value, n);
                }
                return Ok(current);
            }
            assert(self.has_region_of(current));
            assert(!self.settled(current) && self.resolvable(current));
            current = next;
            proof {
                n = n + 1;
            }
            steps = steps + 1;
        }
        proof {
            assert forall|m: nat|
                m < self.step_limit() && self.settled(#[trigger] self.follow(value, m)) && (forall|i: nat|
                    i < m ==> self.resolvable(self.follow(value, i))) implies false by {
                assert(m < n);
            }
        }
        Err(Error::new(ErrorType::FatalError, "Redirection cycle"))
    }

    /// Once the chain of `value` settles at step `n`, every settled point of it
    /// reached with resolvable steps is that one.
    proof fn lemma_settled_result(&self, value: Value, n: nat)
        requires
            self.settled(self.follow(value, n)),
            forall|i: nat| i < n ==> !self.settled(#[trigger] self.follow(value, i)),
        ensures
            forall|m: nat| self.settled(#[trigger] self.follow(value, m)) ==> self.follow(value, m) == self.follow(value, n),
    {
        assert forall|m: nat| self.settled(#[trigger] self.follow(value, m)) implies self.follow(value, m)
            == self.follow(value, n) by {
            if m >= n {
                lemma_follow_add(*self, value, n, (m - n) as nat);
                lemma_follow_fixed(*self, self.follow(value, n), (m - n) as nat);
            } else {
                assert(!self.settled(self.follow(value, m)));
            }
        }
    }

    /// The root groups' values.
    fn root_index_of(&self, value: Value) -> (r: Option<usize>)
        ensures
            r is None ==> forall|i: int| 0 <= i < self.root_groups().len() ==> (#[trigger] self.root_groups()[i]).spec_value() != value,
            r matches Some(i) ==> i < self.root_groups().len() && self.root_groups()[i as int].spec_value() == value,
    {
        let mut i: usize = 0;
        while i < self.roots.len()
            invariant
                i <= self.roots@.len(),
                forall|k: int| 0 <= k < i ==> (#[trigger] self.roots@[k]).spec_value() != value,
            decreases self.roots@.len() - i,
        {
            if self.roots[i].get_value() == value {
                return Some(i);
            }
            i = i + 1;
        }
        None
    }

    /// Roots `value`: returns its group and the handle taken, with one more holder.
    pub fn add_root(&mut self, value: Value) -> (r: (usize, usize))
        requires
            old(self).wf(),
            forall|i: int, j: int| 0 <= i < old(self).root_groups().len() && 0 <= j < old(self).root_groups()[i].handles().len()
                ==> old(self).root_groups()[i].handles()[j].spec_references() < u32::MAX,
        ensures
            final(self).wf(),
            final(self).region_count() == old(self).region_count(),
            forall|i: int| 0 <= i < final(self).region_count() ==> final(self).region(i) == old(self).region(i),
            r.0 < final(self).root_groups().len(),
            final(self).root_groups()[r.0 as int].spec_value() == value,
            r.1 < final(self).root_groups()[r.0 as int].handles().len(),
            r.1 == 0,
            final(self).root_groups()[r.0 as int].handles()[r.1 as int].spec_references() == if r.0
                < old(self).root_groups().len() && old(self).root_groups()[r.0 as int].handles().len() > 0 {
                old(self).root_groups()[r.0 as int].handles()[r.1 as int].spec_references() + 1
            } else {
                1
            },
            r.0 < old(self).root_groups().len() <==> exists|i: int| 0 <= i < old(self).root_groups().len()
                && #[trigger] old(self).root_groups()[i].spec_value() == value,
            forall|i: int| 0 <= i < old(self).root_groups().len() && i != r.0 ==> #[trigger] final(self).root_groups()[i]
                == old(self).root_groups()[i],
    {
        let group = match self.root_index_of(value) {
            Some(i) => i,
            None => {
                self.roots.push(Roots::new(value));
                self.roots.len() - 1
            },
        };
        let handle = self.roots[group].get_any_root();
        let _ = self.roots[group].increase_reference(handle);
        (group, handle)
    }

    /// The value of handle `handle` of group `group`.
    pub fn get_root_value(&self, group: usize, handle: usize) -> (r: Value)
        requires
            group < self.root_groups().len(),
            handle < self.root_groups()[group as int].handles().len(),
        ensures
            r == self.root_groups()[group as int].handles()[handle as int].spec_value(),
    {
        self.roots[group].get_root_value(handle)
    }

    /// Group `after` is group `before` after the value `from` moved to `to`: the
    /// same handles with the same holders, each rooting `to` when the group rooted
    /// `from`, and unchanged otherwise.
    pub open spec fn group_follows(before: Roots, after: Roots, from: Value, to: Value) -> bool {
        &&& after.handles().len() == before.handles().len()
        &&& forall|h: int| 0 <= h < after.handles().len() ==> (#[trigger] after.handles()[h]).spec_references()
            == before.handles()[h].spec_references()
        &&& before.spec_value() == from ==> forall|h: int| 0 <= h < after.handles().len()
            ==> (#[trigger] after.handles()[h]).spec_value() == to
        &&& before.spec_value() != from ==> after == before
    }

    /// Every root of `from` now roots `to`.
    fn refresh_root(&mut self, from: Value, to: Value)
        requires
            old(self).wf(),
        ensures
            final(self).wf(),
            final(self).regions == old(self).regions,
            final(self).protected == old(self).protected,
            final(self).prototypes == old(self).prototypes,
            final(self).texts == old(self).texts,
            final(self).root_groups().len() == old(self).root_groups().len(),
            forall|i: int| 0 <= i < final(self).root_groups().len() ==> (#[trigger] final(self).root_groups()[i]).spec_value()
                == if old(self).root_groups()[i].spec_value() == from { to } else { old(self).root_groups()[i].spec_value() },
            forall|i: int| 0 <= i < final(self).root_groups().len() ==> Isolate::group_follows(
                old(self).root_groups()[i], #[trigger] final(self).root_groups()[i], from, to),
    {
        let mut i: usize = 0;
        while i < self.roots.len()
            invariant
                i <= self.roots@.len(),
                self.roots@.len() == old(self).roots@.len(),
                self.regions == old(self).regions,
                self.protected == old(self).protected,
                self.prototypes == old(self).prototypes,
                self.texts == old(self).texts,
                old(self).wf(),
                forall|k: int| 0 <= k < self.roots@.len() ==> (#[trigger] self.roots@[k]).wf(),
                forall|k: int| 0 <= k < i ==> (#[trigger] self.roots@[k]).spec_value()
                    == if old(self).roots@[k].spec_value() == from { to } else { old(self).roots@[k].spec_value() },
                forall|k: int| 0 <= k < i ==> Isolate::group_follows(old(self).roots@[k], #[trigger] self.roots@[k], from, to),
                forall|k: int| i <= k < self.roots@.len() ==> (#[trigger] self.roots@[k]) == old(self).roots@[k],
            decreases self.roots@.len() - i,
        {
            self.roots[i].refresh_value(from, to);
            i = i + 1;
        }
    }

    /// The move of `from` into region `to_region` is refused: `from` is not a
    /// live slot of the isolate, `to_region` is missing, or it is full.
    pub open spec fn move_refused(&self, from: Value, to_region: u32) -> bool {
        ||| !self.has_region_of(from)
        ||| to_region >= self.region_count()
        ||| self.region(to_region as int).spec_occupied() == REGION_SLOT_SIZE
        ||| !self.region(region_of(from) as int).available(from)
        ||| !self.region(region_of(from) as int).is_alive_at(index_of(from))
    }

    /// Moves the live slot `from` into region `to_region_id`. Where other slots
    /// reference `from`, or moved values forward to it, a forwarding record to the
    /// new slot stays behind; otherwise nothing can reach the old slot and it is
    /// freed. Every root of `from` follows. Refused when `move_refused` holds:
    /// `TypeNotMatch` for a value that is not slot-bearing, `OutOfSpace` when the
    /// target is full, `FatalError` otherwise.
    pub fn move_slot(&mut self, from: Value, to_region_id: u32) -> (r: Result<Value, Error>)
        requires
            old(self).wf(),
        ensures
            final(self).wf(),
            final(self).region_count() == old(self).region_count(),
            r is Err <==> old(self).move_refused(from, to_region_id),
            forall|k: int| 0 <= k < final(self).region_count() ==> #[trigger] final(self).is_protected(k) == old(self).is_protected(k),
            final(self).builtin_prototypes() == old(self).builtin_prototypes(),
            r is Err ==> *final(self) == *old(self),
            r matches Ok(to) ==> {
                &&& final(self).has_region_of(to)
                &&& region_of(to) == to_region_id
                &&& to.spec_type() == old(self).region(region_of(from) as int).type_at(index_of(from))
                &&& final(self).settled(to)
                &&& final(self).region(to_region_id as int).is_alive_at(index_of(to))
                &&& final(self).region(to_region_id as int).prototype_at(index_of(to)) == old(self).region(
                    region_of(from) as int).prototype_at(index_of(from))
                &&& final(self).region(to_region_id as int).is_sealed_at(index_of(to)) == old(self).region(
                    region_of(from) as int).is_sealed_at(index_of(from))
                &&& final(self).region(to_region_id as int).color_at(index_of(to)) == old(self).region(
                    region_of(from) as int).color_at(index_of(from))
                &&& final(self).region(to_region_id as int).in_nursery(index_of(to)) == old(self).region(
                    region_of(from) as int).in_nursery(index_of(from))
                &&& old(self).region(region_of(from) as int).outer_total(index_of(from)) > 0
                    || old(self).region(region_of(from) as int).froms_at(index_of(from)).len() > 0
                    ==> final(self).next(from) == to
                &&& final(self).root_groups().len() == old(self).root_groups().len()
                &&& forall|i: int| 0 <= i < final(self).root_groups().len() && old(self).root_groups()[i].spec_value() == from
                    ==> (#[trigger] final(self).root_groups()[i]).spec_value() == to
                &&& forall|i: int| 0 <= i < final(self).root_groups().len() ==> Isolate::group_follows(
                    old(self).root_groups()[i], #[trigger] final(self).root_groups()[i], from, to)
                &&& region_of(from) != to_region_id ==> forall|j: int| 0 <= j < REGION_SLOT_SIZE
                    ==> #[trigger] final(self).region(region_of(from) as int).is_alive_at(j) == (old(self).region(
                    region_of(from) as int).is_alive_at(j) && j != index_of(from))
                &&& forall|k: int| 0 <= k < final(self).region_count() && k != region_of(from) && k != to_region_id
                    ==> #[trigger] final(self).region(k) == old(self).region(k)
            },
    {
        let from_region = from.get_region_id()?;
        if from_region as usize >= self.regions.len() {
            return Err(Error::new(ErrorType::FatalError, "Region of slot not found"));
        }
        if to_region_id as usize >= self.regions.len() {
            return Err(Error::new(ErrorType::FatalError, "Region to move slot into not found"));
        }
        if self.regions[to_region_id as usize].is_full() {
            return Err(Error::new(ErrorType::OutOfSpace, "Out of slots"));
        }
        let f = from_region as usize;
        let t = to_region_id as usize;
        if !self.regions[f].is_value_alive(from)? {
            return Err(Error::new(ErrorType::FatalError, "Slot not alive"));
        }
        let forwarded_to = self.regions[f].is_forwarding_target(from)?;
        let ghost fi = index_of(from);
        let (snapshot, in_nursery, frozen_references) = match self.regions[f].freeze_slot(from) {
            Ok(frozen) => frozen,
            Err(e) => {
                return Err(e);
            },
        };
        let references = match frozen_references {
            Some(map) => Some(map),
            None => if forwarded_to {
                Some(ReferenceMap::new())
            } else {
                None
            },
        };
        let ghost after_freeze = self.regions@;
        let to = match self.regions[t].restore_slot(from, snapshot, in_nursery, &references) {
            Ok(to) => to,
            Err(e) => {
                return Err(e);
            },
        };
        let ghost ti = index_of(to);
        let ghost after_restore = self.regions@;
        proof {
            if f == t {
                assert(!after_freeze[f as int].empty(fi));
                assert(after_freeze[t as int].empty(ti));
                assert(fi != ti);
                assert(after_restore[f as int].same_slot(&after_freeze[f as int], fi));
                lemma_same_slot(&after_restore[f as int], &after_freeze[f as int], fi);
            }
            assert(after_restore[f as int].available(from));
        }
        let has_references = references.is_some();
        let redirected = self.regions[f].redirect_slot(from, to, references);
        assert(redirected is Ok);
        let ghost after_redirect = self.regions@;
        if !has_references {
            let recycled = self.regions[f].recycle_slot(from, true);
            assert(recycled is Ok);
        }
        proof {
            if f == t {
                assert(after_redirect[t as int].same_slot(&after_restore[t as int], ti));
                lemma_same_slot(&after_redirect[t as int], &after_restore[t as int], ti);
                if !has_references {
                    assert(self.regions@[t as int].same_slot(&after_redirect[t as int], ti));
                    lemma_same_slot(&self.regions@[t as int], &after_redirect[t as int], ti);
                }
            }
            assert(self.region(t as int).resolved(to) == Ok::<Value, ErrorType>(to));
            if f != t {
                assert forall|j: int| 0 <= j < REGION_SLOT_SIZE implies #[trigger] self.region(f as int).is_alive_at(j)
                    == (old(self).region(f as int).is_alive_at(j) && j != fi) by {
                    if j != fi {
                        assert(after_freeze[f as int].same_slot(&old(self).regions@[f as int], j));
                        lemma_same_slot(&after_freeze[f as int], &old(self).regions@[f as int], j);
                        assert(after_redirect[f as int].same_slot(&after_restore[f as int], j));
                        lemma_same_slot(&after_redirect[f as int], &after_restore[f as int], j);
                        if !has_references {
                            assert(self.regions@[f as int].same_slot(&after_redirect[f as int], j));
                            lemma_same_slot(&self.regions@[f as int], &after_redirect[f as int], j);
                        }
                    }
                }
            }
        }
        self.refresh_root(from, to);
        self.rekey_texts(from, to);
        self.refresh_weak_roots(from, to);
        Ok(to)
    }

    /// `a` and `b` name the same slot.
    pub open spec fn same_slot_value(a: Value, b: Value) -> bool {
        region_of(a) == region_of(b) && index_of(a) == index_of(b)
    }

    /// Records that slot `from` references `to`. Nothing is recorded when either
    /// value does not live in a slot, or when they name the same slot.
    /// `FatalError` when the isolate has no region for `to`; otherwise as
    /// `Region::add_reference` on the region of `to`.
    pub fn add_value_reference(&mut self, from: Value, to: Value) -> (r: Result<(), Error>)
        requires
            old(self).wf(),
            old(self).has_region_of(to) ==> old(self).region(region_of(to) as int).outer_total(index_of(to)) < u32::MAX
                && old(self).region(region_of(to) as int).redirection_total(index_of(to)) < u32::MAX,
        ensures
            final(self).wf(),
            final(self).region_count() == old(self).region_count(),
            final(self).root_groups() == old(self).root_groups(),
            r is Err ==> forall|k: int| 0 <= k < final(self).region_count() ==> final(self).region(k) == old(self).region(k),
            !is_slotted_type(from.spec_type()) || !is_slotted_type(to.spec_type()) || Isolate::same_slot_value(from, to)
                ==> r is Ok && *final(self) == *old(self),
            is_slotted_type(from.spec_type()) && is_slotted_type(to.spec_type()) && !Isolate::same_slot_value(from, to) ==> {
                let k = region_of(to) as int;
                let i = index_of(to);
                &&& !old(self).has_region_of(to) ==> r is Err
                &&& old(self).has_region_of(to) ==> (r is Err <==> !old(self).region(k).referencable(to)
                    || (!old(self).region(k).forwards(to) && !old(self).region(k).is_alive_at(i)))
                &&& r is Ok && old(self).region(k).forwards(to) ==> final(self).region(k).redirection_total(i)
                    == old(self).region(k).redirection_total(i) + 1
                &&& r is Ok && !old(self).region(k).forwards(to) ==> final(self).region(k).outer_count(i, from)
                    == old(self).region(k).outer_count(i, from) + 1
            },
    {
        if !from.is_slotted() || !to.is_slotted() {
            return Ok(());
        }
        let to_region = to.get_region_id()?;
        let to_slot = to.get_region_slot()?;
        let from_region = from.get_region_id()?;
        let from_slot = from.get_region_slot()?;
        if to_region == from_region && to_slot == from_slot {
            return Ok(());
        }
        if to_region as usize >= self.regions.len() {
            return Err(Error::new(ErrorType::FatalError, "Region of slot not found"));
        }
        self.regions[to_region as usize].add_reference(to, from)
    }

    /// Removes the reference of slot `from` to `to`. Nothing changes when either
    /// value does not live in a slot, or when they name the same slot. When the
    /// reference was the last one through a forwarding record, the record goes and
    /// the slot it moved to forgets `to`. `FatalError` when a region is missing;
    /// otherwise as `Region::remove_reference` and `Region::remove_redirection_from`.
    pub fn remove_value_reference(&mut self, from: Value, to: Value) -> (r: Result<(), Error>)
        requires
            old(self).wf(),
        ensures
            final(self).wf(),
            final(self).region_count() == old(self).region_count(),
            final(self).root_groups() == old(self).root_groups(),
            !is_slotted_type(from.spec_type()) || !is_slotted_type(to.spec_type()) || Isolate::same_slot_value(from, to)
                ==> r is Ok && *final(self) == *old(self),
            is_slotted_type(from.spec_type()) && is_slotted_type(to.spec_type()) && !Isolate::same_slot_value(from, to)
                && !old(self).has_region_of(to) ==> r is Err,
            is_slotted_type(from.spec_type()) && is_slotted_type(to.spec_type()) && !Isolate::same_slot_value(from, to)
                && old(self).has_region_of(to) && old(self).region(region_of(to) as int).referencable(to)
                && !old(self).region(region_of(to) as int).forwards(to) ==> {
                let k = region_of(to) as int;
                let i = index_of(to);
                &&& (r is Err <==> !old(self).region(k).is_alive_at(i) || old(self).region(k).outer_count(i, from) == 0)
                &&& r is Ok ==> final(self).region(k).outer_count(i, from) == old(self).region(k).outer_count(i, from) - 1
            },
            is_slotted_type(from.spec_type()) && is_slotted_type(to.spec_type()) && !Isolate::same_slot_value(from, to)
                && old(self).has_region_of(to) && old(self).region(region_of(to) as int).referencable(to)
                && old(self).region(region_of(to) as int).forwards(to)
                && old(self).region(region_of(to) as int).redirection_count(index_of(to), from) == 0 ==> r is Err,
            is_slotted_type(from.spec_type()) && is_slotted_type(to.spec_type()) && !Isolate::same_slot_value(from, to)
                && old(self).has_region_of(to) && old(self).region(region_of(to) as int).referencable(to)
                && old(self).region(region_of(to) as int).forwards(to) && r is Ok ==> {
                let k = region_of(to) as int;
                let i = index_of(to);
                &&& old(self).region(k).redirection_count(i, from) > 0
                &&& old(self).region(k).redirection_total(i) > 1 ==> final(self).region(k).redirection_total(i)
                    == old(self).region(k).redirection_total(i) - 1
                &&& old(self).region(k).redirection_total(i) == 1 ==> final(self).region(k).redirection_at(i) is None
                    && final(self).region(k).empty(i)
            },
    {
        if !from.is_slotted() || !to.is_slotted() {
            return Ok(());
        }
        let to_region = to.get_region_id()?;
        let to_slot = to.get_region_slot()?;
        let from_region = from.get_region_id()?;
        let from_slot = from.get_region_slot()?;
        if to_region == from_region && to_slot == from_slot {
            return Ok(());
        }
        if to_region as usize >= self.regions.len() {
            return Err(Error::new(ErrorType::FatalError, "Region of slot not found"));
        }
        let (freed, target) = self.regions[to_region as usize].remove_reference(to, from)?;
        if freed {
            let ghost after_removal = self.regions@[to_region as int];
            let target_region = target.get_region_id()?;
            if target_region as usize >= self.regions.len() {
                return Err(Error::new(ErrorType::FatalError, "Region of slot not found"));
            }
            self.regions[target_region as usize].remove_redirection_from(to, target)?;
            proof {
                if target_region == to_region && index_of(target) != index_of(to) {
                    assert(self.regions@[to_region as int].same_slot(&after_removal, index_of(to)));
                    lemma_same_slot(&self.regions@[to_region as int], &after_removal, index_of(to));
                }
            }
        }
        Ok(())
    }

    /// Whether the slot that `value` names directly is in use and alive.
    pub fn is_direct_value_alive(&self, value: Value) -> (r: Result<bool, Error>)
        requires
            self.wf(),
        ensures
            r is Ok <==> self.has_region_of(value) && index_of(value) < REGION_SLOT_SIZE,
            r matches Ok(b) ==> self.has_region_of(value) && b == (self.region(region_of(value) as int).bit(index_of(value))
                && self.region(region_of(value) as int).is_alive_at(index_of(value))),
    {
        let region_id = value.get_region_id()?;
        if region_id as usize >= self.regions.len() {
            return Err(Error::new(ErrorType::FatalError, "Region not found"));
        }
        self.regions[region_id as usize].is_value_alive(value)
    }

    /// Whether the slot that `value` names directly is occupied, live or forwarding.
    pub fn is_direct_value_occupied(&self, value: Value) -> (r: Result<bool, Error>)
        requires
            self.wf(),
        ensures
            r is Ok <==> self.has_region_of(value) && index_of(value) < REGION_SLOT_SIZE,
            r matches Ok(b) ==> self.has_region_of(value) && b == !self.region(region_of(value) as int).empty(index_of(value)),
    {
        let region_id = value.get_region_id()?;
        if region_id as usize >= self.regions.len() {
            return Err(Error::new(ErrorType::FatalError, "Region not found"));
        }
        self.regions[region_id as usize].is_value_occupied(value)
    }

    /// Moves every live value of region `source` into region `target`, until
    /// `target` is full; then recalculates the bump pointer of `source`. Returns
    /// whether every value moved, so that no slot of `source` is alive any more.
    /// `FatalError` when a region is missing or the two are the same; a move that
    /// fails ends the work with its error.
    pub fn refragment_region(&mut self, source: u32, target: u32) -> (r: Result<bool, Error>)
        requires
            old(self).wf(),
        ensures
            final(self).wf(),
            final(self).region_count() == old(self).region_count(),
            (source >= old(self).region_count() || target >= old(self).region_count() || source == target)
                ==> r is Err,
            source < old(self).region_count() && target < old(self).region_count() && source != target ==> r is Ok,
            forall|k: int| 0 <= k < final(self).region_count() && k != source && k != target
                ==> #[trigger] final(self).region(k) == old(self).region(k),
            final(self).root_groups().len() == old(self).root_groups().len(),
            forall|k: int| 0 <= k < final(self).region_count() ==> #[trigger] final(self).is_protected(k) == old(self).is_protected(k),
            final(self).builtin_prototypes() == old(self).builtin_prototypes(),
            r matches Ok(true) ==> forall|j: int| 0 <= j < REGION_SLOT_SIZE ==> !#[trigger] final(self).region(
                source as int).is_alive_at(j),
            r matches Ok(false) ==> final(self).region(target as int).spec_occupied() == REGION_SLOT_SIZE,
    {
        if source as usize >= self.regions.len() || target as usize >= self.regions.len() || source == target {
            return Err(Error::new(ErrorType::FatalError, "Region not found"));
        }
        let values = self.regions[source as usize].list_alive_values();
        let ghost initial = self.regions@[source as int];
        proof {
            assert forall|j: int| 0 <= j < REGION_SLOT_SIZE && #[trigger] self.region(source as int).is_alive_at(j)
                implies initial.is_alive_at(j) && initial.bit(j) by {
                lemma_slot_in_use(&initial, j);
            }
        }
        let mut k: usize = 0;
        while k < values.len()
            invariant
                self.wf(),
                self.region_count() == old(self).region_count(),
                self.root_groups().len() == old(self).root_groups().len(),
                forall|m: int| 0 <= m < self.region_count() ==> #[trigger] self.is_protected(m) == old(self).is_protected(m),
                self.builtin_prototypes() == old(self).builtin_prototypes(),
                forall|m: int| 0 <= m < self.region_count() && m != source && m != target
                    ==> #[trigger] self.region(m) == old(self).region(m),
                source < self.region_count(),
                target < self.region_count(),
                source != target,
                k <= values@.len(),
                forall|m: int| 0 <= m < values@.len() ==> initial.addresses(values@[m]),
                forall|j: int| 0 <= j < REGION_SLOT_SIZE && initial.bit(j) && initial.is_alive_at(j) ==> exists|m: int|
                    0 <= m < values@.len() && index_of(values@[m]) == j,
                initial.spec_id() == source,
                forall|j: int| 0 <= j < REGION_SLOT_SIZE && #[trigger] self.region(source as int).is_alive_at(j)
                    ==> initial.is_alive_at(j) && initial.bit(j) && forall|m: int| 0 <= m < k ==> index_of(values@[m]) != j,
                forall|m: int| k <= m < values@.len() ==> #[trigger] self.region(source as int).is_alive_at(index_of(values@[m])),
                forall|m: int| 0 <= m < values@.len() ==> index_of(#[trigger] values@[m]) < REGION_SLOT_SIZE,
                forall|a: int, b: int| 0 <= a < b < values@.len() ==> index_of(values@[a]) < index_of(values@[b]),
            decreases values@.len() - k,
        {
            if self.regions[target as usize].is_full() {
                return Ok(false);
            }
            let value = values[k];
            let ghost before = self.regions@[source as int];
            proof {
                lemma_slot_in_use(&before, index_of(value));
                assert(self.region(source as int).spec_id() == source);
                assert(!self.move_refused(value, target));
            }
            match self.move_slot(value, target) {
                Ok(_) => {},
                Err(e) => {
                    return Err(e);
                },
            }
            proof {
                assert(region_of(value) == source);
                assert forall|j: int| 0 <= j < REGION_SLOT_SIZE && #[trigger] self.region(source as int).is_alive_at(j)
                    implies initial.is_alive_at(j) && initial.bit(j) && forall|m: int| 0 <= m < k + 1 ==> index_of(values@[m]) != j by {
                    assert(before.is_alive_at(j) && j != index_of(value));
                }
                assert forall|m: int| k + 1 <= m < values@.len() implies #[trigger] self.region(source as int).is_alive_at(index_of(values@[m])) by {
                    assert(before.is_alive_at(index_of(values@[m])));
                    assert(index_of(values@[m]) != index_of(value));
                }
            }
            k = k + 1;
        }
        let ghost at_exit = *self;
        let ghost before_recalc = self.regions@[source as int];
        let ghost before_recalc_all = *self;
        let full = self.regions[source as usize].is_full();
        if !full {
            let _ = self.regions[source as usize].recalculate_next_empty_slot_index();
        }
        proof {
            assert forall|m: int| 0 <= m < self.region_count() implies #[trigger] self.is_protected(m)
                == old(self).is_protected(m) by {
                assert(before_recalc_all.is_protected(m) == old(self).is_protected(m));
            }
            assert forall|m: int| 0 <= m < self.region_count() && m != source && m != target
                implies #[trigger] self.region(m) == old(self).region(m) by {
                assert(before_recalc_all.region(m) == old(self).region(m));
            }
            assert forall|j: int| 0 <= j < REGION_SLOT_SIZE implies !#[trigger] self.region(source as int).is_alive_at(j) by {
                if at_exit.region(source as int).is_alive_at(j) {
                    assert(initial.is_alive_at(j) && initial.bit(j));
                    let m = choose|m: int| 0 <= m < values@.len() && index_of(values@[m]) == j;
                    assert(index_of(values@[m]) != j);
                }
                assert(!before_recalc.is_alive_at(j));
                if !full {
                    lemma_slot_in_use(&before_recalc, j);
                    assert(self.regions@[source as int].same_slot(&before_recalc, j));
                    lemma_same_slot(&self.regions@[source as int], &before_recalc, j);
                } else {
                    assert(self.regions@ == at_exit.regions@);
                }
            }
        }
        Ok(true)
    }

    /// Region `k` holds nothing: no slot in use and no forwarding record.
    pub open spec fn region_empty(&self, k: int) -> bool {
        self.region(k).spec_occupied() == 0 && forall|j: int|
            0 <= j < REGION_SLOT_SIZE ==> #[trigger] self.region(k).redirection_at(j) is None
    }

    /// No slot of region `k` holds a live value.
    pub open spec fn no_live_slot(&self, k: int) -> bool {
        forall|j: int| 0 <= j < REGION_SLOT_SIZE ==> !#[trigger] self.region(k).is_alive_at(j)
    }

    /// Every region below `k` is full.
    pub open spec fn full_below(&self, k: int) -> bool {
        forall|j: int| 0 <= j < k ==> #[trigger] self.region(j).spec_occupied() == REGION_SLOT_SIZE
    }

    /// Region `k` may be recycled: it is empty and not protected.
    pub open spec fn recyclable(&self, k: int) -> bool {
        self.region_empty(k) && !self.is_protected(k)
    }

    /// Refragments the isolate. From the highest region down, a region whose
    /// unused share below its bump pointer exceeds `numerator / denominator` has
    /// its live values moved into the lowest regions with room. Then every
    /// recyclable region is recycled (made new), and the regions above the
    /// highest one still in use or protected are released.
    pub fn refragment(&mut self, numerator: u32, denominator: u32) -> (r: Result<(), Error>)
        requires
            old(self).wf(),
            denominator > 0,
        ensures
            final(self).wf(),
            r is Ok,
            final(self).region_count() <= old(self).region_count(),
            final(self).region_count() == 0 || !final(self).recyclable(final(self).region_count() - 1),
            forall|k: int| 0 <= k < old(self).region_count() && #[trigger] old(self).region(k).fragmented(numerator, denominator)
                ==> k >= final(self).region_count() || final(self).no_live_slot(k) || final(self).full_below(k),
            forall|k: int| 0 <= k < final(self).region_count() ==> #[trigger] final(self).is_protected(k)
                == old(self).is_protected(k),
            forall|k: int| 0 <= k < final(self).region_count() && #[trigger] final(self).recyclable(k)
                ==> final(self).region(k).spec_next_empty() == 0,
            final(self).root_groups().len() == old(self).root_groups().len(),
    {
        let count = self.regions.len();
        let mut flags: Vec<bool> = Vec::new();
        let mut f: usize = 0;
        while f < count
            invariant
                self.wf(),
                *self == *old(self),
                count == self.region_count(),
                denominator > 0,
                f <= count,
                flags@.len() == f,
                forall|m: int| 0 <= m < f ==> flags@[m] == old(self).region(m).fragmented(numerator, denominator),
            decreases count - f,
        {
            flags.push(self.regions[f].fragmentation_exceeds(numerator, denominator));
            f = f + 1;
        }
        let mut source: usize = count;
        let mut target: usize = 0;
        while source > 0
            invariant
                self.wf(),
                self.region_count() == count,
                source <= count,
                target <= count,
                flags@.len() == count,
                denominator > 0,
                self.root_groups().len() == old(self).root_groups().len(),
                forall|k: int| 0 <= k < self.region_count() ==> #[trigger] self.is_protected(k) == old(self).is_protected(k),
                forall|j: int| 0 <= j < target ==> #[trigger] self.region(j).spec_occupied() == REGION_SLOT_SIZE,
                forall|k: int| source <= k < count && #[trigger] flags@[k] ==> self.no_live_slot(k) || k <= target,
            decreases source,
        {
            source = source - 1;
            if target < source && flags[source] {
                while target < source
                    invariant
                        self.wf(),
                        self.region_count() == count,
                        source < count,
                        target <= source,
                        flags@.len() == count,
                        self.root_groups().len() == old(self).root_groups().len(),
                        forall|k: int| 0 <= k < self.region_count() ==> #[trigger] self.is_protected(k) == old(self).is_protected(k),
                        forall|j: int| 0 <= j < target ==> #[trigger] self.region(j).spec_occupied() == REGION_SLOT_SIZE,
                        forall|k: int| source < k < count && #[trigger] flags@[k] ==> self.no_live_slot(k) || k <= target,
                    ensures
                        self.wf(),
                        self.region_count() == count,
                        target <= source,
                        self.root_groups().len() == old(self).root_groups().len(),
                        forall|k: int| 0 <= k < self.region_count() ==> #[trigger] self.is_protected(k) == old(self).is_protected(k),
                        forall|j: int| 0 <= j < target ==> #[trigger] self.region(j).spec_occupied() == REGION_SLOT_SIZE,
                        forall|k: int| source < k < count && #[trigger] flags@[k] ==> self.no_live_slot(k) || k <= target,
                        self.no_live_slot(source as int) || target == source,
                    decreases source - target,
                {
                    let ghost before = *self;
                    let all_moved = match self.refragment_region(source as u32, target as u32) {
                        Ok(b) => b,
                        Err(e) => {
                            return Err(e);
                        },
                    };
                    proof {
                        assert forall|k: int| source < k < count && #[trigger] flags@[k] implies self.no_live_slot(k) || k <= target by {
                            assert(self.region(k) == before.region(k));
                        }
                        assert forall|j: int| 0 <= j < target implies #[trigger] self.region(j).spec_occupied() == REGION_SLOT_SIZE by {
                            assert(self.region(j) == before.region(j));
                        }
                    }
                    if all_moved {
                        break;
                    }
                    target = target + 1;
                }
            }
        }
        let mut k: usize = 0;
        while k < self.regions.len()
            invariant
                self.wf(),
                self.region_count() == count,
                k <= count,
                self.root_groups().len() == old(self).root_groups().len(),
                forall|m: int| 0 <= m < self.region_count() ==> #[trigger] self.is_protected(m) == old(self).is_protected(m),
                forall|m: int| 0 <= m < k && #[trigger] self.recyclable(m) ==> self.region(m).spec_next_empty() == 0,
                flags@.len() == count,
                forall|m: int| 0 <= m < count && #[trigger] flags@[m] ==> self.no_live_slot(m) || self.full_below(m),
            decreases count - k,
        {
            if !self.protected[k] && self.regions[k].is_empty() {
                let ghost before = *self;
                self.regions.set(k, Region::new(k as u32));
                proof {
                    assert forall|m: int| 0 <= m < self.region_count() implies #[trigger] self.is_protected(m)
                        == old(self).is_protected(m) by {
                        assert(before.is_protected(m) == old(self).is_protected(m));
                    }
                    assert forall|m: int| 0 <= m < count && #[trigger] flags@[m] implies self.no_live_slot(m) || self.full_below(m) by {
                        if before.no_live_slot(m) {
                            if m != k {
                                assert(self.region(m) == before.region(m));
                            }
                        } else {
                            assert forall|j: int| 0 <= j < m implies #[trigger] self.region(j).spec_occupied() == REGION_SLOT_SIZE by {
                                assert(before.region(j).spec_occupied() == REGION_SLOT_SIZE);
                                if j != k {
                                    assert(self.region(j) == before.region(j));
                                }
                            }
                        }
                    }
                    assert forall|m: int| 0 <= m < k + 1 && #[trigger] self.recyclable(m) implies self.region(m).spec_next_empty() == 0 by {
                        if m < k {
                            assert(self.region(m) == before.region(m));
                            assert(before.recyclable(m));
                        }
                    }
                }
            } else {
                proof {
                    if self.recyclable(k as int) {
                        assert(self.region(k as int).spec_occupied() == 0);
                    }
                }
            }
            k = k + 1;
        }
        let mut kept: usize = self.regions.len();
        while kept > 0 && !self.protected[kept - 1] && self.regions[kept - 1].is_empty()
            invariant
                self.wf(),
                kept <= self.region_count(),
                self.region_count() == count,
                self.root_groups().len() == old(self).root_groups().len(),
                forall|m: int| 0 <= m < self.region_count() ==> #[trigger] self.is_protected(m) == old(self).is_protected(m),
                forall|m: int| 0 <= m < count && #[trigger] self.recyclable(m) ==> self.region(m).spec_next_empty() == 0,
                flags@.len() == count,
                forall|m: int| 0 <= m < count && #[trigger] flags@[m] ==> self.no_live_slot(m) || self.full_below(m),
            decreases kept,
        {
            kept = kept - 1;
        }
        let ghost before_truncate = *self;
        self.regions.truncate(kept);
        self.protected.truncate(kept);
        proof {
            assert forall|m: int| 0 <= m < self.region_count() implies #[trigger] self.region(m) == before_truncate.region(m)
                && self.is_protected(m) == before_truncate.is_protected(m) by {}
            assert forall|m: int| 0 <= m < self.region_count() implies #[trigger] self.is_protected(m)
                == old(self).is_protected(m) by {
                assert(before_truncate.is_protected(m) == old(self).is_protected(m));
            }
            assert forall|m: int| 0 <= m < self.region_count() && #[trigger] self.recyclable(m)
                implies self.region(m).spec_next_empty() == 0 by {
                assert(self.region(m) == before_truncate.region(m));
                assert forall|j: int| 0 <= j < REGION_SLOT_SIZE implies #[trigger] before_truncate.region(m).redirection_at(j) is None by {
                    assert(self.region(m).redirection_at(j) is None);
                }
                assert(before_truncate.recyclable(m));
            }
            if kept > 0 {
                assert(self.region(kept - 1) == before_truncate.region(kept - 1));
            }
            assert forall|k: int| 0 <= k < old(self).region_count() && #[trigger] old(self).region(k).fragmented(numerator, denominator)
                implies k >= self.region_count() || self.no_live_slot(k) || self.full_below(k) by {
                assert(flags@[k]);
                if k < self.region_count() {
                    if before_truncate.no_live_slot(k) {
                        assert(self.region(k) == before_truncate.region(k));
                    } else {
                        assert forall|j: int| 0 <= j < k implies #[trigger] self.region(j).spec_occupied() == REGION_SLOT_SIZE by {
                            assert(before_truncate.region(j).spec_occupied() == REGION_SLOT_SIZE);
                            assert(self.region(j) == before_truncate.region(j));
                        }
                    }
                }
            }
        }
        Ok(())
    }
}

/// After a move that left a forwarding record from `from` to `to`, resolving
/// `from` settles on `to`: every settled value that the forwarding chain of
/// `from` reaches is `to`.
pub proof fn law_moved_value_resolves(isolate: Isolate, from: Value, to: Value, w: Value, n: nat)
    requires
        isolate.next(from) == to,
        isolate.settled(to),
        isolate.settled(w),
        isolate.follow(from, n) == w,
    ensures
        w == to,
{
    if n == 0 {
        assert(isolate.next(w) == w);
    } else {
        assert(isolate.follow(from, n) == isolate.follow(isolate.next(from), (n - 1) as nat));
        lemma_follow_fixed(isolate, to, (n - 1) as nat);
    }
}

proof fn lemma_follow_fixed(isolate: Isolate, v: Value, n: nat)
    requires
        isolate.settled(v),
    ensures
        isolate.follow(v, n) == v,
    decreases n,
{
    assert(isolate.next(v) == v);
    if n > 0 {
        lemma_follow_fixed(isolate, v, (n - 1) as nat);
    }
}

/// A text made by `make_text` reads back through `extract_text`: the value is
/// settled at step zero and the latest entry for it holds the text.
pub proof fn law_text_round_trip(isolate: Isolate, v: Value, text: Seq<char>)
    requires
        isolate.text_entries().len() > 0,
        isolate.text_entries().last() == (v, text),
        isolate.settled(v),
    ensures
        isolate.follow(v, 0) == v,
        0 < isolate.step_limit(),
        text_lookup(isolate.text_entries(), isolate.follow(v, 0)) == Some(text),
{
}

proof fn lemma_follow_add(isolate: Isolate, v: Value, a: nat, b: nat)
    ensures
        isolate.follow(v, a + b) == isolate.follow(isolate.follow(v, a), b),
    decreases a,
{
    if a > 0 {
        lemma_follow_add(isolate, isolate.next(v), (a - 1) as nat, b);
        assert(isolate.follow(v, a + b) == isolate.follow(isolate.next(v), (a - 1 + b) as nat));
    }
}

proof fn lemma_follow_step(isolate: Isolate, v: Value, n: nat)
    ensures
        isolate.follow(v, n + 1) == isolate.next(isolate.follow(v, n)),
    decreases n,
{
    assert(isolate.follow(v, n + 1) == isolate.follow(isolate.next(v), n));
    if n > 0 {
        lemma_follow_step(isolate, isolate.next(v), (n - 1) as nat);
        assert(isolate.follow(v, n) == isolate.follow(isolate.next(v), (n - 1) as nat));
    }
}

} // verus!
