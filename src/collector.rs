use vstd::prelude::*;
use vstd::seq_lib::lemma_multiset_commutative;

use crate::region::{BASE_BLACK, BASE_WHITE};
use crate::value::Value;

verus! {

broadcast use vstd::seq_lib::group_to_multiset_ensures;

/// How many values a gray slice holds before it is handed over.
pub const MAX_SLICE_SIZE: usize = 128;

/// The phases of a collection cycle.
#[derive(Copy, Clone, PartialEq, Eq, Structural, Debug)]
pub enum CollectorState {
    Free,
    Pending,
    MarkingRoots,
    MarkingGrays,
    RemarkingGrays,
    Sweeping,
    Refragmenting,
}

/// The phase that follows `state` in a cycle; after refragmenting the collector
/// is free again.
pub open spec fn phase_after(state: CollectorState) -> CollectorState {
    match state {
        CollectorState::Free => CollectorState::Free,
        CollectorState::Pending => CollectorState::MarkingRoots,
        CollectorState::MarkingRoots => CollectorState::MarkingGrays,
        CollectorState::MarkingGrays => CollectorState::RemarkingGrays,
        CollectorState::RemarkingGrays => CollectorState::Sweeping,
        CollectorState::Sweeping => CollectorState::Refragmenting,
        CollectorState::Refragmenting => CollectorState::Free,
    }
}

/// The base color after a flip: white and black trade places.
pub open spec fn flipped(base: u8) -> u8 {
    if base == BASE_WHITE {
        BASE_BLACK
    } else {
        BASE_WHITE
    }
}

/// The values of `slices`, one slice after another.
pub open spec fn flat(slices: Seq<Vec<Value>>) -> Seq<Value>
    decreases slices.len(),
{
    if slices.len() == 0 {
        Seq::empty()
    } else {
        flat(slices.drop_last()) + slices.last()@
    }
}

/// Gray values waiting to be scanned, kept as a stack of slices.
pub struct GraySlices {
    slices: Vec<Vec<Value>>,
}

impl GraySlices {
    /// Every waiting value, slice by slice.
    pub closed spec fn waiting(&self) -> Seq<Value> {
        flat(self.slices@)
    }

    pub fn new() -> (r: GraySlices)
        ensures
            r.waiting().len() == 0,
    {
        GraySlices { slices: Vec::new() }
    }

    /// Whether no value is waiting.
    pub fn is_empty(&self) -> (r: bool)
        ensures
            r == (self.waiting().len() == 0),
    {
        let mut i: usize = 0;
        while i < self.slices.len()
            invariant
                i <= self.slices@.len(),
                forall|k: int| 0 <= k < i ==> self.slices@[k]@.len() == 0,
            decreases self.slices@.len() - i,
        {
            if self.slices[i].len() > 0 {
                proof {
                    lemma_flat_has(self.slices@, i as int);
                }
                return false;
            }
            i = i + 1;
        }
        proof {
            lemma_flat_all_empty(self.slices@);
        }
        true
    }

    /// Hands the values of `slice` over, leaving it empty.
    pub fn flush_slice(&mut self, slice: &mut Vec<Value>)
        ensures
            final(self).waiting() == old(self).waiting() + old(slice)@,
            final(slice)@.len() == 0,
    {
        if slice.len() > 0 {
            let mut values: Vec<Value> = Vec::new();
            std::mem::swap(&mut values, slice);
            let ghost before = self.slices@;
            self.slices.push(values);
            assert(self.slices@.drop_last() =~= before);
        } else {
            assert(old(self).waiting() + old(slice)@ =~= old(self).waiting());
        }
    }

    /// Takes up to `count` waiting values: none is lost and none is taken twice.
    pub fn list_grays(&mut self, count: usize) -> (r: Vec<Value>)
        ensures
            r@.len() == if count < old(self).waiting().len() {
                count as int
            } else {
                old(self).waiting().len() as int
            },
            r@.to_multiset().add(final(self).waiting().to_multiset()) == old(self).waiting().to_multiset(),
    {
        let mut grays: Vec<Value> = Vec::new();
        loop
            invariant
                grays@.len() <= count,
                grays@.len() + self.waiting().len() == old(self).waiting().len(),
                grays@.to_multiset().add(self.waiting().to_multiset()) == old(self).waiting().to_multiset(),
            decreases self.waiting().len(), self.slices@.len(),
        {
            if grays.len() >= count {
                return grays;
            }
            let ghost before = self.slices@;
            let popped = self.slices.pop();
            match popped {
                None => {
                    return grays;
                },
                Some(values) => {
                    let ghost g0 = grays@;
                    proof {
                        assert(self.slices@ == before.drop_last());
                        lemma_multiset_commutative(flat(before.drop_last()), values@);
                    }
                    if values.len() > count - grays.len() {
                        let split = count - grays.len();
                        let mut i: usize = 0;
                        while i < split
                            invariant
                                i <= split,
                                split < values@.len(),
                                grays@ == g0 + values@.subrange(0, i as int),
                            decreases split - i,
                        {
                            grays.push(values[i]);
                            i = i + 1;
                            assert(grays@ =~= g0 + values@.subrange(0, i as int));
                        }
                        let mut rest: Vec<Value> = Vec::new();
                        let mut j: usize = split;
                        while j < values.len()
                            invariant
                                split <= j <= values@.len(),
                                rest@ == values@.subrange(split as int, j as int),
                            decreases values@.len() - j,
                        {
                            rest.push(values[j]);
                            j = j + 1;
                            assert(rest@ =~= values@.subrange(split as int, j as int));
                        }
                        proof {
                            let taken = values@.subrange(0, split as int);
                            assert(values@ =~= taken + rest@);
                            lemma_multiset_commutative(taken, rest@);
                            lemma_multiset_commutative(g0, taken);
                            lemma_multiset_commutative(flat(before.drop_last()), rest@);
                        }
                        self.slices.push(rest);
                        proof {
                            assert(self.slices@.drop_last() =~= before.drop_last());
                        }
                        return grays;
                    } else {
                        let mut i: usize = 0;
                        while i < values.len()
                            invariant
                                i <= values@.len(),
                                grays@ == g0 + values@.subrange(0, i as int),
                            decreases values@.len() - i,
                        {
                            grays.push(values[i]);
                            i = i + 1;
                            assert(grays@ =~= g0 + values@.subrange(0, i as int));
                        }
                        proof {
                            assert(values@.subrange(0, i as int) =~= values@);
                            lemma_multiset_commutative(g0, values@);
                        }
                    }
                },
            }
        }
    }
}

proof fn lemma_flat_has(slices: Seq<Vec<Value>>, i: int)
    requires
        0 <= i < slices.len(),
        slices[i]@.len() > 0,
    ensures
        flat(slices).len() > 0,
    decreases slices.len(),
{
    if i < slices.len() - 1 {
        lemma_flat_has(slices.drop_last(), i);
    }
}

proof fn lemma_flat_all_empty(slices: Seq<Vec<Value>>)
    requires
        forall|k: int| 0 <= k < slices.len() ==> slices[k]@.len() == 0,
    ensures
        flat(slices).len() == 0,
    decreases slices.len(),
{
    if slices.len() > 0 {
        lemma_flat_all_empty(slices.drop_last());
    }
}

/// The collector's schedule: its phase, whether a cycle was asked for, the base
/// color, the gray values waiting and the values the barrier caught.
pub struct Collector {
    state: CollectorState,
    requested_to_collect: bool,
    base_color: u8,
    grays: GraySlices,
    barrier_slice: Vec<Value>,
}

impl Collector {
    pub closed spec fn spec_state(&self) -> CollectorState {
        self.state
    }

    pub closed spec fn spec_requested(&self) -> bool {
        self.requested_to_collect
    }

    pub closed spec fn spec_base_color(&self) -> u8 {
        self.base_color
    }

    pub closed spec fn spec_grays(&self) -> Seq<Value> {
        self.grays.waiting()
    }

    /// What the barrier caught in this cycle.
    pub closed spec fn spec_caught(&self) -> Seq<Value> {
        self.barrier_slice@
    }

    pub fn new() -> (r: Collector)
        ensures
            r.spec_state() == CollectorState::Free,
            !r.spec_requested(),
            r.spec_base_color() == BASE_WHITE,
            r.spec_grays().len() == 0,
            r.spec_caught().len() == 0,
    {
        Collector {
            state: CollectorState::Free,
            requested_to_collect: false,
            base_color: BASE_WHITE,
            grays: GraySlices::new(),
            barrier_slice: Vec::new(),
        }
    }

    pub fn get_state(&self) -> (r: CollectorState)
        ensures
            r == self.spec_state(),
    {
        self.state
    }

    pub fn get_base_color(&self) -> (r: u8)
        ensures
            r == self.spec_base_color(),
    {
        self.base_color
    }

    /// Asks for a cycle. A free collector becomes pending and the caller is to run
    /// the cycle: the result says so. A busy one only remembers the request.
    pub fn request_to_collect(&mut self) -> (r: bool)
        ensures
            final(self).spec_requested(),
            r == (old(self).spec_state() == CollectorState::Free),
            final(self).spec_state() == if r {
                CollectorState::Pending
            } else {
                old(self).spec_state()
            },
            final(self).spec_base_color() == old(self).spec_base_color(),
            final(self).spec_grays() == old(self).spec_grays(),
            final(self).spec_caught() == old(self).spec_caught(),
    {
        self.requested_to_collect = true;
        if self.state == CollectorState::Free {
            self.state = CollectorState::Pending;
            true
        } else {
            false
        }
    }

    /// Moves to the next phase. Starting to mark roots takes the request; leaving
    /// refragmentation flips the base color, so that the survivors, black, read
    /// as white in the next cycle.
    pub fn advance(&mut self)
        ensures
            final(self).spec_state() == phase_after(old(self).spec_state()),
            final(self).spec_requested() == if old(self).spec_state() == CollectorState::Pending {
                false
            } else {
                old(self).spec_requested()
            },
            final(self).spec_base_color() == if old(self).spec_state() == CollectorState::Refragmenting {
                flipped(old(self).spec_base_color())
            } else {
                old(self).spec_base_color()
            },
            final(self).spec_grays() == old(self).spec_grays(),
            final(self).spec_caught() == old(self).spec_caught(),
    {
        match self.state {
            CollectorState::Free => {},
            CollectorState::Pending => {
                self.requested_to_collect = false;
                self.state = CollectorState::MarkingRoots;
            },
            CollectorState::MarkingRoots => {
                self.state = CollectorState::MarkingGrays;
            },
            CollectorState::MarkingGrays => {
                self.state = CollectorState::RemarkingGrays;
            },
            CollectorState::RemarkingGrays => {
                self.state = CollectorState::Sweeping;
            },
            CollectorState::Sweeping => {
                self.state = CollectorState::Refragmenting;
            },
            CollectorState::Refragmenting => {
                self.base_color = if self.base_color == BASE_WHITE {
                    BASE_BLACK
                } else {
                    BASE_WHITE
                };
                self.state = CollectorState::Free;
            },
        }
    }

    /// The barrier intercepts mutations only while grays are marked concurrently.
    pub fn is_barrier_active(&self) -> (r: bool)
        ensures
            r == (self.spec_state() == CollectorState::MarkingGrays),
    {
        self.state == CollectorState::MarkingGrays
    }

    /// The barrier's hook, for a reference about to be removed or a value just made
    /// reachable: while marking grays, `value` is kept to be grayed again at
    /// remark. Returns whether it was kept.
    pub fn capture_by_barrier(&mut self, value: Value) -> (r: bool)
        ensures
            r == (old(self).spec_state() == CollectorState::MarkingGrays),
            final(self).spec_caught() == if r {
                old(self).spec_caught().push(value)
            } else {
                old(self).spec_caught()
            },
            final(self).spec_state() == old(self).spec_state(),
            final(self).spec_requested() == old(self).spec_requested(),
            final(self).spec_base_color() == old(self).spec_base_color(),
            final(self).spec_grays() == old(self).spec_grays(),
    {
        if self.state == CollectorState::MarkingGrays {
            self.barrier_slice.push(value);
            true
        } else {
            false
        }
    }

    /// At remark, hands what the barrier caught over to the gray values.
    pub fn drain_barrier(&mut self)
        ensures
            final(self).spec_grays() == old(self).spec_grays() + old(self).spec_caught(),
            final(self).spec_caught().len() == 0,
            final(self).spec_state() == old(self).spec_state(),
            final(self).spec_requested() == old(self).spec_requested(),
            final(self).spec_base_color() == old(self).spec_base_color(),
    {
        self.grays.flush_slice(&mut self.barrier_slice);
    }

    /// Hands a filled slice of gray values over.
    pub fn push_grays(&mut self, slice: &mut Vec<Value>)
        ensures
            final(self).spec_grays() == old(self).spec_grays() + old(slice)@,
            final(slice)@.len() == 0,
            final(self).spec_state() == old(self).spec_state(),
            final(self).spec_requested() == old(self).spec_requested(),
            final(self).spec_base_color() == old(self).spec_base_color(),
            final(self).spec_caught() == old(self).spec_caught(),
    {
        self.grays.flush_slice(slice);
    }

    /// Takes up to `count` gray values to scan.
    pub fn list_grays(&mut self, count: usize) -> (r: Vec<Value>)
        ensures
            r@.len() == if count < old(self).spec_grays().len() {
                count as int
            } else {
                old(self).spec_grays().len() as int
            },
            r@.to_multiset().add(final(self).spec_grays().to_multiset()) == old(self).spec_grays().to_multiset(),
            final(self).spec_state() == old(self).spec_state(),
            final(self).spec_requested() == old(self).spec_requested(),
            final(self).spec_base_color() == old(self).spec_base_color(),
            final(self).spec_caught() == old(self).spec_caught(),
    {
        self.grays.list_grays(count)
    }
}

/// A full cycle, from a request on a free collector through every phase, ends
/// free with the base color flipped.
pub proof fn law_cycle_returns_free(base: u8)
    requires
        base == BASE_WHITE || base == BASE_BLACK,
    ensures
        phase_after(phase_after(phase_after(phase_after(phase_after(phase_after(
            CollectorState::Pending,
        )))))) == CollectorState::Free,
        flipped(flipped(base)) == base,
        flipped(base) != base,
{
}

} // verus!
