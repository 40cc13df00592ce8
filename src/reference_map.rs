use vstd::prelude::*;

use crate::error::Error;
use crate::error::ErrorType;
use crate::value::Value;

verus! {

/// A small multiset of values: the inbound references of a slot.
pub struct ReferenceMap {
    count: u32,
    counts: Vec<(Value, u32)>,
}

/// The sum of the counts of `entries`.
pub open spec fn total_count(entries: Seq<(Value, u32)>) -> nat
    decreases entries.len(),
{
    if entries.len() == 0 {
        0
    } else {
        total_count(entries.drop_last()) + entries.last().1 as nat
    }
}

/// How often `value` is recorded in `entries`.
pub open spec fn count_of(entries: Seq<(Value, u32)>, value: Value) -> nat
    decreases entries.len(),
{
    if entries.len() == 0 {
        0
    } else {
        count_of(entries.drop_last(), value) + if entries.last().0 == value {
            entries.last().1 as nat
        } else {
            0nat
        }
    }
}

proof fn lemma_update_entry(entries: Seq<(Value, u32)>, i: int, n: u32)
    requires
        0 <= i < entries.len(),
    ensures
        total_count(entries.update(i, (entries[i].0, n))) == total_count(entries) - entries[i].1
            + n,
        forall|v: Value|
            #[trigger] count_of(entries.update(i, (entries[i].0, n)), v) == if v == entries[i].0 {
                count_of(entries, v) - entries[i].1 + n
            } else {
                count_of(entries, v) as int
            },
    decreases entries.len(),
{
    let u = entries.update(i, (entries[i].0, n));
    if i == entries.len() - 1 {
        assert(u.drop_last() =~= entries.drop_last());
    } else {
        lemma_update_entry(entries.drop_last(), i, n);
        assert(u.drop_last() =~= entries.drop_last().update(i, (entries[i].0, n)));
    }
    assert forall|v: Value|
        #[trigger] count_of(u, v) == if v == entries[i].0 {
            count_of(entries, v) - entries[i].1 + n
        } else {
            count_of(entries, v) as int
        } by {
        if i != entries.len() - 1 {
            assert(count_of(entries.drop_last().update(i, (entries[i].0, n)), v) == if v
                == entries[i].0 {
                count_of(entries.drop_last(), v) - entries[i].1 + n
            } else {
                count_of(entries.drop_last(), v) as int
            });
        }
    }
}

proof fn lemma_count_le_total(entries: Seq<(Value, u32)>, value: Value)
    ensures
        count_of(entries, value) <= total_count(entries),
    decreases entries.len(),
{
    if entries.len() > 0 {
        lemma_count_le_total(entries.drop_last(), value);
    }
}

proof fn lemma_push_entry(entries: Seq<(Value, u32)>, value: Value, n: u32)
    ensures
        total_count(entries.push((value, n))) == total_count(entries) + n,
        forall|v: Value|
            #[trigger] count_of(entries.push((value, n)), v) == count_of(entries, v) + if v == value {
                n as nat
            } else {
                0nat
            },
{
    assert(entries.push((value, n)).drop_last() =~= entries);
}

proof fn lemma_absent(entries: Seq<(Value, u32)>, value: Value)
    requires
        forall|k: int| 0 <= k < entries.len() ==> entries[k].0 != value,
    ensures
        count_of(entries, value) == 0,
    decreases entries.len(),
{
    if entries.len() > 0 {
        lemma_absent(entries.drop_last(), value);
    }
}

proof fn lemma_unique_count(entries: Seq<(Value, u32)>, i: int)
    requires
        0 <= i < entries.len(),
        forall|a: int, b: int|
            0 <= a < b < entries.len() ==> entries[a].0 != entries[b].0,
    ensures
        count_of(entries, entries[i].0) == entries[i].1,
    decreases entries.len(),
{
    if i == entries.len() - 1 {
        lemma_absent(entries.drop_last(), entries[i].0);
    } else {
        lemma_unique_count(entries.drop_last(), i);
    }
}

impl ReferenceMap {
    /// How often `value` is referenced.
    pub closed spec fn spec_count(&self, value: Value) -> nat {
        count_of(self.counts@, value)
    }

    /// How many references are recorded in all.
    pub closed spec fn spec_total(&self) -> nat {
        self.count as nat
    }

    pub closed spec fn wf(&self) -> bool {
        &&& self.count == total_count(self.counts@)
        &&& forall|a: int, b: int|
            0 <= a < b < self.counts@.len() ==> self.counts@[a].0 != self.counts@[b].0
    }

    pub fn new() -> (r: ReferenceMap)
        ensures
            r.wf(),
            r.spec_total() == 0,
            forall|v: Value| r.spec_count(v) == 0,
    {
        ReferenceMap { count: 0, counts: Vec::new() }
    }

    /// No reference is recorded.
    pub fn is_empty(&self) -> (r: bool)
        ensures
            r == (self.spec_total() == 0),
    {
        self.count == 0
    }

    /// Whether some reference to `value` is recorded.
    pub fn has_reference(&self, value: Value) -> (r: bool)
        requires
            self.wf(),
        ensures
            r == (self.spec_count(value) > 0),
    {
        match self.find(value) {
            None => false,
            Some(i) => self.counts[i].1 > 0,
        }
    }

    fn find(&self, value: Value) -> (r: Option<usize>)
        requires
            self.wf(),
        ensures
            r is None ==> self.spec_count(value) == 0 && forall|k: int|
                0 <= k < self.counts@.len() ==> self.counts@[k].0 != value,
            r matches Some(i) ==> i < self.counts@.len() && self.counts@[i as int].0 == value
                && self.spec_count(value) == self.counts@[i as int].1,
    {
        let mut i: usize = 0;
        while i < self.counts.len()
            invariant
                self.wf(),
                i <= self.counts@.len(),
                forall|k: int| 0 <= k < i ==> self.counts@[k].0 != value,
            decreases self.counts@.len() - i,
        {
            if self.counts[i].0 == value {
                proof {
                    lemma_unique_count(self.counts@, i as int);
                }
                return Some(i);
            }
            i = i + 1;
        }
        proof {
            lemma_absent(self.counts@, value);
        }
        None
    }

    /// Records one more reference to `value`.
    pub fn add_reference(&mut self, value: Value) -> (r: Result<(), Error>)
        requires
            old(self).wf(),
            old(self).spec_total() < u32::MAX,
        ensures
            final(self).wf(),
            r is Ok,
            final(self).spec_total() == old(self).spec_total() + 1,
            forall|v: Value|
                #[trigger] final(self).spec_count(v) == old(self).spec_count(v) + if v == value {
                    1nat
                } else {
                    0nat
                },
    {
        match self.find(value) {
            None => {
                proof {
                    lemma_push_entry(self.counts@, value, 1);
                }
                self.counts.push((value, 1));
            },
            Some(i) => {
                let n = self.counts[i].1;
                proof {
                    lemma_count_le_total(self.counts@, value);
                    lemma_unique_count(self.counts@, i as int);
                    lemma_update_entry(self.counts@, i as int, (n + 1) as u32);
                }
                self.counts.set(i, (value, n + 1));
            },
        }
        self.count = self.count + 1;
        Ok(())
    }

    /// Removes one reference to `value`. Fails `FatalError` when none is recorded.
    pub fn remove_reference(&mut self, value: Value) -> (r: Result<(), Error>)
        requires
            old(self).wf(),
        ensures
            final(self).wf(),
            r is Err <==> old(self).spec_count(value) == 0,
            r matches Err(e) ==> e.error_type == ErrorType::FatalError && *final(self) == *old(self),
            r is Ok ==> final(self).spec_total() == old(self).spec_total() - 1 && forall|v: Value|
                #[trigger] final(self).spec_count(v) == if v == value {
                    old(self).spec_count(v) - 1
                } else {
                    old(self).spec_count(v) as int
                },
    {
        match self.find(value) {
            None => Err(Error::new(ErrorType::FatalError, "No references recorded")),
            Some(i) => {
                let n = self.counts[i].1;
                if n == 0 {
                    return Err(Error::new(ErrorType::FatalError, "No references recorded"));
                }
                proof {
                    lemma_count_le_total(self.counts@, value);
                    lemma_update_entry(self.counts@, i as int, (n - 1) as u32);
                }
                self.counts.set(i, (value, n - 1));
                self.count = self.count - 1;
                Ok(())
            },
        }
    }
}

} // verus!
