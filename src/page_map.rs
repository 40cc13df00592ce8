use vstd::prelude::*;
use vstd::set_lib::{lemma_int_range, lemma_len_subset, set_int_range};

use crate::error::Error;
use crate::error::ErrorType;

verus! {

pub const MAX_PAGE_SHIFT: usize = 10;
pub const MAX_PAGE_ITEMS: usize = 1024;
pub const MAX_TABLE_ITEMS: usize = 1016;
/// How many items a page map can index: `(((MAX_TABLE_ITEMS << 10) + 1024) << 10) + 1024`.
pub const MAX_ITEMS: usize = 1_066_402_816;

/// Makes the item that a page map stores under a fresh index.
pub trait PageItemFactory<T> {
    fn create_item(&self, id: usize) -> Box<T>;
}

/// Walks the occupied indices of a page map, in ascending order.
pub struct PageIterator {
    indices: Vec<usize>,
    position: usize,
}

impl PageIterator {
    /// The indices not yet returned.
    pub closed spec fn remaining(&self) -> Seq<usize> {
        self.indices@.subrange(self.position as int, self.indices@.len() as int)
    }

    pub closed spec fn wf(&self) -> bool {
        self.position <= self.indices@.len()
    }

    /// The next occupied index, if any is left.
    pub fn next(&mut self) -> (r: Option<usize>)
        requires
            old(self).wf(),
        ensures
            final(self).wf(),
            old(self).remaining().len() == 0 ==> r is None && final(self).remaining() == old(self).remaining(),
            old(self).remaining().len() > 0 ==> r == Some(old(self).remaining()[0]) && final(self).remaining() == old(self).remaining().drop_first(),
    {
        if self.position < self.indices.len() {
            let i = self.indices[self.position];
            self.position = self.position + 1;
            assert(self.remaining() =~= old(self).remaining().drop_first());
            Some(i)
        } else {
            None
        }
    }
}

/// A sparse index of owned items, handing out increasing indices.
#[verifier::reject_recursive_types(T)]
pub struct PageMap<T, F: PageItemFactory<T>> {
    page_item_factory: F,
    next_index: u32,
    size: u32,
    items: Vec<Option<Box<T>>>,
    occupieds: Ghost<Set<int>>,
}

impl<T, F: PageItemFactory<T>> PageMap<T, F> {
    /// The indices that hold an item.
    pub closed spec fn occupied(&self) -> Set<int> {
        self.occupieds@
    }

    /// The item under an occupied index.
    pub closed spec fn item(&self, index: int) -> T {
        *self.items@[index]->Some_0
    }

    /// Where the search for the next free index starts.
    pub closed spec fn spec_next(&self) -> nat {
        self.next_index as nat
    }

    pub closed spec fn wf(&self) -> bool {
        &&& self.items@.len() <= MAX_ITEMS
        &&& self.next_index <= MAX_ITEMS
        &&& self.occupieds@.finite()
        &&& self.occupieds@.len() == self.size
        &&& forall|i: int|
            #[trigger] self.occupieds@.contains(i) <==> (0 <= i < self.items@.len()
                && self.items@[i] is Some)
    }

    pub fn new(page_item_factory: F) -> (r: PageMap<T, F>)
        ensures
            r.wf(),
            r.occupied() == Set::<int>::empty(),
            r.spec_next() == 0,
    {
        PageMap {
            page_item_factory,
            next_index: 0,
            size: 0,
            items: Vec::new(),
            occupieds: Ghost(Set::empty()),
        }
    }

    fn is_occupied(&self, index: usize) -> (r: bool)
        requires
            self.wf(),
        ensures
            r == self.occupied().contains(index as int),
    {
        index < self.items.len() && self.items[index].is_some()
    }

    /// Takes the first free index from where the last search stopped, and stores
    /// the factory's item under it. Fails `OutOfSpace` when every index from there
    /// on is taken.
    pub fn gain_item(&mut self) -> (r: Result<usize, Error>)
        requires
            old(self).wf(),
        ensures
            final(self).wf(),
            r matches Ok(i) ==> old(self).spec_next() <= i < MAX_ITEMS && !old(self).occupied().contains(
                i as int,
            ) && (forall|k: int|
                old(self).spec_next() <= k < i ==> old(self).occupied().contains(k))
                && final(self).occupied() == old(self).occupied().insert(i as int)
                && final(self).spec_next() == i + 1 && (forall|k: int|
                old(self).occupied().contains(k) ==> final(self).item(k) == old(self).item(k)),
            r is Err <==> forall|k: int|
                old(self).spec_next() <= k < MAX_ITEMS ==> old(self).occupied().contains(k),
            r matches Err(e) ==> e.error_type == ErrorType::OutOfSpace && final(self).occupied()
                == old(self).occupied(),
    {
        let mut index: usize = 0;
        loop
            invariant_except_break
                forall|k: int|
                    old(self).spec_next() <= k < self.spec_next() ==> old(self).occupied().contains(k),
            invariant
                self.wf(),
                old(self).spec_next() <= self.spec_next() <= MAX_ITEMS,
                self.occupied() == old(self).occupied(),
                self.items == old(self).items,
            ensures
                self.wf(),
                self.occupied() == old(self).occupied(),
                self.items == old(self).items,
                old(self).spec_next() <= index < MAX_ITEMS,
                self.spec_next() == index + 1,
                !old(self).occupied().contains(index as int),
                forall|k: int|
                    old(self).spec_next() <= k < index ==> old(self).occupied().contains(k),
            decreases MAX_ITEMS - self.spec_next(),
        {
            let candidate = self.next_index as usize;
            if candidate >= MAX_ITEMS {
                return Err(Error::new(ErrorType::OutOfSpace, "No more space is available"));
            }
            self.next_index = self.next_index + 1;
            if !self.is_occupied(candidate) {
                index = candidate;
                break;
            }
        }
        let ghost before = self.items@;
        while self.items.len() <= index
            invariant
                index < MAX_ITEMS,
                self.items@.len() <= MAX_ITEMS,
                self.occupieds@ == old(self).occupieds@,
                self.next_index == index + 1,
                self.size == old(self).size,
                self.items@.len() >= before.len(),
                forall|k: int| 0 <= k < before.len() ==> self.items@[k] == before[k],
                forall|k: int| before.len() <= k < self.items@.len() ==> self.items@[k] is None,
            decreases index + 1 - self.items@.len(),
        {
            self.items.push(None);
        }
        let item = self.page_item_factory.create_item(index);
        self.items.set(index, Some(item));
        proof {
            assert(!self.occupieds@.contains(index as int));
            self.occupieds@ = self.occupieds@.insert(index as int);
            assert forall|i: int|
                #[trigger] self.occupieds@.contains(i) <==> (0 <= i < self.items@.len()
                    && self.items@[i] is Some) by {
                if i != index && 0 <= i < before.len() {
                    assert(self.items@[i] == before[i]);
                }
            }
            lemma_int_range(0, self.items@.len() as int);
            lemma_len_subset(self.occupieds@, set_int_range(0, self.items@.len() as int));
        }
        self.size = self.size + 1;
        Ok(index)
    }

    /// Drops the item under `index`. Fails `FatalError` when there is none.
    pub fn recycle_item(&mut self, index: usize) -> (r: Result<(), Error>)
        requires
            old(self).wf(),
        ensures
            final(self).wf(),
            final(self).spec_next() == old(self).spec_next(),
            r is Err <==> !old(self).occupied().contains(index as int),
            r matches Err(e) ==> e.error_type == ErrorType::FatalError && final(self).occupied()
                == old(self).occupied(),
            r is Ok ==> final(self).occupied() == old(self).occupied().remove(index as int)
                && final(self).occupied().len() == old(self).occupied().len() - 1,
            final(self).occupied().finite(),
            forall|k: int|
                final(self).occupied().contains(k) ==> final(self).item(k) == old(self).item(k),
    {
        if !self.is_occupied(index) {
            return Err(Error::new(ErrorType::FatalError, "Item not found"));
        }
        self.items.set(index, None);
        proof {
            self.occupieds@ = self.occupieds@.remove(index as int);
        }
        self.size = self.size - 1;
        Ok(())
    }

    /// How many items the map holds.
    pub fn get_size(&self) -> (r: usize)
        requires
            self.wf(),
        ensures
            r == self.occupied().len(),
    {
        self.size as usize
    }

    /// Where the search for the next free index starts.
    pub fn peek_next_item_index(&self) -> (r: usize)
        ensures
            r == self.spec_next(),
    {
        self.next_index as usize
    }

    /// Moves the search start back from `from` to `to`, if it stands at `from` and
    /// `to` is lower; returns the search start.
    pub fn shrink_next_item_index(&mut self, from: usize, to: usize) -> (r: usize)
        requires
            old(self).wf(),
        ensures
            final(self).wf(),
            final(self).occupied() == old(self).occupied(),
            forall|k: int|
                final(self).occupied().contains(k) ==> final(self).item(k) == old(self).item(k),
            final(self).spec_next() == if old(self).spec_next() == from && to < from {
                to as nat
            } else {
                old(self).spec_next()
            },
            r == final(self).spec_next(),
    {
        if self.next_index as usize == from && to < from {
            self.next_index = to as u32;
        }
        self.next_index as usize
    }

    /// The item under `index`, if there is one.
    pub fn get(&self, index: usize) -> (r: Option<&T>)
        requires
            self.wf(),
        ensures
            r is Some <==> self.occupied().contains(index as int),
            r matches Some(x) ==> *x == self.item(index as int),
    {
        if index < self.items.len() {
            match &self.items[index] {
                Some(item) => Some(item),
                None => None,
            }
        } else {
            None
        }
    }

    /// The occupied indices, in ascending order.
    pub fn iterate_items(&self) -> (r: PageIterator)
        requires
            self.wf(),
        ensures
            r.wf(),
            forall|a: int, b: int| 0 <= a < b < r.remaining().len() ==> r.remaining()[a] < r.remaining()[b],
            forall|k: int| self.occupied().contains(k) <==> exists|j: int|
                0 <= j < r.remaining().len() && r.remaining()[j] as int == k,
    {
        let mut indices: Vec<usize> = Vec::new();
        let mut i: usize = 0;
        while i < self.items.len()
            invariant
                self.wf(),
                i <= self.items@.len(),
                forall|a: int, b: int| 0 <= a < b < indices@.len() ==> indices@[a] < indices@[b],
                forall|a: int| 0 <= a < indices@.len() ==> indices@[a] < i,
                forall|k: int| 0 <= k < i && self.occupied().contains(k) ==> exists|j: int|
                    0 <= j < indices@.len() && indices@[j] as int == k,
                forall|j: int| 0 <= j < indices@.len() ==> self.occupied().contains(indices@[j] as int),
            decreases self.items@.len() - i,
        {
            let ghost before = indices@;
            if self.items[i].is_some() {
                indices.push(i);
            }
            proof {
                assert forall|k: int| 0 <= k < i + 1 && self.occupied().contains(k) implies exists|j: int|
                    0 <= j < indices@.len() && indices@[j] as int == k by {
                    if k < i {
                        let j = choose|j: int| 0 <= j < before.len() && before[j] as int == k;
                        assert(indices@[j] == before[j]);
                    } else {
                        assert(indices@[indices@.len() - 1] as int == k);
                    }
                }
            }
            i = i + 1;
        }
        let r = PageIterator { indices, position: 0 };
        assert(r.remaining() =~= r.indices@);
        r
    }
}

} // verus!
