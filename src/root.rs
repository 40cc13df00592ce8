use vstd::prelude::*;

use crate::error::Error;
use crate::error::ErrorType;
use crate::value::Value;

verus! {

/// Hands out weak root ids, counting up from 1.
pub struct WeakIdGenerator {
    next_id: u32,
}

impl WeakIdGenerator {
    /// The id the next call of `generate` returns.
    pub closed spec fn spec_next(&self) -> u32 {
        self.next_id
    }

    pub fn new() -> (r: WeakIdGenerator)
        ensures
            r.spec_next() == 1,
    {
        WeakIdGenerator { next_id: 1 }
    }

    /// A fresh id; the counter wraps after `u32::MAX`.
    pub fn generate(&mut self) -> (r: u32)
        ensures
            r == old(self).spec_next(),
            final(self).spec_next() == (if r == u32::MAX {
                0
            } else {
                (r + 1) as u32
            }),
    {
        let id = self.next_id;
        self.next_id = self.next_id.wrapping_add(1);
        id
    }
}

/// Told once when the slot that a weak root watches is reclaimed.
pub trait DropListener {
    fn notify_drop(&self);
}

/// A strong root handle: the value it keeps alive and how many holders it has.
pub struct Root {
    value: Value,
    references: u32,
}

impl Root {
    pub closed spec fn spec_value(&self) -> Value {
        self.value
    }

    pub closed spec fn spec_references(&self) -> nat {
        self.references as nat
    }

    /// A root of `value` with no holders yet.
    pub fn new(value: Value) -> (r: Root)
        ensures
            r.spec_value() == value,
            r.spec_references() == 0,
    {
        Root { value, references: 0 }
    }

    pub fn get_value(&self) -> (r: Value)
        ensures
            r == self.spec_value(),
    {
        self.value
    }

    /// Follows a move of the rooted value from `old_value` to `new_value`.
    pub fn refresh_value(&mut self, old_value: Value, new_value: Value)
        ensures
            final(self).spec_value() == if old(self).spec_value() == old_value {
                new_value
            } else {
                old(self).spec_value()
            },
            final(self).spec_references() == old(self).spec_references(),
    {
        if self.value == old_value {
            self.value = new_value;
        }
    }

    /// One more holder; returns the new count.
    pub fn increase_reference(&mut self) -> (r: Result<u32, Error>)
        requires
            old(self).spec_references() < u32::MAX,
        ensures
            r matches Ok(n) && n == old(self).spec_references() + 1,
            final(self).spec_references() == old(self).spec_references() + 1,
            final(self).spec_value() == old(self).spec_value(),
    {
        self.references = self.references + 1;
        Ok(self.references)
    }

    /// One holder less; returns the new count. `FatalError` when it has none.
    pub fn decrease_reference(&mut self) -> (r: Result<u32, Error>)
        ensures
            r is Err <==> old(self).spec_references() == 0,
            r matches Err(e) ==> e.error_type == ErrorType::FatalError,
            r matches Ok(n) ==> n == old(self).spec_references() - 1,
            final(self).spec_references() == if old(self).spec_references() == 0 {
                0
            } else {
                old(self).spec_references() - 1
            },
            final(self).spec_value() == old(self).spec_value(),
    {
        if self.references == 0 {
            return Err(Error::new(ErrorType::FatalError, "Reference count over released"));
        }
        self.references = self.references - 1;
        Ok(self.references)
    }

    /// Nothing holds the root.
    pub fn is_alone(&self) -> (r: bool)
        ensures
            r == (self.spec_references() == 0),
    {
        self.references == 0
    }
}

/// All root handles of one value; a handle is named by its index.
pub struct Roots {
    value: Value,
    roots: Vec<Root>,
}

impl Roots {
    pub closed spec fn spec_value(&self) -> Value {
        self.value
    }

    /// The handles, in order of creation.
    pub closed spec fn handles(&self) -> Seq<Root> {
        self.roots@
    }

    /// Every handle roots the group's value.
    pub closed spec fn wf(&self) -> bool {
        forall|i: int| 0 <= i < self.roots@.len() ==> (#[trigger] self.roots@[i]).value == self.value
    }

    /// No handle has a holder.
    pub open spec fn spec_alone(&self) -> bool {
        forall|i: int| 0 <= i < self.handles().len() ==> (#[trigger] self.handles()[i]).spec_references() == 0
    }

    /// A group of `value` with no handle.
    pub fn new(value: Value) -> (r: Roots)
        ensures
            r.wf(),
            r.spec_value() == value,
            r.handles().len() == 0,
    {
        Roots { value, roots: Vec::new() }
    }

    pub fn get_value(&self) -> (r: Value)
        ensures
            r == self.spec_value(),
    {
        self.value
    }

    /// How many handles the group has.
    pub fn get_root_count(&self) -> (r: usize)
        ensures
            r == self.handles().len(),
    {
        self.roots.len()
    }

    /// A handle of the group: the first one, made if there is none.
    pub fn get_any_root(&mut self) -> (r: usize)
        requires
            old(self).wf(),
        ensures
            final(self).wf(),
            r == 0,
            final(self).spec_value() == old(self).spec_value(),
            old(self).handles().len() > 0 ==> final(self).handles() == old(self).handles(),
            old(self).handles().len() == 0 ==> final(self).handles().len() == 1
                && final(self).handles()[0].spec_references() == 0
                && final(self).handles()[0].spec_value() == old(self).spec_value(),
    {
        if self.roots.len() == 0 {
            self.roots.push(Root::new(self.value));
        }
        0
    }

    /// The value that handle `index` roots.
    pub fn get_root_value(&self, index: usize) -> (r: Value)
        requires
            index < self.handles().len(),
        ensures
            r == self.handles()[index as int].spec_value(),
    {
        self.roots[index].get_value()
    }

    /// One more holder of handle `index`; returns its new count.
    pub fn increase_reference(&mut self, index: usize) -> (r: Result<u32, Error>)
        requires
            old(self).wf(),
            index < old(self).handles().len(),
            old(self).handles()[index as int].spec_references() < u32::MAX,
        ensures
            final(self).wf(),
            r matches Ok(n) && n == old(self).handles()[index as int].spec_references() + 1,
            final(self).spec_value() == old(self).spec_value(),
            final(self).handles().len() == old(self).handles().len(),
            final(self).handles()[index as int].spec_references() == old(self).handles()[index as int].spec_references() + 1,
            forall|i: int| 0 <= i < final(self).handles().len() && i != index ==> final(self).handles()[i] == old(self).handles()[i],
    {
        self.roots[index].increase_reference()
    }

    /// One holder less of handle `index`; returns its new count. `FatalError` when
    /// it has none.
    pub fn decrease_reference(&mut self, index: usize) -> (r: Result<u32, Error>)
        requires
            old(self).wf(),
            index < old(self).handles().len(),
        ensures
            final(self).wf(),
            r is Err <==> old(self).handles()[index as int].spec_references() == 0,
            r matches Ok(n) ==> n == old(self).handles()[index as int].spec_references() - 1,
            final(self).spec_value() == old(self).spec_value(),
            final(self).handles().len() == old(self).handles().len(),
            r is Ok ==> final(self).handles()[index as int].spec_references() == old(self).handles()[index as int].spec_references() - 1,
            r is Err ==> final(self).handles()[index as int] == old(self).handles()[index as int],
            forall|i: int| 0 <= i < final(self).handles().len() && i != index ==> final(self).handles()[i] == old(self).handles()[i],
    {
        self.roots[index].decrease_reference()
    }

    /// Follows a move of the group's value from `old_value` to `new_value`,
    /// handles included.
    pub fn refresh_value(&mut self, old_value: Value, new_value: Value)
        requires
            old(self).wf(),
        ensures
            final(self).wf(),
            final(self).spec_value() == if old(self).spec_value() == old_value {
                new_value
            } else {
                old(self).spec_value()
            },
            final(self).handles().len() == old(self).handles().len(),
            forall|i: int| 0 <= i < final(self).handles().len() ==> (#[trigger] final(self).handles()[i]).spec_references()
                == old(self).handles()[i].spec_references(),
            forall|i: int| 0 <= i < final(self).handles().len() ==> (#[trigger] final(self).handles()[i]).spec_value()
                == final(self).spec_value(),
            old(self).spec_value() != old_value ==> *final(self) == *old(self),
    {
        if self.value != old_value {
            return;
        }
        self.value = new_value;
        let mut i: usize = 0;
        while i < self.roots.len()
            invariant
                i <= self.roots@.len(),
                self.roots@.len() == old(self).roots@.len(),
                self.value == new_value,
                old(self).value == old_value,
                old(self).wf(),
                forall|k: int| 0 <= k < i ==> (#[trigger] self.roots@[k]).value == new_value,
                forall|k: int| i <= k < self.roots@.len() ==> (#[trigger] self.roots@[k]) == old(self).roots@[k],
                forall|k: int| 0 <= k < self.roots@.len() ==> (#[trigger] self.roots@[k]).references == old(self).roots@[k].references,
            decreases self.roots@.len() - i,
        {
            self.roots[i].refresh_value(old_value, new_value);
            i = i + 1;
        }
    }

    /// Takes over the handles of `roots`, which must root the same value;
    /// `FatalError` otherwise.
    pub fn merge_roots(&mut self, roots: Roots) -> (r: Result<(), Error>)
        requires
            old(self).wf(),
            roots.wf(),
        ensures
            final(self).wf(),
            r is Err <==> old(self).spec_value() != roots.spec_value(),
            r is Err ==> *final(self) == *old(self),
            r is Ok ==> final(self).handles() == old(self).handles() + roots.handles(),
            final(self).spec_value() == old(self).spec_value(),
    {
        if self.value != roots.value {
            return Err(Error::new(ErrorType::FatalError, "Root value different"));
        }
        let mut others = roots.roots;
        let ghost front = self.roots@;
        let ghost back = others@;
        self.roots.append(&mut others);
        assert(self.roots@ =~= front + back);
        Ok(())
    }

    /// No handle of the group has a holder.
    pub fn is_alone(&self) -> (r: bool)
        ensures
            r == self.spec_alone(),
    {
        let mut i: usize = 0;
        while i < self.roots.len()
            invariant
                i <= self.roots@.len(),
                forall|k: int| 0 <= k < i ==> (#[trigger] self.roots@[k]).references == 0,
            decreases self.roots@.len() - i,
        {
            if !self.roots[i].is_alone() {
                assert(self.handles()[i as int].spec_references() != 0);
                return false;
            }
            i = i + 1;
        }
        true
    }
}

/// A weak root: it watches a value without keeping it alive, and tells its
/// listener, once, when the value's slot is reclaimed.
pub struct WeakRoot<L: DropListener> {
    weak_id: u32,
    value: Option<Value>,
    drop_listener: Option<L>,
}

impl<L: DropListener> WeakRoot<L> {
    pub closed spec fn spec_id(&self) -> u32 {
        self.weak_id
    }

    /// The watched value; `None` once dropped.
    pub closed spec fn spec_value(&self) -> Option<Value> {
        self.value
    }

    /// A listener is still waiting to be told.
    pub closed spec fn has_listener(&self) -> bool {
        self.drop_listener is Some
    }

    /// A weak root of `value` with an id from `weak_id_generator`.
    pub fn new(weak_id_generator: &mut WeakIdGenerator, value: Value, drop_listener: Option<L>) -> (r: WeakRoot<L>)
        ensures
            r.spec_id() == old(weak_id_generator).spec_next(),
            final(weak_id_generator).spec_next() == if r.spec_id() == u32::MAX {
                0
            } else {
                (r.spec_id() + 1) as u32
            },
            r.spec_value() == Some(value),
            r.has_listener() == drop_listener is Some,
    {
        let weak_id = weak_id_generator.generate();
        WeakRoot { weak_id, value: Some(value), drop_listener }
    }

    pub fn get_id(&self) -> (r: u32)
        ensures
            r == self.spec_id(),
    {
        self.weak_id
    }

    pub fn is_dropped(&self) -> (r: bool)
        ensures
            r == (self.spec_value() is None),
    {
        self.value.is_none()
    }

    pub fn get_value(&self) -> (r: Option<Value>)
        ensures
            r == self.spec_value(),
    {
        self.value
    }

    /// The watched slot was reclaimed: the root becomes dropped and its listener,
    /// if any, is told and let go, so that it is told once. `FatalError` when the
    /// root was dropped already.
    pub fn notify_drop(&mut self) -> (r: Result<(), Error>)
        ensures
            r is Err <==> old(self).spec_value() is None,
            r matches Err(e) ==> e.error_type == ErrorType::FatalError,
            final(self).spec_value() is None,
            r is Ok ==> !final(self).has_listener(),
            r is Err ==> final(self).has_listener() == old(self).has_listener(),
            final(self).spec_id() == old(self).spec_id(),
    {
        if self.value.is_none() {
            return Err(Error::new(ErrorType::FatalError, "Value already dropped"));
        }
        self.value = None;
        let mut listener: Option<L> = None;
        std::mem::swap(&mut listener, &mut self.drop_listener);
        match listener {
            Some(l) => {
                l.notify_drop();
            },
            None => {},
        }
        Ok(())
    }

    /// Follows a move of the watched value from `old_value` to `new_value`.
    pub fn refresh_value(&mut self, old_value: Value, new_value: Value)
        ensures
            final(self).spec_value() == if old(self).spec_value() == Some(old_value) {
                Some(new_value)
            } else {
                old(self).spec_value()
            },
            final(self).has_listener() == old(self).has_listener(),
            final(self).spec_id() == old(self).spec_id(),
    {
        if self.value == Some(old_value) {
            self.value = Some(new_value);
        }
    }
}

} // verus!
