use vstd::prelude::*;

use crate::value::Value;

verus! {

/// `values` with every element equal to `old_value` replaced by `new_value`.
pub open spec fn replaced(values: Seq<Value>, old_value: Value, new_value: Value) -> Seq<Value> {
    values.map_values(|v: Value| if v == old_value { new_value } else { v })
}

/// Copies `values` element by element.
pub fn copy_values(values: &Vec<Value>) -> (r: Vec<Value>)
    ensures
        r@ == values@,
{
    let mut result: Vec<Value> = Vec::new();
    let mut i: usize = 0;
    while i < values.len()
        invariant
            i <= values@.len(),
            result@ == values@.take(i as int),
        decreases values@.len() - i,
    {
        result.push(values[i]);
        i = i + 1;
        assert(result@ =~= values@.take(i as int));
    }
    assert(result@ =~= values@);
    result
}

/// Replaces, in place, every element equal to `old_value` by `new_value`.
pub fn replace_values(values: &mut Vec<Value>, old_value: Value, new_value: Value)
    ensures
        final(values)@ == replaced(old(values)@, old_value, new_value),
{
    let mut i: usize = 0;
    while i < values.len()
        invariant
            i <= values@.len(),
            values@.len() == old(values)@.len(),
            forall|k: int| 0 <= k < i ==> values@[k] == (if old(values)@[k] == old_value {
                new_value
            } else {
                old(values)@[k]
            }),
            forall|k: int| i <= k < values@.len() ==> values@[k] == old(values)@[k],
        decreases values@.len() - i,
    {
        if values[i] == old_value {
            values.set(i, new_value);
        }
        i = i + 1;
    }
    assert(values@ =~= replaced(old(values)@, old_value, new_value));
}

/// The elements of a list value, kept as an internal slot of its subject.
pub struct List {
    subject: Value,
    values: Vec<Value>,
}

impl View for List {
    type V = Seq<Value>;

    closed spec fn view(&self) -> Seq<Value> {
        self.values@
    }
}

impl List {
    /// The value whose elements these are.
    pub closed spec fn spec_subject(&self) -> Value {
        self.subject
    }

    pub fn new(subject: Value, values: Vec<Value>) -> (r: List)
        ensures
            r@ == values@,
            r.spec_subject() == subject,
    {
        List { subject, values }
    }

    /// Points the list at a moved subject.
    pub fn refresh_subject(&mut self, subject: Value)
        ensures
            final(self).spec_subject() == subject,
            final(self)@ == old(self)@,
    {
        self.subject = subject;
    }

    /// The values the list references: its elements, in order.
    pub fn list_referenced_values(&self) -> (r: Vec<Value>)
        ensures
            r@ == self@,
    {
        self.get_value_list()
    }

    /// Replaces every element equal to `old_value` by `new_value`.
    pub fn refresh_referenced_value(&mut self, old_value: Value, new_value: Value)
        ensures
            final(self)@ == replaced(old(self)@, old_value, new_value),
            final(self).spec_subject() == old(self).spec_subject(),
    {
        replace_values(&mut self.values, old_value, new_value);
    }

    pub fn get_length(&self) -> (r: usize)
        ensures
            r == self@.len(),
    {
        self.values.len()
    }

    /// The element at `index`, or undefined past the end.
    pub fn get_element(&self, index: usize) -> (r: Value)
        ensures
            index < self@.len() ==> r == self@[index as int],
            index >= self@.len() ==> r == Value::spec_undefined(),
    {
        if index >= self.values.len() {
            return Value::make_undefined();
        }
        self.values[index]
    }

    /// Sets the element at `index`, padding with undefined up to it; returns the
    /// references removed and added: the old element and `value`.
    pub fn set_element(&mut self, index: usize, value: Value) -> (r: (Vec<Value>, Vec<Value>))
        requires
            index < usize::MAX,
        ensures
            final(self)@.len() == if index < old(self)@.len() {
                old(self)@.len()
            } else {
                (index + 1) as nat
            },
            final(self)@[index as int] == value,
            forall|k: int| 0 <= k < final(self)@.len() && k != index ==> final(self)@[k] == if k < old(
                self,
            )@.len() {
                old(self)@[k]
            } else {
                Value::spec_undefined()
            },
            r.0@ == seq![if index < old(self)@.len() {
                old(self)@[index as int]
            } else {
                Value::spec_undefined()
            }],
            r.1@ == seq![value],
            final(self).spec_subject() == old(self).spec_subject(),
    {
        while index >= self.values.len()
            invariant
                index < usize::MAX,
                self.subject == old(self).subject,
                self.values@.len() <= if index < old(self).values@.len() {
                    old(self).values@.len()
                } else {
                    (index + 1) as nat
                },
                self.values@.len() >= old(self).values@.len(),
                forall|k: int| 0 <= k < old(self).values@.len() ==> self.values@[k] == old(self).values@[k],
                forall|k: int|
                    old(self).values@.len() <= k < self.values@.len() ==> self.values@[k]
                        == Value::spec_undefined(),
            decreases index + 1 - self.values@.len(),
        {
            self.values.push(Value::make_undefined());
        }
        let old_value = self.values[index];
        self.values.set(index, value);
        let mut removed: Vec<Value> = Vec::new();
        removed.push(old_value);
        let mut added: Vec<Value> = Vec::new();
        added.push(value);
        assert(removed@ =~= seq![old_value]);
        assert(added@ =~= seq![value]);
        (removed, added)
    }

    /// The elements, in order.
    pub fn get_value_list(&self) -> (r: Vec<Value>)
        ensures
            r@ == self@,
    {
        copy_values(&self.values)
    }
}

/// The elements of a tuple value, with the tuple's shape id.
pub struct Tuple {
    subject: Value,
    id: u32,
    values: Vec<Value>,
}

impl View for Tuple {
    type V = Seq<Value>;

    closed spec fn view(&self) -> Seq<Value> {
        self.values@
    }
}

impl Tuple {
    pub closed spec fn spec_subject(&self) -> Value {
        self.subject
    }

    pub closed spec fn spec_id(&self) -> u32 {
        self.id
    }

    pub fn new(subject: Value, id: u32, values: Vec<Value>) -> (r: Tuple)
        ensures
            r@ == values@,
            r.spec_subject() == subject,
            r.spec_id() == id,
    {
        Tuple { subject, id, values }
    }

    pub fn get_id(&self) -> (r: u32)
        ensures
            r == self.spec_id(),
    {
        self.id
    }

    /// Points the tuple at a moved subject.
    pub fn refresh_subject(&mut self, subject: Value)
        ensures
            final(self).spec_subject() == subject,
            final(self)@ == old(self)@,
            final(self).spec_id() == old(self).spec_id(),
    {
        self.subject = subject;
    }

    /// The values the tuple references: its elements, in order.
    pub fn list_referenced_values(&self) -> (r: Vec<Value>)
        ensures
            r@ == self@,
    {
        self.get_value_list()
    }

    /// Replaces every element equal to `old_value` by `new_value`.
    pub fn refresh_referenced_value(&mut self, old_value: Value, new_value: Value)
        ensures
            final(self)@ == replaced(old(self)@, old_value, new_value),
            final(self).spec_subject() == old(self).spec_subject(),
            final(self).spec_id() == old(self).spec_id(),
    {
        replace_values(&mut self.values, old_value, new_value);
    }

    pub fn get_length(&self) -> (r: usize)
        ensures
            r == self@.len(),
    {
        self.values.len()
    }

    /// The element at `index`, or undefined past the end.
    pub fn get_element(&self, index: usize) -> (r: Value)
        ensures
            index < self@.len() ==> r == self@[index as int],
            index >= self@.len() ==> r == Value::spec_undefined(),
    {
        if index >= self.values.len() {
            return Value::make_undefined();
        }
        self.values[index]
    }

    /// The elements, in order.
    pub fn get_value_list(&self) -> (r: Vec<Value>)
        ensures
            r@ == self@,
    {
        copy_values(&self.values)
    }
}

} // verus!
