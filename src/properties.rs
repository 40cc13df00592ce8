use vstd::prelude::*;

use crate::error::Error;
use crate::error::ErrorType;
use crate::symbol::{Symbol, SymbolScope};
use crate::value::Value;

verus! {

/// The field properties of one slot: a value per symbol, and a seal that stops
/// every change. The scope of the property symbols holds one reference for each
/// property key.
pub struct OwnProperties {
    fields: Vec<(Symbol, Value)>,
    sealed: bool,
}

impl OwnProperties {
    /// The properties, in order of creation.
    pub closed spec fn entries(&self) -> Seq<(Symbol, Value)> {
        self.fields@
    }

    pub closed spec fn spec_sealed(&self) -> bool {
        self.sealed
    }

    pub closed spec fn wf(&self) -> bool {
        forall|a: int, b: int| 0 <= a < b < self.fields@.len() ==> self.fields@[a].0 != self.fields@[b].0
    }

    pub open spec fn has(&self, symbol: Symbol) -> bool {
        exists|i: int| 0 <= i < self.entries().len() && self.entries()[i].0 == symbol
    }

    /// The value of property `symbol`.
    pub open spec fn value_of(&self, symbol: Symbol) -> Value {
        self.entries()[choose|i: int| 0 <= i < self.entries().len() && self.entries()[i].0 == symbol].1
    }

    pub fn new() -> (r: OwnProperties)
        ensures
            r.wf(),
            !r.spec_sealed(),
            forall|s: Symbol| !r.has(s),
    {
        OwnProperties { fields: Vec::new(), sealed: false }
    }

    fn find(&self, symbol: Symbol) -> (r: Option<usize>)
        requires
            self.wf(),
        ensures
            r is None <==> !self.has(symbol),
            r matches Some(i) ==> i < self.entries().len() && self.entries()[i as int].0 == symbol
                && self.value_of(symbol) == self.entries()[i as int].1,
    {
        let mut i: usize = 0;
        while i < self.fields.len()
            invariant
                self.wf(),
                i <= self.fields@.len(),
                forall|k: int| 0 <= k < i ==> self.fields@[k].0 != symbol,
            decreases self.fields@.len() - i,
        {
            if self.fields[i].0 == symbol {
                assert(self.entries()[i as int].0 == symbol);
                let ghost j = choose|j: int| 0 <= j < self.entries().len() && self.entries()[j].0 == symbol;
                assert(j == i as int);
                return Some(i);
            }
            i = i + 1;
        }
        None
    }

    /// The value of property `symbol`, if the slot has it.
    pub fn get_own_property(&self, symbol: Symbol) -> (r: Option<Value>)
        requires
            self.wf(),
        ensures
            r is None <==> !self.has(symbol),
            r matches Some(v) ==> v == self.value_of(symbol),
    {
        match self.find(symbol) {
            None => None,
            Some(i) => Some(self.fields[i].1),
        }
    }

    pub fn has_own_property(&self, symbol: Symbol) -> (r: bool)
        requires
            self.wf(),
        ensures
            r == self.has(symbol),
    {
        self.find(symbol).is_some()
    }

    /// The property symbols, in order of creation.
    pub fn list_own_property_symbols(&self) -> (r: Vec<Symbol>)
        ensures
            r@.len() == self.entries().len(),
            forall|i: int| 0 <= i < r@.len() ==> r@[i] == self.entries()[i].0,
    {
        let mut symbols: Vec<Symbol> = Vec::new();
        let mut i: usize = 0;
        while i < self.fields.len()
            invariant
                i <= self.fields@.len(),
                symbols@.len() == i,
                forall|k: int| 0 <= k < i ==> symbols@[k] == self.fields@[k].0,
            decreases self.fields@.len() - i,
        {
            symbols.push(self.fields[i].0);
            i = i + 1;
        }
        symbols
    }

    pub fn is_sealed(&self) -> (r: bool)
        ensures
            r == self.spec_sealed(),
    {
        self.sealed
    }

    /// Seals the properties; sealing is one-way.
    pub fn seal(&mut self)
        ensures
            final(self).spec_sealed(),
            final(self).entries() == old(self).entries(),
    {
        self.sealed = true;
    }

    /// Sets property `symbol` to `value`. A new property takes a reference on its
    /// symbol. Returns the value references to add and those to remove; the caller
    /// adds before it removes, so a value in both never drops to zero.
    /// `MutatingSealedProperty` when sealed.
    pub fn set_own_property(&mut self, scope: &mut SymbolScope, symbol: Symbol, value: Value) -> (r: Result<(Vec<Value>, Vec<Value>), Error>)
        requires
            old(self).wf(),
            old(scope).wf(),
            old(scope).reference_count(symbol) < u32::MAX,
        ensures
            final(self).wf(),
            final(scope).wf(),
            r is Err <==> old(self).spec_sealed(),
            r matches Err(e) ==> e.error_type == ErrorType::MutatingSealedProperty && *final(self) == *old(self)
                && *final(scope) == *old(scope),
            r is Ok ==> final(self).has(symbol) && final(self).value_of(symbol) == value
                && (forall|s: Symbol| s != symbol ==> final(self).has(s) == old(self).has(s))
                && references_follow(*old(self), *final(self), *old(scope), *final(scope)),
            final(self).spec_sealed() == old(self).spec_sealed(),
            r matches Ok((added, removed)) ==> added@ == seq![value] && removed@ == if old(self).has(symbol) {
                seq![old(self).value_of(symbol)]
            } else {
                Seq::<Value>::empty()
            },
    {
        if self.sealed {
            return Err(Error::new(ErrorType::MutatingSealedProperty, "Slot is sealed"));
        }
        let mut added: Vec<Value> = Vec::new();
        added.push(value);
        let mut removed: Vec<Value> = Vec::new();
        match self.find(symbol) {
            Some(i) => {
                removed.push(self.fields[i].1);
                let ghost before = self.fields@;
                self.fields.set(i, (symbol, value));
                proof {
                    self.lemma_update_keeps(before, i as int, symbol);
                }
                assert(added@ =~= seq![value]);
                assert(removed@ =~= seq![old(self).value_of(symbol)]);
                Ok((added, removed))
            },
            None => {
                let _ = scope.add_symbol_reference(symbol);
                let ghost before = self.fields@;
                self.fields.push((symbol, value));
                proof {
                    self.lemma_push_keeps(before, symbol);
                }
                assert(added@ =~= seq![value]);
                assert(removed@ =~= Seq::<Value>::empty());
                Ok((added, removed))
            },
        }
    }

    /// Defines property `symbol` as a field holding `value`, replacing whatever
    /// was there; a new key takes a reference on its symbol. Returns the value
    /// references to add (the new field's) and to remove (the replaced one's); the
    /// caller adds before it removes. `MutatingSealedProperty` when sealed.
    pub fn define_own_property(&mut self, scope: &mut SymbolScope, symbol: Symbol, value: Value) -> (r: Result<(Vec<Value>, Vec<Value>), Error>)
        requires
            old(self).wf(),
            old(scope).wf(),
            old(scope).reference_count(symbol) < u32::MAX,
        ensures
            final(self).wf(),
            final(scope).wf(),
            r is Err <==> old(self).spec_sealed(),
            r matches Err(e) ==> e.error_type == ErrorType::MutatingSealedProperty && *final(self) == *old(self)
                && *final(scope) == *old(scope),
            r is Ok ==> final(self).has(symbol) && final(self).value_of(symbol) == value
                && (forall|s: Symbol| s != symbol ==> final(self).has(s) == old(self).has(s))
                && references_follow(*old(self), *final(self), *old(scope), *final(scope)),
            final(self).spec_sealed() == old(self).spec_sealed(),
            r matches Ok((added, removed)) ==> added@ == seq![value] && removed@ == if old(self).has(symbol) {
                seq![old(self).value_of(symbol)]
            } else {
                Seq::<Value>::empty()
            },
    {
        self.set_own_property(scope, symbol, value)
    }

    /// Deletes property `symbol` and gives its symbol reference back. Returns the
    /// value reference the property held, for the caller to remove.
    /// `MutatingSealedProperty` when sealed, `PropertyNotFound` when missing,
    /// `FatalError` when the scope holds no reference on the symbol.
    pub fn delete_own_property(&mut self, scope: &mut SymbolScope, symbol: Symbol) -> (r: Result<Vec<Value>, Error>)
        requires
            old(self).wf(),
            old(scope).wf(),
        ensures
            final(self).wf(),
            final(scope).wf(),
            old(self).spec_sealed() ==> (r matches Err(e) && e.error_type == ErrorType::MutatingSealedProperty),
            !old(self).spec_sealed() && !old(self).has(symbol) ==> (r matches Err(e) && e.error_type
                == ErrorType::PropertyNotFound),
            !old(self).spec_sealed() && old(self).has(symbol) ==> (r is Err <==> old(scope).reference_count(symbol) == 0),
            r is Err ==> *final(self) == *old(self) && *final(scope) == *old(scope),
            r is Ok ==> !final(self).has(symbol)
                && (forall|s: Symbol| s != symbol ==> final(self).has(s) == old(self).has(s))
                && references_follow(*old(self), *final(self), *old(scope), *final(scope)),
            final(self).spec_sealed() == old(self).spec_sealed(),
            r matches Ok(removed) ==> removed@ == seq![old(self).value_of(symbol)],
    {
        if self.sealed {
            return Err(Error::new(ErrorType::MutatingSealedProperty, "Slot is sealed"));
        }
        match self.find(symbol) {
            None => Err(Error::new(ErrorType::PropertyNotFound, "Property not found")),
            Some(i) => {
                let mut removed: Vec<Value> = Vec::new();
                removed.push(self.fields[i].1);
                assert(removed@ =~= seq![old(self).value_of(symbol)]);
                let ghost scope_before = *scope;
                match scope.remove_symbol_reference(symbol) {
                    Ok(()) => {},
                    Err(e) => {
                        return Err(e);
                    },
                }
                let ghost before = self.fields@;
                self.fields.remove(i);
                proof {
                    self.lemma_remove_keeps(before, i as int, symbol);
                }
                Ok(removed)
            },
        }
    }

    proof fn lemma_update_keeps(&self, before: Seq<(Symbol, Value)>, i: int, symbol: Symbol)
        requires
            0 <= i < before.len(),
            before[i].0 == symbol,
            forall|a: int, b: int| 0 <= a < b < before.len() ==> before[a].0 != before[b].0,
            self.fields@ == before.update(i, (symbol, self.fields@[i].1)),
        ensures
            self.wf(),
            self.has(symbol),
            self.value_of(symbol) == self.fields@[i].1,
            forall|s: Symbol| s != symbol ==> (self.has(s) == exists|k: int| 0 <= k < before.len() && before[k].0 == s),
    {
        assert(self.entries()[i].0 == symbol);
        let j = choose|j: int| 0 <= j < self.entries().len() && self.entries()[j].0 == symbol;
        assert(self.fields@[j].0 == before[j].0);
        assert(j == i);
        assert forall|a: int, b: int| 0 <= a < b < self.fields@.len() implies self.fields@[a].0 != self.fields@[b].0 by {
            assert(self.fields@[a].0 == before[a].0);
            assert(self.fields@[b].0 == before[b].0);
        }
        assert forall|s: Symbol| s != symbol implies (self.has(s) == exists|k: int| 0 <= k < before.len() && before[k].0 == s) by {
            if exists|k: int| 0 <= k < before.len() && before[k].0 == s {
                let k = choose|k: int| 0 <= k < before.len() && before[k].0 == s;
                assert(self.entries()[k].0 == s);
            }
            if self.has(s) {
                let k = choose|k: int| 0 <= k < self.entries().len() && self.entries()[k].0 == s;
                assert(self.fields@[k].0 == before[k].0);
            }
        }
    }

    proof fn lemma_push_keeps(&self, before: Seq<(Symbol, Value)>, symbol: Symbol)
        requires
            forall|k: int| 0 <= k < before.len() ==> before[k].0 != symbol,
            forall|a: int, b: int| 0 <= a < b < before.len() ==> before[a].0 != before[b].0,
            self.fields@.len() == before.len() + 1,
            forall|k: int| 0 <= k < before.len() ==> self.fields@[k] == before[k],
            self.fields@[before.len() as int].0 == symbol,
        ensures
            self.wf(),
            self.has(symbol),
            self.value_of(symbol) == self.fields@[before.len() as int].1,
            forall|s: Symbol| s != symbol ==> (self.has(s) == exists|k: int| 0 <= k < before.len() && before[k].0 == s),
    {
        assert(self.entries()[before.len() as int].0 == symbol);
        let j = choose|j: int| 0 <= j < self.entries().len() && self.entries()[j].0 == symbol;
        if j < before.len() {
            assert(self.fields@[j] == before[j]);
        }
        assert(j == before.len());
        assert forall|a: int, b: int| 0 <= a < b < self.fields@.len() implies self.fields@[a].0 != self.fields@[b].0 by {
            if b < before.len() {
                assert(self.fields@[a] == before[a]);
                assert(self.fields@[b] == before[b]);
            } else {
                assert(self.fields@[a] == before[a]);
            }
        }
        assert forall|s: Symbol| s != symbol implies (self.has(s) == exists|k: int| 0 <= k < before.len() && before[k].0 == s) by {
            if exists|k: int| 0 <= k < before.len() && before[k].0 == s {
                let k = choose|k: int| 0 <= k < before.len() && before[k].0 == s;
                assert(self.entries()[k].0 == s);
            }
            if self.has(s) {
                let k = choose|k: int| 0 <= k < self.entries().len() && self.entries()[k].0 == s;
                if k < before.len() {
                    assert(self.fields@[k] == before[k]);
                }
            }
        }
    }

    proof fn lemma_remove_keeps(&self, before: Seq<(Symbol, Value)>, i: int, symbol: Symbol)
        requires
            0 <= i < before.len(),
            before[i].0 == symbol,
            forall|a: int, b: int| 0 <= a < b < before.len() ==> before[a].0 != before[b].0,
            self.fields@ == before.remove(i),
        ensures
            self.wf(),
            !self.has(symbol),
            forall|s: Symbol| s != symbol ==> (self.has(s) == exists|k: int| 0 <= k < before.len() && before[k].0 == s),
    {
        assert forall|a: int, b: int| 0 <= a < b < self.fields@.len() implies self.fields@[a].0 != self.fields@[b].0 by {
            let a2 = if a < i { a } else { a + 1 };
            let b2 = if b < i { b } else { b + 1 };
            assert(self.fields@[a] == before[a2]);
            assert(self.fields@[b] == before[b2]);
        }
        if self.has(symbol) {
            let k = choose|k: int| 0 <= k < self.entries().len() && self.entries()[k].0 == symbol;
            let k2 = if k < i { k } else { k + 1 };
            assert(before[k2].0 == symbol);
        }
        assert forall|s: Symbol| s != symbol implies (self.has(s) == exists|k: int| 0 <= k < before.len() && before[k].0 == s) by {
            if exists|k: int| 0 <= k < before.len() && before[k].0 == s {
                let k = choose|k: int| 0 <= k < before.len() && before[k].0 == s;
                assert(k != i);
                let k2 = if k < i { k } else { k - 1 };
                assert(self.entries()[k2].0 == s);
            }
            if self.has(s) {
                let k = choose|k: int| 0 <= k < self.entries().len() && self.entries()[k].0 == s;
                let k2 = if k < i { k } else { k + 1 };
                assert(before[k2].0 == s);
            }
        }
    }
}

/// Between two states, the reference count of every symbol moved exactly as its
/// property appeared or went.
pub open spec fn references_follow(
    before: OwnProperties,
    after: OwnProperties,
    scope_before: SymbolScope,
    scope_after: SymbolScope,
) -> bool {
    forall|s: Symbol|
        #[trigger] scope_after.reference_count(s) as int - scope_before.reference_count(s) as int == (if after.has(s) {
            1int
        } else {
            0int
        }) - (if before.has(s) {
            1int
        } else {
            0int
        })
}

/// Property changes keep symbol references balanced: when the scope's count of
/// every symbol is `base` plus one for each property keyed by it, the same holds
/// after any successful set, define or delete.
pub proof fn law_property_references_balanced(
    before: OwnProperties,
    after: OwnProperties,
    scope_before: SymbolScope,
    scope_after: SymbolScope,
    base: Map<Symbol, nat>,
)
    requires
        forall|s: Symbol| #[trigger] scope_before.reference_count(s) == base[s] + if before.has(s) { 1nat } else { 0nat },
        references_follow(before, after, scope_before, scope_after),
    ensures
        forall|s: Symbol| #[trigger] scope_after.reference_count(s) == base[s] + if after.has(s) { 1nat } else { 0nat },
{
    assert forall|s: Symbol| #[trigger] scope_after.reference_count(s) == base[s] + if after.has(s) { 1nat } else { 0nat } by {
        assert(scope_before.reference_count(s) == base[s] + if before.has(s) { 1nat } else { 0nat });
    }
}

} // verus!
