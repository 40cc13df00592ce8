use vstd::prelude::*;

use crate::error::Error;
use crate::error::ErrorType;
use crate::value::Value;

verus! {

/// Hands out symbol ids, counting up from 1.
pub struct SymbolIdGenerator {
    next_id: u32,
}

impl SymbolIdGenerator {
    /// The id the next call of `generate` returns.
    pub closed spec fn spec_next(&self) -> u32 {
        self.next_id
    }

    pub fn new() -> (r: SymbolIdGenerator)
        ensures
            r.spec_next() == 1,
    {
        SymbolIdGenerator { next_id: 1 }
    }

    /// A fresh id; the counter wraps after `u32::MAX`.
    pub fn generate(&mut self) -> (r: u32)
        ensures
            r == old(self).spec_next(),
            final(self).spec_next() == (if r == u32::MAX {
                0
            } else {
                (r + 1) as u32
            }),
    {
        let id = self.next_id;
        self.next_id = self.next_id.wrapping_add(1);
        id
    }
}

/// An interned property symbol, identified by its id.
#[derive(Copy, Clone, PartialEq, Eq, Structural, Hash, Debug)]
pub struct Symbol {
    pub id: u32,
}

impl Symbol {
    /// The symbol with the given id.
    pub fn new(id: u32) -> (r: Symbol)
        ensures
            r.id == id,
    {
        Symbol { id }
    }

    /// The id of this symbol.
    pub fn get_id(&self) -> (r: u32)
        ensures
            r == self.id,
    {
        self.id
    }
}

} // verus!

verus! {

/// What a symbol was interned for.
pub enum SymbolRecord {
    TextSymbol(String),
    ValueSymbol(Value),
}

spec fn text_of(entry: SymbolEntry) -> Option<Seq<char>> {
    match entry.text {
        Some(s) => Some(s@),
        None => None,
    }
}

struct SymbolEntry {
    symbol: Symbol,
    text: Option<String>,
    value: Option<Value>,
    in_nursery: bool,
}

/// Interned symbols of one named scope, keyed by text or by value, with reference
/// counts and a nursery of symbols that nothing has referenced yet.
pub struct SymbolScope {
    id: String,
    entries: Vec<SymbolEntry>,
    references: Vec<(Symbol, u32)>,
}

impl SymbolScope {
    pub closed spec fn spec_id(&self) -> Seq<char> {
        self.id@
    }

    pub closed spec fn text_at(&self, i: int) -> Option<Seq<char>> {
        text_of(self.entries@[i])
    }

    pub closed spec fn value_at(&self, i: int) -> Option<Value> {
        self.entries@[i].value
    }

    pub closed spec fn symbol_at(&self, i: int) -> Symbol {
        self.entries@[i].symbol
    }

    pub closed spec fn nursery_at(&self, i: int) -> bool {
        self.entries@[i].in_nursery
    }

    /// How many symbols the scope has interned and not recycled.
    pub closed spec fn entry_count(&self) -> nat {
        self.entries@.len()
    }

    /// The reference count of `symbol`.
    pub closed spec fn reference_count(&self, symbol: Symbol) -> nat {
        symbol_count(self.references@, symbol)
    }

    pub open spec fn has_text(&self, text: Seq<char>) -> bool {
        exists|i: int| 0 <= i < self.entry_count() && self.text_at(i) == Some(text)
    }

    pub open spec fn has_value(&self, value: Value) -> bool {
        exists|i: int| 0 <= i < self.entry_count() && self.value_at(i) == Some(value)
    }

    /// `text` is interned in this scope as `symbol`.
    pub open spec fn interned_text(&self, text: Seq<char>, symbol: Symbol) -> bool {
        &&& self.has_text(text)
        &&& forall|i: int|
            0 <= i < self.entry_count() && self.text_at(i) == Some(text) ==> self.symbol_at(i) == symbol
    }

    /// `value` is interned in this scope as `symbol`.
    pub open spec fn interned_value(&self, value: Value, symbol: Symbol) -> bool {
        &&& self.has_value(value)
        &&& forall|i: int|
            0 <= i < self.entry_count() && self.value_at(i) == Some(value) ==> self.symbol_at(i) == symbol
    }

    /// The entry of `symbol`, if the scope has one.
    pub open spec fn has_symbol(&self, symbol: Symbol) -> bool {
        exists|i: int| 0 <= i < self.entry_count() && self.symbol_at(i) == symbol
    }

    /// `symbol` has an entry that is in the nursery.
    pub open spec fn symbol_in_nursery(&self, symbol: Symbol) -> bool {
        exists|i: int| 0 <= i < self.entry_count() && self.symbol_at(i) == symbol && self.nursery_at(i)
    }

    pub closed spec fn wf(&self) -> bool {
        &&& forall|i: int, j: int|
            0 <= i < j < self.entries@.len() && (#[trigger] self.entries@[i]).text is Some ==> text_of(
                self.entries@[i],
            ) != text_of(#[trigger] self.entries@[j])
        &&& forall|i: int, j: int|
            0 <= i < j < self.entries@.len() && (#[trigger] self.entries@[i]).value is Some
                ==> self.entries@[i].value != (#[trigger] self.entries@[j]).value
        &&& forall|i: int, j: int|
            0 <= i < j < self.entries@.len() ==> self.entries@[i].symbol != self.entries@[j].symbol
        &&& forall|i: int|
            0 <= i < self.entries@.len() ==> (self.entries@[i].text is Some) != (
            self.entries@[i].value is Some)
        &&& forall|a: int, b: int|
            0 <= a < b < self.references@.len() ==> self.references@[a].0 != self.references@[b].0
    }

    /// An empty scope named `id`.
    pub fn new(id: &str) -> (r: SymbolScope)
        ensures
            r.wf(),
            r.spec_id() == id@,
            r.entry_count() == 0,
            forall|s: Symbol| r.reference_count(s) == 0,
    {
        SymbolScope { id: id.to_owned(), entries: Vec::new(), references: Vec::new() }
    }

    /// The name of the scope.
    pub fn get_id(&self) -> (r: String)
        ensures
            r@ == self.spec_id(),
    {
        self.id.clone()
    }

    fn find_symbol(&self, symbol: Symbol) -> (r: Option<usize>)
        requires
            self.wf(),
        ensures
            r is None <==> !self.has_symbol(symbol),
            r matches Some(i) ==> i < self.entry_count() && self.symbol_at(i as int) == symbol,
    {
        let mut i: usize = 0;
        while i < self.entries.len()
            invariant
                i <= self.entries@.len(),
                forall|k: int| 0 <= k < i ==> self.entries@[k].symbol != symbol,
            decreases self.entries@.len() - i,
        {
            if self.entries[i].symbol == symbol {
                assert(self.symbol_at(i as int) == symbol);
                return Some(i);
            }
            i = i + 1;
        }
        None
    }

    /// What `symbol` was interned for, if the scope has it.
    pub fn get_symbol_record(&self, symbol: Symbol) -> (r: Option<SymbolRecord>)
        requires
            self.wf(),
        ensures
            r is None <==> !self.has_symbol(symbol),
            r matches Some(record) ==> exists|i: int|
                0 <= i < self.entry_count() && self.symbol_at(i) == symbol && match record {
                    SymbolRecord::TextSymbol(t) => self.text_at(i) == Some(t@),
                    SymbolRecord::ValueSymbol(v) => self.value_at(i) == Some(v),
                },
    {
        match self.find_symbol(symbol) {
            None => None,
            Some(i) => {
                let entry = &self.entries[i];
                match &entry.text {
                    Some(text) => Some(SymbolRecord::TextSymbol(text.clone())),
                    None => match entry.value {
                        Some(value) => Some(SymbolRecord::ValueSymbol(value)),
                        None => None,
                    },
                }
            },
        }
    }

    /// The symbol of `text`: the one interned before, or a fresh one from
    /// `generator`, which enters the nursery.
    pub fn get_text_symbol(&mut self, generator: &mut SymbolIdGenerator, text: &str) -> (r: Symbol)
        requires
            old(self).wf(),
            forall|i: int| 0 <= i < old(self).entry_count() ==> old(self).symbol_at(i).id != old(generator).spec_next(),
        ensures
            final(self).wf(),
            final(self).interned_text(text@, r),
            old(self).has_text(text@) ==> *final(self) == *old(self) && *final(generator) == *old(generator),
            !old(self).has_text(text@) ==> r.id == old(generator).spec_next() && final(generator).spec_next() == next_id(old(generator).spec_next())
                && final(self).entry_count() == old(self).entry_count() + 1
                && final(self).nursery_at(old(self).entry_count() as int)
                && final(self).symbol_at(old(self).entry_count() as int) == r
                && final(self).kept_entries(old(self)),
            forall|s: Symbol| final(self).reference_count(s) == old(self).reference_count(s),
            final(self).spec_id() == old(self).spec_id(),
    {
        let key = text.to_owned();
        let mut i: usize = 0;
        while i < self.entries.len()
            invariant
                self.wf(),
                i <= self.entries@.len(),
                key@ == text@,
                *self == *old(self),
                forall|k: int| 0 <= k < i ==> self.text_at(k) != Some(text@),
            decreases self.entries@.len() - i,
        {
            let found = match &self.entries[i].text {
                Some(t) => *t == key,
                None => false,
            };
            if found {
                assert(self.text_at(i as int) == Some(text@));
                return self.entries[i].symbol;
            }
            i = i + 1;
        }
        let symbol = Symbol::new(generator.generate());
        let ghost before = self.entries@;
        self.entries.push(SymbolEntry { symbol, text: Some(key), value: None, in_nursery: true });
        assert(self.entries@ == before.push(self.entries@[before.len() as int]));
        assert(forall|k: int| 0 <= k < before.len() ==> self.entries@[k] == before[k]);
        assert((self.entries@[before.len() as int].text is Some) != (self.entries@[before.len() as int].value is Some));
        assert(self.text_at(before.len() as int) == Some(text@));
        assert forall|a: int, b: int|
            0 <= a < b < self.entries@.len() && self.entries@[a].text is Some implies text_of(self.entries@[a]) != text_of(self.entries@[b]) by {
            if b < before.len() {
                assert(old(self).text_at(a) != old(self).text_at(b));
            } else {
                assert(old(self).text_at(a) != Some(text@));
            }
        }
        assert forall|a: int, b: int|
            0 <= a < b < self.entries@.len() && self.entries@[a].value is Some implies self.entries@[a].value != self.entries@[b].value by {
            if b < before.len() {
                assert(old(self).value_at(a) != old(self).value_at(b));
            } else {
                assert(self.value_at(b) is None);
            }
        }
        assert forall|a: int, b: int|
            0 <= a < b < self.entries@.len() implies self.entries@[a].symbol != self.entries@[b].symbol by {
            if b == before.len() {
                assert(old(self).symbol_at(a).id != old(generator).spec_next());
            }
        }
        symbol
    }

    /// The symbol of `value`: the one interned before, or a fresh one from
    /// `generator`, which enters the nursery.
    pub fn get_value_symbol(&mut self, generator: &mut SymbolIdGenerator, value: Value) -> (r: Symbol)
        requires
            old(self).wf(),
            forall|i: int| 0 <= i < old(self).entry_count() ==> old(self).symbol_at(i).id != old(generator).spec_next(),
        ensures
            final(self).wf(),
            final(self).interned_value(value, r),
            old(self).has_value(value) ==> *final(self) == *old(self) && *final(generator) == *old(generator),
            !old(self).has_value(value) ==> r.id == old(generator).spec_next() && final(generator).spec_next() == next_id(old(generator).spec_next())
                && final(self).entry_count() == old(self).entry_count() + 1
                && final(self).nursery_at(old(self).entry_count() as int)
                && final(self).symbol_at(old(self).entry_count() as int) == r
                && final(self).kept_entries(old(self)),
            forall|s: Symbol| final(self).reference_count(s) == old(self).reference_count(s),
            final(self).spec_id() == old(self).spec_id(),
    {
        let mut i: usize = 0;
        while i < self.entries.len()
            invariant
                self.wf(),
                i <= self.entries@.len(),
                *self == *old(self),
                forall|k: int| 0 <= k < i ==> self.value_at(k) != Some(value),
            decreases self.entries@.len() - i,
        {
            if self.entries[i].value == Some(value) {
                assert(self.value_at(i as int) == Some(value));
                return self.entries[i].symbol;
            }
            i = i + 1;
        }
        let symbol = Symbol::new(generator.generate());
        let ghost before = self.entries@;
        self.entries.push(SymbolEntry { symbol, text: None, value: Some(value), in_nursery: true });
        assert(self.entries@ == before.push(self.entries@[before.len() as int]));
        assert(forall|k: int| 0 <= k < before.len() ==> self.entries@[k] == before[k]);
        assert((self.entries@[before.len() as int].text is Some) != (self.entries@[before.len() as int].value is Some));
        assert(self.value_at(before.len() as int) == Some(value));
        assert forall|a: int, b: int|
            0 <= a < b < self.entries@.len() && self.entries@[a].value is Some implies self.entries@[a].value != self.entries@[b].value by {
            if b < before.len() {
                assert(old(self).value_at(a) != old(self).value_at(b));
            } else {
                assert(old(self).value_at(a) != Some(value));
            }
        }
        assert forall|a: int, b: int|
            0 <= a < b < self.entries@.len() && self.entries@[a].text is Some implies text_of(self.entries@[a]) != text_of(self.entries@[b]) by {
            if b < before.len() {
                assert(old(self).text_at(a) != old(self).text_at(b));
            } else {
                assert(self.text_at(b) is None);
            }
        }
        assert forall|a: int, b: int|
            0 <= a < b < self.entries@.len() implies self.entries@[a].symbol != self.entries@[b].symbol by {
            if b == before.len() {
                assert(old(self).symbol_at(a).id != old(generator).spec_next());
            }
        }
        symbol
    }

    /// Both scopes hold the same entries.
    pub closed spec fn same_entries(&self, old: &SymbolScope) -> bool {
        self.entries == old.entries
    }

    /// The entries of `old` are kept, in order, at the front.
    pub closed spec fn kept_entries(&self, old: &SymbolScope) -> bool {
        &&& old.entries@.len() <= self.entries@.len()
        &&& forall|i: int| 0 <= i < old.entries@.len() ==> self.entries@[i] == old.entries@[i]
    }

    /// Records one more reference to `symbol`, which leaves the nursery.
    pub fn add_symbol_reference(&mut self, symbol: Symbol) -> (r: Result<(), Error>)
        requires
            old(self).wf(),
            old(self).reference_count(symbol) < u32::MAX,
        ensures
            final(self).wf(),
            r is Ok,
            final(self).reference_count(symbol) == old(self).reference_count(symbol) + 1,
            forall|s: Symbol| s != symbol ==> final(self).reference_count(s) == old(self).reference_count(s),
            !final(self).symbol_in_nursery(symbol),
            final(self).entry_count() == old(self).entry_count(),
            forall|i: int| 0 <= i < final(self).entry_count() ==> final(self).symbol_at(i) == old(self).symbol_at(i)
                && final(self).text_at(i) == old(self).text_at(i) && final(self).value_at(i) == old(self).value_at(i)
                && final(self).nursery_at(i) == (old(self).nursery_at(i) && old(self).symbol_at(i) != symbol),
    {
        let ghost before = self.references@;
        match find_count(&self.references, symbol) {
            None => {
                proof {
                    lemma_symbol_count_push(before, symbol, 1);
                }
                self.references.push((symbol, 1));
                assert(self.references@ == before.push((symbol, 1u32)));
                assert(forall|k: int| 0 <= k < before.len() ==> self.references@[k].0 == before[k].0);
            },
            Some(i) => {
                let n = self.references[i].1;
                proof {
                    lemma_symbol_count_update(before, i as int, (n + 1) as u32);
                }
                self.references.set(i, (symbol, n + 1));
                assert(forall|k: int| 0 <= k < before.len() ==> self.references@[k].0 == before[k].0);
            },
        }
        let ghost counts = self.references@;
        let mut i: usize = 0;
        while i < self.entries.len()
            invariant
                i <= self.entries@.len(),
                self.references@ == counts,
                self.id == old(self).id,
                self.entries@.len() == old(self).entries@.len(),
                old(self).wf(),
                forall|k: int| 0 <= k < self.entries@.len() ==> self.entries@[k].symbol == old(self).entries@[k].symbol
                    && self.entries@[k].text == old(self).entries@[k].text && self.entries@[k].value == old(self).entries@[k].value,
                forall|k: int| 0 <= k < i ==> self.entries@[k].in_nursery == (old(self).entries@[k].in_nursery && old(self).entries@[k].symbol != symbol),
                forall|k: int| i <= k < self.entries@.len() ==> self.entries@[k].in_nursery == old(self).entries@[k].in_nursery,
            decreases self.entries@.len() - i,
        {
            if self.entries[i].symbol == symbol && self.entries[i].in_nursery {
                self.entries[i].in_nursery = false;
            }
            i = i + 1;
        }
        Ok(())
    }

    /// Removes one reference to `symbol`; `FatalError` when it has none. The
    /// symbol does not go back to the nursery.
    pub fn remove_symbol_reference(&mut self, symbol: Symbol) -> (r: Result<(), Error>)
        requires
            old(self).wf(),
        ensures
            final(self).wf(),
            r is Err <==> old(self).reference_count(symbol) == 0,
            r matches Err(e) ==> e.error_type == ErrorType::FatalError,
            *final(self) == *old(self) || r is Ok,
            r is Ok ==> final(self).reference_count(symbol) == old(self).reference_count(symbol) - 1,
            forall|s: Symbol| s != symbol ==> final(self).reference_count(s) == old(self).reference_count(s),
            final(self).same_entries(old(self)),
    {
        let ghost before = self.references@;
        match find_count(&self.references, symbol) {
            None => Err(Error::new(ErrorType::FatalError, "Symbol has no references")),
            Some(i) => {
                let n = self.references[i].1;
                if n == 0 {
                    return Err(Error::new(ErrorType::FatalError, "Symbol has no references"));
                }
                proof {
                    lemma_symbol_count_update(before, i as int, (n - 1) as u32);
                }
                self.references.set(i, (symbol, n - 1));
                assert(forall|k: int| 0 <= k < before.len() ==> self.references@[k].0 == before[k].0);
                Ok(())
            },
        }
    }

    /// Forgets `symbol`. Fails `FatalError` while it is in the nursery, while it
    /// is referenced, or when the scope does not have it.
    pub fn recycle_symbol(&mut self, symbol: Symbol) -> (r: Result<(), Error>)
        requires
            old(self).wf(),
        ensures
            final(self).wf(),
            r is Err <==> (old(self).symbol_in_nursery(symbol) || old(self).reference_count(symbol) > 0
                || !old(self).has_symbol(symbol)),
            r matches Err(e) ==> e.error_type == ErrorType::FatalError && *final(self) == *old(self),
            r is Ok ==> !final(self).has_symbol(symbol) && final(self).entry_count() == old(self).entry_count() - 1
                && (forall|s: Symbol| final(self).reference_count(s) == old(self).reference_count(s))
                && (forall|s: Symbol| s != symbol ==> (final(self).has_symbol(s) == old(self).has_symbol(s))),
    {
        let found = self.find_symbol(symbol);
        match found {
            None => Err(Error::new(ErrorType::FatalError, "Symbol not found")),
            Some(i) => {
                if self.entries[i].in_nursery {
                    return Err(Error::new(ErrorType::FatalError, "Symbol in nursery"));
                }
                if count_of_symbol(&self.references, symbol) > 0 {
                    return Err(Error::new(ErrorType::FatalError, "Symbol referenced by other objects"));
                }
                let ghost before = self.entries@;
                self.entries.remove(i);
                assert(self.entries@ == before.remove(i as int));
                assert forall|a: int, b: int| 0 <= a < b < self.entries@.len() implies
                    (self.entries@[a].text is Some ==> text_of(self.entries@[a]) != text_of(self.entries@[b]))
                    && (self.entries@[a].value is Some ==> self.entries@[a].value != self.entries@[b].value)
                    && self.entries@[a].symbol != self.entries@[b].symbol by {
                    let a2 = if a < i { a } else { a + 1 };
                    let b2 = if b < i { b } else { b + 1 };
                    assert(self.entries@[a] == before[a2]);
                    assert(self.entries@[b] == before[b2]);
                    assert(a2 < b2);
                }
                assert forall|s: Symbol| s != symbol implies (self.has_symbol(s) == old(self).has_symbol(s)) by {
                    if old(self).has_symbol(s) {
                        let k = choose|k: int| 0 <= k < old(self).entry_count() && old(self).symbol_at(k) == s;
                        if k < i {
                            assert(self.symbol_at(k) == s);
                        } else {
                            assert(k != i);
                            assert(self.symbol_at(k - 1) == s);
                        }
                    }
                    if self.has_symbol(s) {
                        let k = choose|k: int| 0 <= k < self.entry_count() && self.symbol_at(k) == s;
                        if k < i {
                            assert(old(self).symbol_at(k) == s);
                        } else {
                            assert(old(self).symbol_at(k + 1) == s);
                        }
                    }
                }
                assert(!self.has_symbol(symbol)) by {
                    if self.has_symbol(symbol) {
                        let k = choose|k: int| 0 <= k < self.entry_count() && self.symbol_at(k) == symbol;
                        if k < i {
                            assert(old(self).symbol_at(k) == symbol);
                        } else {
                            assert(old(self).symbol_at(k + 1) == symbol);
                        }
                    }
                }
                Ok(())
            },
        }
    }
}

/// The id after `k`, wrapping after `u32::MAX`.
pub open spec fn next_id(k: u32) -> u32 {
    if k == u32::MAX {
        0
    } else {
        (k + 1) as u32
    }
}

/// The recorded count of `symbol`.
pub open spec fn symbol_count(entries: Seq<(Symbol, u32)>, symbol: Symbol) -> nat
    decreases entries.len(),
{
    if entries.len() == 0 {
        0
    } else {
        symbol_count(entries.drop_last(), symbol) + if entries.last().0 == symbol {
            entries.last().1 as nat
        } else {
            0nat
        }
    }
}

proof fn lemma_symbol_count_update(entries: Seq<(Symbol, u32)>, i: int, n: u32)
    requires
        0 <= i < entries.len(),
    ensures
        forall|s: Symbol|
            #[trigger] symbol_count(entries.update(i, (entries[i].0, n)), s) == if s == entries[i].0 {
                symbol_count(entries, s) - entries[i].1 + n
            } else {
                symbol_count(entries, s) as int
            },
    decreases entries.len(),
{
    let u = entries.update(i, (entries[i].0, n));
    if i == entries.len() - 1 {
        assert(u.drop_last() =~= entries.drop_last());
    } else {
        lemma_symbol_count_update(entries.drop_last(), i, n);
        assert(u.drop_last() =~= entries.drop_last().update(i, (entries[i].0, n)));
    }
    assert forall|s: Symbol|
        #[trigger] symbol_count(u, s) == if s == entries[i].0 {
            symbol_count(entries, s) - entries[i].1 + n
        } else {
            symbol_count(entries, s) as int
        } by {
        if i != entries.len() - 1 {
            assert(symbol_count(entries.drop_last().update(i, (entries[i].0, n)), s) == if s
                == entries[i].0 {
                symbol_count(entries.drop_last(), s) - entries[i].1 + n
            } else {
                symbol_count(entries.drop_last(), s) as int
            });
        }
    }
}

proof fn lemma_symbol_count_push(entries: Seq<(Symbol, u32)>, symbol: Symbol, n: u32)
    ensures
        forall|s: Symbol|
            #[trigger] symbol_count(entries.push((symbol, n)), s) == symbol_count(entries, s) + if s == symbol {
                n as nat
            } else {
                0nat
            },
{
    assert(entries.push((symbol, n)).drop_last() =~= entries);
}

proof fn lemma_symbol_count_absent(entries: Seq<(Symbol, u32)>, symbol: Symbol)
    requires
        forall|k: int| 0 <= k < entries.len() ==> entries[k].0 != symbol,
    ensures
        symbol_count(entries, symbol) == 0,
    decreases entries.len(),
{
    if entries.len() > 0 {
        lemma_symbol_count_absent(entries.drop_last(), symbol);
    }
}

proof fn lemma_symbol_count_single(entries: Seq<(Symbol, u32)>, i: int)
    requires
        0 <= i < entries.len(),
        forall|a: int, b: int| 0 <= a < b < entries.len() ==> entries[a].0 != entries[b].0,
    ensures
        symbol_count(entries, entries[i].0) == entries[i].1,
    decreases entries.len(),
{
    if i == entries.len() - 1 {
        lemma_symbol_count_absent(entries.drop_last(), entries[i].0);
    } else {
        lemma_symbol_count_single(entries.drop_last(), i);
    }
}

/// The position of `symbol` among the counts, if any; counts hold each symbol once.
fn find_count(references: &Vec<(Symbol, u32)>, symbol: Symbol) -> (r: Option<usize>)
    requires
        forall|a: int, b: int| 0 <= a < b < references@.len() ==> references@[a].0 != references@[b].0,
    ensures
        r is None ==> symbol_count(references@, symbol) == 0 && forall|k: int|
            0 <= k < references@.len() ==> references@[k].0 != symbol,
        r matches Some(i) ==> i < references@.len() && references@[i as int].0 == symbol
            && symbol_count(references@, symbol) == references@[i as int].1,
{
    let mut i: usize = 0;
    while i < references.len()
        invariant
            i <= references@.len(),
            forall|a: int, b: int| 0 <= a < b < references@.len() ==> references@[a].0 != references@[b].0,
            forall|k: int| 0 <= k < i ==> references@[k].0 != symbol,
        decreases references@.len() - i,
    {
        if references[i].0 == symbol {
            proof {
                lemma_symbol_count_single(references@, i as int);
            }
            return Some(i);
        }
        i = i + 1;
    }
    proof {
        lemma_symbol_count_absent(references@, symbol);
    }
    None
}

fn count_of_symbol(references: &Vec<(Symbol, u32)>, symbol: Symbol) -> (r: u32)
    requires
        forall|a: int, b: int| 0 <= a < b < references@.len() ==> references@[a].0 != references@[b].0,
    ensures
        r == symbol_count(references@, symbol),
{
    match find_count(references, symbol) {
        None => 0,
        Some(i) => references[i].1,
    }
}

/// Interning is idempotent within a scope: a text (or a value) that a scope has
/// interned names one symbol, so asking for it again gives the same symbol.
pub proof fn law_interning_idempotent(scope: SymbolScope, text: Seq<char>, value: Value, a: Symbol, b: Symbol)
    ensures
        scope.interned_text(text, a) && scope.interned_text(text, b) ==> a == b,
        scope.interned_value(value, a) && scope.interned_value(value, b) ==> a == b,
{
    if scope.interned_text(text, a) && scope.interned_text(text, b) {
        let i = choose|i: int| 0 <= i < scope.entry_count() && scope.text_at(i) == Some(text);
        assert(scope.symbol_at(i) == a);
    }
    if scope.interned_value(value, a) && scope.interned_value(value, b) {
        let i = choose|i: int| 0 <= i < scope.entry_count() && scope.value_at(i) == Some(value);
        assert(scope.symbol_at(i) == a);
    }
}

} // verus!
