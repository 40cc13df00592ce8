use vstd::prelude::*;

use crate::error::Error;
use crate::error::ErrorType;
use crate::symbol::Symbol;
use crate::value::Value;

verus! {

/// How many fields a template (and so a shortcut table) can hold.
pub const MAX_SHORTCUTS_SIZE: usize = 26;

/// A lookup-site cache key: template id, template version, field index, symbol.
pub struct FieldToken {
    template: u32,
    version: u16,
    index: u8,
    symbol: Symbol,
}

impl FieldToken {
    pub closed spec fn spec_template(&self) -> u32 {
        self.template
    }

    pub closed spec fn spec_version(&self) -> u16 {
        self.version
    }

    pub closed spec fn spec_index(&self) -> u8 {
        self.index
    }

    pub closed spec fn spec_symbol(&self) -> Symbol {
        self.symbol
    }

    pub fn get_template(&self) -> (r: u32)
        ensures
            r == self.spec_template(),
    {
        self.template
    }

    pub fn get_symbol(&self) -> (r: Symbol)
        ensures
            r == self.spec_symbol(),
    {
        self.symbol
    }

    pub fn get_version(&self) -> (r: u16)
        ensures
            r == self.spec_version(),
    {
        self.version
    }

    pub fn get_index(&self) -> (r: u8)
        ensures
            r == self.spec_index(),
    {
        self.index
    }

    /// Reads the field through this token. When the shortcuts had gone stale, the
    /// token is refreshed from `template`, the shortcuts' current template.
    pub fn get_field(&mut self, field_shortcuts: &mut FieldShortcuts, template: &FieldTemplate) -> (r:
        Option<Value>)
        requires
            old(field_shortcuts).wf(),
            template.wf(),
            old(field_shortcuts).spec_template_id() == template.spec_id(),
        ensures
            final(field_shortcuts).wf(),
            (r, final(field_shortcuts).spec_version() != old(field_shortcuts).spec_version())
                == old(field_shortcuts).lookup(
                template.spec_version(),
                old(self).spec_template(),
                old(self).spec_version(),
                old(self).spec_index(),
            ),
            final(field_shortcuts).spec_template_id() == old(field_shortcuts).spec_template_id(),
            final(self).spec_template() == old(self).spec_template(),
            final(self).spec_symbol() == old(self).spec_symbol(),
            old(self).spec_template() == template.spec_id() && old(field_shortcuts).spec_version()
                != template.spec_version() && template.has(old(self).spec_symbol()) ==> final(self).spec_version() == template.spec_version() && template.spec_entries()[final(self).spec_index() as int] == Some(old(self).spec_symbol()),
    {
        let (result, need_update) = field_shortcuts.get_field(
            template,
            self.template,
            self.version,
            self.index,
        );
        if need_update {
            template.refresh_field_token(self);
        }
        result
    }

    /// Writes the field through this token; a stale token writes nothing and is
    /// refreshed from `template`, the shortcuts' current template.
    pub fn set_field(&mut self, field_shortcuts: &mut FieldShortcuts, template: &FieldTemplate, value: Value)
        requires
            old(field_shortcuts).wf(),
            template.wf(),
            old(field_shortcuts).spec_template_id() == template.spec_id(),
            old(self).spec_index() < MAX_SHORTCUTS_SIZE,
        ensures
            final(field_shortcuts).wf(),
            final(field_shortcuts).spec_template_id() == old(field_shortcuts).spec_template_id(),
            old(self).spec_template() == template.spec_id() ==> final(field_shortcuts).spec_version()
                == template.spec_version(),
            old(self).spec_template() == template.spec_id() && old(self).spec_version() == template.spec_version()
                ==> final(field_shortcuts).cached(old(self).spec_index() as int) == Some(value),
            final(self).spec_template() == old(self).spec_template(),
            final(self).spec_symbol() == old(self).spec_symbol(),
    {
        let need_update = field_shortcuts.set_field(
            template,
            self.template,
            self.version,
            self.index,
            value,
        );
        if need_update {
            template.refresh_field_token(self);
        }
    }
}

/// A shape descriptor: which field index each symbol takes, and a version that
/// moves on every removal.
pub struct FieldTemplate {
    id: u32,
    version: u16,
    entries: Vec<Option<Symbol>>,
}

impl FieldTemplate {
    pub closed spec fn spec_id(&self) -> u32 {
        self.id
    }

    pub closed spec fn spec_version(&self) -> u16 {
        self.version
    }

    /// Entry `i` holds the symbol whose field index is `i`, if any.
    pub closed spec fn spec_entries(&self) -> Seq<Option<Symbol>> {
        self.entries@
    }

    pub open spec fn wf(&self) -> bool {
        &&& self.spec_entries().len() == MAX_SHORTCUTS_SIZE
        &&& forall|i: int, j: int|
            0 <= i < j < self.spec_entries().len() && self.spec_entries()[i] is Some
                ==> self.spec_entries()[i] != self.spec_entries()[j]
    }

    pub open spec fn has(&self, symbol: Symbol) -> bool {
        exists|i: int| 0 <= i < self.spec_entries().len() && self.spec_entries()[i] == Some(symbol)
    }

    /// Every index is taken.
    pub open spec fn is_full(&self) -> bool {
        forall|i: int| 0 <= i < self.spec_entries().len() ==> self.spec_entries()[i] is Some
    }

    pub open spec fn symbol_count(&self) -> nat {
        count_symbols(self.spec_entries())
    }

    /// An empty template with version 1.
    pub fn new(id: u32) -> (r: FieldTemplate)
        ensures
            r.wf(),
            r.spec_id() == id,
            r.spec_version() == 1,
            forall|i: int| 0 <= i < r.spec_entries().len() ==> r.spec_entries()[i] is None,
            r.symbol_count() == 0,
    {
        let mut entries: Vec<Option<Symbol>> = Vec::new();
        let mut i: usize = 0;
        while i < MAX_SHORTCUTS_SIZE
            invariant
                i <= MAX_SHORTCUTS_SIZE,
                entries@.len() == i,
                forall|k: int| 0 <= k < i ==> entries@[k] is None,
            decreases MAX_SHORTCUTS_SIZE - i,
        {
            entries.push(None);
            i = i + 1;
        }
        proof {
            lemma_count_none(entries@);
        }
        FieldTemplate { id, version: 1, entries }
    }

    pub fn get_id(&self) -> (r: u32)
        ensures
            r == self.spec_id(),
    {
        self.id
    }

    pub fn get_version(&self) -> (r: u16)
        ensures
            r == self.spec_version(),
    {
        self.version
    }

    /// The field index of `symbol`, if the template has it.
    pub fn get_symbol_index(&self, symbol: Symbol) -> (r: Option<u8>)
        requires
            self.wf(),
        ensures
            r is None <==> !self.has(symbol),
            r matches Some(i) ==> i < MAX_SHORTCUTS_SIZE && self.spec_entries()[i as int] == Some(
                symbol,
            ),
    {
        let mut i: usize = 0;
        while i < self.entries.len()
            invariant
                self.wf(),
                i <= self.entries@.len(),
                forall|k: int| 0 <= k < i ==> self.entries@[k] != Some(symbol),
            decreases self.entries@.len() - i,
        {
            if self.entries[i] == Some(symbol) {
                return Some(i as u8);
            }
            i = i + 1;
        }
        None
    }

    /// A token for `symbol` at the current version, if the template has it.
    pub fn get_field_token(&self, symbol: Symbol) -> (r: Option<FieldToken>)
        requires
            self.wf(),
        ensures
            r is None <==> !self.has(symbol),
            r matches Some(t) ==> t.spec_template() == self.spec_id() && t.spec_version()
                == self.spec_version() && t.spec_symbol() == symbol && t.spec_index()
                < MAX_SHORTCUTS_SIZE && self.spec_entries()[t.spec_index() as int] == Some(symbol),
    {
        match self.get_symbol_index(symbol) {
            None => None,
            Some(index) => Some(
                FieldToken { template: self.id, version: self.version, index, symbol },
            ),
        }
    }

    /// Brings a token up to the current version and index of its symbol; a token
    /// whose symbol has left the template is left as it is.
    pub fn refresh_field_token(&self, field_token: &mut FieldToken)
        requires
            self.wf(),
        ensures
            final(field_token).spec_template() == old(field_token).spec_template(),
            final(field_token).spec_symbol() == old(field_token).spec_symbol(),
            self.has(old(field_token).spec_symbol()) ==> final(field_token).spec_version() == self.spec_version()
                && final(field_token).spec_index() < MAX_SHORTCUTS_SIZE && self.spec_entries()[final(field_token).spec_index() as int] == Some(old(field_token).spec_symbol()),
            !self.has(old(field_token).spec_symbol()) ==> *final(field_token) == *old(field_token),
    {
        match self.get_symbol_index(field_token.symbol) {
            Some(index) => {
                field_token.version = self.version;
                field_token.index = index;
            },
            None => {},
        }
    }

    /// How many symbols the template holds.
    pub fn get_symbol_count(&self) -> (r: u8)
        requires
            self.wf(),
        ensures
            r == self.symbol_count(),
    {
        let mut count: u8 = 0;
        let mut i: usize = 0;
        while i < self.entries.len()
            invariant
                self.wf(),
                i <= self.entries@.len(),
                count == count_symbols(self.entries@.take(i as int)),
                count <= i,
            decreases self.entries@.len() - i,
        {
            proof {
                assert(self.entries@.take(i as int + 1).drop_last() =~= self.entries@.take(i as int));
            }
            if self.entries[i].is_some() {
                count = count + 1;
            }
            i = i + 1;
        }
        assert(self.entries@.take(i as int) =~= self.entries@);
        count
    }

    pub fn has_symbol(&self, symbol: Symbol) -> (r: bool)
        requires
            self.wf(),
        ensures
            r == self.has(symbol),
    {
        self.get_symbol_index(symbol).is_some()
    }

    /// Gives `symbol` the lowest free index. Fails `FatalError` when the template is
    /// full or already has the symbol. The version does not move.
    pub fn add_symbol(&mut self, symbol: Symbol) -> (r: Result<u8, Error>)
        requires
            old(self).wf(),
        ensures
            final(self).wf(),
            final(self).spec_id() == old(self).spec_id(),
            final(self).spec_version() == old(self).spec_version(),
            r is Err <==> (old(self).is_full() || old(self).has(symbol)),
            r matches Err(e) ==> e.error_type == ErrorType::FatalError && *final(self) == *old(self),
            r matches Ok(i) ==> i < MAX_SHORTCUTS_SIZE && old(self).spec_entries()[i as int] is None
                && (forall|k: int| 0 <= k < i ==> old(self).spec_entries()[k] is Some)
                && final(self).spec_entries() == old(self).spec_entries().update(
                i as int,
                Some(symbol),
            ),
    {
        if self.has_symbol(symbol) {
            return Err(Error::new(ErrorType::FatalError, "Fields duplicated"));
        }
        let mut i: usize = 0;
        while i < self.entries.len()
            invariant
                old(self).wf(),
                *self == *old(self),
                !old(self).has(symbol),
                i <= self.entries@.len(),
                forall|k: int| 0 <= k < i ==> self.entries@[k] is Some,
            decreases self.entries@.len() - i,
        {
            if self.entries[i].is_none() {
                self.entries.set(i, Some(symbol));
                return Ok(i as u8);
            }
            i = i + 1;
        }
        Err(Error::new(ErrorType::FatalError, "Fields overflow"))
    }

    /// Takes `symbol` out of the template and moves the version on (wrapping).
    /// Fails `FatalError` when the template does not have the symbol.
    pub fn remove_symbol(&mut self, symbol: Symbol) -> (r: Result<(), Error>)
        requires
            old(self).wf(),
        ensures
            final(self).wf(),
            final(self).spec_id() == old(self).spec_id(),
            r is Err <==> !old(self).has(symbol),
            r matches Err(e) ==> e.error_type == ErrorType::FatalError && *final(self) == *old(self),
            r is Ok ==> final(self).spec_version() == (if old(self).spec_version() == u16::MAX {
                0
            } else {
                (old(self).spec_version() + 1) as u16
            }) && !final(self).has(symbol) && (forall|k: int|
                0 <= k < MAX_SHORTCUTS_SIZE ==> final(self).spec_entries()[k] == (if old(self).spec_entries()[k] == Some(symbol) {
                    None
                } else {
                    old(self).spec_entries()[k]
                })),
    {
        match self.get_symbol_index(symbol) {
            None => Err(Error::new(ErrorType::FatalError, "Fields not found")),
            Some(index) => {
                self.version = self.version.wrapping_add(1);
                self.entries.set(index as usize, None);
                Ok(())
            },
        }
    }
}

/// The number of taken entries.
pub open spec fn count_symbols(s: Seq<Option<Symbol>>) -> nat
    decreases s.len(),
{
    if s.len() == 0 {
        0
    } else {
        count_symbols(s.drop_last()) + if s.last() is Some {
            1nat
        } else {
            0nat
        }
    }
}

proof fn lemma_count_none(s: Seq<Option<Symbol>>)
    requires
        forall|k: int| 0 <= k < s.len() ==> s[k] is None,
    ensures
        count_symbols(s) == 0,
    decreases s.len(),
{
    if s.len() > 0 {
        lemma_count_none(s.drop_last());
    }
}

/// A per-slot cache of field values, keyed by the indices of one template.
pub struct FieldShortcuts {
    template_id: u32,
    version: u16,
    present: Vec<bool>,
    fields: Vec<Value>,
}

impl FieldShortcuts {
    pub closed spec fn spec_template_id(&self) -> u32 {
        self.template_id
    }

    /// The template version the cache last saw.
    pub closed spec fn spec_version(&self) -> u16 {
        self.version
    }

    pub closed spec fn wf(&self) -> bool {
        self.present@.len() == MAX_SHORTCUTS_SIZE && self.fields@.len() == MAX_SHORTCUTS_SIZE
    }

    /// The cached value at `index`, if one is visible.
    pub closed spec fn cached(&self, index: int) -> Option<Value> {
        if 0 <= index < MAX_SHORTCUTS_SIZE && self.present@[index] {
            Some(self.fields@[index])
        } else {
            None
        }
    }

    pub open spec fn is_empty_cache(&self) -> bool {
        forall|i: int| 0 <= i < MAX_SHORTCUTS_SIZE ==> self.cached(i) is None
    }

    /// What a read through a token finds, and whether the token must be refreshed,
    /// given the current version of the shortcuts' template.
    pub open spec fn lookup(&self, current_version: u16, template: u32, version: u16, index: u8) -> (
        Option<Value>,
        bool,
    ) {
        if self.spec_template_id() != template {
            (None, false)
        } else if self.spec_version() != current_version {
            (None, true)
        } else if current_version == version {
            (self.cached(index as int), false)
        } else {
            (None, false)
        }
    }

    /// An empty cache for `template` at its current version.
    pub fn new(template: &FieldTemplate) -> (r: FieldShortcuts)
        ensures
            r.wf(),
            r.spec_template_id() == template.spec_id(),
            r.spec_version() == template.spec_version(),
            r.is_empty_cache(),
    {
        let mut present: Vec<bool> = Vec::new();
        let mut fields: Vec<Value> = Vec::new();
        let mut i: usize = 0;
        while i < MAX_SHORTCUTS_SIZE
            invariant
                i <= MAX_SHORTCUTS_SIZE,
                present@.len() == i,
                fields@.len() == i,
                forall|k: int| 0 <= k < i ==> !present@[k],
            decreases MAX_SHORTCUTS_SIZE - i,
        {
            present.push(false);
            fields.push(Value::make_undefined());
            i = i + 1;
        }
        FieldShortcuts {
            template_id: template.get_id(),
            version: template.get_version(),
            present,
            fields,
        }
    }

    fn hide_all(&mut self)
        requires
            old(self).wf(),
        ensures
            final(self).wf(),
            forall|k: int| 0 <= k < MAX_SHORTCUTS_SIZE ==> !final(self).present@[k],
            final(self).fields == old(self).fields,
            final(self).template_id == old(self).template_id,
            final(self).version == old(self).version,
    {
        let mut i: usize = 0;
        while i < MAX_SHORTCUTS_SIZE
            invariant
                i <= MAX_SHORTCUTS_SIZE,
                self.present@.len() == MAX_SHORTCUTS_SIZE,
                self.fields == old(self).fields,
                self.template_id == old(self).template_id,
                self.version == old(self).version,
                forall|k: int| 0 <= k < i ==> !self.present@[k],
            decreases MAX_SHORTCUTS_SIZE - i,
        {
            self.present.set(i, false);
            i = i + 1;
        }
    }

    /// Hides every cached value.
    pub fn reset(&mut self)
        requires
            old(self).wf(),
        ensures
            final(self).wf(),
            final(self).is_empty_cache(),
            final(self).spec_template_id() == old(self).spec_template_id(),
            final(self).spec_version() == old(self).spec_version(),
    {
        self.hide_all();
    }

    pub fn get_field_template_id(&self) -> (r: u32)
        ensures
            r == self.spec_template_id(),
    {
        self.template_id
    }

    /// Switches to `template`, at its current version, with an empty cache.
    pub fn update_field_template(&mut self, template: &FieldTemplate)
        requires
            old(self).wf(),
        ensures
            final(self).wf(),
            final(self).spec_template_id() == template.spec_id(),
            final(self).spec_version() == template.spec_version(),
            final(self).is_empty_cache(),
    {
        self.hide_all();
        self.template_id = template.get_id();
        self.version = template.get_version();
    }

    /// Catches up with the template's version: a change empties the cache.
    /// Returns whether the version had changed.
    fn sync_version(&mut self, current_version: u16) -> (r: bool)
        requires
            old(self).wf(),
        ensures
            final(self).wf(),
            r == (old(self).spec_version() != current_version),
            final(self).spec_version() == current_version,
            final(self).spec_template_id() == old(self).spec_template_id(),
            r ==> final(self).is_empty_cache(),
            !r ==> *final(self) == *old(self),
    {
        if self.version != current_version {
            self.hide_all();
            self.version = current_version;
            true
        } else {
            false
        }
    }

    /// Reads through a token's `(template, version, index)`. `template` is the
    /// shortcuts' current template. Returns the value, if cached, and whether the
    /// token must be refreshed.
    pub fn get_field(&mut self, template: &FieldTemplate, template_id: u32, version: u16, index: u8) -> (r: (
        Option<Value>,
        bool,
    ))
        requires
            old(self).wf(),
            old(self).spec_template_id() == template.spec_id(),
        ensures
            final(self).wf(),
            r == old(self).lookup(template.spec_version(), template_id, version, index),
            final(self).spec_template_id() == old(self).spec_template_id(),
            old(self).spec_template_id() == template_id ==> final(self).spec_version()
                == template.spec_version(),
            r.1 ==> final(self).is_empty_cache(),
            !r.1 ==> *final(self) == *old(self),
    {
        if self.template_id != template_id {
            return (None, false);
        }
        let current_version = template.get_version();
        if self.sync_version(current_version) {
            return (None, true);
        }
        if current_version == version && (index as usize) < MAX_SHORTCUTS_SIZE && self.present[index
            as usize] {
            (Some(self.fields[index as usize]), false)
        } else {
            (None, false)
        }
    }

    /// Stores `value` for `symbol`, if `template` (the shortcuts' current
    /// template) has it, after catching up with its version.
    pub fn set_symbol_field(&mut self, template: &FieldTemplate, symbol: Symbol, value: Value)
        requires
            old(self).wf(),
            template.wf(),
            old(self).spec_template_id() == template.spec_id(),
        ensures
            final(self).wf(),
            final(self).spec_template_id() == old(self).spec_template_id(),
            final(self).spec_version() == template.spec_version(),
            forall|i: int|
                0 <= i < MAX_SHORTCUTS_SIZE && template.spec_entries()[i] == Some(symbol)
                    ==> final(self).cached(i) == Some(value),
    {
        self.sync_version(template.get_version());
        if let Some(index) = template.get_symbol_index(symbol) {
            self.present.set(index as usize, true);
            self.fields.set(index as usize, value);
        }
    }

    /// Writes through a token's `(template, version, index)`: a write under a stale
    /// version does nothing. Returns whether the token must be refreshed.
    pub fn set_field(
        &mut self,
        template: &FieldTemplate,
        template_id: u32,
        version: u16,
        index: u8,
        value: Value,
    ) -> (r: bool)
        requires
            old(self).wf(),
            old(self).spec_template_id() == template.spec_id(),
            index < MAX_SHORTCUTS_SIZE,
        ensures
            final(self).wf(),
            final(self).spec_template_id() == old(self).spec_template_id(),
            r == (old(self).spec_template_id() == template_id && old(self).spec_version()
                != template.spec_version()),
            old(self).spec_template_id() == template_id ==> final(self).spec_version()
                == template.spec_version(),
            old(self).spec_template_id() == template_id && version == template.spec_version()
                ==> final(self).cached(index as int) == Some(value),
            old(self).spec_template_id() != template_id ==> *final(self) == *old(self),
    {
        if self.template_id != template_id {
            return false;
        }
        let current_version = template.get_version();
        let need_update = self.sync_version(current_version);
        if version == current_version {
            self.present.set(index as usize, true);
            self.fields.set(index as usize, value);
        }
        need_update
    }

    /// Hides the cached value of `symbol`; a version change empties the whole cache.
    pub fn clear_field(&mut self, template: &FieldTemplate, symbol: Symbol)
        requires
            old(self).wf(),
            template.wf(),
            old(self).spec_template_id() == template.spec_id(),
        ensures
            final(self).wf(),
            final(self).spec_template_id() == old(self).spec_template_id(),
            final(self).spec_version() == template.spec_version(),
            forall|i: int|
                0 <= i < MAX_SHORTCUTS_SIZE && template.spec_entries()[i] == Some(symbol)
                    ==> final(self).cached(i) is None,
            forall|i: int|
                0 <= i < MAX_SHORTCUTS_SIZE && template.spec_entries()[i] != Some(symbol)
                    && final(self).spec_version() == old(self).spec_version() ==> final(self).cached(
                    i,
                ) == old(self).cached(i),
    {
        if let Some(index) = template.get_symbol_index(symbol) {
            if !self.sync_version(template.get_version()) {
                self.present.set(index as usize, false);
            }
        } else {
            self.sync_version(template.get_version());
        }
    }
}

} // verus!
