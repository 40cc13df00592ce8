use vstd::prelude::*;

verus! {

/// The primitive types a value can carry.
#[derive(Copy, Clone, PartialEq, Eq, Structural, Debug)]
pub enum PrimitiveType {
    /// Not initialized.
    Undefined,
    /// No content.
    Null,
    /// `true` or `false`.
    Boolean,
    /// A 32-bit signed integer or a 32-bit cardinal.
    Integer,
    /// A 64-bit IEEE-754 float.
    Float,
    /// An interned symbol.
    Symbol,
    /// Text stored in a slot.
    Text,
    /// A list stored in a slot.
    List,
    /// A tuple stored in a slot.
    Tuple,
    /// A general object stored in a slot.
    Object,
}

} // verus!
