use vstd::prelude::*;

verus! {

/// Kinds of failure surfaced by the heap.
#[derive(Copy, Clone, PartialEq, Eq, Structural, Debug)]
pub enum ErrorType {
    /// An invariant of the heap's bookkeeping was violated by the caller.
    FatalError,
    /// No slot is available.
    OutOfSpace,
    VisitingUndefinedPrototype,
    VisitingUndefinedProperty,
    VisitingNullPrototype,
    VisitingNullProperty,
    MutatingUndefinedPrototype,
    MutatingUndefinedProperty,
    MutatingNullPrototype,
    MutatingNullProperty,
    MutatingSealedPrototype,
    MutatingSealedProperty,
    MutatingReadOnlyProperty,
    PrototypeNotFound,
    PropertyNotFound,
    /// Strict extraction met a value of another type.
    TypeNotMatch,
    /// Strict extraction met a signed/unsigned mismatch.
    IntegerOutOfRange,
    InternalSlotNotFound,
    /// A direct access bypassed redirection resolution.
    SlotMoved,
    /// A user trap returned a malformed result.
    RogicRuntimeError,
    /// A user trap threw; the thrown value is carried by the error's payload.
    RogicError,
}

/// An error: its kind and a human-readable message.
#[derive(Clone, Debug)]
pub struct Error {
    pub error_type: ErrorType,
    pub message: String,
}

impl Error {
    /// Creates an error of the given kind.
    pub fn new(error_type: ErrorType, message: &str) -> (r: Error)
        ensures
            r.error_type == error_type,
            r.message@ == message@,
    {
        Error { error_type, message: message.to_owned() }
    }

    /// The kind of this error.
    pub fn get_type(&self) -> (r: ErrorType)
        ensures
            r == self.error_type,
    {
        self.error_type
    }
}

} // verus!
