//! Typed failures for the codec. Every operation returns one of these rather
//! than aborting: the decoder never faults on malformed untrusted input.

use vstd::prelude::*;

verus! {

/// One error kind per failure family: malformed bytes, an inconsistent type
/// table, an incompatible wire/target type pair, or unread declared arguments
/// at completion. The payload carries human-readable context.
#[derive(Debug)]
pub enum Error {
    /// Bad magic marker, truncated buffer, malformed or overlong
    /// variable-length integer, or a declared length exceeding the bytes
    /// that remain.
    Format(String),
    /// Duplicate hash among siblings, a dangling reference, or an
    /// inconsistent recursion placeholder.
    TypeTable(String),
    /// The wire type cannot be read at the requested target type.
    Subtyping(String),
    /// Declared arguments remained unread when the caller asserted completion.
    Count(String),
}

impl Error {
    /// The context message carried by any kind.
    pub fn message(&self) -> (r: &str)
        ensures
            r@ == (match self {
                Error::Format(m) => m@,
                Error::TypeTable(m) => m@,
                Error::Subtyping(m) => m@,
                Error::Count(m) => m@,
            }),
    {
        match self {
            Error::Format(m) => m.as_str(),
            Error::TypeTable(m) => m.as_str(),
            Error::Subtyping(m) => m.as_str(),
            Error::Count(m) => m.as_str(),
        }
    }
}

} // verus!
