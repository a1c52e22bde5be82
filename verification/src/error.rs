//! The pipeline's error type. Every error is fatal: no retry, no partial
//! output, no default substitution.

use vstd::prelude::*;
use vstd::string::StringExecFns;

verus! {

/// Which rule rejected the input.
#[derive(Clone, Copy, Debug, PartialEq, Eq, Structural)]
pub enum ErrorKind {
    /// Transport failure, or a response that is not the expected JSON array.
    Fetch,
    /// A value is present but lacks an expected field or has the wrong type.
    Shape,
    /// A trait's specialization id has no entry in the specialization index.
    Join,
}

/// A fatal pipeline error: its kind and a message naming what failed.
#[derive(Debug)]
pub struct Error {
    pub kind: ErrorKind,
    pub message: String,
}

/// How contracts speak of an error: the kind and the message's characters.
pub type SpecError = (ErrorKind, Seq<char>);

/// `e` is the error that a contract's mirror function named.
pub open spec fn err_is(e: Error, s: SpecError) -> bool {
    e.kind == s.0 && e.message@ == s.1
}

/// Builds an error from a kind and a message.
pub fn err(kind: ErrorKind, message: &str) -> (e: Error)
    ensures
        err_is(e, (kind, message@)),
{
    Error { kind, message: String::from_str(message) }
}

} // verus!
