//! Error taxonomy shared by every fallible operation of the crate.

use vstd::prelude::*;
use vstd::string::StringExecFns;

verus! {

/// The kind of failure a fallible operation reports.
#[derive(Clone, Copy, PartialEq, Eq, Structural, Debug)]
pub enum ErrorKind {
    /// The memory pool could not satisfy an allocation request.
    Allocation,
    /// An operation on a byte source failed (closed source, wrong access
    /// mode, or an out-of-range position).
    Io,
    /// A field's declared type and an array's actual type disagree.
    TypeMismatch,
    /// Structurally inconsistent data: mismatched row counts or an
    /// out-of-range null count.
    Validation,
    /// Serialization descended through more nested struct levels than the
    /// configured limit allows.
    RecursionLimit,
}

/// An error: a kind together with a human-readable message.
#[derive(Debug)]
pub struct ArrowError {
    pub kind: ErrorKind,
    pub message: String,
}

impl ArrowError {
    pub fn new(kind: ErrorKind, message: &str) -> (e: ArrowError)
        ensures
            e.kind == kind,
            e.message@ == message@,
    {
        ArrowError { kind, message: String::from_str(message) }
    }

    pub fn kind(&self) -> (k: ErrorKind)
        ensures
            k == self.kind,
    {
        self.kind
    }

    pub fn message(&self) -> (m: String)
        ensures
            m@ == self.message@,
    {
        self.message.clone()
    }
}

} // verus!
