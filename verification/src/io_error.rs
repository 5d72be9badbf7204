//! Failures of input and output, as plain values.
use vstd::prelude::*;

verus! {

/// The kinds of failure that are told apart.
#[derive(Clone, Copy, Debug, PartialEq, Eq, Structural)]
pub enum IoErrorKind {
    /// There is nothing under the name.
    NotFound,
    /// The operation is not available here.
    Unsupported,
    /// Anything else.
    Other,
}

/// A failure of input or output: its kind, and the words that describe it.
#[derive(Debug)]
pub struct IoError {
    pub kind: IoErrorKind,
    pub message: String,
}

impl IoError {
    /// A failure of this kind, described by this text.
    pub fn new(kind: IoErrorKind, message: &str) -> (error: IoError)
        ensures
            error.kind == kind,
            error.message@ == message@,
    {
        IoError { kind, message: message.to_owned() }
    }
}

} // verus!
