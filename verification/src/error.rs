//! The single, flat error kind of this library: a failure while parsing an
//! edit script or while replaying it against a word, carrying a
//! human-readable message.

use vstd::prelude::*;

verus! {

/// A terminal failure for one `(word, editscript)` pair. No recovery or
/// retry is attempted at this layer; the message names the offending
/// segment or operation to aid debugging of mismatched rules.
#[derive(Debug)]
pub struct LemmaError {
    pub message: String,
}

impl LemmaError {
    /// Wraps a message into an error value.
    pub fn new(message: String) -> (e: LemmaError)
        ensures
            e.message == message,
    {
        LemmaError { message }
    }
}

} // verus!
