//! The errors that the library answers with.
use vstd::prelude::*;

verus! {

/// The kind of an error, as the program reports it.
#[derive(Clone, Copy, Debug, PartialEq, Eq, Structural)]
pub enum ErrorKind {
    InvalidInput,
    NotFound,
    PermissionDenied,
}

/// An error: its kind and the message that goes with it.
#[derive(Debug)]
pub struct TraceError {
    pub kind: ErrorKind,
    pub message: String,
}

impl View for TraceError {
    type V = (ErrorKind, Seq<char>);

    open spec fn view(&self) -> (ErrorKind, Seq<char>) {
        (self.kind, self.message@)
    }
}

/// An invalid-input error with the given message.
pub fn invalid_input(message: String) -> (r: TraceError)
    ensures
        r@ == (ErrorKind::InvalidInput, message@),
{
    TraceError { kind: ErrorKind::InvalidInput, message }
}

} // verus!
