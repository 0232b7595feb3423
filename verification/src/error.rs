//! The error that a remote task reports to the operator.

use vstd::prelude::*;

verus! {

/// A failure of one task, carried as a human-readable message.
#[derive(Debug, Clone, PartialEq, Eq)]
pub struct RemoteError {
    message: String,
}

impl View for RemoteError {
    type V = Seq<char>;

    /// The message of the error.
    closed spec fn view(&self) -> Seq<char> {
        self.message@
    }
}

impl RemoteError {
    /// Wraps `message` as an error.
    pub fn new(message: String) -> (error: RemoteError)
        ensures
            error@ == message@,
    {
        RemoteError { message }
    }

    /// The message of the error.
    pub fn message(&self) -> (message: &String)
        ensures
            message@ == self@,
    {
        &self.message
    }

    /// The message of the error, as an owned string.
    pub fn to_text(&self) -> (text: String)
        ensures
            text@ == self@,
    {
        self.message.clone()
    }
}

} // verus!
