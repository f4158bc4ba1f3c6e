//! The error a widget's drawing reports.

use vstd::prelude::*;

verus! {

/// An error that carries nothing but its message.
#[derive(Clone, PartialEq, Eq, Debug)]
pub struct OtherError {
    details: String,
}

impl View for OtherError {
    type V = Seq<char>;

    closed spec fn view(&self) -> Seq<char> {
        self.details@
    }
}

impl OtherError {
    pub fn new(msg: &str) -> (error: OtherError)
        ensures
            error@ == msg@,
    {
        OtherError { details: msg.to_owned() }
    }

    /// The message, as the error prints it.
    pub fn message(&self) -> (msg: String)
        ensures
            msg@ == self@,
    {
        self.details.clone()
    }
}

} // verus!
