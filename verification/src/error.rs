//! The crate's error value: a message describing what went wrong, built
//! where a failure is first seen and carried up to the caller.

use vstd::prelude::*;

verus! {

/// An error with a human-readable description.
#[derive(Debug)]
pub struct Error {
    details: String,
}

impl View for Error {
    type V = Seq<char>;

    closed spec fn view(&self) -> Seq<char> {
        self.details@
    }
}

impl Error {
    /// Wraps a message in an error value.
    pub fn new(msg: &str) -> (e: Error)
        ensures
            e@ == msg@,
    {
        Error { details: String::from_str(msg) }
    }

    /// The error's description.
    pub fn get_details(&self) -> (r: &str)
        ensures
            r@ == self@,
    {
        self.details.as_str()
    }
}

} // verus!
