//! The error of ApexLang source that cannot be processed.

use vstd::prelude::*;

verus! {

/// Represents an error that can occur while processing ApexLang source code.
#[derive(Debug, Clone)]
pub struct ApexError {
    message: String,
}

impl View for ApexError {
    type V = Seq<char>;

    /// The error's message.
    closed spec fn view(&self) -> Seq<char> {
        self.message@
    }
}

impl ApexError {
    /// An error with this message
    pub fn new(message: String) -> (e: Self)
        ensures
            e@ == message@,
    {
        Self { message }
    }

    /// The error's message
    pub fn message(&self) -> (m: &str)
        ensures
            m@ == self@,
    {
        self.message.as_str()
    }
}

} // verus!
