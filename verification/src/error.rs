//! Errors of the client.

use vstd::prelude::*;

verus! {

/// Why an operation of the client failed.
#[derive(Clone, Debug, PartialEq, Eq)]
pub enum Error {
    /// The link to the device could not be set up.
    Connection(String),
}

impl Error {
    /// The text that explains the error.
    pub open spec fn text(&self) -> Seq<char> {
        match self {
            Error::Connection(message) => message@,
        }
    }

    /// Makes a connection error.
    pub fn connection(message: String) -> (error: Self)
        ensures
            error == Error::Connection(message),
    {
        Error::Connection(message)
    }

    /// The text that explains the error.
    pub fn message(&self) -> (message: &str)
        ensures
            message@ == self.text(),
            self matches Error::Connection(told) ==> message@ == told@,
    {
        match self {
            Error::Connection(message) => message.as_str(),
        }
    }
}

/// The text that explains a connection error is the message that it was made with.
pub proof fn lemma_error_text(message: String)
    ensures
        Error::Connection(message).text() == message@,
{
}

} // verus!
