//! The error type that the codecs and the broker-facing decisions speak of.

use vstd::prelude::*;

verus! {

/// What can go wrong while a request is decoded or carried out.
#[derive(Debug)]
pub enum Error {
    /// The bytes on the wire do not form what they should.
    Protocol(String),
    /// The request is well formed and asks for something invalid.
    InvalidArgument(String),
    /// The named thing does not exist.
    NotFound(String),
    /// Any other failure, with its text.
    Other(String),
}

/// The result of a fallible operation of this crate.
pub type Result<T> = core::result::Result<T, Error>;

impl Error {
    /// Whether this is a protocol error with the text `msg`.
    pub open spec fn is_protocol(self, msg: Seq<char>) -> bool {
        self matches Error::Protocol(m) && m@ == msg
    }

    /// The text of the error.
    pub open spec fn text(self) -> Seq<char> {
        match self {
            Error::Protocol(m) => m@,
            Error::InvalidArgument(m) => m@,
            Error::NotFound(m) => m@,
            Error::Other(m) => m@,
        }
    }

    /// The text of the error.
    pub fn message(&self) -> (m: &str)
        ensures
            m@ == self.text(),
    {
        match self {
            Error::Protocol(m) => m.as_str(),
            Error::InvalidArgument(m) => m.as_str(),
            Error::NotFound(m) => m.as_str(),
            Error::Other(m) => m.as_str(),
        }
    }
}

/// A protocol error with the given text.
pub fn protocol(msg: &str) -> (e: Error)
    ensures
        e.is_protocol(msg@),
{
    Error::Protocol(msg.to_owned())
}

/// The outcome `res` is the one that `want` describes: the value with the view
/// that `want` holds, or a protocol error with the text that `want` holds.
pub open spec fn agrees<T: DeepView>(
    res: Result<T>,
    want: core::result::Result<T::V, Seq<char>>,
) -> bool {
    match (res, want) {
        (Ok(v), Ok(w)) => v.deep_view() == w,
        (Err(e), Err(m)) => e.is_protocol(m),
        _ => false,
    }
}

} // verus!
