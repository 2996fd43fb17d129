//! Errors of the commitment schemes.

use vstd::prelude::*;

verus! {

/// Why an operation was refused.
#[derive(Clone, Debug)]
pub enum Error {
    /// The parameters do not fit together or do not fit the input.
    InvalidPcsParam(String),
    /// An opening is wrong.
    InvalidPcsOpen(String),
    /// A sum-check message is wrong.
    InvalidSumcheck(String),
    /// The transcript could not be read or written.
    Transcript(String),
}

impl Error {
    pub open spec fn is_param(self, msg: &str) -> bool {
        self matches Error::InvalidPcsParam(m) && m@ == msg@
    }

    pub open spec fn is_open(self, msg: &str) -> bool {
        self matches Error::InvalidPcsOpen(m) && m@ == msg@
    }

    pub open spec fn is_sumcheck(self, msg: &str) -> bool {
        self matches Error::InvalidSumcheck(m) && m@ == msg@
    }

    /// A parameter error with a message.
    pub fn param(msg: &str) -> (r: Error)
        ensures
            r.is_param(msg),
    {
        Error::InvalidPcsParam(msg.to_owned())
    }

    /// An opening error with a message.
    pub fn open(msg: &str) -> (r: Error)
        ensures
            r.is_open(msg),
    {
        Error::InvalidPcsOpen(msg.to_owned())
    }

    /// A sum-check error with a message.
    pub fn sumcheck(msg: &str) -> (r: Error)
        ensures
            r.is_sumcheck(msg),
    {
        Error::InvalidSumcheck(msg.to_owned())
    }
}

} // verus!
