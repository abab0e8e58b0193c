//! The errors that a socket reports to its user.

use vstd::prelude::*;

verus! {

/// What can go wrong on the link.
#[derive(Clone, Copy, Debug, PartialEq, Eq, Structural)]
pub enum AcsmaIoError {
    /// A frame was given up; the number is the count of its retransmissions.
    LinkError(usize),
    /// The throughput probe saw no acknowledgement within this many milliseconds.
    PerfTimeout(usize),
}

impl AcsmaIoError {
    /// The number that the error carries.
    pub fn count(&self) -> (n: usize)
        ensures
            n == (match *self {
                AcsmaIoError::LinkError(k) => k,
                AcsmaIoError::PerfTimeout(k) => k,
            }),
    {
        match self {
            AcsmaIoError::LinkError(k) => *k,
            AcsmaIoError::PerfTimeout(k) => *k,
        }
    }
}

} // verus!
