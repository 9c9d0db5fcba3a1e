//! The error type of the library.
use vstd::prelude::*;

verus! {

/// An error of the library.
#[derive(Debug)]
pub enum Error {
    /// An argument out of the range that the operation accepts, with a message.
    InvalidArgument(String),
}

/// `r` is an `InvalidArgument` error with the message `m`.
pub open spec fn fails_with<T>(r: Result<T, Error>, m: Seq<char>) -> bool {
    r matches Err(Error::InvalidArgument(e)) && e@ == m
}

} // verus!
