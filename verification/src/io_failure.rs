//! What the library needs to know of a failed read, write or spawn.

use vstd::prelude::*;

verus! {

/// A failed operation of the operating system: whether the thing was not
/// there, and the error in words.
#[derive(Debug, PartialEq, Eq)]
pub struct IoFailure {
    pub not_found: bool,
    pub message: String,
}

impl IoFailure {
    /// The failure of something that was not there.
    pub fn missing(message: &str) -> (r: IoFailure)
        ensures
            r.not_found,
            r.message@ == message@,
    {
        IoFailure { not_found: true, message: message.to_owned() }
    }

    /// Any other failure.
    pub fn other(message: &str) -> (r: IoFailure)
        ensures
            !r.not_found,
            r.message@ == message@,
    {
        IoFailure { not_found: false, message: message.to_owned() }
    }
}

} // verus!
