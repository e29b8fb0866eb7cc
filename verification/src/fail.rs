//! The error taxonomy shared by every component of the stack.

use vstd::prelude::*;

verus! {

/// Why a call was refused or a segment was dropped.
#[derive(Clone, Copy, Debug, PartialEq, Eq)]
pub enum Fail {
    /// An argument, descriptor or state that the caller got wrong.
    Malformed { details: &'static str },
    /// A value outside the bounds that the protocol allows.
    OutOfRange { details: &'static str },
    /// A transient shortage: the call may be tried again.
    ResourceExhausted { details: &'static str },
    /// The endpoint is closed in this direction for good.
    ResourceNotFound { details: &'static str },
    /// A segment dropped silently, as the protocol demands.
    Ignored { details: &'static str },
    /// Misuse of the top-level socket interface.
    Invalid { details: &'static str },
}

} // verus!
