//! The bounded retry policy that turns store write outcomes into the next
//! step of an insertion. A caller that talks to a real database runs the
//! loop: it draws a code, attempts the write, and asks `after_write` what to
//! do next.

use vstd::prelude::*;

verus! {

/// How many candidate codes one insertion may try before giving up.
pub const MAX_ATTEMPTS: u32 = 5;

/// Why an insertion did not produce a mapping.
#[derive(Debug, Clone, Copy, PartialEq, Eq, Structural)]
pub enum StoreError {
    /// Every candidate within the retry budget was already taken.
    CapacityExhausted,
    /// The store could not be reached or refused the write for a reason other
    /// than a taken code.
    Unavailable,
}

/// What became of one attempt to write a candidate mapping.
#[derive(Debug, Clone, Copy, PartialEq, Eq, Structural)]
pub enum WriteOutcome {
    /// The mapping was stored.
    Stored,
    /// The store refused the write because the code is already in use.
    CodeTaken,
    /// The write failed for another reason.
    StoreFailed,
}

/// What the insertion does next.
#[derive(Debug, Clone, Copy, PartialEq, Eq, Structural)]
pub enum Step {
    /// The candidate was stored: hand it to the caller.
    Done,
    /// Draw a new candidate and try again, as the attempt with this number.
    Retry(u32),
    /// Stop and report the error.
    Fail(StoreError),
}

/// The step that follows the given outcome of the attempt numbered `attempt`
/// (counting from zero).
pub open spec fn step_after(attempt: nat, outcome: WriteOutcome) -> Step {
    match outcome {
        WriteOutcome::Stored => Step::Done,
        WriteOutcome::StoreFailed => Step::Fail(StoreError::Unavailable),
        WriteOutcome::CodeTaken => if attempt + 1 < MAX_ATTEMPTS {
            Step::Retry((attempt + 1) as u32)
        } else {
            Step::Fail(StoreError::CapacityExhausted)
        },
    }
}

/// Decides what follows an attempt: a stored candidate ends the insertion, a
/// store failure is passed on unchanged, and a taken code is retried while the
/// budget lasts, then reported as exhausted capacity.
pub fn after_write(attempt: u32, outcome: WriteOutcome) -> (r: Step)
    requires
        attempt < MAX_ATTEMPTS,
    ensures
        r == step_after(attempt as nat, outcome),
{
    match outcome {
        WriteOutcome::Stored => Step::Done,
        WriteOutcome::StoreFailed => Step::Fail(StoreError::Unavailable),
        WriteOutcome::CodeTaken => {
            if attempt + 1 < MAX_ATTEMPTS {
                Step::Retry(attempt + 1)
            } else {
                Step::Fail(StoreError::CapacityExhausted)
            }
        },
    }
}

} // verus!
