//! The decision core of the nonblocking endpoint adapter.
//!
//! The adapter suspends a task until the scheduler reports the descriptor
//! ready, then makes exactly one nonblocking transfer attempt. This module
//! decides what each attempt's outcome means; the caller performs the
//! suspension and the attempt and feeds the outcome back in.

use crate::errors::PipeError;
use vstd::prelude::*;

verus! {

/// The outcome of one nonblocking transfer attempt on a ready descriptor.
#[derive(Debug, Clone, Copy, PartialEq, Eq, Structural)]
pub enum Attempt {
    /// The attempt moved this many bytes.
    Transferred(usize),
    /// The readiness report was spurious or another waiter won the race.
    WouldBlock,
    /// The attempt failed outright.
    Failed(PipeError),
}

/// What the adapter does next after one attempt.
#[derive(Debug, Clone, Copy, PartialEq, Eq, Structural)]
pub enum Step {
    /// Complete the operation: this many bytes were moved.
    Done(usize),
    /// Complete the operation with this error.
    Fail(PipeError),
    /// Park the task until the next readiness notification.
    Park,
}

/// One readiness wakeup drives exactly one attempt. Moved bytes or a failure
/// complete the operation with exactly that outcome — the count and the error
/// pass through unchanged — while a would-block outcome is never surfaced:
/// the task parks again, consuming nothing until the next notification.
pub fn readiness_step(a: Attempt) -> (r: Step)
    ensures
        r == (match a {
            Attempt::Transferred(n) => Step::Done(n),
            Attempt::WouldBlock => Step::Park,
            Attempt::Failed(e) => Step::Fail(e),
        }),
{
    match a {
        Attempt::Transferred(n) => Step::Done(n),
        Attempt::WouldBlock => Step::Park,
        Attempt::Failed(e) => Step::Fail(e),
    }
}

} // verus!
