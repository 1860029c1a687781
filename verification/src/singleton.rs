//! One daemon at a time: how long to wait for the lock.
//!
//! Moments are nanoseconds of the steady clock.

use vstd::prelude::*;

verus! {

/// How far apart two attempts are, in milliseconds.
pub const RETRY_MILLIS: u64 = 200;

/// How an attempt to take the lock ended.
#[derive(Clone, Copy, Debug, PartialEq, Eq, Structural)]
pub enum LockAttempt {
    Taken,
    /// Another daemon holds it.
    Busy,
    Failed,
}

/// What follows from an attempt.
#[derive(Clone, Copy, Debug, PartialEq, Eq, Structural)]
pub enum LockStep {
    /// This is the one daemon.
    Hold,
    /// Try again after a while.
    Wait,
    /// Another daemon stays: leave.
    Leave,
    /// The lock cannot be had at all.
    Fail,
}

/// What follows from an attempt. A daemon that is about to end gets time to
/// do so: only past the deadline is a busy lock final.
pub fn acquire_step(attempt: LockAttempt, now: u128, deadline: u128) -> (r: LockStep)
    ensures
        r == (match attempt {
            LockAttempt::Taken => LockStep::Hold,
            LockAttempt::Failed => LockStep::Fail,
            LockAttempt::Busy => if now >= deadline {
                LockStep::Leave
            } else {
                LockStep::Wait
            },
        }),
{
    match attempt {
        LockAttempt::Taken => LockStep::Hold,
        LockAttempt::Failed => LockStep::Fail,
        LockAttempt::Busy => if now >= deadline {
            LockStep::Leave
        } else {
            LockStep::Wait
        },
    }
}

} // verus!
