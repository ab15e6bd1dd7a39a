//! The decisions of the client's network loops, apart from the network.
use vstd::prelude::*;

verus! {

/// What to do when a non-blocking receive finds no response yet.
#[derive(Clone, Copy, Debug, PartialEq, Eq, Structural)]
pub enum RetryAction {
    /// Sleep, then try to receive again.
    Wait,
    /// Stop waiting for this response.
    GiveUp,
}

/// How many times a batch thread sleeps before it gives up on its response.
pub const BATCH_MAX_WAITS: u32 = 61;

/// How long a batch thread sleeps between receive attempts, in microseconds.
pub const BATCH_WAIT_MICROS: u64 = 3;

/// How many times the main loop sleeps before it gives up on a response.
pub const SINGLE_MAX_WAITS: u32 = 1;

/// How long the main loop sleeps between receive attempts, in microseconds.
pub const SINGLE_WAIT_MICROS: u64 = 100;

/// How long a stress test sends requests, in milliseconds.
pub const STRESS_DURATION_MILLIS: u128 = 10000;

/// After `waits_done` sleeps without a response: wait again while fewer than
/// `max_waits` sleeps were made, else give up.
pub fn after_would_block(waits_done: u32, max_waits: u32) -> (r: RetryAction)
    ensures
        r == RetryAction::GiveUp <==> waits_done >= max_waits,
        r == RetryAction::Wait <==> waits_done < max_waits,
{
    if waits_done >= max_waits {
        RetryAction::GiveUp
    } else {
        RetryAction::Wait
    }
}

/// Whether a stress test that has run `elapsed_millis` milliseconds is over.
pub fn stress_finished(elapsed_millis: u128) -> (r: bool)
    ensures
        r == (elapsed_millis > STRESS_DURATION_MILLIS),
{
    elapsed_millis > STRESS_DURATION_MILLIS
}

} // verus!
