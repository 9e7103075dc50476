//! Writing to a camera that is in the middle of an exposure.
//!
//! A body with the shutter open answers `Device_Busy`: not a refusal of the value, only of the
//! moment. Rather than model when the dark time between frames falls, the write is simply tried
//! again after a short pause until the exposure can no longer be running. What is decided here
//! is whether to try again; the waiting happens with the caller.

use vstd::prelude::*;

use super::error::{CameraError, CameraResult};

verus! {

/// How long to leave the camera alone between attempts, in nanoseconds: short enough that a two
/// second gap still gets several chances, long enough not to hammer an older body.
pub const RETRY_INTERVAL_NANOS: u64 = 300_000_000;

/// What to do after one attempt.
pub enum Patience {
    /// Stop, with this result.
    Finish(CameraResult<()>),
    /// Wait one retry interval and try again.
    Retry,
}

/// Decide after an attempt that finished `elapsed` nanoseconds after the first one began, with
/// `budget` nanoseconds allowed in all.
///
/// Anything but busyness belongs to the caller at once - retrying a value the body will never
/// accept would only delay the message. Busyness is tried again unless the next attempt would
/// start past the budget; a budget of zero therefore still means exactly one attempt.
pub fn after_attempt(outcome: CameraResult<()>, elapsed: u64, budget: u64) -> (r: Patience)
    ensures
        outcome matches Err(CameraError::Busy) && elapsed + RETRY_INTERVAL_NANOS > budget ==> (
        r matches Patience::Finish(Err(CameraError::Busy))),
        outcome matches Err(CameraError::Busy) && elapsed + RETRY_INTERVAL_NANOS <= budget ==> r
            is Retry,
        !(outcome matches Err(CameraError::Busy)) ==> (r matches Patience::Finish(o) && o
            == outcome),
{
    match outcome {
        Err(CameraError::Busy) => {
            if (elapsed as u128) + (RETRY_INTERVAL_NANOS as u128) > (budget as u128) {
                Patience::Finish(Err(CameraError::Busy))
            } else {
                Patience::Retry
            }
        },
        other => Patience::Finish(other),
    }
}

} // verus!
