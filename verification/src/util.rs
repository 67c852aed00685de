//! Timer plumbing: what the driver's sleep needs from the library.

use vstd::prelude::*;

verus! {

/// The handle of a pending timeout.
#[derive(Debug)]
pub struct TimeoutID(pub i32);

/// The delay, in milliseconds, to ask a timer for: `millis` itself where a
/// timer can hold it, else the longest delay a timer can hold.
pub open spec fn clamped_millis(millis: u128) -> int {
    if millis <= i32::MAX {
        millis as int
    } else {
        i32::MAX as int
    }
}

/// Turns a duration in milliseconds into a timer delay, saturating at `i32::MAX`.
pub fn timeout_millis(millis: u128) -> (delay: i32)
    ensures
        delay == clamped_millis(millis),
{
    if millis <= i32::MAX as u128 {
        millis as i32
    } else {
        i32::MAX
    }
}

} // verus!
