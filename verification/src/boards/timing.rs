//! Waiting by an alarm.

use vstd::prelude::*;

verus! {

/// The alarm value that comes `secs` seconds after `now`, for an alarm that ticks
/// `frequency` times a second and starts again at zero after its highest value.
pub fn seconds_from(now: u32, secs: u32, frequency: u32) -> (tics: u32)
    requires
        secs * frequency <= u32::MAX,
    ensures
        tics == (now + secs * frequency) % 0x1_0000_0000,
{
    let interval: u32 = secs * frequency;
    now.wrapping_add(interval)
}

} // verus!
