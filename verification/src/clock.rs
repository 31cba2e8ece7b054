//! Waiting for a point in time.
use vstd::prelude::*;
use crate::time::{Duration, Timestamp};

verus! {

/// The clock of the system. Its readings are handed in.
#[derive(Debug, Clone, Copy, PartialEq, Eq, Structural)]
pub struct SystemClock;

impl Default for SystemClock {
    fn default() -> (r: Self)
        ensures
            r == SystemClock,
    {
        SystemClock
    }
}

/// How long to sleep until a point in time.
pub open spec fn delay(target: int, now: int) -> int {
    if target > now {
        target - now
    } else {
        0
    }
}

/// After the sleep it is the point in time, or already later; and never earlier than now.
pub proof fn law_sleep_reaches_the_target(target: int, now: int)
    ensures
        delay(target, now) >= 0,
        now + delay(target, now) >= target,
        delay(target, now) > 0 ==> now + delay(target, now) == target,
{
}

impl SystemClock {
    /// How long to sleep until a point in time; no time at all where it has passed.
    pub fn delay_until(&self, target: &Timestamp, now: &Timestamp) -> (r: Duration)
        ensures
            r@ == if target@ > now@ {
                target@ - now@
            } else {
                0
            },
            r@ == delay(target@, now@),
    {
        let nanos: i128 = target.since(now).nanos;
        if nanos > 0 {
            Duration { nanos: nanos as u128 }
        } else {
            Duration { nanos: 0 }
        }
    }
}

} // verus!
