use vstd::prelude::*;
use crate::poll::{Poll, WakeHandle};

verus! {

/// Suspends exactly once: the first poll is `Pending`, every later one `Ready`.
#[derive(Clone, Copy, Debug, PartialEq, Eq)]
pub struct YieldNow {
    pub polled: bool,
}

pub fn yield_now() -> (r: YieldNow)
    ensures
        !r.polled,
{
    YieldNow { polled: false }
}

impl YieldNow {
    pub fn poll(&mut self, _w: &WakeHandle) -> (r: Poll<()>)
        ensures
            final(self).polled,
            r == (if old(self).polled { Poll::Ready(()) } else { Poll::<()>::Pending }),
    {
        if self.polled {
            Poll::Ready(())
        } else {
            self.polled = true;
            Poll::Pending
        }
    }
}

/// Time passed from `start` to `now` on a clock counted in milliseconds; a
/// reading earlier than `start` counts as no time at all.
pub open spec fn elapsed(start: u64, now: u64) -> nat {
    if now >= start {
        (now - start) as nat
    } else {
        0
    }
}

/// A delay: the clock reading taken when it was made, and the time to wait.
#[derive(Clone, Copy, Debug, PartialEq, Eq)]
pub struct Sleep {
    pub start: u64,
    pub duration: u64,
}

/// A delay of `duration` milliseconds that starts at the reading `now`.
pub fn sleep(duration: u64, now: u64) -> (r: Sleep)
    ensures
        r.start == now,
        r.duration == duration,
{
    Sleep { start: now, duration }
}

impl Sleep {
    pub open spec fn deadline_passed(&self, now: u64) -> bool {
        elapsed(self.start, now) >= self.duration
    }

    /// Ready exactly when at least `duration` has passed since `start` at the
    /// reading `now`; never earlier.
    pub fn poll(&self, _w: &WakeHandle, now: u64) -> (r: Poll<()>)
        ensures
            r == (if self.deadline_passed(now) { Poll::Ready(()) } else { Poll::<()>::Pending }),
    {
        if now >= self.start && now - self.start >= self.duration {
            Poll::Ready(())
        } else if now < self.start && self.duration == 0 {
            Poll::Ready(())
        } else {
            Poll::Pending
        }
    }
}

} // verus!
