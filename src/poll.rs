use vstd::prelude::*;

verus! {

/// The outcome of one poll: the computation finished with a value, or it is
/// suspended and must be polled again later.
#[derive(Debug, PartialEq, Eq)]
pub enum Poll<T> {
    Ready(T),
    Pending,
}

impl<T> Poll<T> {
    pub fn is_ready(&self) -> (r: bool)
        ensures
            r == (self is Ready),
    {
        match self {
            Poll::Ready(_) => true,
            Poll::Pending => false,
        }
    }

    pub fn is_pending(&self) -> (r: bool)
        ensures
            r == (self is Pending),
    {
        match self {
            Poll::Ready(_) => false,
            Poll::Pending => true,
        }
    }
}

/// The token handed to every poll. It carries nothing and never schedules a
/// re-poll: the executor polls every queued task again on each round.
#[derive(Clone, Copy, Debug)]
pub struct WakeHandle {}

impl WakeHandle {
    pub fn new() -> (r: WakeHandle) {
        WakeHandle {}
    }
}

} // verus!
