use vstd::prelude::*;

use crate::error::EngineError;

verus! {

/// The single logical feeder's clock: it tags each sent event with the open
/// epoch and declares epochs closed by advancing.
pub struct EpochController {
    current: u64,
}

/// What an advance from `current` to `next` leaves open: the new epoch, or
/// `None` where the request does not move strictly forward.
pub open spec fn advance_spec(current: u64, next: u64) -> Option<u64> {
    if next > current {
        Some(next)
    } else {
        None
    }
}

impl View for EpochController {
    type V = u64;

    closed spec fn view(&self) -> u64 {
        self.current
    }
}

impl EpochController {
    /// A controller whose open epoch is 0.
    pub fn new() -> (r: EpochController)
        ensures
            r@ == 0,
    {
        EpochController { current: 0 }
    }

    /// The open epoch.
    pub fn current(&self) -> (r: u64)
        ensures
            r == self@,
    {
        self.current
    }

    /// Attaches the open epoch to an event.
    pub fn tag<T>(&self, event: T) -> (r: (u64, T))
        ensures
            r == (self@, event),
    {
        (self.current, event)
    }

    /// Closes every epoch below `next`; fails, changing nothing, unless
    /// `next` is strictly greater than the open epoch.
    pub fn advance(&mut self, next: u64) -> (r: Result<(), EngineError>)
        ensures
            r is Ok <==> next > old(self)@,
            r is Err ==> r == Err::<(), EngineError>(EngineError::EpochOrder) && final(self)@ == old(self)@,
            r is Ok ==> final(self)@ == next,
            advance_spec(old(self)@, next) == (if r is Ok { Some(final(self)@) } else { None::<u64> }),
    {
        if next > self.current {
            self.current = next;
            Ok(())
        } else {
            Err(EngineError::EpochOrder)
        }
    }
}

/// Once an advance to `e` has succeeded, no later advance to an epoch at or
/// below `e` can succeed.
pub proof fn lemma_advance_monotonic(current: u64, e: u64, e2: u64)
    requires
        advance_spec(current, e) is Some,
        e2 <= e,
    ensures
        advance_spec(advance_spec(current, e).unwrap(), e2) is None,
{
}

} // verus!
