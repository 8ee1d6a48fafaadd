//! The update crank: an idle/running cycle, gated by eight hours, that walks
//! the positions in batches.
use vstd::prelude::*;
use crate::error::QuidError;
use crate::math::EIGHT_HOURS;

verus! {

/// Positions stressed per call of the crank.
pub const BATCH: usize = 42;

/// State of the update cycle.
#[derive(Clone, Copy, Debug, PartialEq, Eq, Structural)]
pub struct Crank {
    /// No cycle is running.
    pub done: bool,
    /// Next position to stress in the running cycle.
    pub index: usize,
    /// When the last cycle completed.
    pub last: u64,
}

/// What the caller of the crank is to do next.
#[derive(Clone, Copy, Debug, PartialEq, Eq, Structural)]
pub enum UpdateStep {
    /// A cycle has begun: recompute the pool-wide stress figures.
    Begin,
    /// Stress the positions with these indices, from `start` up to `stop`.
    Stress { start: usize, stop: usize },
}

impl Crank {
    /// An idle crank that never ran.
    pub open spec fn new_spec() -> Crank {
        Crank { done: true, index: 0, last: 0 }
    }

    pub fn new() -> (r: Self)
        ensures
            r == Self::new_spec(),
    {
        Crank { done: true, index: 0, last: 0 }
    }

    /// One call of the crank over `len` positions at time `now`. An idle crank
    /// starts a cycle once eight hours have passed since the last one ended; a
    /// running crank hands out the next batch of at most `BATCH` positions, and
    /// the cycle ends when the batch reaches the last position.
    pub open spec fn step(self, now: u64, len: usize) -> (Result<UpdateStep, QuidError>, Crank) {
        if self.done {
            if now < self.last {
                (Err(QuidError::SubtractionUnderflow), self)
            } else if now - self.last >= EIGHT_HOURS {
                (Ok(UpdateStep::Begin), Crank { done: false, ..self })
            } else {
                (Err(QuidError::TooEarly), self)
            }
        } else if self.index > len {
            (Err(QuidError::SubtractionUnderflow), self)
        } else {
            let stop = if len - self.index > BATCH {
                (self.index + BATCH) as usize
            } else {
                len
            };
            let next = if stop == len {
                Crank { done: true, index: 0, last: now }
            } else {
                Crank { index: stop, ..self }
            };
            (Ok(UpdateStep::Stress { start: self.index, stop }), next)
        }
    }

    pub fn update(&mut self, now: u64, len: usize) -> (r: Result<UpdateStep, QuidError>)
        ensures
            (r, *final(self)) == old(self).step(now, len),
    {
        if self.done {
            if now < self.last {
                return Err(QuidError::SubtractionUnderflow);
            }
            if now - self.last >= EIGHT_HOURS {
                self.done = false;
                Ok(UpdateStep::Begin)
            } else {
                Err(QuidError::TooEarly)
            }
        } else {
            if self.index > len {
                return Err(QuidError::SubtractionUnderflow);
            }
            let start = self.index;
            let left = len - start;
            let many = if left > BATCH { BATCH } else { left };
            let stop = start + many;
            self.index = stop;
            if stop == len {
                self.index = 0;
                self.done = true;
                self.last = now;
            }
            Ok(UpdateStep::Stress { start, stop })
        }
    }
}

/// The crank alternates between idle and running. An idle crank only ever
/// starts a cycle, and does so exactly when eight hours have passed since the
/// last one ended. A running crank goes idle exactly when its batch reaches
/// the last position, stamping the time; until then its index never
/// decreases. A failed call changes nothing.
pub proof fn lemma_crank_cycle(c: Crank, now: u64, len: usize)
    ensures
        ({
            let (r, next) = c.step(now, len);
            &&& r.is_err() ==> next == c
            &&& c.done ==> (r.is_ok() == (now >= c.last && now - c.last >= EIGHT_HOURS))
            &&& c.done && r.is_ok() ==> !next.done && next.index == c.index && next.last == c.last
            &&& !c.done && r.is_ok() && !next.done ==> next.index >= c.index && next.last == c.last
            &&& !c.done && r.is_ok() && next.done ==> next.index == 0 && next.last == now
            &&& !c.done && r.is_ok() ==> (next.done <==> (r == Ok::<UpdateStep, QuidError>(UpdateStep::Stress { start: c.index, stop: len })))
        }),
{
}

} // verus!
