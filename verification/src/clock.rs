//! The clock that turns the time that frames take into whole steps of the
//! simulation.

use crate::player::Player;
use vstd::prelude::*;

verus! {

/// Time that has passed and has not been simulated yet, in millionths of a
/// step.
#[derive(Clone, Copy, Debug, PartialEq, Eq)]
pub struct Clock {
    pub pending: u64,
}

impl Clock {
    /// The parts that `pending` counts a step in.
    pub const PARTS_PER_STEP: u64 = 1_000_000;

    /// The time on the clock once `elapsed` has been added, saturating.
    pub open spec fn total(pending: u64, elapsed: u64) -> int {
        if pending + elapsed > u64::MAX {
            u64::MAX as int
        } else {
            pending + elapsed
        }
    }

    /// The steps to run for a frame: the whole steps on the clock, but no more
    /// than `Player::MAXIMUM_UPDATES_PER_FRAME`.
    pub open spec fn due(pending: u64, elapsed: u64) -> int {
        let whole = Self::total(pending, elapsed) / Self::PARTS_PER_STEP as int;
        if whole > Player::MAXIMUM_UPDATES_PER_FRAME {
            Player::MAXIMUM_UPDATES_PER_FRAME as int
        } else {
            whole
        }
    }

    /// The time left on the clock after the steps of a frame: what those
    /// steps did not use, but no more than one step. Time beyond that is
    /// dropped.
    pub open spec fn left(pending: u64, elapsed: u64) -> int {
        let rest = Self::total(pending, elapsed) - Self::due(pending, elapsed)
            * Self::PARTS_PER_STEP;
        if rest > Self::PARTS_PER_STEP {
            Self::PARTS_PER_STEP as int
        } else {
            rest
        }
    }

    /// A clock with no time on it.
    pub fn new() -> (clock: Self)
        ensures
            clock.pending == 0,
    {
        Self { pending: 0 }
    }

    /// Adds the time that a frame took, in millionths of a step, and takes
    /// off and returns the number of steps to run for it.
    pub fn advance(&mut self, elapsed: u64) -> (updates: usize)
        ensures
            updates == Self::due(old(self).pending, elapsed),
            final(self).pending == Self::left(old(self).pending, elapsed),
            updates <= Player::MAXIMUM_UPDATES_PER_FRAME,
            final(self).pending <= Self::PARTS_PER_STEP,
    {
        let total: u64 = if elapsed > u64::MAX - self.pending {
            u64::MAX
        } else {
            self.pending + elapsed
        };
        let whole: u64 = total / Self::PARTS_PER_STEP;
        let updates: usize = if whole > Player::MAXIMUM_UPDATES_PER_FRAME as u64 {
            Player::MAXIMUM_UPDATES_PER_FRAME
        } else {
            whole as usize
        };
        let rest: u64 = total - updates as u64 * Self::PARTS_PER_STEP;
        self.pending = if rest > Self::PARTS_PER_STEP {
            Self::PARTS_PER_STEP
        } else {
            rest
        };
        updates
    }
}

} // verus!
