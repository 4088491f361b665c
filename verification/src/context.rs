//! What the systems ask of the world outside the game.

use vstd::prelude::*;

verus! {

/// The clock of the process that runs the game. Times are in nanoseconds.
///
/// Nothing is promised of what the clock reads: a system that reads it is
/// verified for every reading.
pub trait TimerService {
    /// The average length of a frame.
    fn average_delta(&self) -> u64;

    /// The time since the process started.
    fn time_since_start(&self) -> u64;
}

} // verus!
