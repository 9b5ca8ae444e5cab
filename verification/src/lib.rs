//! Trial engines and statistical aggregators for two stochastic, turn-by-turn
//! idle-game processes: a fighting process (repeated combat exchanges against
//! respawning enemies) and a thieving process (repeated steal attempts against
//! a regenerating target), both bounded by an eight-hour simulated horizon.
//!
//! All simulated time is counted in whole deciseconds, so that the exact
//! multiple-of-interval checks of the thieving engine never drift, and all
//! chances are counted in parts per million, so that no floating point enters
//! the engines. Every random draw an engine consumes is recorded as a plain
//! draw record; an engine's outcome is a mathematical function of its
//! configuration and the sequence of draw records, which makes each trial
//! reproducible from a fixed random stream.
use vstd::prelude::*;

pub mod fighting;
pub mod stats;
pub mod stream;
pub mod text;
pub mod thieving;

verus! {

/// Number of chance units that stand for certainty: hit chances and the steal
/// success chance are given in parts per million of this scale.
pub const CHANCE_SCALE: u32 = 1000000;

/// The fixed maximum simulated duration of one trial, in deciseconds
/// (eight hours).
pub const HORIZON_DS: u64 = 288000;

/// The horizon in whole seconds.
pub const HORIZON_SECS: u64 = 28800;

/// Simulated delay before the next enemy appears after a kill, deciseconds.
pub const RESPAWN_DS: u64 = 30;

/// Simulated stun delay after a failed steal attempt, deciseconds.
pub const STUN_DS: u64 = 30;

/// The thieving engine's fixed time step, deciseconds.
pub const STEP_DS: u64 = 1;

/// Error raised by the aggregators instead of dividing by an empty
/// population's size.
#[derive(Debug, Clone, Copy, PartialEq, Eq)]
pub enum AggregateError {
    /// The population handed to an aggregator held no outcomes.
    EmptyPopulation,
}

} // verus!
