//! Two blocks on a line, colliding elastically with each other and with a
//! wall, with every collision counted.
//!
//! Positions, velocities and masses are integers in fixed-point units: a
//! position is a signed count of length units, a velocity a signed count of
//! length units per time unit, a mass a positive count of mass units. Each
//! block occupies the interval `[pos, pos + size]`.

mod block;
mod simulator;

pub use block::{Block, MAX_MASS};
pub use simulator::{SimError, SimState, Simulator};
