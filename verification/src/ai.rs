//! The behaviour engine: what a unit can do, which of it gets control, and
//! what the unit then does.

pub mod arbiter;
pub mod attack;
pub mod behavior;
pub mod flee;
pub mod ranges;
pub mod targeting;
pub mod wander;
