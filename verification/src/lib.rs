//! Behaviour arbitration and execution for the units of a tower-defense game.
//!
//! Every unit carries a list of behaviours it supports, each with a priority.
//! Once per tick the arbitrator picks, for every unit, the behaviour of highest
//! priority among those that currently want control; the executors then move
//! the unit, and let it strike, according to the behaviour that was picked.
//!
//! The world is a grid: positions and distances are whole numbers of world
//! units, time is counted in nanoseconds, and a velocity is a heading together
//! with a pace. All of it is exact integer arithmetic.

pub mod ai;
pub mod dark_arts_defense;
pub mod math;
pub mod position;
pub mod timer;
pub mod units;
pub mod velocity;
