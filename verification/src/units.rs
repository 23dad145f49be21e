//! The units themselves: their health, their team, and the record that holds
//! all of a unit together.

pub mod health;
pub mod team;
pub mod unit;
