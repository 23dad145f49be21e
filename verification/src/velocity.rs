use vstd::prelude::*;
use crate::position::Position;

verus! {

/// How fast a unit moves along its heading.
#[derive(Clone, Copy, Debug, PartialEq, Eq, Structural)]
pub enum Pace {
    /// Half of the unit's speed: the slow stroll of a wandering unit.
    Half,
    /// The unit's full speed.
    Full,
}

/// The velocity of a unit: a heading and a pace. The heading is a vector of
/// any length, of which only the direction counts; the unit moves along it at
/// its pace, and stands still when the heading is the zero vector.
#[derive(Clone, Copy, Debug, PartialEq, Eq, Structural)]
pub struct Velocity {
    pub x: i128,
    pub y: i128,
    pub pace: Pace,
}

impl Default for Velocity {
    fn default() -> (velocity: Velocity)
        ensures
            velocity == Velocity::spec_zero(),
    {
        Velocity::zero()
    }
}

impl Velocity {
    /// The velocity of a unit that stands still.
    pub open spec fn spec_zero() -> Velocity {
        Velocity { x: 0, y: 0, pace: Pace::Full }
    }

    /// The velocity of a unit that runs from `from` straight at `to`.
    pub open spec fn spec_toward(from: Position, to: Position) -> Velocity {
        Velocity { x: (to.x - from.x) as i128, y: (to.y - from.y) as i128, pace: Pace::Full }
    }

    pub open spec fn spec_is_zero(&self) -> bool {
        self.x == 0 && self.y == 0
    }

    /// The speed of the unit in halves of its full speed: 0, 1 or 2.
    pub open spec fn speed_in_halves(self) -> nat {
        if self.x == 0 && self.y == 0 {
            0
        } else if self.pace == Pace::Half {
            1
        } else {
            2
        }
    }

    #[verifier::when_used_as_spec(spec_zero)]
    pub fn zero() -> (velocity: Velocity)
        ensures
            velocity == Velocity::spec_zero(),
    {
        Velocity { x: 0, y: 0, pace: Pace::Full }
    }

    /// Full speed from `from` straight at `to`; no movement at all where the
    /// two coincide.
    pub fn toward(from: &Position, to: &Position) -> (velocity: Velocity)
        ensures
            velocity == Velocity::spec_toward(*from, *to),
            velocity.is_zero() <==> *from == *to,
    {
        Velocity { x: to.x as i128 - from.x as i128, y: to.y as i128 - from.y as i128, pace: Pace::Full }
    }

    /// Whether the unit stands still.
    #[verifier::when_used_as_spec(spec_is_zero)]
    pub fn is_zero(&self) -> (still: bool)
        ensures
            still == (self.x == 0 && self.y == 0),
    {
        self.x == 0 && self.y == 0
    }
}

} // verus!
