use vstd::prelude::*;

verus! {

/// Remaining health of a unit. A unit at zero is dead, and nothing in this
/// crate ever raises a health value.
#[derive(Clone, Copy, Debug, PartialEq, Eq, Structural)]
pub struct Health(pub u8);

impl Default for Health {
    fn default() -> (health: Health)
        ensures
            health.0 == 100,
    {
        Health(100)
    }
}

impl Health {
    pub open spec fn spec_is_dead(&self) -> bool {
        self.0 == 0
    }

    /// Whether the unit has no health left.
    #[verifier::when_used_as_spec(spec_is_dead)]
    pub fn is_dead(&self) -> (dead: bool)
        ensures
            dead == (self.0 == 0),
    {
        self.0 == 0
    }
}

} // verus!
