use vstd::prelude::*;

verus! {

/// The two sides of the fight. The player's side is `Evil`.
#[derive(Clone, Copy, Debug, PartialEq, Eq, Structural)]
pub enum Team {
    Evil,
    Good,
}

impl Default for Team {
    fn default() -> (team: Team)
        ensures
            team == Team::Evil,
    {
        Team::Evil
    }
}

/// The team a unit fights for.
#[derive(Clone, Copy, Debug, PartialEq, Eq, Structural)]
pub struct CurrentTeam(pub Team);

impl Default for CurrentTeam {
    fn default() -> (team: CurrentTeam)
        ensures
            team.0 == Team::Evil,
    {
        CurrentTeam(Team::Evil)
    }
}

impl CurrentTeam {
    pub open spec fn spec_is_friendly(&self, other: &CurrentTeam) -> bool {
        self.0 == other.0
    }

    /// Whether `other` fights on the same side.
    #[verifier::when_used_as_spec(spec_is_friendly)]
    pub fn is_friendly(&self, other: &CurrentTeam) -> (friendly: bool)
        ensures
            friendly == (self.0 == other.0),
    {
        self.0 == other.0
    }
}

} // verus!
