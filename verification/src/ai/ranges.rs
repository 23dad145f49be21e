use vstd::prelude::*;

verus! {

/// A unit strikes at enemies that are closer than this.
pub const ATTACK_DISTANCE_MAX: u32 = 96;

/// A striking unit closes in on a target that is farther away than this.
pub const ATTACK_DISTANCE_MID: u32 = 72;

/// A striking unit stands its ground once the target is this close.
pub const ATTACK_DISTANCE_MIN: u32 = 48;

/// The distances, in world units, at which behaviours come into play.
#[derive(Clone, Copy, Debug, PartialEq, Eq, Structural)]
pub struct Ranges {
    /// A unit chases enemies that are closer than this.
    pub chase: u32,
    /// A unit flees from enemies that are closer than this.
    pub flee: u32,
    /// A unit heads for the origin while it is farther from it than this.
    pub origo: u32,
    /// A unit strikes at enemies that are closer than this.
    pub attack_max: u32,
    /// A striking unit closes in on a target that is farther away than this.
    pub attack_mid: u32,
    /// A striking unit stands its ground once the target is this close.
    pub attack_min: u32,
}

/// Fifteen hundredths of the width of the world, rounded down.
pub open spec fn flee_distance(width: u32) -> u32 {
    (width * 15 / 100) as u32
}

/// Four tenths of the width of the world, rounded down.
pub open spec fn chase_distance(width: u32) -> u32 {
    (width * 4 / 10) as u32
}

/// Three tenths of the height of the world, rounded down.
pub open spec fn origo_distance(height: u32) -> u32 {
    (height * 3 / 10) as u32
}

/// How close an enemy has to come to a unit for the unit to flee.
pub fn get_flee_distance(width: u32) -> (distance: u32)
    ensures
        distance == flee_distance(width),
        distance == width * 15 / 100,
{
    (width as u64 * 15 / 100) as u32
}

/// How close an enemy has to come to a unit for the unit to chase it.
pub fn get_chase_distance(width: u32) -> (distance: u32)
    ensures
        distance == chase_distance(width),
        distance == width * 4 / 10,
{
    (width as u64 * 4 / 10) as u32
}

/// How far from the origin a unit has to be to head for it.
pub fn get_origo_distance(height: u32) -> (distance: u32)
    ensures
        distance == origo_distance(height),
        distance == height * 3 / 10,
{
    (height as u64 * 3 / 10) as u32
}

impl Ranges {
    /// The ranges for a world of the given extent: chase and flee follow its
    /// width, the zone around the origin its height, and the three distances
    /// of a fight are the same in every world.
    pub open spec fn spec_for_world(width: u32, height: u32) -> Ranges {
        Ranges {
            chase: chase_distance(width),
            flee: flee_distance(width),
            origo: origo_distance(height),
            attack_max: ATTACK_DISTANCE_MAX,
            attack_mid: ATTACK_DISTANCE_MID,
            attack_min: ATTACK_DISTANCE_MIN,
        }
    }

    #[verifier::when_used_as_spec(spec_for_world)]
    pub fn for_world(width: u32, height: u32) -> (ranges: Ranges)
        ensures
            ranges == Ranges::spec_for_world(width, height),
    {
        Ranges {
            chase: get_chase_distance(width),
            flee: get_flee_distance(width),
            origo: get_origo_distance(height),
            attack_max: ATTACK_DISTANCE_MAX,
            attack_mid: ATTACK_DISTANCE_MID,
            attack_min: ATTACK_DISTANCE_MIN,
        }
    }
}

} // verus!
