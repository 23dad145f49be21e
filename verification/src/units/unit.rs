use vstd::prelude::*;
use crate::ai::behavior::{
    AttackBehavior, Behavior, BehaviorBundle, CurrentBehavior, SupportedBehaviors, WanderBehavior,
};
use crate::position::Position;
use crate::units::health::Health;
use crate::units::team::{CurrentTeam, Team};
use crate::velocity::Velocity;

verus! {

/// Everything the behaviour engine knows of one unit.
///
/// `wander` and `attack` hold the timers and flags of those two behaviours.
/// They belong to the unit, not to the behaviour that happens to be in
/// control: they stay as they are while another behaviour runs, and when the
/// same behaviour is picked again and again.
#[derive(Clone, Debug)]
pub struct Unit {
    pub position: Position,
    pub team: CurrentTeam,
    pub health: Health,
    pub velocity: Velocity,
    pub current_behavior: CurrentBehavior,
    pub supported_behaviors: SupportedBehaviors,
    pub wander: Option<WanderBehavior>,
    pub attack: Option<AttackBehavior>,
}

/// The wander behaviour that stands last among the first `n` entries of
/// `supported`, if any stands there.
pub open spec fn last_wander(supported: Seq<(Behavior, u8)>, n: nat) -> Option<WanderBehavior>
    decreases n,
{
    if n == 0 {
        None
    } else {
        match supported[n - 1].0 {
            Behavior::Wander(wander) => Some(wander),
            _ => last_wander(supported, (n - 1) as nat),
        }
    }
}

/// The attack behaviour that stands last among the first `n` entries of
/// `supported`, if any stands there.
pub open spec fn last_attack(supported: Seq<(Behavior, u8)>, n: nat) -> Option<AttackBehavior>
    decreases n,
{
    if n == 0 {
        None
    } else {
        match supported[n - 1].0 {
            Behavior::Attack(attack) => Some(attack),
            _ => last_attack(supported, (n - 1) as nat),
        }
    }
}

impl Unit {
    /// A new unit of `team` at `position`, in full health and standing still,
    /// with the behaviours of `bundle`. Its wander and attack states start as
    /// the bundle's list gives them; where the list holds one of them more
    /// than once, the last one counts.
    pub fn spawn(position: Position, team: Team, bundle: BehaviorBundle) -> (unit: Unit)
        ensures
            unit.position == position,
            unit.team == CurrentTeam(team),
            unit.health == Health(100),
            unit.velocity == Velocity::spec_zero(),
            unit.current_behavior == bundle.current_behavior,
            unit.supported_behaviors == bundle.supported_behaviors,
            unit.wander == last_wander(
                bundle.supported_behaviors.0@,
                bundle.supported_behaviors.0@.len(),
            ),
            unit.attack == last_attack(
                bundle.supported_behaviors.0@,
                bundle.supported_behaviors.0@.len(),
            ),
    {
        let mut wander: Option<WanderBehavior> = None;
        let mut attack: Option<AttackBehavior> = None;
        let mut j: usize = 0;
        while j < bundle.supported_behaviors.0.len()
            invariant
                j <= bundle.supported_behaviors.0.len(),
                wander == last_wander(bundle.supported_behaviors.0@, j as nat),
                attack == last_attack(bundle.supported_behaviors.0@, j as nat),
            decreases bundle.supported_behaviors.0.len() - j,
        {
            match bundle.supported_behaviors.0[j].0 {
                Behavior::Wander(state) => {
                    wander = Some(state);
                },
                Behavior::Attack(state) => {
                    attack = Some(state);
                },
                _ => {},
            }
            j += 1;
        }
        Unit {
            position,
            team: CurrentTeam(team),
            health: Health::default(),
            velocity: Velocity::zero(),
            current_behavior: bundle.current_behavior,
            supported_behaviors: bundle.supported_behaviors,
            wander,
            attack,
        }
    }

    /// Whether `other` is this unit in all that the arbitrator and the
    /// executors look at in other units: position, team and health.
    pub open spec fn looks_like(self, other: Unit) -> bool {
        &&& self.position == other.position
        &&& self.team == other.team
        &&& self.health == other.health
    }
}

} // verus!
