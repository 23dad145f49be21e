use vstd::prelude::*;
use crate::ai::arbiter::{arbitrate, arbitrated, desires, lemma_wishes_go_by_looks};
use crate::ai::attack::{
    attack_engage, attack_round, attack_strike, attack_turn, attacks, draws_fit, engaged,
    is_at_peace, is_attack_round, lemma_round_at_peace_changes_nothing,
    lemma_round_changes_the_fight_alone, lemma_round_goes_by_its_draws,
    lemma_turn_without_target_changes_nothing, round_events, same_but_for_the_fight, threatens,
    turn_event,
};
use crate::ai::flee::{fled, flee_from, lemma_flight_goes_by_looks};
use crate::ai::ranges::Ranges;
use crate::ai::targeting::{
    is_nearest_target, is_target, lemma_no_target_among_nearby_friends,
    lemma_some_target_is_nearest,
    lemma_targets_go_by_looks, nearest_target, nearest_valid_target,
};
use crate::ai::wander::{
    is_wandered, wander_draws_fit, wander_tick, wander_turn, wandered, WanderDraws,
    HEADING_SPREAD,
};
use crate::dark_arts_defense::{gen_range_inclusive, GameEvent, RandomSeed};
use crate::position::Position;
use crate::timer::Countdown;
use crate::units::unit::Unit;
use crate::velocity::Velocity;

verus! {

/// One second, in the nanoseconds that countdowns are measured in.
pub const NANOS_PER_SECOND: u64 = 1_000_000_000;

/// What a unit can do. Each unit supports some of these, and at any time
/// exactly one of them is in control of it.
#[derive(Clone, Copy, Debug, PartialEq, Eq, Structural)]
pub enum Behavior {
    /// Stand still.
    Idle(IdleBehavior),
    /// Walk to the middle of the play field; for enemies with nobody in sight.
    MoveOrigo(MoveOrigoBehavior),
    /// Stroll about while waiting for enemies.
    Wander(WanderBehavior),
    /// Run at the nearest enemy in sight.
    Chase(ChaseBehavior),
    /// Run away from the enemies close by.
    Flee(FleeBehavior),
    /// Strike the nearest enemy in reach.
    Attack(AttackBehavior),
    /// Lie dead.
    Dead(DeadBehavior),
}

impl Default for Behavior {
    fn default() -> (behavior: Behavior)
        ensures
            behavior == Behavior::Wander(WanderBehavior::spec_default()),
    {
        Behavior::Wander(WanderBehavior::default())
    }
}

#[derive(Clone, Copy, Debug, PartialEq, Eq, Structural)]
pub struct IdleBehavior {}

#[derive(Clone, Copy, Debug, PartialEq, Eq, Structural)]
pub struct MoveOrigoBehavior {}

/// A wandering unit alternates between waiting and strolling. Durations are in
/// nanoseconds; each new wait or stroll lasts its base duration plus a random
/// share of `random_time_offset`.
#[derive(Clone, Copy, Debug, PartialEq, Eq, Structural)]
pub struct WanderBehavior {
    pub wait_time: u64,
    pub wander_time: u64,
    pub random_time_offset: u64,
    pub is_wandering: bool,
    pub wait_timer: Countdown,
    pub wander_timer: Countdown,
}

impl WanderBehavior {
    /// Waits of a second and a half, strolls of three seconds, each up to
    /// three quarters of a second longer; waiting to begin with.
    pub open spec fn spec_default() -> WanderBehavior {
        WanderBehavior {
            wait_time: 1_500_000_000,
            wander_time: 3_000_000_000,
            random_time_offset: 750_000_000,
            is_wandering: false,
            wait_timer: Countdown::fresh(1_500_000_000),
            wander_timer: Countdown::fresh(3_000_000_000),
        }
    }
}

impl Default for WanderBehavior {
    fn default() -> (wander: WanderBehavior)
        ensures
            wander == WanderBehavior::spec_default(),
    {
        let wander_time: u64 = 3 * NANOS_PER_SECOND;
        let wait_time: u64 = 3 * NANOS_PER_SECOND / 2;
        WanderBehavior {
            wait_time,
            wander_time,
            random_time_offset: 3 * NANOS_PER_SECOND / 4,
            is_wandering: false,
            wait_timer: Countdown::new(wait_time),
            wander_timer: Countdown::new(wander_time),
        }
    }
}

#[derive(Clone, Copy, Debug, PartialEq, Eq, Structural)]
pub struct ChaseBehavior {}

#[derive(Clone, Copy, Debug, PartialEq, Eq, Structural)]
pub struct FleeBehavior {}

/// A striking unit hits once per cooldown. The cooldown is in nanoseconds and
/// each new one is up to `random_cooldown_offset` longer; a hit takes `damage`
/// plus up to `random_attack_offset` from the target. `is_attacking` is raised
/// by every hit, for whoever animates the swing to lower again.
#[derive(Clone, Copy, Debug, PartialEq, Eq, Structural)]
pub struct AttackBehavior {
    pub cooldown: u64,
    pub random_cooldown_offset: u64,
    pub random_attack_offset: u8,
    pub damage: u8,
    pub is_attacking: bool,
    pub timer: Countdown,
}

impl AttackBehavior {
    /// A hit of 10 to 15 every four to four and a half seconds.
    pub open spec fn spec_default() -> AttackBehavior {
        AttackBehavior {
            cooldown: 4_000_000_000,
            random_cooldown_offset: 500_000_000,
            random_attack_offset: 5,
            damage: 10,
            is_attacking: false,
            timer: Countdown::fresh(4_000_000_000),
        }
    }
}

impl Default for AttackBehavior {
    fn default() -> (attack: AttackBehavior)
        ensures
            attack == AttackBehavior::spec_default(),
    {
        let attack_cooldown: u64 = 4 * NANOS_PER_SECOND;
        AttackBehavior {
            cooldown: attack_cooldown,
            random_cooldown_offset: NANOS_PER_SECOND / 2,
            random_attack_offset: 5,
            damage: 10,
            is_attacking: false,
            timer: Countdown::new(attack_cooldown),
        }
    }
}

#[derive(Clone, Copy, Debug, PartialEq, Eq, Structural)]
pub struct DeadBehavior;

/// The behaviour in control of a unit. Only the arbitrator writes it.
#[derive(Clone, Copy, Debug, PartialEq, Eq, Structural)]
pub struct CurrentBehavior(pub Behavior);

impl Default for CurrentBehavior {
    fn default() -> (current: CurrentBehavior)
        ensures
            current.0 == Behavior::Wander(WanderBehavior::spec_default()),
    {
        CurrentBehavior(Behavior::default())
    }
}

/// The behaviours a unit supports, each with its priority, in the order in
/// which they were given. The list is fixed when the unit is made.
#[derive(Clone, Debug)]
pub struct SupportedBehaviors(pub Vec<(Behavior, u8)>);

impl SupportedBehaviors {
    /// Wander at 5, chase at 10, attack at 15, dead at 20.
    pub open spec fn spec_default() -> Seq<(Behavior, u8)> {
        seq![
            (Behavior::Wander(WanderBehavior::spec_default()), 5u8),
            (Behavior::Chase(ChaseBehavior {  }), 10u8),
            (Behavior::Attack(AttackBehavior::spec_default()), 15u8),
            (Behavior::Dead(DeadBehavior), 20u8),
        ]
    }
}

impl Default for SupportedBehaviors {
    fn default() -> (supported: SupportedBehaviors)
        ensures
            supported.0@ == SupportedBehaviors::spec_default(),
    {
        SupportedBehaviors(
            vec![
                (Behavior::Wander(WanderBehavior::default()), 5),
                (Behavior::Chase(ChaseBehavior {  }), 10),
                (Behavior::Attack(AttackBehavior::default()), 15),
                (Behavior::Dead(DeadBehavior), 20),
            ],
        )
    }
}

/// What a unit is given for its behaviour when it is made.
#[derive(Clone, Debug)]
pub struct BehaviorBundle {
    pub current_behavior: CurrentBehavior,
    pub supported_behaviors: SupportedBehaviors,
}

impl Default for BehaviorBundle {
    fn default() -> (bundle: BehaviorBundle)
        ensures
            bundle.current_behavior.0 == Behavior::Wander(WanderBehavior::spec_default()),
            bundle.supported_behaviors.0@ == SupportedBehaviors::spec_default(),
    {
        BehaviorBundle {
            current_behavior: CurrentBehavior::default(),
            supported_behaviors: SupportedBehaviors::default(),
        }
    }
}

/// The arbitrator. For every unit it asks each supported behaviour whether it
/// wants control, and puts the one of highest priority in control; of several
/// with the same priority, the one that stands first in the unit's list. A
/// unit of which no behaviour wants control keeps the behaviour it had.
///
/// Nothing else changes: the timers and flags of a unit's behaviours stay as
/// they are, also when the behaviour that was in control is picked again.
pub fn behavior_state_machine(units: &mut Vec<Unit>, ranges: &Ranges)
    ensures
        final(units).len() == old(units).len(),
        forall|i: int|
            0 <= i < old(units).len() ==> #[trigger] final(units)[i] == (Unit {
                current_behavior: CurrentBehavior(arbitrated(old(units)[i], old(units)@, *ranges)),
                ..old(units)[i]
            }),
{
    let ghost before = units@;
    let mut i: usize = 0;
    while i < units.len()
        invariant
            i <= units.len(),
            units.len() == before.len(),
            forall|k: int|
                0 <= k < i ==> #[trigger] units[k] == (Unit {
                    current_behavior: CurrentBehavior(arbitrated(before[k], before, *ranges)),
                    ..before[k]
                }),
            forall|k: int| i <= k < units.len() ==> #[trigger] units[k] == before[k],
        decreases units.len() - i,
    {
        let team = units[i].team;
        let position = units[i].position;
        let health = units[i].health;
        let mut current = units[i].current_behavior;
        proof {
            assert forall|k: int| 0 <= k < units.len() implies (#[trigger] units[k]).looks_like(
                before[k],
            ) by {
                if k < i {
                    assert(units[k] == (Unit {
                        current_behavior: CurrentBehavior(arbitrated(before[k], before, *ranges)),
                        ..before[k]
                    }));
                } else {
                    assert(units[k] == before[k]);
                }
            }
            lemma_wishes_go_by_looks(
                units[i as int].supported_behaviors.0@,
                team,
                position,
                health,
                units@,
                before,
                *ranges,
            );
        }
        arbitrate(
            &mut current,
            &units[i].supported_behaviors,
            &team,
            &position,
            &health,
            units,
            ranges,
        );
        units[i].current_behavior = current;
        i += 1;
    }
}

/// The turn of unit `i` in a round of attacks, with what it draws from `rng`.
fn take_attack_turn(
    time_delta: u64,
    rng: &mut RandomSeed,
    units: &mut Vec<Unit>,
    i: usize,
    ranges: &Ranges,
    events: &mut Vec<GameEvent>,
) -> (drawn: Ghost<(u64, u64)>)
    requires
        i < old(units).len(),
    ensures
        final(units).len() == old(units).len(),
        draws_fit(old(units)[i as int], drawn@),
        final(units)@ == attack_turn(old(units)@, i as int, time_delta, *ranges, drawn@),
        final(events)@ == match turn_event(old(units)@, i as int, time_delta, *ranges, drawn@) {
            Some(event) => old(events)@.push(event),
            None => old(events)@,
        },
{
    reveal(attack_turn);
    reveal(turn_event);
    let ghost turn_start = units@;
    let struck = attack_engage(units, i, time_delta, ranges);
    assert(units@ == turn_start.update(
        i as int,
        engaged(turn_start, i as int, time_delta, *ranges),
    ));
    match struck {
        Some(j) => {
            let (most_bonus, most_jitter) = match units[i].attack {
                Some(attack) => (attack.random_attack_offset as u64, attack.random_cooldown_offset),
                None => (0, 0),
            };
            let bonus = gen_range_inclusive(&mut rng.0, 0, most_bonus);
            let jitter = gen_range_inclusive(&mut rng.0, 0, most_jitter);
            match attack_strike(units, i, j, bonus, jitter) {
                Some(event) => {
                    events.push(event);
                },
                None => {},
            }
            Ghost((bonus, jitter))
        },
        None => Ghost((0, 0)),
    }
}

/// The attack executor. The units take their turns one after the other, in
/// the order of the list. A unit under the attack behaviour with a valid
/// target within `ranges.attack_max` moves by its distance to the nearest one
/// and lets its cooldown run for `time_delta`; on the tick on which the
/// cooldown runs out it hits that target, for its base damage plus a bonus
/// drawn from `rng`, and starts a new cooldown with a jitter drawn from `rng`.
/// A hit that kills a unit of the good side adds `IncreaseScore` to `events`.
///
/// What `rng` hands out is not known beforehand, so the outcome is stated for
/// whatever was drawn: it is the round of attacks for some draws, each within
/// what the unit that made it allows. Whatever was drawn, no unit gains health,
/// none loses health but to an enemy under the attack behaviour within
/// `ranges.attack_max`, and a unit that is not under the attack behaviour keeps
/// its velocity and its cooldown. Where no attacking unit has a living enemy
/// within `ranges.attack_max`, nothing changes at all and nothing is
/// announced.
pub fn execute_behavior_attack(
    time_delta: u64,
    rng: &mut RandomSeed,
    units: &mut Vec<Unit>,
    ranges: &Ranges,
    events: &mut Vec<GameEvent>,
)
    ensures
        exists|draws: Seq<(u64, u64)>|
            final(events)@.len() >= old(events)@.len() && #[trigger] is_attack_round(
                old(units)@,
                final(units)@,
                final(events)@.skip(old(events)@.len() as int),
                time_delta,
                *ranges,
                draws,
            ),
        final(events)@.len() >= old(events)@.len(),
        final(events)@.take(old(events)@.len() as int) == old(events)@,
        final(units).len() == old(units).len(),
        forall|k: int|
            0 <= k < old(units).len() ==> {
                let after = #[trigger] final(units)[k];
                &&& same_but_for_the_fight(old(units)[k], after)
                &&& !attacks(old(units)[k]) ==> after.velocity == old(units)[k].velocity
                    && after.attack == old(units)[k].attack
                &&& after.health.0 < old(units)[k].health.0 ==> exists|i: int| #[trigger]
                    threatens(old(units)@, i, k, ranges.attack_max)
            },
        is_at_peace(old(units)@, ranges.attack_max) ==> final(units)@ == old(units)@
            && final(events)@ == old(events)@,
{
    let ghost before = units@;
    let ghost announced = events@;
    let ghost mut draws: Seq<(u64, u64)> = Seq::empty();
    let mut i: usize = 0;
    while i < units.len()
        invariant
            i <= units.len(),
            units.len() == before.len(),
            draws.len() == i,
            units@ == attack_round(before, i as nat, time_delta, *ranges, draws),
            events@ == announced + round_events(before, i as nat, time_delta, *ranges, draws),
            forall|k: int|
                0 <= k < i ==> draws_fit(
                    attack_round(before, k as nat, time_delta, *ranges, draws)[k],
                    #[trigger] draws[k],
                ),
        decreases units.len() - i,
    {
        let ghost turn_start = units@;
        let ghost drawn_so_far = draws;
        let ghost announced_so_far = events@;
        let drawn = take_attack_turn(time_delta, rng, units, i, ranges, events);
        proof {
            draws = drawn_so_far.push(drawn@);
            lemma_round_goes_by_its_draws(
                before,
                i as nat,
                time_delta,
                *ranges,
                draws,
                drawn_so_far,
            );
            assert forall|k: int| 0 <= k < i + 1 implies draws_fit(
                attack_round(before, k as nat, time_delta, *ranges, draws)[k],
                #[trigger] draws[k],
            ) by {
                if k < i {
                    assert(draws[k] == drawn_so_far[k]);
                    lemma_round_goes_by_its_draws(
                        before,
                        k as nat,
                        time_delta,
                        *ranges,
                        draws,
                        drawn_so_far,
                    );
                }
            }
        }
        i += 1;
    }
    proof {
        lemma_round_changes_the_fight_alone(before, before.len(), time_delta, *ranges, draws);
        if is_at_peace(before, ranges.attack_max) {
            lemma_round_at_peace_changes_nothing(
                before,
                before.len(),
                time_delta,
                *ranges,
                draws,
            );
        }
        let added = round_events(before, before.len(), time_delta, *ranges, draws);
        assert(events@.skip(announced.len() as int) == added);
        assert(events@.take(announced.len() as int) == announced);
        assert(is_attack_round(
            before,
            units@,
            events@.skip(announced.len() as int),
            time_delta,
            *ranges,
            draws,
        ));
    }
}

/// The idle executor: every unit under the idle behaviour stands still.
pub fn execute_behavior_idle(units: &mut Vec<Unit>)
    ensures
        final(units).len() == old(units).len(),
        forall|i: int|
            0 <= i < old(units).len() ==> #[trigger] final(units)[i] == (if old(
                units,
            )[i].current_behavior.0 is Idle {
                Unit { velocity: Velocity::spec_zero(), ..old(units)[i] }
            } else {
                old(units)[i]
            }),
{
    let ghost before = units@;
    let mut i: usize = 0;
    while i < units.len()
        invariant
            i <= units.len(),
            units.len() == before.len(),
            forall|k: int|
                0 <= k < i ==> #[trigger] units[k] == (if before[k].current_behavior.0 is Idle {
                    Unit { velocity: Velocity::spec_zero(), ..before[k] }
                } else {
                    before[k]
                }),
            forall|k: int| i <= k < units.len() ==> #[trigger] units[k] == before[k],
        decreases units.len() - i,
    {
        if let Behavior::Idle(_) = units[i].current_behavior.0 {
            units[i].velocity = Velocity::zero();
        }
        i += 1;
    }
}

/// The executor of the move to the origin: every unit under that behaviour
/// runs straight at the origin, and stands still once it is there.
pub fn execute_behavior_move_origo(units: &mut Vec<Unit>)
    ensures
        final(units).len() == old(units).len(),
        forall|i: int|
            0 <= i < old(units).len() ==> #[trigger] final(units)[i] == (if old(
                units,
            )[i].current_behavior.0 is MoveOrigo {
                Unit {
                    velocity: Velocity::spec_toward(old(units)[i].position, Position::origin()),
                    ..old(units)[i]
                }
            } else {
                old(units)[i]
            }),
{
    let ghost before = units@;
    let mut i: usize = 0;
    while i < units.len()
        invariant
            i <= units.len(),
            units.len() == before.len(),
            forall|k: int|
                0 <= k < i ==> #[trigger] units[k] == (if before[k].current_behavior.0 is MoveOrigo {
                    Unit {
                        velocity: Velocity::spec_toward(before[k].position, Position::origin()),
                        ..before[k]
                    }
                } else {
                    before[k]
                }),
            forall|k: int| i <= k < units.len() ==> #[trigger] units[k] == before[k],
        decreases units.len() - i,
    {
        if let Behavior::MoveOrigo(_) = units[i].current_behavior.0 {
            let position = units[i].position;
            units[i].velocity = Velocity::toward(&position, &Position::origin());
        }
        i += 1;
    }
}

/// The dead executor: every unit under the dead behaviour stands still.
pub fn execute_behavior_dead(units: &mut Vec<Unit>)
    ensures
        final(units).len() == old(units).len(),
        forall|i: int|
            0 <= i < old(units).len() ==> #[trigger] final(units)[i] == (if old(
                units,
            )[i].current_behavior.0 is Dead {
                Unit { velocity: Velocity::spec_zero(), ..old(units)[i] }
            } else {
                old(units)[i]
            }),
{
    let ghost before = units@;
    let mut i: usize = 0;
    while i < units.len()
        invariant
            i <= units.len(),
            units.len() == before.len(),
            forall|k: int|
                0 <= k < i ==> #[trigger] units[k] == (if before[k].current_behavior.0 is Dead {
                    Unit { velocity: Velocity::spec_zero(), ..before[k] }
                } else {
                    before[k]
                }),
            forall|k: int| i <= k < units.len() ==> #[trigger] units[k] == before[k],
        decreases units.len() - i,
    {
        if let Behavior::Dead(_) = units[i].current_behavior.0 {
            units[i].velocity = Velocity::zero();
        }
        i += 1;
    }
}

/// A chasing unit among `world`: it runs straight at its nearest valid target
/// within `ranges.chase`, and keeps the velocity it had where there is none.
/// A unit that does not chase stays as it is.
pub open spec fn chased(unit: Unit, world: Seq<Unit>, ranges: Ranges) -> Unit {
    if unit.current_behavior.0 is Chase {
        match nearest_target(unit.team, unit.position, world, ranges.chase) {
            Some(j) => Unit {
                velocity: Velocity::spec_toward(unit.position, world[j].position),
                ..unit
            },
            None => unit,
        }
    } else {
        unit
    }
}

/// The chase executor: every unit under the chase behaviour runs at the
/// nearest enemy that is alive and within `ranges.chase`.
pub fn execute_behavior_chase(units: &mut Vec<Unit>, ranges: &Ranges)
    ensures
        final(units).len() == old(units).len(),
        forall|i: int|
            0 <= i < old(units).len() ==> #[trigger] final(units)[i] == chased(
                old(units)[i],
                old(units)@,
                *ranges,
            ),
{
    let ghost before = units@;
    let mut i: usize = 0;
    while i < units.len()
        invariant
            i <= units.len(),
            units.len() == before.len(),
            forall|k: int| 0 <= k < i ==> #[trigger] units[k] == chased(before[k], before, *ranges),
            forall|k: int| i <= k < units.len() ==> #[trigger] units[k] == before[k],
        decreases units.len() - i,
    {
        if let Behavior::Chase(_) = units[i].current_behavior.0 {
            let team = units[i].team;
            let position = units[i].position;
            proof {
                assert forall|k: int| 0 <= k < units.len() implies (#[trigger] units[k]).looks_like(
                    before[k],
                ) by {
                    if k < i {
                        assert(units[k] == chased(before[k], before, *ranges));
                    } else {
                        assert(units[k] == before[k]);
                    }
                }
                lemma_targets_go_by_looks(team, position, units@, before, ranges.chase);
            }
            match nearest_valid_target(&team, &position, units, ranges.chase) {
                Some(j) => {
                    assert(units[j as int].looks_like(before[j as int]));
                    let target = units[j].position;
                    units[i].velocity = Velocity::toward(&position, &target);
                },
                None => {},
            }
        }
        i += 1;
    }
}

/// The flee executor: every unit under the flee behaviour runs, at full speed,
/// straight away from the centroid of the enemies that are alive and within
/// `ranges.flee`, each weighted by the inverse of its distance. All of it is
/// whole numbers: the distance is taken to the 65536th of a world unit and its
/// inverse to one part in 2^30, both rounded down. A unit with no such enemy
/// keeps the velocity it had.
pub fn execute_behavior_flee(units: &mut Vec<Unit>, ranges: &Ranges)
    ensures
        final(units).len() == old(units).len(),
        forall|i: int|
            0 <= i < old(units).len() ==> #[trigger] final(units)[i] == fled(
                old(units)[i],
                old(units)@,
                ranges.flee,
            ),
{
    let ghost before = units@;
    let mut i: usize = 0;
    while i < units.len()
        invariant
            i <= units.len(),
            units.len() == before.len(),
            forall|k: int|
                0 <= k < i ==> #[trigger] units[k] == fled(before[k], before, ranges.flee),
            forall|k: int| i <= k < units.len() ==> #[trigger] units[k] == before[k],
        decreases units.len() - i,
    {
        if let Behavior::Flee(_) = units[i].current_behavior.0 {
            let team = units[i].team;
            let position = units[i].position;
            proof {
                assert forall|k: int| 0 <= k < units.len() implies (#[trigger] units[k]).looks_like(
                    before[k],
                ) by {
                    if k < i {
                        assert(units[k] == fled(before[k], before, ranges.flee));
                    } else {
                        assert(units[k] == before[k]);
                    }
                }
                lemma_flight_goes_by_looks(team, position, units@, before, ranges.flee);
            }
            match flee_from(&team, &position, units, ranges.flee) {
                Some(velocity) => {
                    units[i].velocity = velocity;
                },
                None => {},
            }
        }
        i += 1;
    }
}

/// A unit with none but its own side alive within its ranges has nothing to
/// chase, to flee or to strike, however close they are and whoever stands
/// farther out: none of the three behaviours wants control, and none of the
/// three executors changes the unit or announces anything.
pub proof fn lemma_no_friendly_fire(
    world: Seq<Unit>,
    i: int,
    ranges: Ranges,
    time_delta: u64,
    draws: (u64, u64),
)
    requires
        0 <= i < world.len(),
        forall|k: int|
            0 <= k < world.len() && (#[trigger] world[k]).health.0 != 0 && (
            world[i].position.within(world[k].position, ranges.chase)
                || world[i].position.within(world[k].position, ranges.flee)
                || world[i].position.within(world[k].position, ranges.attack_max))
                ==> world[k].team.0 == world[i].team.0,
    ensures
        !desires(
            Behavior::Chase(ChaseBehavior {  }),
            world[i].team,
            world[i].position,
            world[i].health,
            world,
            ranges,
        ),
        !desires(
            Behavior::Flee(FleeBehavior {  }),
            world[i].team,
            world[i].position,
            world[i].health,
            world,
            ranges,
        ),
        forall|attack: AttackBehavior|
            !#[trigger] desires(
                Behavior::Attack(attack),
                world[i].team,
                world[i].position,
                world[i].health,
                world,
                ranges,
            ),
        chased(world[i], world, ranges) == world[i],
        fled(world[i], world, ranges.flee) == world[i],
        attack_turn(world, i, time_delta, ranges, draws) == world,
        turn_event(world, i, time_delta, ranges, draws) is None,
{
    lemma_no_target_among_nearby_friends(
        world[i].team,
        world[i].position,
        world,
        ranges.chase,
    );
    lemma_no_target_among_nearby_friends(world[i].team, world[i].position, world, ranges.flee);
    lemma_no_target_among_nearby_friends(
        world[i].team,
        world[i].position,
        world,
        ranges.attack_max,
    );
    lemma_turn_without_target_changes_nothing(world, i, time_delta, ranges, draws);
}

/// A unit that a chase sets on a new course runs at an enemy that is alive
/// and within the chase range.
pub proof fn lemma_chase_is_after_an_enemy(unit: Unit, world: Seq<Unit>, ranges: Ranges)
    requires
        chased(unit, world, ranges) != unit,
    ensures
        exists|j: int|
            is_target(unit.team, unit.position, world, ranges.chase, j) && world[j].team.0
                != unit.team.0 && world[j].health.0 != 0 && chased(unit, world, ranges).velocity
                == Velocity::spec_toward(unit.position, world[j].position),
{
    lemma_some_target_is_nearest(unit.team, unit.position, world, ranges.chase);
    let j = nearest_target(unit.team, unit.position, world, ranges.chase)->0;
    assert(is_nearest_target(unit.team, unit.position, world, ranges.chase, j));
    assert(is_target(unit.team, unit.position, world, ranges.chase, j));
}

/// The tick of unit `i` under the wander executor, with what it draws.
fn take_wander_turn(time_delta: u64, rng: &mut RandomSeed, units: &mut Vec<Unit>, i: usize)
    requires
        i < old(units).len(),
    ensures
        final(units).len() == old(units).len(),
        forall|k: int| 0 <= k < old(units).len() && k != i ==> final(units)[k] == old(units)[k],
        is_wandered(old(units)[i as int], final(units)[i as int], time_delta),
{
    let ghost before = units[i as int];
    let ghost none = WanderDraws { jitter: 0, heading_x: 0, heading_y: 0 };
    let is_wander = match units[i].current_behavior.0 {
        Behavior::Wander(_) => true,
        _ => false,
    };
    if !is_wander {
        assert(units[i as int] == wandered(before, time_delta, none));
        return ;
    }
    let mut wander = match units[i].wander {
        Some(wander) => wander,
        None => {
            assert(units[i as int] == wandered(before, time_delta, none));
            return ;
        },
    };
    if wander_tick(&mut wander, time_delta) {
        let jitter = gen_range_inclusive(&mut rng.0, 0, wander.random_time_offset);
        let mut heading_x: i32 = 0;
        let mut heading_y: i32 = 0;
        if !wander.is_wandering {
            let drawn_x = gen_range_inclusive(&mut rng.0, 0, 2 * HEADING_SPREAD);
            let drawn_y = gen_range_inclusive(&mut rng.0, 0, 2 * HEADING_SPREAD);
            heading_x = (drawn_x as i64 - HEADING_SPREAD as i64) as i32;
            heading_y = (drawn_y as i64 - HEADING_SPREAD as i64) as i32;
        }
        let draws = WanderDraws { jitter, heading_x, heading_y };
        let mut velocity = units[i].velocity;
        wander_turn(&mut wander, &mut velocity, &draws);
        units[i].velocity = velocity;
        units[i].wander = Some(wander);
        assert(wander_draws_fit(before.wander->0, draws));
        assert(units[i as int] == wandered(before, time_delta, draws));
    } else {
        units[i].wander = Some(wander);
        assert(wander_draws_fit(before.wander->0, none));
        assert(units[i as int] == wandered(before, time_delta, none));
    }
}

/// The wander executor. Every unit under the wander behaviour lets the
/// countdown of its phase run for `time_delta`. On the tick on which a wait
/// runs out the unit sets out, at half speed, along a heading of which it
/// draws each coordinate from `rng`; on the tick on which a stroll runs out it
/// stops. Either way it draws from `rng` how much longer than its base the
/// next countdown lasts.
///
/// What `rng` hands out is not known beforehand, so the outcome is stated for
/// whatever was drawn: every unit is as its tick leaves it for some draws that
/// it allows.
pub fn execute_behavior_wander(time_delta: u64, rng: &mut RandomSeed, units: &mut Vec<Unit>)
    ensures
        final(units).len() == old(units).len(),
        forall|i: int|
            0 <= i < old(units).len() ==> is_wandered(
                old(units)[i],
                #[trigger] final(units)[i],
                time_delta,
            ),
{
    let ghost before = units@;
    let mut i: usize = 0;
    while i < units.len()
        invariant
            i <= units.len(),
            units.len() == before.len(),
            forall|k: int|
                0 <= k < i ==> is_wandered(before[k], #[trigger] units[k], time_delta),
            forall|k: int| i <= k < units.len() ==> #[trigger] units[k] == before[k],
        decreases units.len() - i,
    {
        take_wander_turn(time_delta, rng, units, i);
        i += 1;
    }
}

} // verus!
