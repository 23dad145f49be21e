use vstd::prelude::*;
use crate::ai::behavior::{AttackBehavior, Behavior};
use crate::ai::ranges::Ranges;
use crate::ai::targeting::{
    has_target, is_nearest_target, is_target, lemma_some_target_is_nearest, nearest_target,
    nearest_valid_target,
};
use crate::dark_arts_defense::GameEvent;
use crate::position::Position;
use crate::timer::{saturating_sum, Countdown};
use crate::units::health::Health;
use crate::units::team::Team;
use crate::units::unit::Unit;
use crate::velocity::Velocity;

verus! {

/// How a striking unit at `position` moves with its nearest target at
/// `target`. Farther away than `ranges.attack_mid` it runs at the target; at
/// `ranges.attack_min` or closer it stands still; in between it keeps the
/// velocity it had.
pub open spec fn attack_velocity(
    velocity: Velocity,
    position: Position,
    target: Position,
    ranges: Ranges,
) -> Velocity {
    if position.beyond(target, ranges.attack_mid) {
        Velocity::spec_toward(position, target)
    } else if position.beyond(target, ranges.attack_min) {
        velocity
    } else {
        Velocity::spec_zero()
    }
}

/// The damage of one hit: the base damage plus the bonus that was drawn, but
/// never more than the health that the target has left.
pub open spec fn damage_dealt(attack: AttackBehavior, bonus: u64, health: Health) -> u8 {
    if attack.damage + bonus >= health.0 {
        health.0
    } else {
        (attack.damage + bonus) as u8
    }
}

/// Whether `unit` is under the attack behaviour and has what it needs for it.
pub open spec fn attacks(unit: Unit) -> bool {
    unit.current_behavior.0 is Attack && unit.attack is Some
}

/// Unit `i` after it has moved and let its cooldown run for `delta`. A unit
/// that does not attack, or has no valid target within `ranges.attack_max`,
/// stays as it is, cooldown included.
pub open spec fn engaged(world: Seq<Unit>, i: int, delta: u64, ranges: Ranges) -> Unit {
    let me = world[i];
    if attacks(me) {
        match nearest_target(me.team, me.position, world, ranges.attack_max) {
            Some(j) => Unit {
                velocity: attack_velocity(me.velocity, me.position, world[j].position, ranges),
                attack: Some(
                    AttackBehavior { timer: me.attack->0.timer.ticked(delta), ..me.attack->0 },
                ),
                ..me
            },
            None => me,
        }
    } else {
        me
    }
}

/// The unit that unit `i` hits on this tick: its nearest valid target, on the
/// tick on which its cooldown runs out.
pub open spec fn strike_target(world: Seq<Unit>, i: int, delta: u64, ranges: Ranges) -> Option<
    int,
> {
    let me = world[i];
    if 0 <= i < world.len() && attacks(me) && me.attack->0.timer.ticked(delta).just_finished {
        nearest_target(me.team, me.position, world, ranges.attack_max)
    } else {
        None
    }
}

/// The world after unit `i` has hit unit `j`: the target loses the damage
/// dealt, and the striker starts a new cooldown, `jitter` longer than its base
/// cooldown, and shows that it swings.
pub open spec fn struck(world: Seq<Unit>, i: int, j: int, bonus: u64, jitter: u64) -> Seq<Unit> {
    if 0 <= i < world.len() && 0 <= j < world.len() && world[i].attack is Some {
        let attack = world[i].attack->0;
        let dealt = damage_dealt(attack, bonus, world[j].health);
        let hit = world.update(
            j,
            Unit { health: Health((world[j].health.0 - dealt) as u8), ..world[j] },
        );
        hit.update(
            i,
            Unit {
                attack: Some(
                    AttackBehavior {
                        timer: Countdown::fresh(saturating_sum(attack.cooldown, jitter)),
                        is_attacking: true,
                        ..attack
                    },
                ),
                ..hit[i]
            },
        )
    } else {
        world
    }
}

/// What the hit of unit `i` on unit `j` is announced with: a rise of the score
/// where it takes the last health of a unit of the good side.
pub open spec fn strike_event(world: Seq<Unit>, i: int, j: int, bonus: u64) -> Option<GameEvent> {
    if 0 <= i < world.len() && 0 <= j < world.len() && world[i].attack is Some
        && world[j].health.0 != 0 && damage_dealt(world[i].attack->0, bonus, world[j].health)
        == world[j].health.0 && world[j].team.0 == Team::Good {
        Some(GameEvent::IncreaseScore)
    } else {
        None
    }
}

/// The world after the whole turn of unit `i`: it has moved and let its
/// cooldown run and, where the cooldown has run out, has hit its target with
/// the bonus `draws.0` and started a cooldown that is `draws.1` longer than
/// its base.
#[verifier::opaque]
pub open spec fn attack_turn(
    world: Seq<Unit>,
    i: int,
    delta: u64,
    ranges: Ranges,
    draws: (u64, u64),
) -> Seq<Unit> {
    let moved = world.update(i, engaged(world, i, delta, ranges));
    match strike_target(world, i, delta, ranges) {
        Some(j) => struck(moved, i, j, draws.0, draws.1),
        None => moved,
    }
}

/// What the turn of unit `i` is announced with.
#[verifier::opaque]
pub open spec fn turn_event(
    world: Seq<Unit>,
    i: int,
    delta: u64,
    ranges: Ranges,
    draws: (u64, u64),
) -> Option<GameEvent> {
    match strike_target(world, i, delta, ranges) {
        Some(j) => strike_event(world.update(i, engaged(world, i, delta, ranges)), i, j, draws.0),
        None => None,
    }
}

/// Whether `draws` could have been drawn for a hit of `unit`: a bonus of no
/// more than its damage offset, and a jitter of no more than its cooldown
/// offset.
pub open spec fn draws_fit(unit: Unit, draws: (u64, u64)) -> bool {
    unit.attack matches Some(attack) ==> draws.0 <= attack.random_attack_offset && draws.1
        <= attack.random_cooldown_offset
}

/// The world after the first `n` units have had their turns, one after the
/// other in the order of the list, unit `k` with `draws[k]`. A unit sees what
/// the units before it have done: a target that one of them has killed is no
/// target any more.
pub open spec fn attack_round(
    world: Seq<Unit>,
    n: nat,
    delta: u64,
    ranges: Ranges,
    draws: Seq<(u64, u64)>,
) -> Seq<Unit>
    decreases n,
{
    if n == 0 {
        world
    } else {
        attack_turn(
            attack_round(world, (n - 1) as nat, delta, ranges, draws),
            n - 1,
            delta,
            ranges,
            draws[n - 1],
        )
    }
}

/// What the turns of the first `n` units are announced with, in their order.
pub open spec fn round_events(
    world: Seq<Unit>,
    n: nat,
    delta: u64,
    ranges: Ranges,
    draws: Seq<(u64, u64)>,
) -> Seq<GameEvent>
    decreases n,
{
    if n == 0 {
        Seq::empty()
    } else {
        let earlier = round_events(world, (n - 1) as nat, delta, ranges, draws);
        match turn_event(
            attack_round(world, (n - 1) as nat, delta, ranges, draws),
            n - 1,
            delta,
            ranges,
            draws[n - 1],
        ) {
            Some(event) => earlier.push(event),
            None => earlier,
        }
    }
}

/// Whether `after` and `events` are what a full round of attacks makes of
/// `before` when the units draw `draws`, each draw within what the unit that
/// makes it allows.
pub open spec fn is_attack_round(
    before: Seq<Unit>,
    after: Seq<Unit>,
    events: Seq<GameEvent>,
    delta: u64,
    ranges: Ranges,
    draws: Seq<(u64, u64)>,
) -> bool {
    &&& draws.len() == before.len()
    &&& forall|k: int|
        0 <= k < before.len() ==> draws_fit(
            attack_round(before, k as nat, delta, ranges, draws)[k],
            #[trigger] draws[k],
        )
    &&& after == attack_round(before, before.len(), delta, ranges, draws)
    &&& events == round_events(before, before.len(), delta, ranges, draws)
}

/// The first `n` turns of a round go by the first `n` draws alone.
pub proof fn lemma_round_goes_by_its_draws(
    world: Seq<Unit>,
    n: nat,
    delta: u64,
    ranges: Ranges,
    draws: Seq<(u64, u64)>,
    other: Seq<(u64, u64)>,
)
    requires
        forall|k: int| 0 <= k < n ==> draws[k] == other[k],
    ensures
        attack_round(world, n, delta, ranges, draws) == attack_round(
            world,
            n,
            delta,
            ranges,
            other,
        ),
        round_events(world, n, delta, ranges, draws) == round_events(
            world,
            n,
            delta,
            ranges,
            other,
        ),
    decreases n,
{
    if n > 0 {
        lemma_round_goes_by_its_draws(world, (n - 1) as nat, delta, ranges, draws, other);
    }
}

/// Whether `after` is `before` but for what a fight can change: the velocity,
/// the health, which does not rise, and the cooldown and flag of the attack.
pub open spec fn same_but_for_the_fight(before: Unit, after: Unit) -> bool {
    &&& after.position == before.position
    &&& after.team == before.team
    &&& after.current_behavior == before.current_behavior
    &&& after.supported_behaviors == before.supported_behaviors
    &&& after.wander == before.wander
    &&& after.health.0 <= before.health.0
    &&& after.attack is Some == before.attack is Some
    &&& after.attack matches Some(attack) ==> {
        &&& attack.cooldown == before.attack->0.cooldown
        &&& attack.random_cooldown_offset == before.attack->0.random_cooldown_offset
        &&& attack.random_attack_offset == before.attack->0.random_attack_offset
        &&& attack.damage == before.attack->0.damage
    }
}

/// Whether unit `i` of `world` is one that could hit unit `k`: it is under the
/// attack behaviour, of the other side, and closer than `range`.
pub open spec fn threatens(world: Seq<Unit>, i: int, k: int, range: u32) -> bool {
    &&& 0 <= i < world.len()
    &&& 0 <= k < world.len()
    &&& attacks(world[i])
    &&& world[i].team.0 != world[k].team.0
    &&& world[i].position.within(world[k].position, range)
}

/// The turn of one unit changes no unit but for what a fight can change. It
/// changes the velocity and the attack of the unit alone whose turn it is, and
/// takes health from none but a living enemy of that unit within its reach.
pub proof fn lemma_turn_changes_the_fight_alone(
    world: Seq<Unit>,
    i: int,
    delta: u64,
    ranges: Ranges,
    draws: (u64, u64),
)
    requires
        0 <= i < world.len(),
    ensures
        attack_turn(world, i, delta, ranges, draws).len() == world.len(),
        forall|k: int|
            0 <= k < world.len() ==> {
                let after = #[trigger] attack_turn(world, i, delta, ranges, draws)[k];
                &&& same_but_for_the_fight(world[k], after)
                &&& k != i ==> after.velocity == world[k].velocity && after.attack
                    == world[k].attack
                &&& !attacks(world[i]) ==> after == world[k]
                &&& after.health.0 < world[k].health.0 ==> world[k].health.0 != 0 && threatens(
                    world,
                    i,
                    k,
                    ranges.attack_max,
                )
            },
{
    reveal(attack_turn);
    let me = world[i];
    if attacks(me) && has_target(me.team, me.position, world, ranges.attack_max) {
        lemma_some_target_is_nearest(me.team, me.position, world, ranges.attack_max);
        let j = nearest_target(me.team, me.position, world, ranges.attack_max)->0;
        assert(is_nearest_target(me.team, me.position, world, ranges.attack_max, j));
        assert(is_target(me.team, me.position, world, ranges.attack_max, j));
    }
}

/// A round of attacks changes no unit but for what a fight can change, and
/// takes health from none but the living who have, among the units that took
/// their turn, an enemy under the attack behaviour within its reach. Units of
/// one's own side take no health, however close they are.
pub proof fn lemma_round_changes_the_fight_alone(
    world: Seq<Unit>,
    n: nat,
    delta: u64,
    ranges: Ranges,
    draws: Seq<(u64, u64)>,
)
    requires
        n <= world.len(),
    ensures
        attack_round(world, n, delta, ranges, draws).len() == world.len(),
        forall|k: int|
            0 <= k < world.len() ==> {
                let after = #[trigger] attack_round(world, n, delta, ranges, draws)[k];
                &&& same_but_for_the_fight(world[k], after)
                &&& k >= n ==> after.velocity == world[k].velocity && after.attack
                    == world[k].attack
                &&& !attacks(world[k]) ==> after.velocity == world[k].velocity && after.attack
                    == world[k].attack
                &&& after.health.0 < world[k].health.0 ==> world[k].health.0 != 0 && exists|
                    i: int,
                |
                    0 <= i < n && #[trigger] threatens(world, i, k, ranges.attack_max)
            },
    decreases n,
{
    if n > 0 {
        let i = n - 1;
        lemma_round_changes_the_fight_alone(world, i as nat, delta, ranges, draws);
        let middle = attack_round(world, i as nat, delta, ranges, draws);
        lemma_turn_changes_the_fight_alone(middle, i, delta, ranges, draws[i]);
        let last = attack_turn(middle, i, delta, ranges, draws[i]);
        assert(last == attack_round(world, n, delta, ranges, draws));
        assert forall|k: int| 0 <= k < world.len() implies {
            let after = #[trigger] attack_round(world, n, delta, ranges, draws)[k];
            &&& same_but_for_the_fight(world[k], after)
            &&& k >= n ==> after.velocity == world[k].velocity && after.attack == world[k].attack
            &&& !attacks(world[k]) ==> after.velocity == world[k].velocity && after.attack
                == world[k].attack
            &&& after.health.0 < world[k].health.0 ==> world[k].health.0 != 0 && exists|i: int|
                0 <= i < n && #[trigger] threatens(world, i, k, ranges.attack_max)
        } by {
            let between = middle[k];
            let after = last[k];
            assert(same_but_for_the_fight(world[k], between));
            assert(same_but_for_the_fight(between, after));
            assert(same_but_for_the_fight(world[i], middle[i]));
            assert(attacks(middle[i]) == attacks(world[i]));
            if after.health.0 < world[k].health.0 {
                if after.health.0 < between.health.0 {
                    assert(threatens(middle, i, k, ranges.attack_max));
                    assert(threatens(world, i, k, ranges.attack_max));
                } else {
                    let h = choose|h: int|
                        0 <= h < i && #[trigger] threatens(world, h, k, ranges.attack_max);
                    assert(threatens(world, h, k, ranges.attack_max));
                }
            }
        }
    }
}

/// Whether no unit under the attack behaviour has a valid target within
/// `range`: every living unit that close to it is of its own side.
pub open spec fn is_at_peace(world: Seq<Unit>, range: u32) -> bool {
    forall|i: int|
        0 <= i < world.len() && attacks(#[trigger] world[i]) ==> !has_target(
            world[i].team,
            world[i].position,
            world,
            range,
        )
}

/// The turn of a unit that has no valid target in reach changes nothing and
/// announces nothing, whatever time has passed and whatever is drawn: units
/// of its own side are no targets, however close they are.
pub proof fn lemma_turn_without_target_changes_nothing(
    world: Seq<Unit>,
    i: int,
    delta: u64,
    ranges: Ranges,
    draws: (u64, u64),
)
    requires
        0 <= i < world.len(),
        attacks(world[i]) ==> !has_target(
            world[i].team,
            world[i].position,
            world,
            ranges.attack_max,
        ),
    ensures
        attack_turn(world, i, delta, ranges, draws) == world,
        turn_event(world, i, delta, ranges, draws) is None,
{
    reveal(attack_turn);
    reveal(turn_event);
    assert(world.update(i, world[i]) == world);
}

/// In a world at peace a round of attacks changes no unit and announces
/// nothing: no health, velocity, cooldown or flag moves, whoever is under the
/// attack behaviour and however long the tick.
pub proof fn lemma_round_at_peace_changes_nothing(
    world: Seq<Unit>,
    n: nat,
    delta: u64,
    ranges: Ranges,
    draws: Seq<(u64, u64)>,
)
    requires
        n <= world.len(),
        is_at_peace(world, ranges.attack_max),
    ensures
        attack_round(world, n, delta, ranges, draws) == world,
        round_events(world, n, delta, ranges, draws) == Seq::<GameEvent>::empty(),
    decreases n,
{
    if n > 0 {
        lemma_round_at_peace_changes_nothing(world, (n - 1) as nat, delta, ranges, draws);
        lemma_turn_without_target_changes_nothing(world, n - 1, delta, ranges, draws[n - 1]);
    }
}

/// A hit takes from its target at least the base damage, or all the health
/// that is left, and no more than the base damage and the largest bonus.
pub proof fn lemma_damage_is_bounded(attack: AttackBehavior, bonus: u64, health: Health)
    requires
        bonus <= attack.random_attack_offset,
    ensures
        damage_dealt(attack, bonus, health) <= health.0,
        damage_dealt(attack, bonus, health) <= attack.damage + attack.random_attack_offset,
        damage_dealt(attack, bonus, health) >= attack.damage || damage_dealt(
            attack,
            bonus,
            health,
        ) == health.0,
{
}

/// The movement of a striking unit.
pub fn attack_move(velocity: &Velocity, position: &Position, target: &Position, ranges: &Ranges) -> (moved:
    Velocity)
    ensures
        moved == attack_velocity(*velocity, *position, *target, *ranges),
{
    if position.is_beyond(target, ranges.attack_mid) {
        Velocity::toward(position, target)
    } else if position.is_beyond(target, ranges.attack_min) {
        *velocity
    } else {
        Velocity::zero()
    }
}

/// The damage of one hit with the given bonus on a target of the given
/// health.
pub fn final_damage(attack: &AttackBehavior, bonus: u64, health: &Health) -> (damage: u8)
    ensures
        damage == damage_dealt(*attack, bonus, *health),
        damage <= health.0,
{
    let raw: u64 = (attack.damage as u64).saturating_add(bonus);
    if raw >= health.0 as u64 {
        health.0
    } else {
        raw as u8
    }
}

/// The first half of the turn of unit `i`: it picks its nearest valid target,
/// moves by the distance to it, and lets its cooldown run. Returns the target
/// where the cooldown has run out on this tick, which is when the unit hits.
pub fn attack_engage(units: &mut Vec<Unit>, i: usize, delta: u64, ranges: &Ranges) -> (target:
    Option<usize>)
    ensures
        final(units).len() == old(units).len(),
        forall|k: int| 0 <= k < old(units).len() && k != i ==> final(units)[k] == old(units)[k],
        i < old(units).len() ==> final(units)[i as int] == engaged(
            old(units)@,
            i as int,
            delta,
            *ranges,
        ),
        match target {
            Some(j) => strike_target(old(units)@, i as int, delta, *ranges) == Some(j as int),
            None => strike_target(old(units)@, i as int, delta, *ranges) is None,
        },
{
    if i >= units.len() {
        return None;
    }
    let is_attack = match units[i].current_behavior.0 {
        Behavior::Attack(_) => true,
        _ => false,
    };
    if !is_attack {
        return None;
    }
    let mut attack = match units[i].attack {
        Some(attack) => attack,
        None => {
            return None;
        },
    };
    let team = units[i].team;
    let position = units[i].position;
    match nearest_valid_target(&team, &position, units, ranges.attack_max) {
        Some(j) => {
            let moved = attack_move(&units[i].velocity, &position, &units[j].position, ranges);
            let finished = attack.timer.tick(delta);
            units[i].velocity = moved;
            units[i].attack = Some(attack);
            if finished {
                Some(j)
            } else {
                None
            }
        },
        None => None,
    }
}

/// The second half of the turn of unit `i`, on the tick on which it hits:
/// unit `j` loses the damage dealt, and unit `i` starts its next cooldown.
/// Returns what is to be announced, if anything. Nothing happens where either
/// unit does not exist or unit `i` has nothing to strike with.
pub fn attack_strike(units: &mut Vec<Unit>, i: usize, j: usize, bonus: u64, jitter: u64) -> (event:
    Option<GameEvent>)
    ensures
        final(units)@ == struck(old(units)@, i as int, j as int, bonus, jitter),
        event == strike_event(old(units)@, i as int, j as int, bonus),
{
    if i >= units.len() || j >= units.len() {
        return None;
    }
    let mut attack = match units[i].attack {
        Some(attack) => attack,
        None => {
            return None;
        },
    };
    let health = units[j].health;
    let damage = final_damage(&attack, bonus, &health);
    units[j].health = Health(health.0 - damage);
    attack.timer = Countdown::with_jitter(attack.cooldown, jitter);
    attack.is_attacking = true;
    units[i].attack = Some(attack);
    let killed = !health.is_dead() && damage == health.0;
    let good = match units[j].team.0 {
        Team::Good => true,
        Team::Evil => false,
    };
    if killed && good {
        Some(GameEvent::IncreaseScore)
    } else {
        None
    }
}

} // verus!
