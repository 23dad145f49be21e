use vstd::prelude::*;
use crate::ai::targeting::{
    has_target, is_other_valid_target, is_target, lemma_targets_go_by_looks,
};
use crate::math::{
    integer_sqrt, lemma_sqrt_floor_exists, lemma_sqrt_floor_is_monotonic, sqrt_floor,
};
use crate::position::{lemma_square_of_difference, Position};
use crate::units::team::CurrentTeam;
use crate::units::unit::Unit;
use crate::velocity::{Pace, Velocity};

verus! {

/// The weight of a threat at distance one. Weights are whole numbers, so the
/// inverse of a distance is taken in units of one part in 2^30.
pub const FLEE_WEIGHT_ONE: u64 = 0x4000_0000;

/// The grain of a distance: the distance to a threat is measured in 65536ths
/// of a world unit before its inverse is taken.
pub const FLEE_DISTANCE_GRAIN: u64 = 0x1_0000;

/// The distance whose square is `squared`, in 65536ths of a world unit,
/// rounded down.
pub open spec fn grained_distance(squared: nat) -> nat {
    sqrt_floor(squared * 0x1_0000_0000)
}

/// The weight of a threat whose distance has the square `squared`: the
/// inverse of the distance, in units of one part in 2^30, with the distance
/// taken to the 65536th of a world unit and the quotient rounded down. A
/// threat on the very spot has no distance to take the inverse of, and no
/// weight.
pub open spec fn threat_weight(squared: nat) -> nat {
    if squared == 0 {
        0
    } else {
        (FLEE_WEIGHT_ONE * FLEE_DISTANCE_GRAIN) as nat / grained_distance(squared)
    }
}

/// The sum, over the valid targets among the first `n` of `others`, of the
/// vector from the threat to `position`, times the weight of the threat.
///
/// This is the total weight times the vector from the weighted centroid of
/// the threats to `position`: it points straight away from that centroid.
pub open spec fn flee_pull(
    team: CurrentTeam,
    position: Position,
    others: Seq<Unit>,
    range: u32,
    n: nat,
) -> (int, int)
    decreases n,
{
    if n == 0 {
        (0, 0)
    } else {
        let rest = flee_pull(team, position, others, range, (n - 1) as nat);
        if is_target(team, position, others, range, n - 1) {
            let threat = others[n - 1].position;
            let weight = threat_weight(position.dist_sq(threat) as nat);
            (rest.0 + weight * (position.x - threat.x), rest.1 + weight * (position.y - threat.y))
        } else {
            rest
        }
    }
}

/// The total weight of the valid targets among the first `n` of `others`.
pub open spec fn flee_weight(
    team: CurrentTeam,
    position: Position,
    others: Seq<Unit>,
    range: u32,
    n: nat,
) -> int
    decreases n,
{
    if n == 0 {
        0
    } else {
        let rest = flee_weight(team, position, others, range, (n - 1) as nat);
        if is_target(team, position, others, range, n - 1) {
            rest + threat_weight(position.dist_sq(others[n - 1].position) as nat)
        } else {
            rest
        }
    }
}

/// The sum of the positions of the valid targets among the first `n` of
/// `others`, each times its weight. Divided by the total weight it is the
/// weighted centroid of the threats.
pub open spec fn flee_moment(
    team: CurrentTeam,
    position: Position,
    others: Seq<Unit>,
    range: u32,
    n: nat,
) -> (int, int)
    decreases n,
{
    if n == 0 {
        (0, 0)
    } else {
        let rest = flee_moment(team, position, others, range, (n - 1) as nat);
        if is_target(team, position, others, range, n - 1) {
            let threat = others[n - 1].position;
            let weight = threat_weight(position.dist_sq(threat) as nat);
            (rest.0 + weight * threat.x, rest.1 + weight * threat.y)
        } else {
            rest
        }
    }
}

/// Whether a valid target stands on the very spot of the unit.
pub open spec fn stands_on_threat(
    team: CurrentTeam,
    position: Position,
    others: Seq<Unit>,
    range: u32,
) -> bool {
    exists|j: int| is_target(team, position, others, range, j) && others[j].position == position
}

/// The velocity of a fleeing unit with a threat in range: full speed straight
/// away from the weighted centroid of the threats. With a threat on its very
/// spot there is no way that leads away, and the unit stands still; so it does
/// where the pulls of the threats cancel.
pub open spec fn flee_velocity(
    team: CurrentTeam,
    position: Position,
    others: Seq<Unit>,
    range: u32,
) -> Velocity {
    if stands_on_threat(team, position, others, range) {
        Velocity::spec_zero()
    } else {
        let pull = flee_pull(team, position, others, range, others.len());
        Velocity { x: pull.0 as i128, y: pull.1 as i128, pace: Pace::Full }
    }
}

/// A fleeing unit among `world`: it runs from the valid targets within
/// `range`, and keeps the velocity it had where there is none. A unit that
/// does not flee stays as it is.
pub open spec fn fled(unit: Unit, world: Seq<Unit>, range: u32) -> Unit {
    if unit.current_behavior.0 is Flee && has_target(unit.team, unit.position, world, range) {
        Unit { velocity: flee_velocity(unit.team, unit.position, world, range), ..unit }
    } else {
        unit
    }
}

proof fn lemma_distribute(weight: int, a: int, b: int)
    by (nonlinear_arith)
    ensures
        weight * (a - b) == weight * a - weight * b,
{
}

proof fn lemma_distribute_sum(a: int, b: int, x: int)
    by (nonlinear_arith)
    ensures
        (a + b) * x == a * x + b * x,
{
}

proof fn lemma_pull_bound(weight: int, offset: int)
    by (nonlinear_arith)
    requires
        0 <= weight <= 0x4000_0000,
        -0x1_0000_0000 < offset < 0x1_0000_0000,
    ensures
        -0x4000_0000_0000_0000 <= weight * offset <= 0x4000_0000_0000_0000,
{
}

proof fn lemma_quotient_order(a: nat, b: nat)
    by (nonlinear_arith)
    requires
        0x1_0000 <= a <= b,
    ensures
        0x4000_0000_0000nat / b <= 0x4000_0000_0000nat / a <= 0x4000_0000,
{
}

proof fn lemma_quotient_bounds(a: nat)
    by (nonlinear_arith)
    requires
        0 < a,
    ensures
        (0x4000_0000_0000nat / a) * a <= 0x4000_0000_0000 < (0x4000_0000_0000nat / a + 1) * a,
{
}

proof fn lemma_quotient_strict_order(a: nat, b: nat, over_a: nat, over_b: nat)
    by (nonlinear_arith)
    requires
        0 < a < b,
        a * b <= 0x4000_0000_0000 * (b - a),
        over_a * a <= 0x4000_0000_0000 < (over_a + 1) * a,
        over_b * b <= 0x4000_0000_0000 < (over_b + 1) * b,
    ensures
        over_a > over_b,
{
    assert((over_b * b) * a <= 0x4000_0000_0000 * a);
    assert((over_b + 1) * a * b == (over_b * b) * a + a * b);
    assert(0x4000_0000_0000 * a + 0x4000_0000_0000 * (b - a) == 0x4000_0000_0000 * b);
    assert((over_b + 1) * a * b <= 0x4000_0000_0000 * b);
    assert((over_b + 1) * a <= 0x4000_0000_0000) by {
        if (over_b + 1) * a >= 0x4000_0000_0001 {
            assert((over_b + 1) * a * b >= 0x4000_0000_0001 * b);
        }
    }
    if over_a <= over_b {
        assert((over_a + 1) * a <= (over_b + 1) * a);
    }
}

proof fn lemma_grain_of_one(root: nat, squared: nat)
    by (nonlinear_arith)
    requires
        squared > 0,
        squared * 0x1_0000_0000 < (root + 1) * (root + 1),
    ensures
        root >= 0x1_0000,
{
    if root < 0x1_0000 {
        assert((root + 1) * (root + 1) <= 0x1_0000 * 0x1_0000);
    }
}

/// The pull on a fleeing unit is the total weight of its threats times the
/// vector that leads from their weighted centroid to the unit.
pub proof fn lemma_pull_is_away_from_centroid(
    team: CurrentTeam,
    position: Position,
    others: Seq<Unit>,
    range: u32,
    n: nat,
)
    ensures
        flee_pull(team, position, others, range, n).0 == flee_weight(
            team,
            position,
            others,
            range,
            n,
        ) * position.x - flee_moment(team, position, others, range, n).0,
        flee_pull(team, position, others, range, n).1 == flee_weight(
            team,
            position,
            others,
            range,
            n,
        ) * position.y - flee_moment(team, position, others, range, n).1,
    decreases n,
{
    if n > 0 {
        lemma_pull_is_away_from_centroid(team, position, others, range, (n - 1) as nat);
        if is_target(team, position, others, range, n - 1) {
            let threat = others[n - 1].position;
            let weight = threat_weight(position.dist_sq(threat) as nat) as int;
            let rest = flee_weight(team, position, others, range, (n - 1) as nat);
            lemma_distribute(weight, position.x as int, threat.x as int);
            lemma_distribute(weight, position.y as int, threat.y as int);
            lemma_distribute_sum(rest, weight, position.x as int);
            lemma_distribute_sum(rest, weight, position.y as int);
        }
    }
}

/// Where a unit flees to goes by the position, team and health of the other
/// units alone.
pub proof fn lemma_flight_goes_by_looks(
    team: CurrentTeam,
    position: Position,
    others: Seq<Unit>,
    same: Seq<Unit>,
    range: u32,
)
    requires
        others.len() == same.len(),
        forall|j: int| 0 <= j < others.len() ==> (#[trigger] others[j]).looks_like(same[j]),
    ensures
        has_target(team, position, others, range) == has_target(team, position, same, range),
        flee_velocity(team, position, others, range) == flee_velocity(
            team,
            position,
            same,
            range,
        ),
{
    lemma_targets_go_by_looks(team, position, others, same, range);
    lemma_pull_goes_by_looks(team, position, others, same, range, others.len());
    if stands_on_threat(team, position, others, range) {
        let j = choose|j: int|
            is_target(team, position, others, range, j) && others[j].position == position;
        assert(others[j].looks_like(same[j]));
        assert(is_target(team, position, same, range, j) && same[j].position == position);
    }
    if stands_on_threat(team, position, same, range) {
        let j = choose|j: int|
            is_target(team, position, same, range, j) && same[j].position == position;
        assert(others[j].looks_like(same[j]));
        assert(is_target(team, position, others, range, j) && others[j].position == position);
    }
}

proof fn lemma_pull_goes_by_looks(
    team: CurrentTeam,
    position: Position,
    others: Seq<Unit>,
    same: Seq<Unit>,
    range: u32,
    n: nat,
)
    requires
        n <= others.len(),
        others.len() == same.len(),
        forall|j: int| 0 <= j < others.len() ==> (#[trigger] others[j]).looks_like(same[j]),
    ensures
        flee_pull(team, position, others, range, n) == flee_pull(team, position, same, range, n),
    decreases n,
{
    if n > 0 {
        lemma_pull_goes_by_looks(team, position, others, same, range, (n - 1) as nat);
        lemma_targets_go_by_looks(team, position, others, same, range);
        assert(others[n - 1].looks_like(same[n - 1]));
    }
}

proof fn lemma_weight_from_below(weight: nat, grained: nat, squared: nat)
    by (nonlinear_arith)
    requires
        grained * grained <= squared * 0x1_0000_0000,
        0x4000_0000_0000 < (weight + 1) * grained,
    ensures
        (weight + 1) * (weight + 1) * squared > 0x1000_0000_0000_0000,
{
    let more = (weight + 1) * grained;
    assert(more * more >= 0x4000_0000_0001 * 0x4000_0000_0001);
    assert(more * more == (weight + 1) * (weight + 1) * (grained * grained));
    assert((weight + 1) * (weight + 1) * (grained * grained) <= (weight + 1) * (weight + 1) * (
    squared * 0x1_0000_0000));
}

proof fn lemma_weight_from_above(weight: nat, grained: nat, squared: nat)
    by (nonlinear_arith)
    requires
        squared * 0x1_0000_0000 < (grained + 1) * (grained + 1),
        weight * grained <= 0x4000_0000_0000,
        weight <= 0x4000_0000,
    ensures
        weight * weight * squared * 0x1_0000_0000 <= 0x4000_4000_0000 * 0x4000_4000_0000,
{
    let less = weight * (grained + 1);
    assert(less <= 0x4000_4000_0000);
    assert(less * less <= 0x4000_4000_0000 * 0x4000_4000_0000);
    assert(less * less == weight * weight * ((grained + 1) * (grained + 1)));
    assert(weight * weight * (squared * 0x1_0000_0000) <= weight * weight * ((grained + 1) * (
    grained + 1)));
}

/// The weight of a threat follows the inverse of its distance to a stated
/// precision. With `grained` the distance in 65536ths of a world unit, rounded
/// down, the weight is 2^46 over `grained`, rounded down. So the weight is
/// more than 2^30 over the distance less one, and no more than 2^30 over the
/// distance and one part in 65536 of that: the last two clauses say so in
/// squares. It is at most 2^30, which it reaches at distance one.
pub proof fn lemma_weight_follows_the_inverse_distance(squared: nat)
    requires
        squared > 0,
    ensures
        ({
            let grained = grained_distance(squared);
            let weight = threat_weight(squared);
            &&& grained * grained <= squared * 0x1_0000_0000 < (grained + 1) * (grained + 1)
            &&& grained >= FLEE_DISTANCE_GRAIN
            &&& weight * grained <= FLEE_WEIGHT_ONE * FLEE_DISTANCE_GRAIN < (weight + 1) * grained
            &&& weight <= FLEE_WEIGHT_ONE
            &&& (weight + 1) * (weight + 1) * squared > FLEE_WEIGHT_ONE * FLEE_WEIGHT_ONE
            &&& weight * weight * squared * (FLEE_DISTANCE_GRAIN * FLEE_DISTANCE_GRAIN) <= (
            FLEE_WEIGHT_ONE * (FLEE_DISTANCE_GRAIN + 1)) * (FLEE_WEIGHT_ONE * (FLEE_DISTANCE_GRAIN
                + 1))
        }),
{
    let grained = grained_distance(squared);
    let weight = threat_weight(squared);
    lemma_sqrt_floor_exists(squared * 0x1_0000_0000);
    lemma_grain_of_one(grained, squared);
    lemma_quotient_bounds(grained);
    lemma_quotient_order(grained, grained);
    lemma_weight_from_below(weight, grained, squared);
    lemma_weight_from_above(weight, grained, squared);
    assert(FLEE_WEIGHT_ONE * FLEE_WEIGHT_ONE == 0x1000_0000_0000_0000) by (nonlinear_arith);
    assert(FLEE_DISTANCE_GRAIN * FLEE_DISTANCE_GRAIN == 0x1_0000_0000) by (nonlinear_arith);
    assert(FLEE_WEIGHT_ONE * (FLEE_DISTANCE_GRAIN + 1) == 0x4000_4000_0000) by (nonlinear_arith);
}

/// Of two threats, the nearer one weighs no less. It weighs strictly more
/// where the inverses of the two distances differ by one part in 2^30 at
/// least: with `a` and `b` the two distances in grains, where `a * b` is at
/// most 2^46 times `b - a`. Far out a weight of at most 2^30 cannot tell
/// every distance apart.
pub proof fn lemma_nearer_threats_weigh_more(nearer: nat, farther: nat)
    requires
        0 < nearer <= farther,
    ensures
        threat_weight(nearer) >= threat_weight(farther),
        threat_weight(nearer) <= FLEE_WEIGHT_ONE,
        grained_distance(nearer) <= grained_distance(farther),
        grained_distance(nearer) * grained_distance(farther) <= FLEE_WEIGHT_ONE
            * FLEE_DISTANCE_GRAIN * (grained_distance(farther) - grained_distance(nearer))
            ==> threat_weight(nearer) > threat_weight(farther),
{
    lemma_weight_follows_the_inverse_distance(nearer);
    lemma_weight_follows_the_inverse_distance(farther);
    let a = grained_distance(nearer);
    let b = grained_distance(farther);
    assert(nearer * 0x1_0000_0000 <= farther * 0x1_0000_0000);
    lemma_sqrt_floor_is_monotonic(nearer * 0x1_0000_0000, farther * 0x1_0000_0000, a, b);
    lemma_quotient_order(a, b);
    assert(FLEE_WEIGHT_ONE * FLEE_DISTANCE_GRAIN == 0x4000_0000_0000) by (nonlinear_arith);
    if a * b <= 0x4000_0000_0000 * (b - a) {
        assert(a < b) by (nonlinear_arith)
            requires
                a >= 0x1_0000,
                a <= b,
                a * b <= 0x4000_0000_0000 * (b - a),
        ;
        lemma_quotient_strict_order(a, b, threat_weight(nearer), threat_weight(farther));
    }
}

/// The weight of a threat at the given squared distance.
pub fn weight_of_threat(squared: u64) -> (weight: u64)
    ensures
        weight == threat_weight(squared as nat),
        weight <= FLEE_WEIGHT_ONE,
{
    if squared == 0 {
        0
    } else {
        proof {
            lemma_weight_follows_the_inverse_distance(squared as nat);
        }
        let grained = integer_sqrt(squared as u128 * 0x1_0000_0000);
        ((FLEE_WEIGHT_ONE as u128 * FLEE_DISTANCE_GRAIN as u128) / grained) as u64
    }
}

/// The velocity of a fleeing unit of `team` at `position` among `others`, or
/// nothing where no valid target is within `range`.
pub fn flee_from(team: &CurrentTeam, position: &Position, others: &Vec<Unit>, range: u32) -> (fled:
    Option<Velocity>)
    ensures
        fled == (if has_target(*team, *position, others@, range) {
            Some(flee_velocity(*team, *position, others@, range))
        } else {
            None
        }),
{
    let mut threatened = false;
    let mut on_the_spot = false;
    let mut pull_x: i128 = 0;
    let mut pull_y: i128 = 0;
    let mut j: usize = 0;
    while j < others.len()
        invariant
            j <= others.len(),
            threatened == (exists|k: int|
                0 <= k < j && is_target(*team, *position, others@, range, k)),
            on_the_spot == (exists|k: int|
                0 <= k < j && is_target(*team, *position, others@, range, k) && others@[k].position
                    == *position),
            pull_x == flee_pull(*team, *position, others@, range, j as nat).0,
            pull_y == flee_pull(*team, *position, others@, range, j as nat).1,
            -0x4000_0000_0000_0000 * j <= pull_x <= 0x4000_0000_0000_0000 * j,
            -0x4000_0000_0000_0000 * j <= pull_y <= 0x4000_0000_0000_0000 * j,
        decreases others.len() - j,
    {
        let threat = others[j].position;
        if is_other_valid_target(team, &others[j].health, &others[j].team, position, &threat, range) {
            assert(is_target(*team, *position, others@, range, j as int));
            threatened = true;
            let squared = position.distance_squared(&threat);
            proof {
                lemma_square_of_difference(range as int);
            }
            if squared == 0 {
                assert(threat == *position) by (nonlinear_arith)
                    requires
                        (position.x - threat.x) * (position.x - threat.x) + (position.y - threat.y)
                            * (position.y - threat.y) == 0,
                ;
                on_the_spot = true;
            } else {
                assert(threat != *position) by {
                    if threat == *position {
                        assert(position.dist_sq(threat) == 0) by (nonlinear_arith)
                            requires
                                position.dist_sq(threat) == (position.x - threat.x) * (position.x
                                    - threat.x) + (position.y - threat.y) * (position.y
                                    - threat.y),
                                position.x == threat.x,
                                position.y == threat.y,
                        ;
                    }
                }
            }
            let weight = weight_of_threat(squared as u64) as i128;
            let offset_x: i128 = position.x as i128 - threat.x as i128;
            let offset_y: i128 = position.y as i128 - threat.y as i128;
            proof {
                lemma_pull_bound(weight as int, offset_x as int);
                lemma_pull_bound(weight as int, offset_y as int);
            }
            pull_x = pull_x + weight * offset_x;
            pull_y = pull_y + weight * offset_y;
        }
        j += 1;
    }
    if !threatened {
        assert forall|k: int| !is_target(*team, *position, others@, range, k) by {}
        None
    } else if on_the_spot {
        Some(Velocity::zero())
    } else {
        assert(!stands_on_threat(*team, *position, others@, range));
        Some(Velocity { x: pull_x, y: pull_y, pace: Pace::Full })
    }
}

} // verus!
