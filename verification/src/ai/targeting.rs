use vstd::prelude::*;
use crate::position::Position;
use crate::units::health::Health;
use crate::units::team::CurrentTeam;
use crate::units::unit::Unit;

verus! {

/// Whether a unit of `team` at `position` may go for another unit: the other
/// fights for the other side, is alive, and is closer than `distance`.
pub open spec fn valid_target(
    team: CurrentTeam,
    other_health: Health,
    other_team: CurrentTeam,
    position: Position,
    other_position: Position,
    distance: u32,
) -> bool {
    &&& team.0 != other_team.0
    &&& other_health.0 != 0
    &&& position.within(other_position, distance)
}

/// Whether `others[j]` is a valid target for a unit of `team` at `position`.
pub open spec fn is_target(
    team: CurrentTeam,
    position: Position,
    others: Seq<Unit>,
    range: u32,
    j: int,
) -> bool {
    &&& 0 <= j < others.len()
    &&& valid_target(team, others[j].health, others[j].team, position, others[j].position, range)
}

/// Whether any of `others` is a valid target.
pub open spec fn has_target(
    team: CurrentTeam,
    position: Position,
    others: Seq<Unit>,
    range: u32,
) -> bool {
    exists|j: int| is_target(team, position, others, range, j)
}

/// Whether `others[j]` is the nearest valid target: no valid target is
/// closer, and of those exactly as close it comes first.
pub open spec fn is_nearest_target(
    team: CurrentTeam,
    position: Position,
    others: Seq<Unit>,
    range: u32,
    j: int,
) -> bool {
    &&& is_target(team, position, others, range, j)
    &&& forall|k: int| #[trigger]
        is_target(team, position, others, range, k) ==> {
            &&& position.dist_sq(others[j].position) <= position.dist_sq(others[k].position)
            &&& k < j ==> position.dist_sq(others[j].position) < position.dist_sq(
                others[k].position,
            )
        }
}

/// The nearest valid target, by its index in `others`, where there is one.
pub open spec fn nearest_target(
    team: CurrentTeam,
    position: Position,
    others: Seq<Unit>,
    range: u32,
) -> Option<int> {
    if has_target(team, position, others, range) {
        Some(choose|j: int| is_nearest_target(team, position, others, range, j))
    } else {
        None
    }
}

/// The spatial query on one pair of units.
pub fn is_other_valid_target(
    team: &CurrentTeam,
    other_health: &Health,
    other_team: &CurrentTeam,
    transform: &Position,
    other_transform: &Position,
    distance: u32,
) -> (valid: bool)
    ensures
        valid == valid_target(
            *team,
            *other_health,
            *other_team,
            *transform,
            *other_transform,
            distance,
        ),
        team.0 == other_team.0 ==> !valid,
        other_health.0 == 0 ==> !valid,
{
    if team.is_friendly(other_team) {
        return false;
    }
    if other_health.is_dead() {
        return false;
    }
    transform.is_within(other_transform, distance)
}

/// Whether a unit of `team` at `position` has a valid target among `others`.
pub fn any_valid_target(
    team: &CurrentTeam,
    position: &Position,
    others: &Vec<Unit>,
    range: u32,
) -> (found: bool)
    ensures
        found == has_target(*team, *position, others@, range),
{
    let mut j: usize = 0;
    while j < others.len()
        invariant
            j <= others.len(),
            forall|k: int| 0 <= k < j ==> !is_target(*team, *position, others@, range, k),
        decreases others.len() - j,
    {
        if is_other_valid_target(
            team,
            &others[j].health,
            &others[j].team,
            position,
            &others[j].position,
            range,
        ) {
            assert(is_target(*team, *position, others@, range, j as int));
            return true;
        }
        j += 1;
    }
    false
}

/// The nearest valid target of a unit of `team` at `position`, by its index
/// in `others`; the first of them where several are equally near.
pub fn nearest_valid_target(
    team: &CurrentTeam,
    position: &Position,
    others: &Vec<Unit>,
    range: u32,
) -> (nearest: Option<usize>)
    ensures
        match nearest {
            Some(j) => {
                &&& is_nearest_target(*team, *position, others@, range, j as int)
                &&& nearest_target(*team, *position, others@, range) == Some(j as int)
            },
            None => {
                &&& !has_target(*team, *position, others@, range)
                &&& nearest_target(*team, *position, others@, range) is None
            },
        },
{
    let mut nearest: Option<usize> = None;
    let mut least: u128 = 0;
    let mut j: usize = 0;
    while j < others.len()
        invariant
            j <= others.len(),
            match nearest {
                Some(n) => {
                    &&& n < j
                    &&& least == position.dist_sq(others@[n as int].position)
                    &&& is_target(*team, *position, others@, range, n as int)
                    &&& forall|k: int|
                        0 <= k < j && #[trigger] is_target(*team, *position, others@, range, k)
                            ==> {
                            &&& least <= position.dist_sq(others@[k].position)
                            &&& k < n ==> least < position.dist_sq(others@[k].position)
                        }
                },
                None => forall|k: int|
                    0 <= k < j ==> !is_target(*team, *position, others@, range, k),
            },
        decreases others.len() - j,
    {
        if is_other_valid_target(
            team,
            &others[j].health,
            &others[j].team,
            position,
            &others[j].position,
            range,
        ) {
            let squared = position.distance_squared(&others[j].position);
            let closer = match nearest {
                Some(_) => squared < least,
                None => true,
            };
            if closer {
                nearest = Some(j);
                least = squared;
            }
        }
        j += 1;
    }
    proof {
        if let Some(n) = nearest {
            lemma_nearest_target_is_the_one(*team, *position, others@, range, n as int);
        }
    }
    nearest
}

/// No unit is a valid target of its own side, however close it is.
pub proof fn lemma_friends_are_never_targets(
    team: CurrentTeam,
    other_health: Health,
    other_team: CurrentTeam,
    position: Position,
    other_position: Position,
    distance: u32,
)
    requires
        team.0 == other_team.0,
    ensures
        !valid_target(team, other_health, other_team, position, other_position, distance),
{
}

/// No dead unit is a valid target.
pub proof fn lemma_the_dead_are_never_targets(
    team: CurrentTeam,
    other_health: Health,
    other_team: CurrentTeam,
    position: Position,
    other_position: Position,
    distance: u32,
)
    requires
        other_health.0 == 0,
    ensures
        !valid_target(team, other_health, other_team, position, other_position, distance),
{
}

/// A unit has no target within a range in which every living unit is of its
/// own side, whoever stands farther out.
pub proof fn lemma_no_target_among_nearby_friends(
    team: CurrentTeam,
    position: Position,
    others: Seq<Unit>,
    range: u32,
)
    requires
        forall|j: int|
            0 <= j < others.len() && (#[trigger] others[j]).health.0 != 0 && position.within(
                others[j].position,
                range,
            ) ==> others[j].team.0 == team.0,
    ensures
        !has_target(team, position, others, range),
        forall|j: int| !is_nearest_target(team, position, others, range, j),
{
    assert forall|j: int| !is_target(team, position, others, range, j) by {
        if 0 <= j < others.len() {
            let other = others[j];
            assert(other.health.0 != 0 && position.within(other.position, range) ==> other.team.0
                == team.0);
        }
    }
}

/// A nearest valid target is an enemy, alive and in range.
pub proof fn lemma_nearest_target_is_valid(
    team: CurrentTeam,
    position: Position,
    others: Seq<Unit>,
    range: u32,
    j: int,
)
    requires
        is_nearest_target(team, position, others, range, j),
    ensures
        0 <= j < others.len(),
        others[j].team.0 != team.0,
        others[j].health.0 != 0,
        position.within(others[j].position, range),
{
}

/// There is at most one nearest valid target.
pub proof fn lemma_nearest_target_is_unique(
    team: CurrentTeam,
    position: Position,
    others: Seq<Unit>,
    range: u32,
    j: int,
    k: int,
)
    requires
        is_nearest_target(team, position, others, range, j),
        is_nearest_target(team, position, others, range, k),
    ensures
        j == k,
{
}

/// The nearest valid target is the one unit that no valid target is nearer
/// than, nor as near and earlier in the list.
pub proof fn lemma_nearest_target_is_the_one(
    team: CurrentTeam,
    position: Position,
    others: Seq<Unit>,
    range: u32,
    j: int,
)
    requires
        is_nearest_target(team, position, others, range, j),
    ensures
        nearest_target(team, position, others, range) == Some(j),
{
    let n = choose|n: int| is_nearest_target(team, position, others, range, n);
    lemma_nearest_target_is_unique(team, position, others, range, n, j);
}

/// Where there is a valid target at all, there is a nearest one.
pub proof fn lemma_some_target_is_nearest(
    team: CurrentTeam,
    position: Position,
    others: Seq<Unit>,
    range: u32,
)
    requires
        has_target(team, position, others, range),
    ensures
        exists|j: int| is_nearest_target(team, position, others, range, j),
    decreases others.len(),
{
    let last = others.len() - 1;
    let front = others.drop_last();
    assert forall|k: int| 0 <= k < last implies is_target(team, position, front, range, k)
        == is_target(team, position, others, range, k) by {}
    if exists|k: int| is_target(team, position, front, range, k) {
        lemma_some_target_is_nearest(team, position, front, range);
        let n = choose|n: int| is_nearest_target(team, position, front, range, n);
        if is_target(team, position, others, range, last) && position.dist_sq(
            others[last].position,
        ) < position.dist_sq(others[n].position) {
            assert forall|k: int| #[trigger]
                is_target(team, position, others, range, k) implies position.dist_sq(
                others[last].position,
            ) <= position.dist_sq(others[k].position) && (k < last ==> position.dist_sq(
                others[last].position,
            ) < position.dist_sq(others[k].position)) by {
                if k < last {
                    assert(is_target(team, position, front, range, k));
                }
            }
            assert(is_nearest_target(team, position, others, range, last));
        } else {
            assert forall|k: int| #[trigger]
                is_target(team, position, others, range, k) implies position.dist_sq(
                others[n].position,
            ) <= position.dist_sq(others[k].position) && (k < n ==> position.dist_sq(
                others[n].position,
            ) < position.dist_sq(others[k].position)) by {
                if k < last {
                    assert(is_target(team, position, front, range, k));
                }
            }
            assert(is_nearest_target(team, position, others, range, n));
        }
    } else {
        let j = choose|j: int| is_target(team, position, others, range, j);
        assert(j == last) by {
            if j < last {
                assert(is_target(team, position, front, range, j));
            }
        }
        assert forall|k: int| #[trigger]
            is_target(team, position, others, range, k) implies k == last by {
            if k < last {
                assert(is_target(team, position, front, range, k));
            }
        }
        assert(is_nearest_target(team, position, others, range, last));
    }
}

/// Targets are told by position, team and health alone: two worlds that agree
/// on these, unit by unit, hold the same targets.
pub proof fn lemma_targets_go_by_looks(
    team: CurrentTeam,
    position: Position,
    others: Seq<Unit>,
    same: Seq<Unit>,
    range: u32,
)
    requires
        others.len() == same.len(),
        forall|j: int| 0 <= j < others.len() ==> (#[trigger] others[j]).looks_like(same[j]),
    ensures
        forall|j: int|
            is_target(team, position, others, range, j) == is_target(
                team,
                position,
                same,
                range,
                j,
            ),
        has_target(team, position, others, range) == has_target(team, position, same, range),
        forall|j: int|
            is_nearest_target(team, position, others, range, j) == is_nearest_target(
                team,
                position,
                same,
                range,
                j,
            ),
        nearest_target(team, position, others, range) == nearest_target(
            team,
            position,
            same,
            range,
        ),
{
    assert forall|j: int|
        is_target(team, position, others, range, j) == is_target(
            team,
            position,
            same,
            range,
            j,
        ) by {
        if 0 <= j < others.len() {
            assert(others[j].looks_like(same[j]));
        }
    }
    assert forall|j: int|
        is_nearest_target(team, position, others, range, j) == is_nearest_target(
            team,
            position,
            same,
            range,
            j,
        ) by {
        if 0 <= j < others.len() {
            assert(others[j].looks_like(same[j]));
            assert forall|k: int| 0 <= k < others.len() implies others[k].position
                == same[k].position by {
                assert(others[k].looks_like(same[k]));
            }
        }
    }
    if has_target(team, position, others, range) {
        lemma_some_target_is_nearest(team, position, others, range);
        let n = choose|n: int| is_nearest_target(team, position, others, range, n);
        assert(is_target(team, position, same, range, n));
        lemma_nearest_target_is_the_one(team, position, same, range, n);
    }
}

} // verus!
