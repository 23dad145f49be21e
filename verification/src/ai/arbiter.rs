use vstd::prelude::*;
use crate::ai::behavior::{Behavior, CurrentBehavior, SupportedBehaviors};
use crate::ai::ranges::Ranges;
use crate::ai::targeting::{any_valid_target, has_target, lemma_targets_go_by_looks};
use crate::position::Position;
use crate::units::health::Health;
use crate::units::team::CurrentTeam;
use crate::units::unit::Unit;

verus! {

/// Whether `behavior` wants control of a unit of `team` at `position` with
/// `health` left, among `others`.
///
/// Idle and wander always do. Moving to the origin does while the unit is
/// farther from it than `ranges.origo`. Chase, flee and attack do while some
/// enemy is alive within their range. Dead does once no health is left.
pub open spec fn desires(
    behavior: Behavior,
    team: CurrentTeam,
    position: Position,
    health: Health,
    others: Seq<Unit>,
    ranges: Ranges,
) -> bool {
    match behavior {
        Behavior::Idle(_) => true,
        Behavior::MoveOrigo(_) => position.beyond(Position::origin(), ranges.origo),
        Behavior::Wander(_) => true,
        Behavior::Chase(_) => has_target(team, position, others, ranges.chase),
        Behavior::Flee(_) => has_target(team, position, others, ranges.flee),
        Behavior::Attack(_) => has_target(team, position, others, ranges.attack_max),
        Behavior::Dead(_) => health.0 == 0,
    }
}

/// For each supported behaviour, in order, whether it wants control.
pub open spec fn wishes(
    supported: Seq<(Behavior, u8)>,
    team: CurrentTeam,
    position: Position,
    health: Health,
    others: Seq<Unit>,
    ranges: Ranges,
) -> Seq<bool> {
    Seq::new(
        supported.len(),
        |j: int| desires(supported[j].0, team, position, health, others, ranges),
    )
}

/// Whether entry `k` wins the arbitration: it wants control, no entry that
/// wants control has a higher priority, and of those with the same priority it
/// stands first in the list. This is the head of the wanting entries after a
/// stable sort by falling priority. `wanted` says of each entry whether it
/// wants control; an entry that it does not reach does not.
pub open spec fn is_winner(supported: Seq<(Behavior, u8)>, wanted: Seq<bool>, k: int) -> bool {
    &&& 0 <= k < supported.len()
    &&& k < wanted.len()
    &&& wanted[k]
    &&& forall|j: int|
        0 <= j < supported.len() && j < wanted.len() && #[trigger] wanted[j] ==> {
            &&& supported[j].1 <= supported[k].1
            &&& j < k ==> supported[j].1 < supported[k].1
        }
}

/// The behaviour in control after arbitration: that of the winning entry, or,
/// where no entry wants control, the one that was in control before.
pub open spec fn chosen(
    supported: Seq<(Behavior, u8)>,
    wanted: Seq<bool>,
    previous: Behavior,
) -> Behavior {
    if exists|k: int| is_winner(supported, wanted, k) {
        supported[choose|k: int| is_winner(supported, wanted, k)].0
    } else {
        previous
    }
}

/// The behaviour that the arbitrator puts in control of `unit` among `others`.
pub open spec fn arbitrated(unit: Unit, others: Seq<Unit>, ranges: Ranges) -> Behavior {
    chosen(
        unit.supported_behaviors.0@,
        wishes(
            unit.supported_behaviors.0@,
            unit.team,
            unit.position,
            unit.health,
            others,
            ranges,
        ),
        unit.current_behavior.0,
    )
}

/// At most one entry wins.
pub proof fn lemma_winner_is_unique(
    supported: Seq<(Behavior, u8)>,
    wanted: Seq<bool>,
    j: int,
    k: int,
)
    requires
        is_winner(supported, wanted, j),
        is_winner(supported, wanted, k),
    ensures
        j == k,
{
}

/// Where any entry wants control, one of them wins.
pub proof fn lemma_some_wish_wins(supported: Seq<(Behavior, u8)>, wanted: Seq<bool>, j: int)
    requires
        wanted.len() == supported.len(),
        0 <= j < supported.len(),
        wanted[j],
    ensures
        exists|k: int| is_winner(supported, wanted, k),
    decreases supported.len(),
{
    let last = supported.len() - 1;
    let front = supported.drop_last();
    let front_wanted = wanted.drop_last();
    if exists|i: int| 0 <= i < last && wanted[i] {
        let i = choose|i: int| 0 <= i < last && wanted[i];
        assert(front_wanted[i]);
        lemma_some_wish_wins(front, front_wanted, i);
        let n = choose|n: int| is_winner(front, front_wanted, n);
        if wanted[last] && supported[last].1 > supported[n].1 {
            assert forall|m: int| 0 <= m < supported.len() && #[trigger] wanted[m] implies {
                &&& supported[m].1 <= supported[last].1
                &&& m < last ==> supported[m].1 < supported[last].1
            } by {
                if m < last {
                    assert(front_wanted[m]);
                }
            }
            assert(is_winner(supported, wanted, last));
        } else {
            assert forall|m: int| 0 <= m < supported.len() && #[trigger] wanted[m] implies {
                &&& supported[m].1 <= supported[n].1
                &&& m < n ==> supported[m].1 < supported[n].1
            } by {
                if m < last {
                    assert(front_wanted[m]);
                }
            }
            assert(is_winner(supported, wanted, n));
        }
    } else {
        assert(j == last);
        assert(is_winner(supported, wanted, last));
    }
}

/// Where no entry wants control, none wins.
pub proof fn lemma_no_wish_no_winner(supported: Seq<(Behavior, u8)>, wanted: Seq<bool>)
    requires
        forall|j: int| 0 <= j < supported.len() && j < wanted.len() ==> !wanted[j],
    ensures
        forall|k: int| !is_winner(supported, wanted, k),
{
}

/// The behaviour in control after arbitration is that of the one entry that
/// wins, if there is one.
pub proof fn lemma_chosen_is_the_winner(
    supported: Seq<(Behavior, u8)>,
    wanted: Seq<bool>,
    previous: Behavior,
    k: int,
)
    requires
        is_winner(supported, wanted, k),
    ensures
        chosen(supported, wanted, previous) == supported[k].0,
{
    let c = choose|c: int| is_winner(supported, wanted, c);
    lemma_winner_is_unique(supported, wanted, c, k);
}

/// What a behaviour wants goes by the position, team and health of the other
/// units alone.
pub proof fn lemma_wishes_go_by_looks(
    supported: Seq<(Behavior, u8)>,
    team: CurrentTeam,
    position: Position,
    health: Health,
    others: Seq<Unit>,
    same: Seq<Unit>,
    ranges: Ranges,
)
    requires
        others.len() == same.len(),
        forall|j: int| 0 <= j < others.len() ==> (#[trigger] others[j]).looks_like(same[j]),
    ensures
        wishes(supported, team, position, health, others, ranges) == wishes(
            supported,
            team,
            position,
            health,
            same,
            ranges,
        ),
{
    lemma_targets_go_by_looks(team, position, others, same, ranges.chase);
    lemma_targets_go_by_looks(team, position, others, same, ranges.flee);
    lemma_targets_go_by_looks(team, position, others, same, ranges.attack_max);
    assert(wishes(supported, team, position, health, others, ranges) =~= wishes(
        supported,
        team,
        position,
        health,
        same,
        ranges,
    ));
}

/// The desire predicate of one behaviour.
pub fn behavior_wants_to_be_active(
    behavior: &Behavior,
    team: &CurrentTeam,
    position: &Position,
    health: &Health,
    others: &Vec<Unit>,
    ranges: &Ranges,
) -> (wanted: bool)
    ensures
        wanted == desires(*behavior, *team, *position, *health, others@, *ranges),
{
    match behavior {
        Behavior::Idle(_) => true,
        Behavior::MoveOrigo(_) => position.is_beyond(&Position::origin(), ranges.origo),
        Behavior::Wander(_) => true,
        Behavior::Chase(_) => any_valid_target(team, position, others, ranges.chase),
        Behavior::Flee(_) => any_valid_target(team, position, others, ranges.flee),
        Behavior::Attack(_) => any_valid_target(team, position, others, ranges.attack_max),
        Behavior::Dead(_) => health.is_dead(),
    }
}

/// The entry that wins among those that want control, if any does.
pub fn highest_priority(supported: &Vec<(Behavior, u8)>, wanted: &Vec<bool>) -> (winner: Option<
    usize,
>)
    ensures
        match winner {
            Some(k) => is_winner(supported@, wanted@, k as int),
            None => forall|j: int| 0 <= j < supported.len() && j < wanted.len() ==> !wanted[j],
        },
{
    let mut winner: Option<usize> = None;
    let mut top: u8 = 0;
    let mut j: usize = 0;
    while j < supported.len()
        invariant
            j <= supported.len(),
            match winner {
                Some(k) => {
                    &&& k < j
                    &&& k < wanted.len()
                    &&& wanted[k as int]
                    &&& top == supported[k as int].1
                    &&& forall|i: int|
                        0 <= i < j && i < wanted.len() && #[trigger] wanted[i] ==> {
                            &&& supported[i].1 <= top
                            &&& i < k ==> supported[i].1 < top
                        }
                },
                None => forall|i: int| 0 <= i < j && i < wanted.len() ==> !wanted[i],
            },
        decreases supported.len() - j,
    {
        if j < wanted.len() && wanted[j] {
            let priority = supported[j].1;
            let higher = match winner {
                Some(_) => priority > top,
                None => true,
            };
            if higher {
                winner = Some(j);
                top = priority;
            }
        }
        j += 1;
    }
    winner
}

/// Arbitration for one unit: asks every supported behaviour whether it wants
/// control and returns the entry that wins, if any wants it.
pub fn select_behavior(
    supported: &SupportedBehaviors,
    team: &CurrentTeam,
    position: &Position,
    health: &Health,
    others: &Vec<Unit>,
    ranges: &Ranges,
) -> (winner: Option<usize>)
    ensures
        match winner {
            Some(k) => is_winner(
                supported.0@,
                wishes(supported.0@, *team, *position, *health, others@, *ranges),
                k as int,
            ),
            None => forall|j: int|
                0 <= j < supported.0.len() ==> !desires(
                    #[trigger] supported.0[j].0,
                    *team,
                    *position,
                    *health,
                    others@,
                    *ranges,
                ),
        },
{
    let mut wanted: Vec<bool> = Vec::new();
    let mut j: usize = 0;
    while j < supported.0.len()
        invariant
            j <= supported.0.len(),
            wanted.len() == j,
            forall|i: int|
                0 <= i < j ==> wanted[i] == desires(
                    supported.0[i].0,
                    *team,
                    *position,
                    *health,
                    others@,
                    *ranges,
                ),
        decreases supported.0.len() - j,
    {
        let wants = behavior_wants_to_be_active(
            &supported.0[j].0,
            team,
            position,
            health,
            others,
            ranges,
        );
        wanted.push(wants);
        j += 1;
    }
    assert(wanted@ =~= wishes(supported.0@, *team, *position, *health, others@, *ranges));
    let winner = highest_priority(&supported.0, &wanted);
    proof {
        if winner is None {
            assert forall|j: int| 0 <= j < supported.0.len() implies !desires(
                #[trigger] supported.0[j].0,
                *team,
                *position,
                *health,
                others@,
                *ranges,
            ) by {
                assert(!wanted[j]);
            }
        }
    }
    winner
}

/// Arbitration for one unit: puts the winning behaviour in control, and
/// leaves the previous one there where no behaviour wants control.
pub fn arbitrate(
    current: &mut CurrentBehavior,
    supported: &SupportedBehaviors,
    team: &CurrentTeam,
    position: &Position,
    health: &Health,
    others: &Vec<Unit>,
    ranges: &Ranges,
)
    ensures
        final(current).0 == chosen(
            supported.0@,
            wishes(supported.0@, *team, *position, *health, others@, *ranges),
            old(current).0,
        ),
{
    let ghost wanted = wishes(supported.0@, *team, *position, *health, others@, *ranges);
    match select_behavior(supported, team, position, health, others, ranges) {
        Some(k) => {
            proof {
                lemma_chosen_is_the_winner(supported.0@, wanted, current.0, k as int);
            }
            current.0 = supported.0[k].0;
        },
        None => {
            proof {
                assert forall|j: int| 0 <= j < supported.0@.len() implies !wanted[j] by {
                    assert(!desires(
                        supported.0[j].0,
                        *team,
                        *position,
                        *health,
                        others@,
                        *ranges,
                    ));
                }
                lemma_no_wish_no_winner(supported.0@, wanted);
            }
        },
    }
}

/// A dead unit comes under `Dead`, whatever else wants control, where `Dead`
/// is supported and outranks every other behaviour that wants control: each
/// of them has a lower priority, or the same priority and a place behind it
/// in the list. As nothing here raises health, a unit that is dead stays
/// under `Dead` tick after tick.
pub proof fn lemma_dead_takes_control(unit: Unit, others: Seq<Unit>, ranges: Ranges, d: int)
    requires
        unit.health.0 == 0,
        0 <= d < unit.supported_behaviors.0@.len(),
        unit.supported_behaviors.0@[d].0 is Dead,
        forall|j: int|
            0 <= j < unit.supported_behaviors.0@.len() && !(unit.supported_behaviors.0@[j].0 is Dead)
                && desires(
                #[trigger] unit.supported_behaviors.0@[j].0,
                unit.team,
                unit.position,
                unit.health,
                others,
                ranges,
            ) ==> unit.supported_behaviors.0@[j].1 < unit.supported_behaviors.0@[d].1 || (
            unit.supported_behaviors.0@[j].1 == unit.supported_behaviors.0@[d].1 && d < j),
    ensures
        arbitrated(unit, others, ranges) is Dead,
{
    let supported = unit.supported_behaviors.0@;
    let wanted = wishes(supported, unit.team, unit.position, unit.health, others, ranges);
    assert(wanted[d]);
    lemma_some_wish_wins(supported, wanted, d);
    let k = choose|k: int| is_winner(supported, wanted, k);
    assert(wanted[k]);
    if !(supported[k].0 is Dead) {
        assert(desires(supported[k].0, unit.team, unit.position, unit.health, others, ranges));
        assert(supported[k].1 < supported[d].1 || (supported[k].1 == supported[d].1 && d < k));
    }
}

/// A list that holds `Idle` or `Wander` always has an entry that wants
/// control.
pub proof fn lemma_fallback_always_wants(
    supported: Seq<(Behavior, u8)>,
    team: CurrentTeam,
    position: Position,
    health: Health,
    others: Seq<Unit>,
    ranges: Ranges,
    j: int,
)
    requires
        0 <= j < supported.len(),
        supported[j].0 is Idle || supported[j].0 is Wander,
    ensures
        wishes(supported, team, position, health, others, ranges)[j],
        exists|k: int| is_winner(
            supported,
            wishes(supported, team, position, health, others, ranges),
            k,
        ),
{
    lemma_some_wish_wins(
        supported,
        wishes(supported, team, position, health, others, ranges),
        j,
    );
}

/// After arbitration the behaviour in control is one that the unit supports,
/// provided that some supported behaviour wants control, or else that the
/// behaviour in control before was a supported one.
pub proof fn lemma_arbitrated_is_supported(unit: Unit, others: Seq<Unit>, ranges: Ranges)
    requires
        (exists|j: int|
            0 <= j < unit.supported_behaviors.0@.len() && desires(
                #[trigger] unit.supported_behaviors.0@[j].0,
                unit.team,
                unit.position,
                unit.health,
                others,
                ranges,
            )) || (exists|j: int|
            0 <= j < unit.supported_behaviors.0@.len() && (#[trigger] unit.supported_behaviors.0@[j]).0
                == unit.current_behavior.0),
    ensures
        exists|k: int|
            0 <= k < unit.supported_behaviors.0@.len() && arbitrated(unit, others, ranges) == (
            #[trigger] unit.supported_behaviors.0@[k]).0,
{
    let supported = unit.supported_behaviors.0@;
    let wanted = wishes(supported, unit.team, unit.position, unit.health, others, ranges);
    if exists|j: int|
        0 <= j < supported.len() && desires(
            #[trigger] supported[j].0,
            unit.team,
            unit.position,
            unit.health,
            others,
            ranges,
        ) {
        let j = choose|j: int|
            0 <= j < supported.len() && desires(
                #[trigger] supported[j].0,
                unit.team,
                unit.position,
                unit.health,
                others,
                ranges,
            );
        assert(wanted[j]);
        lemma_some_wish_wins(supported, wanted, j);
        let k = choose|k: int| is_winner(supported, wanted, k);
        assert(arbitrated(unit, others, ranges) == supported[k].0);
    } else {
        assert forall|k: int| !is_winner(supported, wanted, k) by {
            if 0 <= k < supported.len() && wanted[k] {
                assert(desires(
                    supported[k].0,
                    unit.team,
                    unit.position,
                    unit.health,
                    others,
                    ranges,
                ));
            }
        }
        let j = choose|j: int|
            0 <= j < supported.len() && (#[trigger] supported[j]).0 == unit.current_behavior.0;
        assert(arbitrated(unit, others, ranges) == supported[j].0);
    }
}

} // verus!
