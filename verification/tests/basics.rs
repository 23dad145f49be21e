use dark_arts_defense::ai::behavior::{
    AttackBehavior, Behavior, BehaviorBundle, ChaseBehavior, CurrentBehavior, IdleBehavior,
    MoveOrigoBehavior, SupportedBehaviors, WanderBehavior,
};
use dark_arts_defense::ai::targeting::{any_valid_target, is_other_valid_target, nearest_valid_target};
use dark_arts_defense::math::integer_sqrt;
use dark_arts_defense::position::Position;
use dark_arts_defense::timer::Countdown;
use dark_arts_defense::units::health::Health;
use dark_arts_defense::units::team::{CurrentTeam, Team};
use dark_arts_defense::units::unit::Unit;
use dark_arts_defense::velocity::{Pace, Velocity};

fn unit(x: i32, y: i32, team: Team, health: u8) -> Unit {
    Unit {
        position: Position { x, y },
        team: CurrentTeam(team),
        health: Health(health),
        velocity: Velocity::zero(),
        current_behavior: CurrentBehavior(Behavior::Idle(IdleBehavior {})),
        supported_behaviors: SupportedBehaviors(Vec::new()),
        wander: None,
        attack: None,
    }
}

#[test]
fn health_is_dead_at_zero_only() {
    assert!(Health(0).is_dead());
    assert!(!Health(1).is_dead());
    assert!(!Health(255).is_dead());
    assert!(!Health::default().is_dead());
}

#[test]
fn teams_are_friendly_to_themselves_only() {
    let evil = CurrentTeam(Team::Evil);
    let good = CurrentTeam(Team::Good);
    assert!(evil.is_friendly(&evil));
    assert!(good.is_friendly(&good));
    assert!(!evil.is_friendly(&good));
    assert!(!good.is_friendly(&evil));
}

#[test]
fn valid_target_is_an_enemy_alive_and_in_range() {
    let evil = CurrentTeam(Team::Evil);
    let good = CurrentTeam(Team::Good);
    let here = Position { x: 0, y: 0 };
    let there = Position { x: 30, y: 40 };
    assert!(is_other_valid_target(&evil, &Health(1), &good, &here, &there, 51));
    assert!(!is_other_valid_target(&evil, &Health(1), &good, &here, &there, 50));
    assert!(!is_other_valid_target(&evil, &Health(0), &good, &here, &there, 51));
    assert!(!is_other_valid_target(&evil, &Health(1), &evil, &here, &there, 51));
    assert!(!is_other_valid_target(&good, &Health(1), &good, &here, &here, u32::MAX));
    assert!(!is_other_valid_target(&evil, &Health(1), &good, &here, &here, 0));
    assert!(is_other_valid_target(&evil, &Health(1), &good, &here, &here, 1));
}

#[test]
fn valid_target_across_the_whole_grid() {
    let evil = CurrentTeam(Team::Evil);
    let good = CurrentTeam(Team::Good);
    let one_corner = Position { x: i32::MIN, y: i32::MIN };
    let other_corner = Position { x: i32::MAX, y: i32::MAX };
    assert!(!is_other_valid_target(&evil, &Health(1), &good, &one_corner, &other_corner, u32::MAX));
    let along = Position { x: i32::MAX, y: i32::MIN };
    assert!(!is_other_valid_target(&evil, &Health(1), &good, &one_corner, &along, u32::MAX));
    let nearly = Position { x: i32::MAX - 1, y: i32::MIN };
    assert!(is_other_valid_target(&evil, &Health(1), &good, &one_corner, &nearly, u32::MAX));
    assert_eq!(one_corner.distance_squared(&other_corner), 2 * (u32::MAX as u128) * (u32::MAX as u128));
}

#[test]
fn distances_are_euclidean() {
    let here = Position { x: -3, y: 7 };
    let there = Position { x: 0, y: 3 };
    assert_eq!(here.distance_squared(&there), 25);
    assert_eq!(there.distance_squared(&here), 25);
    assert!(here.is_within(&there, 6));
    assert!(!here.is_within(&there, 5));
    assert!(here.is_beyond(&there, 4));
    assert!(!here.is_beyond(&there, 5));
    assert_eq!(Position::origin(), Position { x: 0, y: 0 });
}

#[test]
fn any_and_nearest_target() {
    let evil = CurrentTeam(Team::Evil);
    let here = Position { x: 0, y: 0 };
    let others = vec![
        unit(0, 0, Team::Evil, 100),
        unit(50, 0, Team::Good, 100),
        unit(0, 10, Team::Good, 0),
        unit(0, -50, Team::Good, 100),
        unit(30, 30, Team::Good, 100),
        unit(-30, 30, Team::Good, 100),
    ];
    assert!(any_valid_target(&evil, &here, &others, 51));
    assert!(any_valid_target(&evil, &here, &others, 43));
    assert!(!any_valid_target(&evil, &here, &others, 42));
    assert!(!any_valid_target(&evil, &here, &Vec::new(), 1000));
    assert_eq!(nearest_valid_target(&evil, &here, &others, 100), Some(4));
    assert_eq!(nearest_valid_target(&evil, &here, &others, 43), Some(4));
    assert_eq!(nearest_valid_target(&evil, &here, &others, 42), None);
    let good = CurrentTeam(Team::Good);
    assert_eq!(nearest_valid_target(&good, &here, &others, 100), Some(0));
    assert_eq!(nearest_valid_target(&good, &Position { x: 200, y: 0 }, &others, 100), None);
    let tied = vec![unit(50, 0, Team::Good, 1), unit(0, 50, Team::Good, 1), unit(-50, 0, Team::Good, 1)];
    assert_eq!(nearest_valid_target(&evil, &here, &tied, 100), Some(0));
}

#[test]
fn countdown_runs_once() {
    let mut countdown = Countdown::new(1_500);
    assert_eq!(countdown, Countdown { duration: 1_500, elapsed: 0, finished: false, just_finished: false });
    assert!(!countdown.tick(1_000));
    assert_eq!(countdown.elapsed, 1_000);
    assert!(!countdown.tick(499));
    assert!(countdown.tick(1));
    assert_eq!(countdown, Countdown { duration: 1_500, elapsed: 1_500, finished: true, just_finished: true });
    assert!(!countdown.tick(1_000));
    assert_eq!(countdown, Countdown { duration: 1_500, elapsed: 1_500, finished: true, just_finished: false });
    assert!(!countdown.tick(u64::MAX));
    assert!(countdown.finished);
}

#[test]
fn countdown_saturates() {
    let mut countdown = Countdown::new(u64::MAX);
    assert!(!countdown.tick(u64::MAX - 1));
    assert!(countdown.tick(u64::MAX));
    assert_eq!(countdown.elapsed, u64::MAX);
    let mut overshoot = Countdown::new(10);
    assert!(overshoot.tick(u64::MAX));
    assert_eq!(overshoot.elapsed, 10);
    let mut none = Countdown::new(0);
    assert!(!none.finished);
    assert!(none.tick(0));
    assert!(none.finished);
    assert_eq!(Countdown::with_jitter(5, 6), Countdown::new(11));
    assert_eq!(Countdown::with_jitter(u64::MAX - 1, 6), Countdown::new(u64::MAX));
}

#[test]
fn velocity_toward_and_zero() {
    let from = Position { x: 1, y: 2 };
    let to = Position { x: 4, y: -2 };
    assert_eq!(Velocity::toward(&from, &to), Velocity { x: 3, y: -4, pace: Pace::Full });
    assert!(Velocity::toward(&from, &from).is_zero());
    assert!(Velocity::zero().is_zero());
    assert!(!Velocity { x: 0, y: 1, pace: Pace::Half }.is_zero());
    assert!(Velocity { x: 0, y: 0, pace: Pace::Half }.is_zero());
}

#[test]
fn integer_square_roots() {
    assert_eq!(integer_sqrt(0), 0);
    assert_eq!(integer_sqrt(1), 1);
    assert_eq!(integer_sqrt(3), 1);
    assert_eq!(integer_sqrt(4), 2);
    assert_eq!(integer_sqrt(24), 4);
    assert_eq!(integer_sqrt(25), 5);
    assert_eq!(integer_sqrt(1_000_000), 1_000);
    assert_eq!(integer_sqrt(999_999), 999);
    assert_eq!(integer_sqrt(u64::MAX as u128), u32::MAX as u128);
    assert_eq!(integer_sqrt((u32::MAX as u128) * (u32::MAX as u128)), u32::MAX as u128);
    assert_eq!(integer_sqrt((u32::MAX as u128) * (u32::MAX as u128) - 1), u32::MAX as u128 - 1);
    assert_eq!(integer_sqrt(u128::MAX), u64::MAX as u128);
    assert_eq!(integer_sqrt((u64::MAX as u128) * (u64::MAX as u128)), u64::MAX as u128);
    assert_eq!(integer_sqrt((u64::MAX as u128) * (u64::MAX as u128) - 1), u64::MAX as u128 - 1);
    assert_eq!(integer_sqrt(2u128 << 32), 92_681);
    for n in 0..5_000u128 {
        let root = integer_sqrt(n);
        assert!(root * root <= n && n < (root + 1) * (root + 1));
    }
}

#[test]
fn spawned_unit_takes_its_states_from_the_list() {
    let unit = Unit::spawn(Position { x: 3, y: -4 }, Team::Good, BehaviorBundle::default());
    assert_eq!(unit.position, Position { x: 3, y: -4 });
    assert_eq!(unit.team, CurrentTeam(Team::Good));
    assert_eq!(unit.health, Health(100));
    assert!(unit.velocity.is_zero());
    assert_eq!(unit.current_behavior, CurrentBehavior::default());
    assert_eq!(unit.supported_behaviors.0, SupportedBehaviors::default().0);
    assert_eq!(unit.wander, Some(WanderBehavior::default()));
    assert_eq!(unit.attack, Some(AttackBehavior::default()));
}

#[test]
fn spawned_unit_without_wander_or_attack_has_no_state_for_them() {
    let bundle = BehaviorBundle {
        current_behavior: CurrentBehavior(Behavior::MoveOrigo(MoveOrigoBehavior {})),
        supported_behaviors: SupportedBehaviors(vec![
            (Behavior::MoveOrigo(MoveOrigoBehavior {}), 5),
            (Behavior::Chase(ChaseBehavior {}), 10),
        ]),
    };
    let unit = Unit::spawn(Position::origin(), Team::Evil, bundle);
    assert_eq!(unit.wander, None);
    assert_eq!(unit.attack, None);
    assert_eq!(unit.current_behavior.0, Behavior::MoveOrigo(MoveOrigoBehavior {}));
    assert_eq!(unit.supported_behaviors.0.len(), 2);
    let bare = Unit::spawn(
        Position::origin(),
        Team::Evil,
        BehaviorBundle {
            current_behavior: CurrentBehavior::default(),
            supported_behaviors: SupportedBehaviors(Vec::new()),
        },
    );
    assert_eq!(bare.wander, None);
    assert_eq!(bare.attack, None);
}

#[test]
fn spawned_unit_takes_the_last_of_a_repeated_behavior() {
    let slow = WanderBehavior { wait_time: 9, ..WanderBehavior::default() };
    let strong = AttackBehavior { damage: 99, ..AttackBehavior::default() };
    let bundle = BehaviorBundle {
        current_behavior: CurrentBehavior::default(),
        supported_behaviors: SupportedBehaviors(vec![
            (Behavior::Attack(strong), 15),
            (Behavior::Wander(WanderBehavior::default()), 5),
            (Behavior::Attack(AttackBehavior::default()), 14),
            (Behavior::Wander(slow), 4),
            (Behavior::Chase(ChaseBehavior {}), 10),
        ]),
    };
    let unit = Unit::spawn(Position::origin(), Team::Evil, bundle);
    assert_eq!(unit.wander, Some(slow));
    assert_eq!(unit.attack, Some(AttackBehavior::default()));
}
