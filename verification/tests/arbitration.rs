use dark_arts_defense::ai::arbiter::{arbitrate, behavior_wants_to_be_active, highest_priority, select_behavior};
use dark_arts_defense::ai::behavior::{
    behavior_state_machine, AttackBehavior, Behavior, BehaviorBundle, ChaseBehavior,
    CurrentBehavior, DeadBehavior, FleeBehavior, IdleBehavior, MoveOrigoBehavior,
    SupportedBehaviors, WanderBehavior,
};
use dark_arts_defense::ai::ranges::{
    get_chase_distance, get_flee_distance, get_origo_distance, Ranges, ATTACK_DISTANCE_MAX,
    ATTACK_DISTANCE_MID, ATTACK_DISTANCE_MIN,
};
use dark_arts_defense::position::Position;
use dark_arts_defense::timer::Countdown;
use dark_arts_defense::units::health::Health;
use dark_arts_defense::units::team::{CurrentTeam, Team};
use dark_arts_defense::units::unit::Unit;
use dark_arts_defense::velocity::Velocity;

fn ranges() -> Ranges {
    Ranges { chase: 400, flee: 150, origo: 300, attack_max: 96, attack_mid: 72, attack_min: 48 }
}

fn unit(x: i32, y: i32, team: Team, health: u8, supported: Vec<(Behavior, u8)>) -> Unit {
    Unit {
        position: Position { x, y },
        team: CurrentTeam(team),
        health: Health(health),
        velocity: Velocity::zero(),
        current_behavior: CurrentBehavior(Behavior::Idle(IdleBehavior {})),
        supported_behaviors: SupportedBehaviors(supported),
        wander: Some(WanderBehavior::default()),
        attack: Some(AttackBehavior::default()),
    }
}

fn usual() -> Vec<(Behavior, u8)> {
    SupportedBehaviors::default().0
}

#[test]
fn dead_at_twenty_beats_attack_at_fifteen() {
    let mut units = vec![unit(0, 0, Team::Evil, 0, usual()), unit(50, 0, Team::Good, 100, usual())];
    behavior_state_machine(&mut units, &ranges());
    assert_eq!(units[0].current_behavior.0, Behavior::Dead(DeadBehavior));
    assert!(matches!(units[1].current_behavior.0, Behavior::Wander(_)));
}

#[test]
fn dead_loses_to_a_higher_priority() {
    let supported = vec![
        (Behavior::Dead(DeadBehavior), 1),
        (Behavior::Wander(WanderBehavior::default()), 5),
    ];
    let mut units = vec![unit(0, 0, Team::Evil, 0, supported)];
    behavior_state_machine(&mut units, &ranges());
    assert!(matches!(units[0].current_behavior.0, Behavior::Wander(_)));
}

#[test]
fn living_unit_is_never_put_under_dead() {
    let mut units = vec![unit(0, 0, Team::Evil, 1, usual())];
    behavior_state_machine(&mut units, &ranges());
    assert!(matches!(units[0].current_behavior.0, Behavior::Wander(_)));
}

#[test]
fn attack_beats_chase_beats_wander() {
    let mut units = vec![
        unit(0, 0, Team::Evil, 100, usual()),
        unit(95, 0, Team::Good, 100, usual()),
        unit(0, 300, Team::Evil, 100, usual()),
        unit(0, 1000, Team::Evil, 100, usual()),
    ];
    behavior_state_machine(&mut units, &ranges());
    assert!(matches!(units[0].current_behavior.0, Behavior::Attack(_)));
    assert!(matches!(units[1].current_behavior.0, Behavior::Attack(_)));
    assert!(matches!(units[2].current_behavior.0, Behavior::Chase(_)));
    assert!(matches!(units[3].current_behavior.0, Behavior::Wander(_)));
}

#[test]
fn attack_range_is_strict() {
    let mut units =
        vec![unit(0, 0, Team::Evil, 100, usual()), unit(96, 0, Team::Good, 100, usual())];
    behavior_state_machine(&mut units, &ranges());
    assert!(matches!(units[0].current_behavior.0, Behavior::Chase(_)));
}

#[test]
fn current_behavior_is_drawn_from_the_supported_list() {
    let knight = vec![
        (Behavior::Wander(WanderBehavior::default()), 3),
        (Behavior::MoveOrigo(MoveOrigoBehavior {}), 5),
        (Behavior::Chase(ChaseBehavior {}), 10),
        (Behavior::Attack(AttackBehavior::default()), 15),
    ];
    let mut units = vec![
        unit(1000, 0, Team::Good, 100, knight.clone()),
        unit(10, 10, Team::Good, 100, knight.clone()),
        unit(0, 0, Team::Evil, 100, usual()),
        unit(-5000, 0, Team::Evil, 0, usual()),
    ];
    behavior_state_machine(&mut units, &ranges());
    for one in units.iter() {
        assert!(one.supported_behaviors.0.iter().any(|entry| entry.0 == one.current_behavior.0));
    }
    assert!(matches!(units[0].current_behavior.0, Behavior::MoveOrigo(_)));
    assert!(matches!(units[1].current_behavior.0, Behavior::Attack(_)));
    assert!(matches!(units[2].current_behavior.0, Behavior::Attack(_)));
    assert!(matches!(units[3].current_behavior.0, Behavior::Dead(_)));
}

#[test]
fn move_to_origin_is_suppressed_near_the_origin() {
    let supported = vec![
        (Behavior::Wander(WanderBehavior::default()), 3),
        (Behavior::MoveOrigo(MoveOrigoBehavior {}), 5),
    ];
    let mut units = vec![
        unit(300, 0, Team::Good, 100, supported.clone()),
        unit(301, 0, Team::Good, 100, supported.clone()),
        unit(180, 240, Team::Good, 100, supported.clone()),
        unit(180, 241, Team::Good, 100, supported),
    ];
    behavior_state_machine(&mut units, &ranges());
    assert!(matches!(units[0].current_behavior.0, Behavior::Wander(_)));
    assert!(matches!(units[1].current_behavior.0, Behavior::MoveOrigo(_)));
    assert!(matches!(units[2].current_behavior.0, Behavior::Wander(_)));
    assert!(matches!(units[3].current_behavior.0, Behavior::MoveOrigo(_)));
}

#[test]
fn equal_priorities_keep_the_order_of_the_list() {
    let first_idle = vec![
        (Behavior::Idle(IdleBehavior {}), 5),
        (Behavior::Wander(WanderBehavior::default()), 5),
    ];
    let first_wander = vec![
        (Behavior::Wander(WanderBehavior::default()), 5),
        (Behavior::Idle(IdleBehavior {}), 5),
    ];
    let mut units =
        vec![unit(0, 0, Team::Evil, 100, first_idle), unit(0, 0, Team::Evil, 100, first_wander)];
    units[0].current_behavior = CurrentBehavior(Behavior::Dead(DeadBehavior));
    behavior_state_machine(&mut units, &ranges());
    assert!(matches!(units[0].current_behavior.0, Behavior::Idle(_)));
    assert!(matches!(units[1].current_behavior.0, Behavior::Wander(_)));
}

#[test]
fn previous_behavior_stays_when_nothing_wants_control() {
    let supported =
        vec![(Behavior::Chase(ChaseBehavior {}), 10), (Behavior::Flee(FleeBehavior {}), 12)];
    let mut units = vec![unit(0, 0, Team::Evil, 100, supported)];
    units[0].current_behavior = CurrentBehavior(Behavior::MoveOrigo(MoveOrigoBehavior {}));
    behavior_state_machine(&mut units, &ranges());
    assert!(matches!(units[0].current_behavior.0, Behavior::MoveOrigo(_)));
}

#[test]
fn empty_list_keeps_the_previous_behavior() {
    let mut units = vec![unit(0, 0, Team::Evil, 100, Vec::new())];
    behavior_state_machine(&mut units, &ranges());
    assert!(matches!(units[0].current_behavior.0, Behavior::Idle(_)));
    let mut none: Vec<Unit> = Vec::new();
    behavior_state_machine(&mut none, &ranges());
    assert!(none.is_empty());
}

#[test]
fn arbitration_leaves_timers_and_the_rest_alone() {
    let mut one = unit(7, -3, Team::Evil, 42, usual());
    let mut wander = WanderBehavior::default();
    wander.wait_timer.tick(700_000_000);
    one.wander = Some(wander);
    let mut attack = AttackBehavior::default();
    attack.timer.tick(1_000_000_000);
    attack.is_attacking = true;
    one.attack = Some(attack);
    one.velocity = Velocity::toward(&Position { x: 0, y: 0 }, &Position { x: 3, y: 4 });
    let mut units = vec![one];
    behavior_state_machine(&mut units, &ranges());
    behavior_state_machine(&mut units, &ranges());
    assert!(matches!(units[0].current_behavior.0, Behavior::Wander(_)));
    assert_eq!(units[0].wander, Some(wander));
    assert_eq!(units[0].attack, Some(attack));
    assert_eq!(units[0].wander.unwrap().wait_timer.elapsed, 700_000_000);
    assert_eq!(units[0].position, Position { x: 7, y: -3 });
    assert_eq!(units[0].health, Health(42));
    assert_eq!(units[0].velocity.x, 3);
    assert_eq!(units[0].velocity.y, 4);
}

#[test]
fn flee_wants_control_only_within_its_smaller_range() {
    let supported = vec![
        (Behavior::Wander(WanderBehavior::default()), 5),
        (Behavior::Flee(FleeBehavior {}), 10),
    ];
    let mut units = vec![
        unit(0, 0, Team::Evil, 100, supported.clone()),
        unit(149, 0, Team::Good, 100, usual()),
        unit(1000, 0, Team::Evil, 100, supported),
        unit(1150, 0, Team::Good, 100, usual()),
    ];
    behavior_state_machine(&mut units, &ranges());
    assert!(matches!(units[0].current_behavior.0, Behavior::Flee(_)));
    assert!(matches!(units[2].current_behavior.0, Behavior::Wander(_)));
}

#[test]
fn highest_priority_picks_the_first_of_the_highest() {
    let supported = vec![
        (Behavior::Idle(IdleBehavior {}), 1),
        (Behavior::Chase(ChaseBehavior {}), 9),
        (Behavior::Flee(FleeBehavior {}), 9),
        (Behavior::Dead(DeadBehavior), 20),
    ];
    assert_eq!(highest_priority(&supported, &vec![true, true, true, false]), Some(1));
    assert_eq!(highest_priority(&supported, &vec![true, false, true, false]), Some(2));
    assert_eq!(highest_priority(&supported, &vec![true, true, true, true]), Some(3));
    assert_eq!(highest_priority(&supported, &vec![false, false, false, false]), None);
    assert_eq!(highest_priority(&supported, &vec![true]), Some(0));
    assert_eq!(highest_priority(&supported, &Vec::new()), None);
    assert_eq!(highest_priority(&Vec::new(), &vec![true]), None);
}

#[test]
fn select_and_arbitrate_agree() {
    let supported = SupportedBehaviors::default();
    let others = vec![unit(40, 0, Team::Good, 10, usual())];
    let team = CurrentTeam(Team::Evil);
    let position = Position { x: 0, y: 0 };
    assert_eq!(
        select_behavior(&supported, &team, &position, &Health(5), &others, &ranges()),
        Some(2)
    );
    assert_eq!(
        select_behavior(&supported, &team, &position, &Health(0), &others, &ranges()),
        Some(3)
    );
    let mut current = CurrentBehavior::default();
    arbitrate(&mut current, &supported, &team, &position, &Health(5), &others, &ranges());
    assert!(matches!(current.0, Behavior::Attack(_)));
    arbitrate(&mut current, &supported, &team, &position, &Health(5), &Vec::new(), &ranges());
    assert!(matches!(current.0, Behavior::Wander(_)));
}

#[test]
fn desire_of_each_kind() {
    let team = CurrentTeam(Team::Evil);
    let here = Position { x: 0, y: 0 };
    let far = Position { x: 0, y: 301 };
    let others = vec![unit(100, 0, Team::Good, 10, usual())];
    let r = ranges();
    let alive = Health(1);
    assert!(behavior_wants_to_be_active(&Behavior::Idle(IdleBehavior {}), &team, &here, &alive, &others, &r));
    assert!(behavior_wants_to_be_active(&Behavior::Wander(WanderBehavior::default()), &team, &here, &alive, &others, &r));
    assert!(!behavior_wants_to_be_active(&Behavior::MoveOrigo(MoveOrigoBehavior {}), &team, &here, &alive, &others, &r));
    assert!(behavior_wants_to_be_active(&Behavior::MoveOrigo(MoveOrigoBehavior {}), &team, &far, &alive, &others, &r));
    assert!(behavior_wants_to_be_active(&Behavior::Chase(ChaseBehavior {}), &team, &here, &alive, &others, &r));
    assert!(behavior_wants_to_be_active(&Behavior::Flee(FleeBehavior {}), &team, &here, &alive, &others, &r));
    assert!(!behavior_wants_to_be_active(&Behavior::Attack(AttackBehavior::default()), &team, &here, &alive, &others, &r));
    assert!(!behavior_wants_to_be_active(&Behavior::Dead(DeadBehavior), &team, &here, &alive, &others, &r));
    assert!(behavior_wants_to_be_active(&Behavior::Dead(DeadBehavior), &team, &here, &Health(0), &others, &r));
}

#[test]
fn defaults_of_the_catalog() {
    let wander = WanderBehavior::default();
    assert_eq!(wander.wait_time, 1_500_000_000);
    assert_eq!(wander.wander_time, 3_000_000_000);
    assert_eq!(wander.random_time_offset, 750_000_000);
    assert!(!wander.is_wandering);
    assert_eq!(wander.wait_timer, Countdown::new(1_500_000_000));
    assert_eq!(wander.wander_timer, Countdown::new(3_000_000_000));
    let attack = AttackBehavior::default();
    assert_eq!(attack.cooldown, 4_000_000_000);
    assert_eq!(attack.random_cooldown_offset, 500_000_000);
    assert_eq!(attack.random_attack_offset, 5);
    assert_eq!(attack.damage, 10);
    assert!(!attack.is_attacking);
    assert_eq!(attack.timer, Countdown::new(4_000_000_000));
    assert_eq!(Behavior::default(), Behavior::Wander(wander));
    assert_eq!(CurrentBehavior::default().0, Behavior::Wander(wander));
    let supported = SupportedBehaviors::default();
    assert_eq!(
        supported.0,
        vec![
            (Behavior::Wander(wander), 5),
            (Behavior::Chase(ChaseBehavior {}), 10),
            (Behavior::Attack(attack), 15),
            (Behavior::Dead(DeadBehavior), 20),
        ]
    );
    let bundle = BehaviorBundle::default();
    assert_eq!(bundle.current_behavior.0, Behavior::Wander(wander));
    assert_eq!(bundle.supported_behaviors.0, supported.0);
    assert_eq!(Health::default(), Health(100));
    assert_eq!(Team::default(), Team::Evil);
    assert_eq!(CurrentTeam::default(), CurrentTeam(Team::Evil));
    assert!(Velocity::default().is_zero());
}

#[test]
fn ranges_follow_the_extent_of_the_world() {
    assert_eq!(get_chase_distance(1920), 768);
    assert_eq!(get_flee_distance(1920), 288);
    assert_eq!(get_origo_distance(1080), 324);
    assert_eq!(get_chase_distance(1), 0);
    assert_eq!(get_flee_distance(7), 1);
    assert_eq!(get_chase_distance(u32::MAX), 1_717_986_918);
    assert_eq!(get_flee_distance(u32::MAX), 644_245_094);
    assert_eq!(get_origo_distance(u32::MAX), 1_288_490_188);
    let ranges = Ranges::for_world(1280, 720);
    assert_eq!(
        ranges,
        Ranges { chase: 512, flee: 192, origo: 216, attack_max: 96, attack_mid: 72, attack_min: 48 }
    );
    assert_eq!(ATTACK_DISTANCE_MAX, 96);
    assert_eq!(ATTACK_DISTANCE_MID, 72);
    assert_eq!(ATTACK_DISTANCE_MIN, 48);
}

#[test]
fn dead_wins_a_tie_where_it_stands_first() {
    let dead_first = vec![
        (Behavior::Dead(DeadBehavior), 5),
        (Behavior::Wander(WanderBehavior::default()), 5),
        (Behavior::Idle(IdleBehavior {}), 4),
    ];
    let dead_second = vec![
        (Behavior::Wander(WanderBehavior::default()), 5),
        (Behavior::Dead(DeadBehavior), 5),
    ];
    let mut units =
        vec![unit(0, 0, Team::Evil, 0, dead_first), unit(0, 0, Team::Evil, 0, dead_second)];
    behavior_state_machine(&mut units, &ranges());
    assert_eq!(units[0].current_behavior.0, Behavior::Dead(DeadBehavior));
    assert!(matches!(units[1].current_behavior.0, Behavior::Wander(_)));
    behavior_state_machine(&mut units, &ranges());
    assert_eq!(units[0].current_behavior.0, Behavior::Dead(DeadBehavior));
}
