use std::collections::HashMap;
use tokyo::analyzer::Analyzer;
use tokyo::behavior::{
    Behavior, Chase, Dodge, Fire, FireAt, Forward, MoveTo, Noop, Rotate, Sequence, Target,
    Throttle,
};
use tokyo::geom::{Heading, Position, COS_30_DEGREES, COS_TENTH_DEGREE, HEADING_ONE};
use tokyo::models::{
    Bounds, BulletState, ClientState, GameCommand, GameState, PlayerState, PLAYER_MAX_THROTTLE,
};
use tokyo::strategy::condition::{
    Always, AtInterval, BulletWithin, Condition, PlayerWithHigherScore, PlayerWithin,
};
use tokyo::strategy::{
    Branch, Handler, Pilot, PrioritizedBehavior, Priority, Strategy, StrategyNode,
};

fn ship(id: u32, x: i32, y: i32, angle: Heading, throttle: u32) -> PlayerState {
    PlayerState { id, angle, throttle, x, y }
}

fn shot(id: u32, owner: u32, x: i32, y: i32, angle: Heading) -> BulletState {
    BulletState { id, player_id: owner, angle, x, y }
}

fn snapshot(own: u32, players: Vec<PlayerState>, bullets: Vec<BulletState>) -> ClientState {
    ClientState {
        id: own,
        game_state: GameState {
            bounds: Bounds { width: 2_880_000, height: 1_920_000 },
            players,
            dead: Vec::new(),
            bullets,
            scoreboard: HashMap::new(),
        },
    }
}

fn world(own: u32, players: Vec<PlayerState>, bullets: Vec<BulletState>) -> Analyzer {
    let mut analyzer = Analyzer::default();
    analyzer.push_state(&snapshot(own, players, bullets), 0);
    analyzer
}

fn east() -> Heading {
    Heading::east()
}

fn north() -> Heading {
    Heading::new(0, HEADING_ONE).unwrap()
}

fn south() -> Heading {
    Heading::new(0, -HEADING_ONE).unwrap()
}

fn west() -> Heading {
    Heading::new(-HEADING_ONE, 0).unwrap()
}

#[test]
fn target_names_a_ship() {
    let analyzer = world(
        1,
        vec![
            ship(1, 0, 0, east(), 0),
            ship(2, 90_000, 0, east(), 0),
            ship(3, 0, 50_000, east(), 0),
        ],
        vec![],
    );
    assert_eq!(Target::Id(2).get(&analyzer).unwrap().id, 2);
    assert_eq!(Target::Id(1).get(&analyzer).unwrap().id, 1);
    assert!(Target::Id(9).get(&analyzer).is_none());
    assert_eq!(Target::Closest.get(&analyzer).unwrap().id, 3);
    assert_eq!(Target::LeastMoving.get(&analyzer).unwrap().id, 2);
    assert_eq!(Target::HighestScore.get(&analyzer).unwrap().id, 2);
    assert_eq!(Target::HighestScoreAfter(1_000).get(&analyzer).unwrap().id, 2);
}

#[test]
fn target_finds_no_one_when_alone() {
    let analyzer = world(1, vec![ship(1, 0, 0, east(), 0)], vec![]);
    assert!(Target::Closest.get(&analyzer).is_none());
    assert!(Target::LeastMoving.get(&analyzer).is_none());
    assert!(Target::HighestScore.get(&analyzer).is_none());
    assert!(Target::HighestScoreAfter(5_000).get(&analyzer).is_none());
}

#[test]
fn noop_turns_to_the_heading_at_hand() {
    let analyzer = world(1, vec![ship(1, 0, 0, north(), 0)], vec![]);
    let mut noop = Noop {};
    assert_eq!(noop.next_command(&analyzer), Some(GameCommand::Rotate(north())));
    assert_eq!(noop.next_command(&analyzer), Some(GameCommand::Rotate(north())));
    let nowhere = world(2, vec![ship(1, 0, 0, north(), 0)], vec![]);
    assert_eq!(noop.next_command(&nowhere), None);
}

#[test]
fn throttle_leaves_a_close_throttle_alone() {
    let analyzer = world(1, vec![ship(1, 0, 0, east(), 500)], vec![]);
    assert_eq!(Throttle { value: 550 }.next_command(&analyzer), None);
    assert_eq!(Throttle { value: 450 }.next_command(&analyzer), None);
    assert_eq!(
        Throttle { value: 551 }.next_command(&analyzer),
        Some(GameCommand::Throttle(551))
    );
    assert_eq!(
        Throttle { value: 449 }.next_command(&analyzer),
        Some(GameCommand::Throttle(449))
    );
    assert_eq!(Throttle::stop().next_command(&analyzer), Some(GameCommand::Throttle(0)));
    assert_eq!(
        Throttle::max().next_command(&analyzer),
        Some(GameCommand::Throttle(PLAYER_MAX_THROTTLE))
    );
    assert_eq!(Throttle::max().value, 1000);
    assert_eq!(Throttle::stop().value, 0);
}

#[test]
fn forward_drives_for_its_steps() {
    let analyzer = Analyzer::default();
    let mut forward = Forward::with_steps(2);
    assert_eq!(forward.next_command(&analyzer), Some(GameCommand::Throttle(PLAYER_MAX_THROTTLE)));
    assert_eq!(forward.next_command(&analyzer), Some(GameCommand::Throttle(PLAYER_MAX_THROTTLE)));
    assert_eq!(forward.next_command(&analyzer), None);
    assert_eq!(forward.steps, 0);
}

#[test]
fn rotate_turns_until_the_ship_faces_the_angle() {
    let mut rotate = Rotate::new(north());
    assert_eq!(rotate.min_cos, COS_TENTH_DEGREE);
    let facing_east = world(1, vec![ship(1, 0, 0, east(), 0)], vec![]);
    assert_eq!(rotate.next_command(&facing_east), Some(GameCommand::Rotate(north())));
    let facing_north = world(1, vec![ship(1, 0, 0, north(), 0)], vec![]);
    assert_eq!(rotate.next_command(&facing_north), None);
    let nearly = Heading::new(500_000_000, 866_025_403).unwrap();
    let facing_nearly = world(1, vec![ship(1, 0, 0, nearly, 0)], vec![]);
    assert_eq!(rotate.next_command(&facing_nearly), Some(GameCommand::Rotate(north())));
    let mut loose = Rotate::with_margin(north(), COS_30_DEGREES);
    assert_eq!(loose.next_command(&facing_nearly), None);
    assert_eq!(loose.next_command(&facing_east), Some(GameCommand::Rotate(north())));
}

#[test]
fn fire_fires_its_times() {
    let analyzer = Analyzer::default();
    let mut fire = Fire::with_times(3);
    for _ in 0..3 {
        assert_eq!(fire.next_command(&analyzer), Some(GameCommand::Fire));
    }
    assert_eq!(fire.next_command(&analyzer), None);
    assert_eq!(fire.next_command(&analyzer), None);
    assert_eq!(Fire::new().times, 1);
    assert_eq!(Fire::once().times, 1);
    assert_eq!(Fire::with_times(0).next_command(&analyzer), None);
}

#[test]
fn sequence_goes_from_one_behaviour_to_the_next() {
    let facing_east = world(1, vec![ship(1, 0, 0, east(), 0)], vec![]);
    let facing_north = world(1, vec![ship(1, 0, 0, north(), 0)], vec![]);
    let mut sequence = Sequence::with_slice(vec![
        Behavior::Rotate(Rotate::new(north())),
        Behavior::Fire(Fire::with_times(2)),
        Behavior::Forward(Forward::with_steps(1)),
    ]);
    assert_eq!(sequence.len(), 3);
    assert_eq!(sequence.next_command(&facing_east), Some(GameCommand::Rotate(north())));
    assert_eq!(sequence.next_command(&facing_east), Some(GameCommand::Rotate(north())));
    assert_eq!(sequence.len(), 3);
    assert_eq!(sequence.next_command(&facing_north), Some(GameCommand::Fire));
    assert_eq!(sequence.len(), 2);
    assert_eq!(sequence.next_command(&facing_east), Some(GameCommand::Fire));
    assert_eq!(
        sequence.next_command(&facing_east),
        Some(GameCommand::Throttle(PLAYER_MAX_THROTTLE))
    );
    assert_eq!(sequence.len(), 1);
    assert_eq!(sequence.next_command(&facing_east), None);
    assert_eq!(sequence.len(), 0);
    assert_eq!(sequence.next_command(&facing_east), None);
}

#[test]
fn empty_sequence_has_nothing_to_do() {
    let analyzer = world(1, vec![ship(1, 0, 0, east(), 0)], vec![]);
    assert_eq!(Sequence::new().next_command(&analyzer), None);
    let mut nested = Sequence::with_slice(vec![
        Behavior::Sequence(Sequence::new()),
        Behavior::Sequence(Sequence::with_slice(vec![Behavior::Fire(Fire::once())])),
    ]);
    assert_eq!(nested.next_command(&analyzer), Some(GameCommand::Fire));
    assert_eq!(nested.next_command(&analyzer), None);
}

#[test]
fn move_to_drives_then_brakes_once() {
    let mut go = MoveTo { destination: Position { x: 100_000, y: 0 }, end_with_brake: true };
    let facing_north = world(1, vec![ship(1, 0, 0, north(), 0)], vec![]);
    assert_eq!(go.next_command(&facing_north), Some(GameCommand::Rotate(east())));
    let at_rest = world(1, vec![ship(1, 0, 0, east(), 0)], vec![]);
    assert_eq!(go.next_command(&at_rest), Some(GameCommand::Throttle(PLAYER_MAX_THROTTLE)));
    let under_way = world(1, vec![ship(1, 50_000, 0, east(), 1000)], vec![]);
    assert_eq!(go.next_command(&under_way), Some(GameCommand::Rotate(east())));
    let just_short = world(1, vec![ship(1, 90_000, 0, east(), 1000)], vec![]);
    assert_eq!(go.next_command(&just_short), Some(GameCommand::Rotate(east())));
    let there = world(1, vec![ship(1, 90_001, 0, east(), 1000)], vec![]);
    assert_eq!(go.next_command(&there), Some(GameCommand::Throttle(0)));
    assert!(!go.end_with_brake);
    assert_eq!(go.next_command(&there), None);
    let mut through = MoveTo { destination: Position { x: 100_000, y: 0 }, end_with_brake: false };
    assert_eq!(through.next_command(&there), None);
}

#[test]
fn chase_heads_for_the_target_until_it_is_near() {
    let mut chase = Chase { target: Target::Id(2), distance: 200_000 };
    let far = world(
        1,
        vec![ship(1, 0, 0, east(), 0), ship(2, 0, 200_001, east(), 0)],
        vec![],
    );
    assert_eq!(chase.next_command(&far), Some(GameCommand::Rotate(north())));
    let facing = world(
        1,
        vec![ship(1, 0, 0, north(), 0), ship(2, 0, 200_001, east(), 0)],
        vec![],
    );
    assert_eq!(chase.next_command(&facing), Some(GameCommand::Throttle(PLAYER_MAX_THROTTLE)));
    let running = world(
        1,
        vec![ship(1, 0, 0, north(), 1000), ship(2, 0, 200_001, east(), 0)],
        vec![],
    );
    assert_eq!(chase.next_command(&running), Some(GameCommand::Rotate(north())));
    let near = world(
        1,
        vec![ship(1, 0, 0, east(), 1000), ship(2, 0, 200_000, east(), 0)],
        vec![],
    );
    assert_eq!(chase.next_command(&near), None);
    let gone = world(1, vec![ship(1, 0, 0, east(), 0)], vec![]);
    assert_eq!(chase.next_command(&gone), None);
}

#[test]
fn dodge_is_done_without_a_threat_and_turns_aside_with_one() {
    let mut dodge = Dodge {};
    let calm = world(1, vec![ship(1, 100_000, 100_000, east(), 0)], vec![]);
    assert_eq!(dodge.next_command(&calm), None);
    let own_only = world(
        1,
        vec![ship(1, 100_000, 100_000, east(), 0)],
        vec![shot(0, 1, 160_000, 100_000, west())],
    );
    assert_eq!(dodge.next_command(&own_only), None);
    let passing = world(
        1,
        vec![ship(1, 100_000, 100_000, east(), 0)],
        vec![shot(0, 2, 160_000, 130_000, west())],
    );
    assert_eq!(dodge.next_command(&passing), None);
    let threatened = world(
        1,
        vec![ship(1, 100_000, 100_000, east(), 0)],
        vec![shot(0, 2, 160_000, 100_000, west())],
    );
    assert_eq!(dodge.next_command(&threatened), Some(GameCommand::Rotate(south())));
    let turned = world(
        1,
        vec![ship(1, 100_000, 100_000, south(), 0)],
        vec![shot(0, 2, 160_000, 100_000, west())],
    );
    assert_eq!(dodge.next_command(&turned), Some(GameCommand::Throttle(PLAYER_MAX_THROTTLE)));
    let fleeing = world(
        1,
        vec![ship(1, 100_000, 100_000, south(), 1000)],
        vec![shot(0, 2, 160_000, 100_000, west())],
    );
    assert_eq!(dodge.next_command(&fleeing), None);
}

#[test]
fn fire_at_fires_exactly_its_times_and_aims_anew_each_time() {
    let mut fire_at = FireAt::with_times(Target::Id(2), 3);
    let mut analyzer = Analyzer::default();
    let mut facing = east();
    let mut commands = Vec::new();
    for tick in 0..40u64 {
        let prey_y = if tick < 3 { 50_000 } else { -50_000 };
        analyzer.push_state(
            &snapshot(
                1,
                vec![ship(1, 0, 0, facing, 0), ship(2, 0, prey_y, east(), 0)],
                vec![],
            ),
            tick * 100,
        );
        let command = fire_at.next_command(&analyzer);
        if let Some(GameCommand::Rotate(to)) = command {
            facing = to;
        }
        match command {
            Some(c) => commands.push(c),
            None => break,
        }
    }
    assert_eq!(
        commands,
        vec![
            GameCommand::Rotate(north()),
            GameCommand::Fire,
            GameCommand::Fire,
            GameCommand::Rotate(south()),
            GameCommand::Fire,
        ]
    );
    assert_eq!(fire_at.next_command(&analyzer), None);
}

#[test]
fn fire_at_waits_while_there_is_no_target() {
    let mut fire_at = FireAt::new(Target::Closest);
    let alone = world(1, vec![ship(1, 0, 0, east(), 0)], vec![]);
    assert_eq!(fire_at.next_command(&alone), None);
    assert_eq!(fire_at.next_command(&alone), None);
    let met = world(1, vec![ship(1, 0, 0, east(), 0), ship(2, 70_000, 0, east(), 0)], vec![]);
    assert_eq!(fire_at.next_command(&met), Some(GameCommand::Fire));
    assert_eq!(fire_at.next_command(&met), None);
}

#[test]
fn duplicate_starts_from_the_same_state() {
    let analyzer = Analyzer::default();
    let mut first = Behavior::Sequence(Sequence::with_slice(vec![
        Behavior::Fire(Fire::with_times(2)),
        Behavior::Forward(Forward::with_steps(1)),
    ]));
    assert_eq!(first.next_command(&analyzer), Some(GameCommand::Fire));
    let mut second = first.duplicate();
    assert_eq!(first.next_command(&analyzer), Some(GameCommand::Fire));
    assert_eq!(first.next_command(&analyzer), Some(GameCommand::Throttle(PLAYER_MAX_THROTTLE)));
    assert_eq!(first.next_command(&analyzer), None);
    assert_eq!(second.next_command(&analyzer), Some(GameCommand::Fire));
    assert_eq!(second.next_command(&analyzer), Some(GameCommand::Throttle(PLAYER_MAX_THROTTLE)));
    assert_eq!(second.next_command(&analyzer), None);
}

#[test]
fn default_behaviour_is_noop() {
    let analyzer = world(1, vec![ship(1, 0, 0, west(), 0)], vec![]);
    let mut behavior = Behavior::default();
    assert_eq!(behavior.next_command(&analyzer), Some(GameCommand::Rotate(west())));
}

#[test]
fn conditions_ask_the_world() {
    let analyzer = world(
        1,
        vec![ship(1, 0, 0, east(), 0), ship(2, 0, 100_000, east(), 0)],
        vec![shot(0, 2, 30_000, 0, east())],
    );
    assert!(Condition::Always(Always {}).evaluate(&analyzer));
    assert!(Condition::PlayerWithin(PlayerWithin { radius: 100_000 }).evaluate(&analyzer));
    assert!(!Condition::PlayerWithin(PlayerWithin { radius: 99_999 }).evaluate(&analyzer));
    assert!(Condition::BulletWithin(BulletWithin { radius: 30_000 }).evaluate(&analyzer));
    assert!(!Condition::BulletWithin(BulletWithin { radius: 29_999 }).evaluate(&analyzer));
    assert!(!Condition::PlayerWithHigherScore(PlayerWithHigherScore {}).evaluate(&analyzer));
    let alone = world(1, vec![ship(1, 0, 0, east(), 0)], vec![]);
    assert!(!Condition::PlayerWithHigherScore(PlayerWithHigherScore {}).evaluate(&alone));
    assert!(!Condition::PlayerWithin(PlayerWithin { radius: u32::MAX }).evaluate(&alone));
}

#[test]
fn higher_score_compares_with_ones_own() {
    let outscored = |own: u32, scores: &[(u32, u32)]| {
        let mut state = snapshot(
            own,
            vec![ship(1, 0, 0, east(), 0), ship(2, 0, 0, east(), 0), ship(3, 0, 0, east(), 0)],
            vec![],
        );
        for (id, score) in scores {
            state.game_state.scoreboard.insert(*id, *score);
        }
        let mut analyzer = Analyzer::default();
        analyzer.push_state(&state, 0);
        Condition::PlayerWithHigherScore(PlayerWithHigherScore {}).evaluate(&analyzer)
    };
    assert!(outscored(1, &[(1, 4), (2, 3), (3, 5)]));
    assert!(!outscored(1, &[(1, 5), (2, 3), (3, 5)]));
    assert!(!outscored(1, &[(1, 6), (2, 3), (3, 5)]));
    assert!(outscored(2, &[(1, 6), (2, 3), (3, 5)]));
    assert!(!outscored(9, &[(1, 6), (2, 3), (3, 5)]));
}

#[test]
fn conditions_combine() {
    let analyzer = Analyzer::default();
    let yes = || Condition::Always(Always {});
    let no = || Condition::not(Condition::Always(Always {}));
    assert!(!no().evaluate(&analyzer));
    assert!(Condition::not(no()).evaluate(&analyzer));
    assert!(Condition::and(yes(), yes()).evaluate(&analyzer));
    assert!(!Condition::and(yes(), no()).evaluate(&analyzer));
    assert!(!Condition::and(no(), yes()).evaluate(&analyzer));
    assert!(Condition::or(no(), yes()).evaluate(&analyzer));
    assert!(Condition::or(yes(), no()).evaluate(&analyzer));
    assert!(!Condition::or(no(), no()).evaluate(&analyzer));
}

#[test]
fn at_interval_holds_once_in_every_interval() {
    let mut timer = AtInterval::new(1_000, 500);
    assert!(!timer.evaluate_at(499));
    assert!(timer.evaluate_at(500));
    assert_eq!(timer.next, 1_500);
    assert!(!timer.evaluate_at(1_499));
    assert!(timer.evaluate_at(4_000));
    assert!(!timer.evaluate_at(4_999));
    assert!(timer.evaluate_at(5_000));
    let mut late = AtInterval::new(10, u64::MAX - 5);
    assert!(late.evaluate_at(u64::MAX - 5));
    assert_eq!(late.next, u64::MAX);
}

#[test]
fn second_condition_is_asked_only_when_it_decides() {
    let mut analyzer = Analyzer::default();
    analyzer.push_state(&snapshot(1, vec![], vec![]), 100);
    let timer = || Condition::AtInterval(AtInterval::new(1_000, 0));
    let mut skipped = Condition::and(Condition::not(Condition::Always(Always {})), timer());
    assert!(!skipped.evaluate(&analyzer));
    match &skipped {
        Condition::And(both) => match &*both.rhs {
            Condition::AtInterval(g) => assert_eq!(g.next, 0),
            _ => panic!("the interval is gone"),
        },
        _ => panic!("the condition changed its kind"),
    }
    let mut asked = Condition::and(Condition::Always(Always {}), timer());
    assert!(asked.evaluate(&analyzer));
    assert!(!asked.evaluate(&analyzer));
    match &asked {
        Condition::And(both) => match &*both.rhs {
            Condition::AtInterval(g) => assert_eq!(g.next, 1_100),
            _ => panic!("the interval is gone"),
        },
        _ => panic!("the condition changed its kind"),
    }
    let mut either = Condition::or(Condition::Always(Always {}), timer());
    assert!(either.evaluate(&analyzer));
    match &either {
        Condition::Or(both) => match &*both.rhs {
            Condition::AtInterval(g) => assert_eq!(g.next, 0),
            _ => panic!("the interval is gone"),
        },
        _ => panic!("the condition changed its kind"),
    }
}

#[test]
fn priorities_are_ordered() {
    assert!(Priority::High.outranks(&Priority::Medium));
    assert!(Priority::High.outranks(&Priority::Low));
    assert!(Priority::Medium.outranks(&Priority::Low));
    assert!(!Priority::Low.outranks(&Priority::Low));
    assert!(!Priority::Medium.outranks(&Priority::High));
    assert!(Priority::High > Priority::Medium);
    assert!(Priority::Medium > Priority::Low);
    assert!(Priority::Low < Priority::High);
    assert!(Priority::Medium <= Priority::Medium);
    assert!(!(Priority::Medium < Priority::Medium));
    assert_eq!(Priority::Low.level(), 0);
    assert_eq!(Priority::Medium.level(), 1);
    assert_eq!(Priority::High.level(), 2);
}

fn leaf(behavior: PrioritizedBehavior) -> StrategyNode {
    StrategyNode::Leaf(behavior)
}

fn close_combat() -> Strategy {
    Strategy::new(vec![
        Branch {
            condition: Condition::PlayerWithin(PlayerWithin { radius: 100_000 }),
            node: leaf(PrioritizedBehavior::with_high(Behavior::FireAt(FireAt::new(
                Target::Closest,
            )))),
        },
        Branch {
            condition: Condition::Always(Always {}),
            node: leaf(PrioritizedBehavior::with_medium(Behavior::Dodge(Dodge {}))),
        },
    ])
}

#[test]
fn strategy_takes_the_first_branch_that_holds() {
    let mut strategy = close_combat();
    let far = world(1, vec![ship(1, 0, 0, east(), 0), ship(2, 500_000, 0, east(), 0)], vec![]);
    let pick = strategy.next_behavior(&far).unwrap();
    assert_eq!(pick.priority, Priority::Medium);
    assert!(matches!(pick.behavior, Behavior::Dodge(_)));
    let near = world(1, vec![ship(1, 0, 0, east(), 0), ship(2, 50_000, 0, east(), 0)], vec![]);
    let pick = strategy.next_behavior(&near).unwrap();
    assert_eq!(pick.priority, Priority::High);
    assert!(matches!(pick.behavior, Behavior::FireAt(_)));
}

#[test]
fn strategy_without_a_branch_that_holds_picks_nothing() {
    let analyzer = Analyzer::default();
    let mut empty = Strategy::new(Vec::new());
    assert!(empty.next_behavior(&analyzer).is_none());
    let mut never = Strategy::new(vec![Branch {
        condition: Condition::not(Condition::Always(Always {})),
        node: leaf(PrioritizedBehavior::new()),
    }]);
    assert!(never.next_behavior(&analyzer).is_none());
    let mut hollow = Strategy::new(vec![
        Branch {
            condition: Condition::Always(Always {}),
            node: StrategyNode::Branch(Vec::new()),
        },
        Branch {
            condition: Condition::Always(Always {}),
            node: leaf(PrioritizedBehavior::new()),
        },
    ]);
    assert!(hollow.next_behavior(&analyzer).is_none());
}

#[test]
fn strategy_hands_out_a_fresh_copy_each_time() {
    let analyzer = Analyzer::default();
    let mut strategy = Strategy::new(vec![Branch {
        condition: Condition::Always(Always {}),
        node: leaf(PrioritizedBehavior::with_low(Behavior::Fire(Fire::once()))),
    }]);
    for _ in 0..3 {
        let mut pick = strategy.next_behavior(&analyzer).unwrap();
        assert_eq!(pick.priority, Priority::Low);
        assert_eq!(pick.behavior.next_command(&analyzer), Some(GameCommand::Fire));
        assert_eq!(pick.behavior.next_command(&analyzer), None);
    }
}

#[test]
fn nested_strategy_asks_conditions_in_order() {
    let mut analyzer = Analyzer::default();
    analyzer.push_state(&snapshot(1, vec![], vec![]), 100);
    let mut strategy = Strategy::new(vec![
        Branch {
            condition: Condition::AtInterval(AtInterval::new(1_000, 0)),
            node: StrategyNode::Branch(vec![Branch {
                condition: Condition::Always(Always {}),
                node: leaf(PrioritizedBehavior::with_high(Behavior::Fire(Fire::once()))),
            }]),
        },
        Branch {
            condition: Condition::Always(Always {}),
            node: leaf(PrioritizedBehavior::with_low(Behavior::Noop(Noop {}))),
        },
    ]);
    assert_eq!(strategy.next_behavior(&analyzer).unwrap().priority, Priority::High);
    assert_eq!(strategy.next_behavior(&analyzer).unwrap().priority, Priority::Low);
    analyzer.push_state(&snapshot(1, vec![], vec![]), 1_100);
    assert_eq!(strategy.next_behavior(&analyzer).unwrap().priority, Priority::High);
}

#[test]
fn pilot_lets_a_higher_priority_take_over() {
    let mut pilot = Pilot::new(close_combat());
    let calm = snapshot(1, vec![ship(1, 0, 0, east(), 0), ship(2, 500_000, 0, east(), 0)], vec![]);
    assert_eq!(pilot.decide(&calm, 0), None);
    let threatened = snapshot(
        1,
        vec![ship(1, 0, 0, east(), 0), ship(2, 500_000, 0, east(), 0)],
        vec![shot(0, 2, 60_000, 0, west())],
    );
    assert_eq!(pilot.decide(&threatened, 100), Some(GameCommand::Rotate(south())));
    let attacked = snapshot(
        1,
        vec![ship(1, 0, 0, south(), 0), ship(2, 0, 80_000, east(), 0)],
        vec![shot(0, 2, 60_000, 0, west())],
    );
    assert_eq!(pilot.tick(&attacked, 200), Some(GameCommand::Rotate(north())));
    assert_eq!(pilot.analyzer().last_update(), 200);
}

#[test]
fn pilot_keeps_a_behaviour_that_matters_as_much() {
    let long_shot = || {
        PrioritizedBehavior::with_medium(Behavior::Sequence(Sequence::with_slice(vec![
            Behavior::Fire(Fire::with_times(2)),
            Behavior::Forward(Forward::with_steps(1)),
        ])))
    };
    let mut pilot = Pilot::new(Strategy::new(vec![Branch {
        condition: Condition::Always(Always {}),
        node: leaf(long_shot()),
    }]));
    let state = snapshot(1, vec![ship(1, 0, 0, east(), 0)], vec![]);
    assert_eq!(pilot.decide(&state, 0), Some(GameCommand::Fire));
    assert_eq!(pilot.decide(&state, 100), Some(GameCommand::Fire));
    assert_eq!(pilot.decide(&state, 200), Some(GameCommand::Throttle(PLAYER_MAX_THROTTLE)));
    assert_eq!(pilot.decide(&state, 300), Some(GameCommand::Fire));
}
