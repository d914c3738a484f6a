use std::collections::HashMap;
use tokyo::analyzer::bullet::Bullet;
use tokyo::analyzer::player::{Player, ScoreHistory, Trajectory, Waypoint};
use tokyo::analyzer::{Analyzer, ANALYSIS_INTERVAL};
use tokyo::geom::{Heading, Position, Velocity, HEADING_ONE};
use tokyo::models::{
    Bounds, BulletState, ClientState, GameState, PlayerState, ServerToClient, BULLET_SPEED,
};

fn ship_at(id: u32, x: i32, y: i32) -> PlayerState {
    PlayerState { id, angle: Heading::east(), throttle: 0, x, y }
}

fn shot(id: u32, owner: u32, x: i32, y: i32, angle: Heading) -> BulletState {
    BulletState { id, player_id: owner, angle, x, y }
}

fn snapshot(
    own: u32,
    players: Vec<PlayerState>,
    bullets: Vec<BulletState>,
    scores: &[(u32, u32)],
) -> ClientState {
    let mut scoreboard = HashMap::new();
    for (id, score) in scores {
        scoreboard.insert(*id, *score);
    }
    ClientState {
        id: own,
        game_state: GameState {
            bounds: Bounds { width: 2_880_000, height: 1_920_000 },
            players,
            dead: Vec::new(),
            bullets,
            scoreboard,
        },
    }
}

fn west() -> Heading {
    Heading::new(-HEADING_ONE, 0).unwrap()
}

#[test]
fn score_history_keeps_the_last_score() {
    let mut history = ScoreHistory::new();
    assert_eq!(history.len(), 0);
    history.push(3, 100);
    history.push(5, 200);
    history.push(9, 300);
    assert_eq!(history.len(), 3);
    assert_eq!(history.last_score(), 9);
}

#[test]
fn score_since_counts_from_the_latest_sample_before() {
    let mut history = ScoreHistory::default();
    history.push(3, 100);
    history.push(5, 200);
    history.push(9, 300);
    assert_eq!(history.score_since(200), 4);
    assert_eq!(history.score_since(250), 4);
    assert_eq!(history.score_since(100), 6);
    assert_eq!(history.score_since(99), 9);
    assert_eq!(history.score_since(300), 0);
    assert_eq!(history.score_since(u64::MAX), 0);
}

#[test]
fn score_since_is_nothing_for_a_score_that_fell() {
    let mut history = ScoreHistory::new();
    history.push(8, 100);
    history.push(2, 200);
    assert_eq!(history.score_since(100), 0);
    assert_eq!(history.score_since(0), 2);
}

#[test]
fn project_carries_the_recent_gain_forward() {
    let mut history = ScoreHistory::new();
    history.push(3, 100);
    history.push(5, 200);
    history.push(9, 300);
    assert_eq!(history.project(10_100, 5_000), 12);
    assert_eq!(history.project(10_100, 20_000), 21);
    assert_eq!(history.project(10_100, 0), 9);
    assert_eq!(history.project(10_100, 1_666), 9);
    assert_eq!(history.project(10_100, 1_667), 10);
    assert_eq!(history.project(10_300, 5_000), 9);
    assert_eq!(history.project(10_250, 10_000), 13);
    assert_eq!(history.project(300, 10_000), 18);
    assert_eq!(history.project(10_099, 10_000), 18);
}

#[test]
fn project_counts_the_whole_score_while_the_clock_is_young() {
    let mut history = ScoreHistory::default();
    history.push(4, 0);
    assert_eq!(history.project(5_000, 5_000), 6);
    assert_eq!(history.project(5_000, 0), 4);
    assert_eq!(history.project(5_000, 10_000), 8);
    assert_eq!(history.project(9_999, 10_000), 8);
    assert_eq!(history.project(10_000, 10_000), 4);
    let mut later = ScoreHistory::new();
    later.push(4, 1);
    assert_eq!(later.project(5_000, 5_000), 6);
    assert_eq!(later.project(5_000, 0), 4);
    assert_eq!(later.project(5_000, 10_000), 8);
    assert_eq!(later.project(10_000, 10_000), 8);
    assert_eq!(later.project(10_001, 10_000), 4);
}

#[test]
fn project_stops_at_the_largest_score() {
    let mut history = ScoreHistory::new();
    history.push(0, 0);
    history.push(u32::MAX, 20_000);
    assert_eq!(history.project(20_000, 1), u32::MAX);
    assert_eq!(history.project(20_000, u64::MAX), u32::MAX);
    let mut steady = ScoreHistory::new();
    steady.push(10, 0);
    steady.push(20, 20_000);
    assert_eq!(steady.project(20_000, u64::MAX), u32::MAX);
}

#[test]
fn trajectory_measures_the_last_leg() {
    let mut trajectory = Trajectory::new();
    trajectory.push(Position { x: 0, y: 0 }, 0);
    assert_eq!(*trajectory.last_position(), Position { x: 0, y: 0 });
    assert_eq!(trajectory.last_velocity(), Velocity { dx: 0, dy: 0 });
    trajectory.push(Position { x: 3_000, y: -4_000 }, 1_000);
    assert_eq!(*trajectory.last_position(), Position { x: 3_000, y: -4_000 });
    assert_eq!(trajectory.last_velocity(), Velocity { dx: 3_000, dy: -4_000 });
    trajectory.push(Position { x: 3_000, y: -3_000 }, 1_100);
    assert_eq!(trajectory.last_velocity(), Velocity { dx: 0, dy: 10_000 });
    trajectory.push(Position { x: 9_000, y: 9_000 }, 1_100);
    assert_eq!(trajectory.last_velocity(), Velocity { dx: 0, dy: 0 });
    assert_eq!(
        trajectory.positions[1],
        Waypoint { position: Position { x: 3_000, y: -4_000 }, time: 1_000 }
    );
}

#[test]
fn trajectory_averages_the_speed_of_its_legs() {
    let mut trajectory = Trajectory::default();
    assert_eq!(trajectory.ave_abs_velocity(), Velocity { dx: 0, dy: 0 });
    trajectory.push(Position { x: 0, y: 0 }, 0);
    assert_eq!(trajectory.ave_abs_velocity(), Velocity { dx: 0, dy: 0 });
    trajectory.push(Position { x: 3_000, y: -4_000 }, 1_000);
    assert_eq!(trajectory.ave_abs_velocity(), Velocity { dx: 3_000, dy: 4_000 });
    trajectory.push(Position { x: 3_000, y: -4_000 }, 2_000);
    assert_eq!(trajectory.ave_abs_velocity(), Velocity { dx: 1_500, dy: 2_000 });
    trajectory.push(Position { x: 2_000, y: -4_000 }, 2_500);
    assert_eq!(trajectory.ave_abs_velocity(), Velocity { dx: 1_666, dy: 1_333 });
}

#[test]
fn player_record_starts_with_one_sample() {
    let mut scoreboard = HashMap::new();
    scoreboard.insert(4, 17);
    let north = Heading::east().tangent();
    let state = PlayerState { id: 4, angle: north, throttle: 300, x: 5_000, y: 6_000 };
    let player = Player::with_state(&state, &scoreboard, 1_234);
    assert_eq!(player.id, 4);
    assert_eq!(player.angle, north);
    assert_eq!(player.throttle, 300);
    assert_eq!(player.position, Position { x: 5_000, y: 6_000 });
    assert_eq!(
        player.trajectory.positions,
        vec![Waypoint { position: Position { x: 5_000, y: 6_000 }, time: 1_234 }]
    );
    assert_eq!(player.score(), 17);
    assert_eq!(player.score_history.len(), 1);
}

#[test]
fn player_record_grows_with_each_state() {
    let mut scoreboard = HashMap::new();
    let mut player = Player::with_state(&ship_at(4, 0, 0), &scoreboard, 0);
    assert_eq!(player.score(), 0);
    scoreboard.insert(4, 2);
    let moved = PlayerState { id: 4, angle: west(), throttle: 1000, x: -15_000, y: 0 };
    player.push_state(&moved, &scoreboard, 100);
    assert_eq!(player.position, Position { x: -15_000, y: 0 });
    assert_eq!(player.angle, west());
    assert_eq!(player.throttle, 1000);
    assert_eq!(player.score(), 2);
    assert_eq!(player.trajectory.positions.len(), 2);
    assert_eq!(player.trajectory.last_velocity(), Velocity { dx: -150_000, dy: 0 });
    assert_eq!(player.score_history.score_since(0), 2);
}

#[test]
fn default_player_has_nothing_on_record() {
    let player = Player::default();
    assert_eq!(player.id, 0);
    assert_eq!(player.angle, Heading::east());
    assert!(player.trajectory.positions.is_empty());
    assert_eq!(player.score_history.len(), 0);
}

#[test]
fn bullet_flies_along_its_heading() {
    let bullet = Bullet::new(&shot(7, 2, 1_000, 2_000, west()));
    assert_eq!(bullet.id, 7);
    assert_eq!(bullet.player_id, 2);
    assert_eq!(bullet.position, Position { x: 1_000, y: 2_000 });
    assert_eq!(bullet.velocity, Velocity { dx: -BULLET_SPEED, dy: 0 });
    assert_eq!(bullet.project_position(10), Position { x: -2_000, y: 2_000 });
    assert_eq!(bullet.project_position(0), Position { x: 1_000, y: 2_000 });
}

#[test]
fn collision_ahead_is_strictly_within_twelve_units() {
    let player = Player::with_state(&ship_at(1, 0, 0), &HashMap::new(), 0);
    let bullet = Bullet::new(&shot(0, 2, 15_000, 0, west()));
    assert!(!player.is_colliding_at(&bullet, 0));
    assert!(!player.is_colliding_at(&bullet, 10));
    assert!(player.is_colliding_at(&bullet, 11));
    assert!(player.is_colliding_at(&bullet, 20));
    assert!(player.is_colliding_at(&bullet, 50));
    assert!(!player.is_colliding_at(&bullet, 90));
}

#[test]
fn collision_during_looks_at_every_tenth_millisecond() {
    assert_eq!(ANALYSIS_INTERVAL, 10);
    let player = Player::with_state(&ship_at(1, 0, 0), &HashMap::new(), 0);
    let bullet = Bullet::new(&shot(0, 2, 15_000, 0, west()));
    assert!(!player.is_colliding_during(&bullet, 0));
    assert!(!player.is_colliding_during(&bullet, 9));
    assert!(!player.is_colliding_during(&bullet, 19));
    assert!(player.is_colliding_during(&bullet, 20));
    assert!(player.is_colliding_during(&bullet, 1_000));
    let passing = Bullet::new(&shot(0, 2, 15_000, 12_000, west()));
    assert!(!player.is_colliding_during(&passing, 1_000));
    let leaving = Bullet::new(&shot(0, 2, 15_000, 0, Heading::east()));
    assert!(!player.is_colliding_during(&leaving, 1_000));
}

#[test]
fn analyzer_starts_without_a_world() {
    let analyzer = Analyzer::default();
    assert!(analyzer.own_player().is_none());
    assert!(analyzer.player(0).is_none());
    assert!(analyzer.other_players().is_empty());
    assert!(analyzer.player_closest().is_none());
    assert!(analyzer.player_least_moving().is_none());
    assert!(analyzer.player_highest_score().is_none());
    assert!(analyzer.player_highest_score_after(1_000).is_none());
    assert!(analyzer.players_within(u32::MAX).is_empty());
    assert!(analyzer.own_bullets().is_empty());
    assert!(analyzer.other_bullets().is_empty());
    assert!(analyzer.bullets_colliding(1_000).is_empty());
    assert!(analyzer.bullets_within(u32::MAX).is_empty());
    assert_eq!(analyzer.last_update(), 0);
}

#[test]
fn push_state_records_every_ship_of_the_snapshot() {
    let mut analyzer = Analyzer::default();
    let state = snapshot(
        2,
        vec![ship_at(1, 0, 0), ship_at(2, 10_000, 0), ship_at(3, 0, 30_000)],
        vec![shot(0, 1, 5_000, 0, Heading::east())],
        &[(1, 4), (3, 6)],
    );
    analyzer.push_state(&state, 500);
    assert_eq!(analyzer.own_player_id(), 2);
    assert_eq!(analyzer.last_update(), 500);
    assert_eq!(analyzer.own_player().unwrap().id, 2);
    assert_eq!(analyzer.player(1).unwrap().score(), 4);
    assert_eq!(analyzer.player(2).unwrap().score(), 0);
    assert_eq!(analyzer.player(3).unwrap().position, Position { x: 0, y: 30_000 });
    assert!(analyzer.player(4).is_none());
    let others: Vec<u32> = analyzer.other_players().iter().map(|p| p.id).collect();
    assert_eq!(others, vec![1, 3]);
}

#[test]
fn push_state_carries_records_on_and_forgets_the_missing() {
    let mut analyzer = Analyzer::default();
    analyzer.push_state(
        &snapshot(1, vec![ship_at(1, 0, 0), ship_at(2, 10_000, 0)], vec![], &[]),
        0,
    );
    analyzer.push_state(
        &snapshot(1, vec![ship_at(2, 12_000, 0), ship_at(1, 0, 0)], vec![], &[(2, 1)]),
        100,
    );
    let two = analyzer.player(2).unwrap();
    assert_eq!(two.trajectory.positions.len(), 2);
    assert_eq!(two.trajectory.last_velocity(), Velocity { dx: 20_000, dy: 0 });
    assert_eq!(two.score_history.len(), 2);
    assert_eq!(two.score(), 1);
    let order: Vec<u32> =
        vec![analyzer.own_player().unwrap().id, analyzer.other_players()[0].id];
    assert_eq!(order, vec![1, 2]);
    analyzer.push_state(&snapshot(1, vec![ship_at(1, 0, 0)], vec![], &[(2, 1)]), 200);
    assert!(analyzer.player(2).is_none());
    analyzer.push_state(
        &snapshot(1, vec![ship_at(1, 0, 0), ship_at(2, 900_000, 0)], vec![], &[(2, 1)]),
        300,
    );
    let back = analyzer.player(2).unwrap();
    assert_eq!(back.trajectory.positions.len(), 1);
    assert_eq!(back.score_history.len(), 1);
    assert_eq!(analyzer.player(1).unwrap().trajectory.positions.len(), 4);
}

#[test]
fn push_state_keeps_one_record_of_an_id() {
    let mut analyzer = Analyzer::default();
    analyzer.push_state(&snapshot(1, vec![ship_at(1, 0, 0), ship_at(2, 10_000, 0)], vec![], &[]), 0);
    analyzer.push_state(
        &snapshot(
            1,
            vec![ship_at(2, 11_000, 0), ship_at(1, 0, 0), ship_at(2, 70_000, 0), ship_at(3, 5, 5)],
            vec![],
            &[],
        ),
        100,
    );
    let ids: Vec<u32> = analyzer.other_players().iter().map(|p| p.id).collect();
    assert_eq!(ids, vec![2, 3]);
    let two = analyzer.player(2).unwrap();
    assert_eq!(two.position, Position { x: 70_000, y: 0 });
    assert_eq!(two.trajectory.positions.len(), 1);
    assert_eq!(two.score_history.len(), 1);
    assert_eq!(analyzer.player(1).unwrap().trajectory.positions.len(), 2);
}

#[test]
fn push_state_replaces_the_bullets() {
    let mut analyzer = Analyzer::default();
    analyzer.push_state(
        &snapshot(
            1,
            vec![ship_at(1, 0, 0)],
            vec![shot(0, 1, 5_000, 0, Heading::east()), shot(1, 2, 9_000, 0, west())],
            &[],
        ),
        0,
    );
    assert_eq!(analyzer.own_bullets().len(), 1);
    assert_eq!(analyzer.own_bullets()[0].id, 0);
    assert_eq!(analyzer.other_bullets().len(), 1);
    assert_eq!(analyzer.other_bullets()[0].id, 1);
    analyzer.push_state(
        &snapshot(1, vec![ship_at(1, 0, 0)], vec![shot(2, 2, 90_000, 0, west())], &[]),
        100,
    );
    assert!(analyzer.own_bullets().is_empty());
    let others: Vec<u32> = analyzer.other_bullets().iter().map(|b| b.id).collect();
    assert_eq!(others, vec![2]);
}

#[test]
fn own_player_is_missing_while_the_ship_is_out() {
    let mut analyzer = Analyzer::default();
    analyzer.push_state(&snapshot(9, vec![ship_at(1, 0, 0)], vec![], &[]), 0);
    assert!(analyzer.own_player().is_none());
    assert!(analyzer.player_closest().is_none());
    assert!(analyzer.players_within(u32::MAX).is_empty());
    assert!(analyzer.bullets_colliding(1_000).is_empty());
    assert!(analyzer.bullets_within(u32::MAX).is_empty());
    assert_eq!(analyzer.player_least_moving().unwrap().id, 1);
    assert_eq!(analyzer.player_highest_score().unwrap().id, 1);
}

#[test]
fn alone_in_the_world_finds_no_one() {
    let mut analyzer = Analyzer::default();
    analyzer.push_state(
        &snapshot(1, vec![ship_at(1, 100_000, 100_000)], vec![], &[(1, 30)]),
        0,
    );
    assert_eq!(analyzer.own_player().unwrap().id, 1);
    assert!(analyzer.other_players().is_empty());
    assert!(analyzer.player_closest().is_none());
    assert!(analyzer.player_least_moving().is_none());
    assert!(analyzer.player_highest_score().is_none());
    assert!(analyzer.player_highest_score_after(5_000).is_none());
    assert!(analyzer.players_within(u32::MAX).is_empty());
}

#[test]
fn closest_is_the_nearest_other_ship() {
    let mut analyzer = Analyzer::default();
    analyzer.push_state(
        &snapshot(
            1,
            vec![
                ship_at(2, 0, 50_000),
                ship_at(1, 0, 0),
                ship_at(3, 30_000, 40_000),
                ship_at(4, -30_000, -39_999),
                ship_at(5, 49_999, 1),
            ],
            vec![],
            &[],
        ),
        0,
    );
    assert_eq!(analyzer.player_closest().unwrap().id, 5);
    analyzer.push_state(
        &snapshot(
            1,
            vec![ship_at(2, 0, 50_000), ship_at(1, 0, 0), ship_at(3, 30_000, 40_000)],
            vec![],
            &[],
        ),
        100,
    );
    assert_eq!(analyzer.player_closest().unwrap().id, 2);
}

#[test]
fn least_moving_is_the_ship_with_the_slowest_legs() {
    let mut analyzer = Analyzer::default();
    analyzer.push_state(
        &snapshot(
            1,
            vec![ship_at(1, 0, 0), ship_at(2, 0, 0), ship_at(3, 0, 0), ship_at(4, 0, 0)],
            vec![],
            &[],
        ),
        0,
    );
    analyzer.push_state(
        &snapshot(
            1,
            vec![ship_at(1, 0, 0), ship_at(2, 5_000, 0), ship_at(3, 0, -3_000), ship_at(4, 3_000, 0)],
            vec![],
            &[],
        ),
        1_000,
    );
    assert_eq!(analyzer.player_least_moving().unwrap().id, 3);
    analyzer.push_state(
        &snapshot(
            1,
            vec![ship_at(1, 0, 0), ship_at(2, 5_000, 0), ship_at(3, 0, 4_000), ship_at(4, 3_000, 0)],
            vec![],
            &[],
        ),
        2_000,
    );
    assert_eq!(analyzer.player_least_moving().unwrap().id, 4);
}

#[test]
fn highest_score_is_the_first_of_the_best() {
    let mut analyzer = Analyzer::default();
    let ships = vec![ship_at(1, 0, 0), ship_at(2, 0, 0), ship_at(3, 0, 0), ship_at(4, 0, 0)];
    analyzer.push_state(&snapshot(1, ships.clone(), vec![], &[(1, 99), (2, 5), (3, 7), (4, 7)]), 0);
    assert_eq!(analyzer.player_highest_score().unwrap().id, 3);
    analyzer.push_state(&snapshot(1, ships, vec![], &[(1, 99), (2, 8), (3, 7), (4, 7)]), 100);
    assert_eq!(analyzer.player_highest_score().unwrap().id, 2);
}

#[test]
fn highest_score_after_follows_the_recent_gain() {
    let mut analyzer = Analyzer::default();
    let ships = vec![ship_at(1, 0, 0), ship_at(2, 0, 0), ship_at(3, 0, 0)];
    analyzer.push_state(&snapshot(1, ships.clone(), vec![], &[(2, 10), (3, 0)]), 0);
    analyzer.push_state(&snapshot(1, ships, vec![], &[(2, 10), (3, 8)]), 10_000);
    assert_eq!(analyzer.player_highest_score().unwrap().id, 2);
    assert_eq!(analyzer.player_highest_score_after(0).unwrap().id, 2);
    assert_eq!(analyzer.player_highest_score_after(2_500).unwrap().id, 2);
    assert_eq!(analyzer.player_highest_score_after(2_501).unwrap().id, 2);
    assert_eq!(analyzer.player_highest_score_after(3_750).unwrap().id, 3);
    assert_eq!(analyzer.player_highest_score_after(100_000).unwrap().id, 3);
}

#[test]
fn players_within_counts_the_radius_in() {
    let mut analyzer = Analyzer::default();
    analyzer.push_state(
        &snapshot(
            1,
            vec![ship_at(1, 0, 0), ship_at(2, 30_000, 40_000), ship_at(3, 30_000, 40_001), ship_at(4, 1, 1)],
            vec![],
            &[],
        ),
        0,
    );
    let near: Vec<u32> = analyzer.players_within(50_000).iter().map(|p| p.id).collect();
    assert_eq!(near, vec![2, 4]);
    let all: Vec<u32> = analyzer.players_within(50_001).iter().map(|p| p.id).collect();
    assert_eq!(all, vec![2, 3, 4]);
    assert!(analyzer.players_within(0).is_empty());
}

#[test]
fn bullets_within_leaves_own_bullets_out() {
    let mut analyzer = Analyzer::default();
    analyzer.push_state(
        &snapshot(
            1,
            vec![ship_at(1, 0, 0)],
            vec![
                shot(0, 1, 1_000, 0, Heading::east()),
                shot(1, 2, 0, 20_000, west()),
                shot(2, 2, 0, 20_001, west()),
            ],
            &[],
        ),
        0,
    );
    let near: Vec<u32> = analyzer.bullets_within(20_000).iter().map(|b| b.id).collect();
    assert_eq!(near, vec![1]);
}

#[test]
fn bullets_colliding_finds_what_is_about_to_hit() {
    let mut analyzer = Analyzer::default();
    analyzer.push_state(
        &snapshot(
            1,
            vec![ship_at(1, 100_000, 100_000)],
            vec![
                shot(0, 1, 160_000, 100_000, west()),
                shot(1, 2, 40_000, 100_000, west()),
                shot(2, 2, 160_000, 100_000, west()),
                shot(3, 3, 100_000, 400_000, Heading::new(0, -HEADING_ONE).unwrap()),
                shot(4, 3, 100_000, 415_000, Heading::new(0, -HEADING_ONE).unwrap()),
            ],
            &[],
        ),
        0,
    );
    let threats: Vec<u32> = analyzer.bullets_colliding(1_000).iter().map(|b| b.id).collect();
    assert_eq!(threats, vec![2, 3]);
    let soon: Vec<u32> = analyzer.bullets_colliding(200).iter().map(|b| b.id).collect();
    assert_eq!(soon, vec![2]);
    assert!(analyzer.bullets_colliding(160).is_empty());
}

#[test]
fn client_knows_whether_its_ship_is_in_play() {
    assert!(snapshot(2, vec![ship_at(1, 0, 0), ship_at(2, 0, 0)], vec![], &[]).is_in_play());
    assert!(!snapshot(3, vec![ship_at(1, 0, 0), ship_at(2, 0, 0)], vec![], &[]).is_in_play());
    assert!(!snapshot(0, vec![], vec![], &[]).is_in_play());
}

#[test]
fn client_state_takes_messages_in() {
    let mut client = snapshot(0, vec![], vec![], &[]);
    client.apply(ServerToClient::Id(7));
    assert_eq!(client.id, 7);
    assert!(client.game_state.players.is_empty());
    let next = snapshot(0, vec![ship_at(7, 1, 2)], vec![], &[(7, 3)]).game_state;
    client.apply(ServerToClient::GameState(next));
    assert_eq!(client.id, 7);
    assert_eq!(client.game_state.players, vec![ship_at(7, 1, 2)]);
    assert_eq!(client.game_state.scoreboard.get(&7), Some(&3));
    let mut names = HashMap::new();
    names.insert(7, String::from("seven"));
    client.apply(ServerToClient::TeamNames(names));
    assert_eq!(client.id, 7);
    assert_eq!(client.game_state.players, vec![ship_at(7, 1, 2)]);
}
