use tokyo::game::{
    is_colliding, Game, GameLoopCommand, Triangle, ARENA_HEIGHT, ARENA_WIDTH, DEAD_PUNISH,
    MAX_CONCURRENT_BULLETS, SURVIVAL_POINT_INTERVAL, SURVIVAL_TIMEOUT,
};
use tokyo::geom::{Heading, Position, HEADING_ONE};
use tokyo::models::{
    BulletState, Bounds, GameCommand, PlayerState, BULLET_RADIUS, PLAYER_MAX_THROTTLE,
    PLAYER_RADIUS,
};

fn ship(game: &Game, id: u32) -> Option<PlayerState> {
    game.state().players.iter().find(|p| p.id == id).copied()
}

fn score(game: &Game, id: u32) -> u32 {
    game.state().scoreboard.get(&id).copied().unwrap_or(0)
}

#[test]
fn new_arena_is_empty() {
    let game = Game::new();
    let state = game.state();
    assert_eq!(state.bounds, Bounds { width: ARENA_WIDTH, height: ARENA_HEIGHT });
    assert!(state.players.is_empty());
    assert!(state.dead.is_empty());
    assert!(state.bullets.is_empty());
    assert!(state.scoreboard.is_empty());
}

#[test]
fn joining_ship_rests_facing_east() {
    let mut game = Game::new();
    game.add_player_at(7, 40_000, 50_000, 0);
    let p = ship(&game, 7).unwrap();
    assert_eq!(p.x, 40_000);
    assert_eq!(p.y, 50_000);
    assert_eq!(p.throttle, 0);
    assert_eq!(p.angle, Heading::east());
    assert_eq!(p.angle.dx(), HEADING_ONE);
    assert_eq!(p.angle.dy(), 0);
}

#[test]
fn joining_outside_the_arena_lands_on_its_edge() {
    let mut game = Game::new();
    game.add_player_at(1, -5, ARENA_HEIGHT + 1, 0);
    game.add_player_at(2, i32::MAX, i32::MIN, 0);
    let a = ship(&game, 1).unwrap();
    let b = ship(&game, 2).unwrap();
    assert_eq!((a.x, a.y), (0, ARENA_HEIGHT));
    assert_eq!((b.x, b.y), (ARENA_WIDTH, 0));
}

#[test]
fn joining_twice_adds_one_ship() {
    let mut game = Game::new();
    game.add_player_at(7, 40_000, 50_000, 0);
    game.add_player_at(7, 90_000, 90_000, 5);
    assert_eq!(game.state().players.len(), 1);
    assert_eq!(ship(&game, 7).unwrap().x, 40_000);
}

#[test]
fn random_spawn_lies_inside_the_arena() {
    for id in 0..200 {
        let mut game = Game::new();
        game.add_player(id, 0);
        let p = ship(&game, id).unwrap();
        assert!(0 <= p.x && p.x < ARENA_WIDTH);
        assert!(0 <= p.y && p.y < ARENA_HEIGHT);
    }
}

#[test]
fn randomize_keeps_ship_and_draws_inside_bounds() {
    let mut p = PlayerState::new(3);
    p.throttle = 400;
    for _ in 0..200 {
        p.randomize(Bounds { width: 10, height: 1 });
        assert!(0 <= p.x && p.x < 10);
        assert_eq!(p.y, 0);
        assert_eq!(p.id, 3);
        assert_eq!(p.throttle, 400);
        assert_eq!(p.angle, Heading::east());
    }
}

#[test]
fn two_ships_one_second_at_full_throttle() {
    let mut game = Game::new();
    game.add_player_at(1, 0, 0, 0);
    game.add_player_at(2, 50_000, 0, 0);
    game.handle_cmd(1, GameCommand::Throttle(PLAYER_MAX_THROTTLE));
    game.tick(1000, 0);
    let a = ship(&game, 1).unwrap();
    let b = ship(&game, 2).unwrap();
    assert_eq!(a.x, 150_000);
    assert_eq!(a.y, PLAYER_RADIUS);
    assert_eq!(b.x, 50_000);
    assert_eq!(b.y, PLAYER_RADIUS);
}

#[test]
fn ship_is_kept_a_radius_inside_the_arena() {
    let mut game = Game::new();
    game.add_player_at(1, ARENA_WIDTH - 20_000, 500_000, 0);
    game.handle_cmd(1, GameCommand::Throttle(PLAYER_MAX_THROTTLE));
    game.tick(1000, 0);
    let a = ship(&game, 1).unwrap();
    assert_eq!(a.x, ARENA_WIDTH - PLAYER_RADIUS);
    assert_eq!(a.y, 500_000);
}

#[test]
fn head_on_collision_is_detected_at_the_sum_of_radii() {
    let b = PlayerState { x: 50_000, y: 0, ..PlayerState::new(2) };
    let far = PlayerState { x: 29_999, y: 0, ..PlayerState::new(1) };
    let touching = PlayerState { x: 30_000, y: 0, ..PlayerState::new(1) };
    let inside = PlayerState { x: 34_750, y: 0, ..PlayerState::new(1) };
    assert!(!is_colliding(&far, &b));
    assert!(is_colliding(&touching, &b));
    assert!(is_colliding(&inside, &b));
    assert!(is_colliding(&b, &touching));
}

#[test]
fn ship_approaches_until_it_touches() {
    let mut game = Game::new();
    game.add_player_at(1, 10_000, 10_000, 0);
    game.add_player_at(2, 50_000, 10_000, 0);
    game.handle_cmd(1, GameCommand::Throttle(PLAYER_MAX_THROTTLE));
    let mut ticks = 0;
    loop {
        let a = ship(&game, 1).unwrap();
        let b = ship(&game, 2).unwrap();
        if is_colliding(&a, &b) {
            assert!(b.x - a.x <= 2 * PLAYER_RADIUS);
            break;
        }
        assert!(b.x - a.x > 2 * PLAYER_RADIUS);
        game.tick(33, ticks * 33);
        ticks += 1;
        assert!(ticks < 100);
    }
    assert_eq!(ticks, 5);
    assert_eq!(ship(&game, 1).unwrap().x, 10_000 + 5 * 4_950);
}

#[test]
fn bullet_and_ship_collide_at_twelve_units() {
    let p = PlayerState { x: 100_000, y: 100_000, ..PlayerState::new(1) };
    let at_reach = BulletState {
        id: 0,
        player_id: 9,
        angle: Heading::east(),
        x: 100_000 + PLAYER_RADIUS + BULLET_RADIUS,
        y: 100_000,
    };
    let beyond = BulletState { x: at_reach.x + 1, ..at_reach };
    assert!(is_colliding(&p, &at_reach));
    assert!(!is_colliding(&p, &beyond));
}

#[test]
fn throttle_is_capped_at_full() {
    let mut game = Game::new();
    game.add_player_at(1, 100_000, 100_000, 0);
    game.handle_cmd(1, GameCommand::Throttle(5_000));
    assert_eq!(ship(&game, 1).unwrap().throttle, PLAYER_MAX_THROTTLE);
    game.handle_cmd(1, GameCommand::Throttle(250));
    assert_eq!(ship(&game, 1).unwrap().throttle, 250);
    game.handle_cmd(1, GameCommand::Throttle(0));
    assert_eq!(ship(&game, 1).unwrap().throttle, 0);
}

#[test]
fn half_throttle_covers_half_the_way() {
    let mut game = Game::new();
    game.add_player_at(1, 100_000, 100_000, 0);
    game.handle_cmd(1, GameCommand::Throttle(500));
    game.tick(1000, 0);
    assert_eq!(ship(&game, 1).unwrap().x, 175_000);
}

#[test]
fn rotate_sets_the_heading() {
    let mut game = Game::new();
    game.add_player_at(1, 100_000, 100_000, 0);
    let north = Heading::new(0, HEADING_ONE).unwrap();
    game.handle_cmd(1, GameCommand::Rotate(north));
    game.handle_cmd(1, GameCommand::Throttle(PLAYER_MAX_THROTTLE));
    assert_eq!(ship(&game, 1).unwrap().angle, north);
    game.tick(100, 0);
    let p = ship(&game, 1).unwrap();
    assert_eq!(p.x, 100_000);
    assert_eq!(p.y, 115_000);
}

#[test]
fn command_for_unknown_ship_is_ignored() {
    let mut game = Game::new();
    game.add_player_at(1, 100_000, 100_000, 0);
    game.handle_cmd(2, GameCommand::Throttle(700));
    game.handle_cmd(2, GameCommand::Fire);
    game.handle_cmd(2, GameCommand::Rotate(Heading::east().tangent()));
    assert_eq!(game.state().players.len(), 1);
    assert_eq!(ship(&game, 1).unwrap(), PlayerState { x: 100_000, y: 100_000, ..PlayerState::new(1) });
    assert!(game.state().bullets.is_empty());
}

#[test]
fn bullet_starts_five_units_ahead_with_the_ships_heading() {
    let mut game = Game::new();
    game.add_player_at(1, 100_000, 100_000, 0);
    let north = Heading::new(0, HEADING_ONE).unwrap();
    game.handle_cmd(1, GameCommand::Rotate(north));
    game.handle_cmd(1, GameCommand::Fire);
    let bullets = &game.state().bullets;
    assert_eq!(bullets.len(), 1);
    assert_eq!(
        bullets[0],
        BulletState { id: 0, player_id: 1, angle: north, x: 100_000, y: 105_000 }
    );
}

#[test]
fn fifth_shot_is_dropped_until_a_bullet_is_gone() {
    let mut game = Game::new();
    game.add_player_at(1, 1_000_000, 1_000_000, 0);
    for _ in 0..5 {
        game.handle_cmd(1, GameCommand::Fire);
    }
    assert_eq!(game.state().bullets.len(), MAX_CONCURRENT_BULLETS);
    let ids: Vec<u32> = game.state().bullets.iter().map(|b| b.id).collect();
    assert_eq!(ids, vec![0, 1, 2, 3]);
    game.tick(1000, 0);
    assert_eq!(game.state().bullets.len(), 4);
    assert_eq!(game.state().bullets[0].x, 1_305_000);
    game.handle_cmd(1, GameCommand::Fire);
    assert_eq!(game.state().bullets.len(), 4);
    game.tick(6000, 1000);
    assert!(game.state().bullets.is_empty());
    game.handle_cmd(1, GameCommand::Fire);
    assert_eq!(game.state().bullets.len(), 1);
    assert_eq!(game.state().bullets[0].id, 4);
}

#[test]
fn bullet_is_kept_on_the_edge_and_dropped_beyond() {
    let mut game = Game::new();
    game.add_player_at(1, ARENA_WIDTH - 8_000, 1_000_000, 0);
    game.handle_cmd(1, GameCommand::Fire);
    assert_eq!(game.state().bullets[0].x, ARENA_WIDTH - 3_000);
    game.tick(10, 0);
    assert_eq!(game.state().bullets.len(), 1);
    assert_eq!(game.state().bullets[0].x, ARENA_WIDTH);
    game.tick(1, 10);
    assert!(game.state().bullets.is_empty());
}

#[test]
fn bullet_brings_down_the_other_ship_and_spares_its_owner() {
    let mut game = Game::new();
    game.add_player_at(1, 100_000, 100_000, 0);
    game.add_player_at(2, 120_000, 100_000, 0);
    game.handle_cmd(1, GameCommand::Fire);
    game.tick(10, 500);
    let state = game.state();
    assert_eq!(state.players.len(), 1);
    assert_eq!(state.players[0].id, 1);
    assert!(state.bullets.is_empty());
    assert_eq!(state.dead.len(), 1);
    assert_eq!(state.dead[0].player.id, 2);
    assert_eq!(state.dead[0].respawn, 500 + DEAD_PUNISH);
    assert!(0 <= state.dead[0].player.x && state.dead[0].player.x < ARENA_WIDTH);
    assert!(0 <= state.dead[0].player.y && state.dead[0].player.y < ARENA_HEIGHT);
    assert_eq!(score(&game, 1), 1);
    assert_eq!(score(&game, 2), 0);
}

#[test]
fn bullet_brings_down_one_ship_only() {
    let mut game = Game::new();
    game.add_player_at(1, 100_000, 100_000, 0);
    game.add_player_at(2, 120_000, 100_000, 0);
    game.add_player_at(3, 120_000, 101_000, 0);
    game.handle_cmd(1, GameCommand::Fire);
    game.tick(10, 0);
    let state = game.state();
    assert_eq!(state.players.iter().map(|p| p.id).collect::<Vec<u32>>(), vec![1, 3]);
    assert_eq!(state.dead.len(), 1);
    assert_eq!(state.dead[0].player.id, 2);
    assert_eq!(score(&game, 1), 1);
}

#[test]
fn own_bullet_never_brings_down_its_ship() {
    let mut game = Game::new();
    game.add_player_at(1, 100_000, 100_000, 0);
    game.handle_cmd(1, GameCommand::Fire);
    game.tick(0, 0);
    assert_eq!(game.state().players.len(), 1);
    assert_eq!(game.state().bullets.len(), 1);
    assert!(game.state().dead.is_empty());
    assert_eq!(score(&game, 1), 0);
}

#[test]
fn fallen_ship_returns_when_its_time_has_come() {
    let mut game = Game::new();
    game.add_player_at(1, 100_000, 100_000, 0);
    game.add_player_at(2, 120_000, 100_000, 0);
    game.handle_cmd(1, GameCommand::Fire);
    game.handle_cmd(1, GameCommand::Rotate(Heading::east().tangent()));
    game.tick(10, 500);
    let spawn = game.state().dead[0].player;
    game.tick(0, 500 + DEAD_PUNISH - 1);
    assert_eq!(game.state().dead.len(), 1);
    assert!(ship(&game, 2).is_none());
    game.tick(0, 500 + DEAD_PUNISH);
    assert!(game.state().dead.is_empty());
    let back = ship(&game, 2).unwrap();
    assert_eq!(back.id, 2);
    assert!(PLAYER_RADIUS <= back.x && back.x <= ARENA_WIDTH - PLAYER_RADIUS);
    assert!(PLAYER_RADIUS <= back.y && back.y <= ARENA_HEIGHT - PLAYER_RADIUS);
    assert_eq!(back.x, spawn.x.max(PLAYER_RADIUS).min(ARENA_WIDTH - PLAYER_RADIUS));
    assert_eq!(back.y, spawn.y.max(PLAYER_RADIUS).min(ARENA_HEIGHT - PLAYER_RADIUS));
    assert_eq!(game.state().players.iter().filter(|p| p.id == 2).count(), 1);
}

#[test]
fn fallen_ship_returns_at_the_point_it_was_given() {
    let mut game = Game::new();
    game.add_player_at(1, 100_000, 100_000, 0);
    game.add_player_at(2, 120_000, 100_000, 0);
    game.handle_cmd(1, GameCommand::Fire);
    game.tick_with(10, 500, &vec![Position { x: 700_000, y: 800_000 }]);
    assert_eq!(game.state().players.len(), 1);
    assert_eq!(game.state().dead.len(), 1);
    assert_eq!(
        game.state().dead[0].player,
        PlayerState { x: 700_000, y: 800_000, ..PlayerState::new(2) }
    );
    assert_eq!(game.state().dead[0].respawn, 500 + DEAD_PUNISH);
    assert_eq!(score(&game, 1), 1);
    game.tick_with(0, 500 + DEAD_PUNISH, &Vec::new());
    assert!(game.state().dead.is_empty());
    assert_eq!(ship(&game, 2).unwrap(), PlayerState { x: 700_000, y: 800_000, ..PlayerState::new(2) });
}

#[test]
fn points_given_to_fallen_ships_go_in_the_order_of_the_falls() {
    let mut game = Game::new();
    game.add_player_at(1, 100_000, 100_000, 0);
    game.add_player_at(2, 500_000, 500_000, 0);
    game.add_player_at(3, 120_000, 100_000, 0);
    game.add_player_at(4, 520_000, 500_000, 0);
    game.handle_cmd(2, GameCommand::Fire);
    game.handle_cmd(1, GameCommand::Fire);
    game.tick_with(
        10,
        0,
        &vec![Position { x: -9, y: ARENA_HEIGHT + 9 }, Position { x: 1, y: 2 }, Position { x: 3, y: 4 }],
    );
    let out: Vec<(u32, i32, i32)> =
        game.state().dead.iter().map(|d| (d.player.id, d.player.x, d.player.y)).collect();
    assert_eq!(out, vec![(4, 0, ARENA_HEIGHT), (3, 1, 2)]);
}

#[test]
fn fallen_ship_without_a_point_returns_where_it_fell() {
    let mut game = Game::new();
    game.add_player_at(1, 100_000, 100_000, 0);
    game.add_player_at(2, 120_000, 100_000, 0);
    game.handle_cmd(2, GameCommand::Throttle(PLAYER_MAX_THROTTLE));
    game.handle_cmd(1, GameCommand::Fire);
    game.tick_with(20, 0, &Vec::new());
    assert_eq!(game.state().dead.len(), 1);
    assert_eq!(
        game.state().dead[0].player,
        PlayerState { x: 123_000, y: 100_000, throttle: PLAYER_MAX_THROTTLE, ..PlayerState::new(2) }
    );
}

#[test]
fn survival_scores_after_the_timeout_and_then_at_intervals() {
    let mut game = Game::new();
    game.add_player_at(1, 100_000, 100_000, 1_000);
    game.tick(33, 1_000 + SURVIVAL_TIMEOUT - 1);
    assert_eq!(score(&game, 1), 0);
    game.tick(33, 1_000 + SURVIVAL_TIMEOUT);
    assert_eq!(score(&game, 1), 1);
    game.tick(33, 1_000 + SURVIVAL_TIMEOUT + SURVIVAL_POINT_INTERVAL - 1);
    assert_eq!(score(&game, 1), 1);
    game.tick(33, 1_000 + SURVIVAL_TIMEOUT + SURVIVAL_POINT_INTERVAL);
    assert_eq!(score(&game, 1), 2);
}

#[test]
fn fallen_ship_waits_the_whole_timeout_again() {
    let mut game = Game::new();
    game.add_player_at(1, 100_000, 100_000, 0);
    game.add_player_at(2, 120_000, 100_000, 0);
    game.handle_cmd(1, GameCommand::Fire);
    game.tick(10, 9_000);
    assert_eq!(score(&game, 2), 0);
    game.tick(0, 10_000);
    assert_eq!(score(&game, 1), 2);
    assert_eq!(score(&game, 2), 0);
    game.tick(0, 9_000 + SURVIVAL_TIMEOUT - 1);
    assert_eq!(score(&game, 2), 0);
    game.tick(0, 9_000 + SURVIVAL_TIMEOUT);
    assert_eq!(score(&game, 2), 1);
}

#[test]
fn ship_that_left_stops_and_scores_no_more() {
    let mut game = Game::new();
    game.add_player_at(1, 100_000, 100_000, 0);
    game.handle_cmd(1, GameCommand::Throttle(800));
    game.player_left(1);
    let p = ship(&game, 1).unwrap();
    assert_eq!(p.throttle, 0);
    game.tick(1000, SURVIVAL_TIMEOUT);
    assert_eq!(ship(&game, 1).unwrap().x, 100_000);
    assert_eq!(score(&game, 1), 0);
}

#[test]
fn scores_never_drop() {
    let mut game = Game::new();
    game.add_player_at(1, 100_000, 100_000, 0);
    game.add_player_at(2, 800_000, 100_000, 0);
    let mut last = (0, 0);
    for round in 0..400u64 {
        if round % 7 == 0 {
            game.handle_cmd(1, GameCommand::Fire);
        }
        game.tick(33, round * 100);
        let now = (score(&game, 1), score(&game, 2));
        assert!(now.0 >= last.0 && now.1 >= last.1);
        last = now;
    }
    assert!(last.0 > 0);
}

#[test]
fn receive_takes_one_command_in() {
    let mut game = Game::default();
    game.receive(GameLoopCommand::PlayerJoined(3), 0);
    let p = ship(&game, 3).unwrap();
    assert!(0 <= p.x && p.x < ARENA_WIDTH && 0 <= p.y && p.y < ARENA_HEIGHT);
    game.receive(GameLoopCommand::GameCommand(3, GameCommand::Throttle(600)), 0);
    assert_eq!(ship(&game, 3).unwrap().throttle, 600);
    game.receive(GameLoopCommand::PlayerLeft(3), 0);
    assert_eq!(ship(&game, 3).unwrap(), PlayerState { throttle: 0, ..p });
    game.init();
    assert_eq!(game.state().players.len(), 1);
}

#[test]
fn bodies_tell_their_disc() {
    let p = PlayerState { x: 7, y: -8, ..PlayerState::new(1) };
    assert_eq!((Triangle::x(&p), Triangle::y(&p), p.radius(), p.angle()), (7, -8, PLAYER_RADIUS, Heading::east()));
    let north = Heading::new(0, HEADING_ONE).unwrap();
    let b = BulletState { id: 0, player_id: 1, angle: north, x: 3, y: 4 };
    assert_eq!((Triangle::x(&b), Triangle::y(&b), b.radius(), Triangle::angle(&b)), (3, 4, BULLET_RADIUS, north));
}

#[test]
fn placed_ship_keeps_all_but_its_place() {
    let mut p = PlayerState { throttle: 250, ..PlayerState::new(5) };
    p.place(12, 34);
    assert_eq!(p, PlayerState { x: 12, y: 34, throttle: 250, ..PlayerState::new(5) });
}

#[test]
fn step_takes_commands_in_and_ticks() {
    let mut game = Game::new();
    let cmds = vec![
        GameLoopCommand::PlayerJoined(4),
        GameLoopCommand::GameCommand(4, GameCommand::Throttle(PLAYER_MAX_THROTTLE)),
        GameLoopCommand::GameCommand(4, GameCommand::Fire),
        GameLoopCommand::PlayerJoined(5),
        GameLoopCommand::PlayerLeft(5),
    ];
    game.step(&cmds, 0, 0);
    assert_eq!(game.state().players.len(), 2);
    assert_eq!(ship(&game, 4).unwrap().throttle, PLAYER_MAX_THROTTLE);
    assert_eq!(ship(&game, 5).unwrap().throttle, 0);
    assert!(game.state().bullets.len() <= 1);
    game.step(&Vec::new(), 33, SURVIVAL_TIMEOUT);
    assert_eq!(score(&game, 4), 1);
    assert_eq!(score(&game, 5), 0);
}
