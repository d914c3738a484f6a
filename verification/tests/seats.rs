use tokyo::game::GameLoopCommand;
use tokyo::models::GameCommand;
use tokyo::session::{pass_on, ClientStop, GameActor, Notice, PlayerGameCommand, SocketEvent};

fn join(key: &str, team: &str, connection: u64) -> SocketEvent {
    SocketEvent::Join(key.to_string(), team.to_string(), connection)
}

fn leave(key: &str, connection: u64) -> SocketEvent {
    SocketEvent::Leave(key.to_string(), connection)
}

#[test]
fn first_join_is_given_the_next_ship() {
    let mut actor = GameActor::new();
    assert_eq!(
        actor.handle(join("alpha", "Ants", 10)),
        vec![
            Notice::Game(GameLoopCommand::PlayerJoined(0)),
            Notice::Id { to: 10, player_id: 0 },
            Notice::TeamNames { to: 10 },
        ]
    );
    assert_eq!(
        actor.handle(join("beta", "Bees", 11)),
        vec![
            Notice::Game(GameLoopCommand::PlayerJoined(1)),
            Notice::Id { to: 11, player_id: 1 },
            Notice::TeamNames { to: 10 },
            Notice::TeamNames { to: 11 },
        ]
    );
    assert_eq!(actor.recipients(), vec![10, 11]);
    let names: Vec<(u32, String)> =
        actor.team_names().iter().map(|n| (n.player_id, n.name.clone())).collect();
    assert_eq!(names, vec![(0, "Ants".to_string()), (1, "Bees".to_string())]);
}

#[test]
fn second_connection_takes_the_seat_and_keeps_the_ship() {
    let mut actor = GameActor::new();
    actor.handle(join("alpha", "Ants", 10));
    assert_eq!(
        actor.handle(join("alpha", "Aphids", 12)),
        vec![
            Notice::Stop(10, ClientStop {}),
            Notice::Id { to: 12, player_id: 0 },
            Notice::TeamNames { to: 12 },
        ]
    );
    assert_eq!(actor.recipients(), vec![12]);
    assert_eq!(actor.team_names().len(), 1);
    assert_eq!(actor.team_names()[0].name, "Aphids");
    assert!(actor.handle(leave("alpha", 10)).is_empty());
    assert_eq!(actor.recipients(), vec![12]);
    assert_eq!(
        actor.handle(leave("alpha", 12)),
        vec![Notice::Game(GameLoopCommand::PlayerLeft(0))]
    );
    assert!(actor.recipients().is_empty());
}

#[test]
fn returning_key_steers_the_ship_it_had() {
    let mut actor = GameActor::new();
    actor.handle(join("alpha", "Ants", 10));
    actor.handle(join("beta", "Bees", 11));
    actor.handle(leave("alpha", 10));
    assert_eq!(
        actor.handle(join("alpha", "Ants", 13)),
        vec![
            Notice::Id { to: 13, player_id: 0 },
            Notice::TeamNames { to: 11 },
            Notice::TeamNames { to: 13 },
        ]
    );
    assert_eq!(
        actor.handle(join("gamma", "Gnats", 14)),
        vec![
            Notice::Game(GameLoopCommand::PlayerJoined(2)),
            Notice::Id { to: 14, player_id: 2 },
            Notice::TeamNames { to: 11 },
            Notice::TeamNames { to: 13 },
            Notice::TeamNames { to: 14 },
        ]
    );
}

#[test]
fn spectators_watch_without_a_ship() {
    let mut actor = GameActor::new();
    actor.handle(join("alpha", "Ants", 10));
    assert_eq!(actor.handle(join("SPECTATOR", "", 20)), vec![Notice::TeamNames { to: 20 }]);
    assert_eq!(actor.handle(join("SPECTATOR", "", 21)), vec![Notice::TeamNames { to: 21 }]);
    assert_eq!(actor.handle(join("SPECTATOR", "", 20)), vec![Notice::TeamNames { to: 20 }]);
    assert_eq!(actor.recipients(), vec![10, 20, 21]);
    assert_eq!(
        actor.handle(join("beta", "Bees", 11)),
        vec![
            Notice::Game(GameLoopCommand::PlayerJoined(1)),
            Notice::Id { to: 11, player_id: 1 },
            Notice::TeamNames { to: 10 },
            Notice::TeamNames { to: 11 },
            Notice::TeamNames { to: 20 },
            Notice::TeamNames { to: 21 },
        ]
    );
    assert!(actor.handle(leave("SPECTATOR", 20)).is_empty());
    assert_eq!(actor.recipients(), vec![10, 11, 21]);
    assert!(actor.handle(leave("SPECTATOR", 99)).is_empty());
    assert_eq!(actor.recipients(), vec![10, 11, 21]);
}

#[test]
fn leave_of_an_unknown_key_changes_nothing() {
    let mut actor = GameActor::new();
    actor.handle(join("alpha", "Ants", 10));
    assert!(actor.handle(leave("omega", 10)).is_empty());
    assert_eq!(actor.recipients(), vec![10]);
}

#[test]
fn commands_are_routed_to_the_ship_of_the_key() {
    let mut actor = GameActor::new();
    actor.handle(join("alpha", "Ants", 10));
    actor.handle(join("beta", "Bees", 11));
    let fire = PlayerGameCommand { api_key: "beta".to_string(), cmd: GameCommand::Fire };
    assert_eq!(
        actor.handle_command(&fire),
        Some(GameLoopCommand::GameCommand(1, GameCommand::Fire))
    );
    let stray = PlayerGameCommand { api_key: "omega".to_string(), cmd: GameCommand::Throttle(7) };
    assert_eq!(actor.handle_command(&stray), None);
    let watcher =
        PlayerGameCommand { api_key: "SPECTATOR".to_string(), cmd: GameCommand::Fire };
    actor.handle(join("SPECTATOR", "", 20));
    assert_eq!(actor.handle_command(&watcher), None);
    actor.handle(leave("beta", 11));
    assert_eq!(
        actor.handle_command(&fire),
        Some(GameLoopCommand::GameCommand(1, GameCommand::Fire))
    );
}

#[test]
fn messages_are_passed_on_when_admitted_and_readable() {
    let key = "alpha".to_string();
    let passed = pass_on(&key, true, Some(GameCommand::Throttle(300))).unwrap();
    assert_eq!(passed.api_key, "alpha");
    assert_eq!(passed.cmd, GameCommand::Throttle(300));
    assert!(pass_on(&key, false, Some(GameCommand::Fire)).is_none());
    assert!(pass_on(&key, true, None).is_none());
    assert!(pass_on(&key, false, None).is_none());
}
