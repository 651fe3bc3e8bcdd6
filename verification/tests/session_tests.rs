use wimble::event::Event;
use wimble::event::EventType;
use wimble::filter::Filters;
use wimble::input::MovementState;
use wimble::map::WorldMap;
use wimble::protocol::ClientToServer;
use wimble::protocol::Facing;
use wimble::protocol::Position;
use wimble::protocol::ServerToClient;
use wimble::session::GRID_SIZE;
use wimble::session::Session;
use wimble::session::Stage;
use wimble::session::absolute_position_messages;
use wimble::session::movement_messages;

fn online_session() -> Session {
    let mut session = Session::new(false, WorldMap::create_fallback_map());
    session.username = "me".to_string();
    session
}

#[test]
fn test_new_session_stages() {
    let offline = Session::new(true, WorldMap::create_fallback_map());
    assert!(matches!(offline.stage, Stage::Offline));
    assert!(offline.nc.is_offline());
    let online = Session::new(false, WorldMap::create_fallback_map());
    assert!(matches!(online.stage, Stage::PreAuth));
    assert_eq!(online.players.self_player.name, "Player");
    assert_eq!(online.players.self_player.pos.x, 24);
}

#[test]
fn test_auth_success_binds_name_and_enters_game() {
    let mut session = online_session();
    let reply = session.handle_auth_response("Welcome: Logged in as me");
    assert!(matches!(session.stage, Stage::InGame));
    assert_eq!(session.players.self_player.name, "me");
    match reply {
        Some(ClientToServer::SetUsername(u)) => assert_eq!(u, "me"),
        other => panic!("unexpected reply: {:?}", other),
    }
}

#[test]
fn test_auth_registration_marker_also_succeeds() {
    let mut session = online_session();
    let reply = session.handle_auth_response("Registered user me");
    assert!(matches!(session.stage, Stage::InGame));
    assert!(reply.is_some());
}

#[test]
fn test_auth_noise_keeps_polling() {
    let mut session = online_session();
    let reply = session.handle_auth_response("hello stranger");
    assert!(reply.is_none());
    assert!(matches!(session.stage, Stage::PreAuth));
    assert_eq!(session.players.self_player.name, "Player");
}

#[test]
fn test_self_echo_suppression() {
    // A PlayerMoved or PlayerJoined bearing the local username never
    // mutates the remote-player list.
    let mut session = online_session();
    session.apply_server_message(ServerToClient::PlayerMoved(
        "me".to_string(),
        Position::new(5, 5),
        Facing::North,
    ));
    assert_eq!(session.players.other_players.len(), 0);
    session.apply_server_message(ServerToClient::PlayerJoined(
        "me".to_string(),
        Position::new(5, 5),
        Facing::North,
    ));
    assert_eq!(session.players.other_players.len(), 0);
    session.apply_server_message(ServerToClient::PlayerJoined(
        "bob".to_string(),
        Position::new(5, 5),
        Facing::North,
    ));
    assert_eq!(session.players.other_players.len(), 1);
    assert_eq!(session.players.other_players[0].name, "bob");
}

#[test]
fn test_apply_left_and_chat() {
    let mut session = online_session();
    session.apply_server_message(ServerToClient::PlayerJoined(
        "bob".to_string(),
        Position::new(5, 5),
        Facing::North,
    ));
    session.apply_server_message(ServerToClient::ChatMessage(
        "bob".to_string(),
        "hi".to_string(),
    ));
    assert_eq!(session.players.other_players[0].chat_message.as_deref(), Some("hi"));
    session.apply_server_message(ServerToClient::PlayerLeft("bob".to_string()));
    assert_eq!(session.players.other_players.len(), 0);
}

#[test]
fn test_process_message_text() {
    let mut session = online_session();
    // A self echo leaves the registry untouched.
    session.process_message_text("TAG player_moved me 1 2 North");
    assert_eq!(session.players.other_players.len(), 0);
    // A remote move self-heals into an add.
    session.process_message_text("TAG player_moved bob 3 4 East");
    assert_eq!(session.players.other_players.len(), 1);
    assert_eq!(session.players.other_players[0].pos.x, 3);
    // Protocol-violation notices are skipped outright.
    session.process_message_text("Invalid protocol: player_moved carol 1 1 North");
    assert_eq!(session.players.other_players.len(), 1);
    // Noise is ignored.
    session.process_message_text("lorem ipsum");
    assert_eq!(session.players.other_players.len(), 1);
}

#[test]
fn test_process_incoming_is_bounded() {
    let mut session = online_session();
    let mut burst = Vec::new();
    for i in 0..12 {
        burst.push(format!("player_joined guest{} 1 1 North", i));
    }
    session.process_incoming(&burst);
    // Only the first ten are applied this tick.
    assert_eq!(session.players.other_players.len(), 10);
}

#[test]
fn test_update_local_moves_player() {
    let mut session = Session::new(true, WorldMap::create_fallback_map());
    let movement = MovementState { is_moving: true, direction: Facing::East, dx: 1, dy: 0 };
    let door = session.update_local(&movement, 16);
    assert!(door.is_none());
    assert_eq!(session.players.self_player.pos.x, 25);
    assert_eq!(session.players.self_player.pos.y, 24);
}

#[test]
fn test_update_local_follows_door() {
    let mut room_a = vec![vec![1u8; 12]; 12];
    for y in 1..11 {
        for x in 1..11 {
            room_a[y][x] = 0;
        }
    }
    let mut room_b = room_a.clone();
    room_a[10][7] = 7;
    room_b[1][7] = 7;
    let map = WorldMap::from_layouts(vec![room_a, room_b], vec![(7, 10, 1), (7, 1, 0)]);
    let mut session = Session::new(true, map);
    session.players.self_player.pos = Position::new(7 * GRID_SIZE + 8, 10 * GRID_SIZE + 8);
    let still = MovementState { is_moving: false, direction: Facing::South, dx: 0, dy: 0 };
    let door = session.update_local(&still, 16);
    assert_eq!(door, Some((7, 1, Facing::South)));
    assert_eq!(session.map.current_room, 1);
    // The player stands one cell south of the paired door, clear of its
    // trigger cell.
    assert_eq!(session.players.self_player.pos.x, 7 * GRID_SIZE + 8);
    assert_eq!(session.players.self_player.pos.y, 2 * GRID_SIZE + 8);
    assert_eq!(session.players.self_player.direction, Facing::South);
}

#[test]
fn test_movement_messages() {
    let moving = MovementState { is_moving: true, direction: Facing::North, dx: 0, dy: -1 };
    let msgs = movement_messages("me", &moving, &Position::new(30, 40));
    assert_eq!(msgs.len(), 3);
    assert_eq!(msgs[0].as_line(), "username me\r\n");
    assert_eq!(msgs[1].as_line(), "face North\r\n");
    assert_eq!(msgs[2].as_line(), "pos 30 40\r\n");
    let idle = MovementState { is_moving: false, direction: Facing::South, dx: 0, dy: 0 };
    let msgs = movement_messages("me", &idle, &Position::new(30, 40));
    assert_eq!(msgs.len(), 2);
}

#[test]
fn test_absolute_position_messages() {
    let msgs = absolute_position_messages("me", Facing::West, Position::new(-7, 9));
    assert_eq!(msgs.len(), 3);
    assert_eq!(msgs[0].as_line(), "username me\r\n");
    assert_eq!(msgs[1].as_line(), "face West\r\n");
    assert_eq!(msgs[2].as_line(), "pos -7 9\r\n");
}

#[test]
fn test_filters_pass_text_through() {
    let filters = Filters::new();
    assert_eq!(filters.filter_to_wimble_text("rude words".to_string()), "rude words");
}

#[test]
fn test_event_construction() {
    let ev = Event::new(EventType::NetSend, "pos 1 2\r\n".to_string());
    assert!(matches!(ev.etype, EventType::NetSend));
    assert_eq!(ev.event, "pos 1 2\r\n");
}

#[test]
fn test_simulated_players_seed_and_walk() {
    let mut session = Session::new(true, WorldMap::create_fallback_map());
    session.simulate_other_players(16);
    assert_eq!(session.players.other_players.len(), 2);
    assert_eq!(session.players.other_players[0].name, "SimPlayer");
    assert_eq!(session.players.other_players[0].pos.x, 56);
    assert_eq!(session.players.other_players[0].pos.y, 56);
    assert_eq!(session.players.other_players[1].name, "StaticPlayer");
    assert_eq!(session.players.other_players[1].pos.x, 88);
    assert_eq!(session.players.other_players[1].pos.y, 40);
    assert_eq!(session.sim_move_timer, 16);
    // After the turn timer fires, the walker turns east and steps one cell.
    session.simulate_other_players(2001);
    assert_eq!(session.sim_move_timer, 0);
    assert_eq!(session.sim_direction, 1);
    assert_eq!(session.players.other_players[0].pos.x, 56 + GRID_SIZE);
    assert_eq!(session.players.other_players[0].pos.y, 56);
    assert_eq!(session.players.other_players[0].direction, Facing::East);
    assert!(session.players.other_players[0].is_moving);
    // The still player never moves.
    assert_eq!(session.players.other_players[1].pos.x, 88);
}
