use wimble::input::MovementState;
use wimble::input::send_movement_to_server;
use wimble::net::NCError;
use wimble::net::NetClient;
use wimble::net::ReadEvent;
use wimble::net::interpret_read;
use wimble::protocol::ClientToServer;
use wimble::protocol::Facing;
use wimble::protocol::Position;
use wimble::protocol::ServerToClient;

#[test]
fn test_offline_nonblocking_guarantee() {
    // Ten thousand consecutive receives on an offline connection all
    // report no new data, without blocking or failing.
    let mut nc = NetClient::new_offline();
    assert!(nc.is_offline());
    for _ in 0..10000 {
        assert!(matches!(nc.recv(), Err(NCError::NoNewData)));
    }
}

#[test]
fn test_offline_send_succeeds() {
    let mut nc = NetClient::new_offline();
    let r = nc.send(ClientToServer::ChatMessage("into the void".to_string()));
    assert!(r.is_ok());
}

#[test]
fn test_disconnected_client_reports_lost_connection() {
    let mut nc = NetClient::new_with_mode(false);
    assert!(!nc.is_offline());
    match nc.recv() {
        Err(NCError::ConnectionError(m)) => assert_eq!(m, "Server connection lost"),
        other => panic!("unexpected recv outcome: {:?}", other),
    }
    match nc.send(ClientToServer::SetUsername("me".to_string())) {
        Err(NCError::ConnectionError(m)) => assert_eq!(m, "Server connection lost"),
        other => panic!("unexpected send outcome: {:?}", other),
    }
}

#[test]
fn test_interpret_read_outcomes() {
    assert_eq!(interpret_read(ReadEvent::Data("hi".to_string())).unwrap(), "hi");
    match interpret_read(ReadEvent::Closed) {
        Err(NCError::ConnectionError(m)) => assert_eq!(m, "Server closed connection"),
        other => panic!("unexpected outcome: {:?}", other),
    }
    assert!(matches!(interpret_read(ReadEvent::WouldBlock), Err(NCError::NoNewData)));
    match interpret_read(ReadEvent::Failed("broken pipe".to_string())) {
        Err(NCError::ConnectionError(m)) => assert_eq!(m, "broken pipe"),
        other => panic!("unexpected outcome: {:?}", other),
    }
}

#[test]
fn test_parse_player_moved() {
    let nc = NetClient::new_offline();
    match nc.parse_server_message("TAG player_moved bob 10 -20 North") {
        Some(ServerToClient::PlayerMoved(user, pos, facing)) => {
            assert_eq!(user, "bob");
            assert_eq!(pos.x, 10);
            assert_eq!(pos.y, -20);
            assert_eq!(facing, Facing::North);
        }
        other => panic!("unexpected parse: {:?}", other),
    }
}

#[test]
fn test_parse_player_joined() {
    let nc = NetClient::new_offline();
    match nc.parse_server_message("player_joined alice 1 2 East trailing") {
        Some(ServerToClient::PlayerJoined(user, pos, facing)) => {
            assert_eq!(user, "alice");
            assert_eq!(pos.x, 1);
            assert_eq!(pos.y, 2);
            assert_eq!(facing, Facing::East);
        }
        other => panic!("unexpected parse: {:?}", other),
    }
}

#[test]
fn test_parse_player_left() {
    let nc = NetClient::new_offline();
    match nc.parse_server_message("SRV player_left bob") {
        Some(ServerToClient::PlayerLeft(user)) => assert_eq!(user, "bob"),
        other => panic!("unexpected parse: {:?}", other),
    }
}

#[test]
fn test_parse_tagged_facing_line() {
    let nc = NetClient::new_offline();
    match nc.parse_server_message("USR-(alice): Facing West") {
        Some(ServerToClient::PlayerMoved(user, pos, facing)) => {
            assert_eq!(user, "alice");
            // A facing-only update carries the dummy position.
            assert_eq!(pos.x, 0);
            assert_eq!(pos.y, 0);
            assert_eq!(facing, Facing::West);
        }
        other => panic!("unexpected parse: {:?}", other),
    }
}

#[test]
fn test_parse_chat_message() {
    let nc = NetClient::new_offline();
    match nc.parse_server_message("SRV chat_message bob hello there world") {
        Some(ServerToClient::ChatMessage(user, text)) => {
            assert_eq!(user, "bob");
            assert_eq!(text, "hello there world");
        }
        other => panic!("unexpected parse: {:?}", other),
    }
}

#[test]
fn test_parse_discards_malformed_fields() {
    let nc = NetClient::new_offline();
    // A recognized keyword with an unparsable coordinate discards the
    // whole message rather than applying part of it.
    assert!(nc.parse_server_message("player_moved bob ten 20 North").is_none());
    // Too few fields after the keyword.
    assert!(nc.parse_server_message("player_moved bob 10").is_none());
    // An unknown facing token is rejected, never silently defaulted.
    assert!(nc.parse_server_message("player_joined bob 1 2 Sideways").is_none());
}

#[test]
fn test_parse_ignores_noise() {
    let nc = NetClient::new_offline();
    assert!(nc.parse_server_message("Invalid protocol").is_none());
    assert!(nc.parse_server_message("welcome to the server").is_none());
    assert!(nc.parse_server_message("").is_none());
    // The keyword must appear as a whole token, not merely as a substring.
    assert!(nc.parse_server_message("xplayer_movedy").is_none());
}

#[test]
fn test_send_movement_to_server_offline() {
    let mut nc = NetClient::new_offline();
    let movement = MovementState { is_moving: true, direction: Facing::East, dx: 1, dy: 0 };
    send_movement_to_server(&mut nc, &movement, "me", &Position::new(1, 2));
    assert!(nc.is_offline());
}
