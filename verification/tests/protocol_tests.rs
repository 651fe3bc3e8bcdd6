use wimble::protocol::ClientToServer;
use wimble::protocol::Facing;
use wimble::protocol::Position;
use wimble::protocol::ProtocolError;
use wimble::protocol::ServerToClient;

#[test]
fn worth_sorth_sanity_check() {
    let no = Facing::from_str("Worth");
    match no {
        Ok(_ok) => panic!("Should have failed."),
        Err(err) => {
            assert!(matches!(err, ProtocolError::InvalidFacingDirection))
        }
    }
}

#[test]
fn test_position_creation() {
    let pos = Position::new(10, -5);
    assert_eq!(pos.x, 10);
    assert_eq!(pos.y, -5);
}

#[test]
fn test_facing_from_str() {
    assert_eq!(Facing::from_str("North").unwrap(), Facing::North);
    assert_eq!(Facing::from_str("East").unwrap(), Facing::East);
    assert_eq!(Facing::from_str("South").unwrap(), Facing::South);
    assert_eq!(Facing::from_str("West").unwrap(), Facing::West);
    // An unrecognized token is an explicit error, never a silent default.
    assert!(Facing::from_str("Invalid").is_err());
}

#[test]
fn test_facing_display() {
    assert_eq!(Facing::North.to_string(), "North");
    assert_eq!(Facing::East.to_string(), "East");
    assert_eq!(Facing::South.to_string(), "South");
    assert_eq!(Facing::West.to_string(), "West");
}

#[test]
fn test_server_to_client_parse() {
    // Chat message parsing under the fixed <tag> <cmd> framing.
    let chat_msg = "SERVER chat user1 Hello World!";
    if let Ok(ServerToClient::ChatMessage(username, message)) = ServerToClient::from_str(chat_msg) {
        assert_eq!(username, "user1");
        assert_eq!(message, " Hello World!");
    } else {
        panic!("Failed to parse chat message");
    }

    // Error cases.
    assert!(ServerToClient::from_str("SERVER Facing North").is_err());
    assert!(ServerToClient::from_str("SERVER Username test").is_err());
}

#[test]
fn test_client_to_server_formatting() {
    // Movement command.
    let move_cmd = ClientToServer::AttemptPlayerMove(Position::new(100, 200));
    assert_eq!(move_cmd.as_line(), "pos 100 200\r\n");

    // Facing command.
    let face_cmd = ClientToServer::AttemptPlayerFacingChange(Facing::North);
    assert_eq!(face_cmd.as_line(), "face North\r\n");

    // Authentication commands.
    let register_cmd = ClientToServer::Register("player1".to_string(), "pass123".to_string());
    assert_eq!(register_cmd.as_line(), "register player1 pass123\r\n");

    let login_cmd = ClientToServer::Login("player1".to_string(), "pass123".to_string());
    assert_eq!(login_cmd.as_line(), "login player1 pass123\r\n");

    // Chat command.
    let chat_cmd = ClientToServer::ChatMessage("Hello everyone!".to_string());
    assert_eq!(chat_cmd.as_line(), "chat Hello everyone!\r\n");

    // Username command.
    let username_cmd = ClientToServer::SetUsername("newname".to_string());
    assert_eq!(username_cmd.as_line(), "username newname\r\n");

    // Position command.
    let pos_cmd = ClientToServer::SetPosition(50, 75);
    assert_eq!(pos_cmd.as_line(), "pos 50 75\r\n");
}

#[test]
fn test_command_passthrough_formatting() {
    let cmd = ClientToServer::Command(vec!["goto ".to_string(), "hub@x1y2\r\n".to_string()]);
    assert_eq!(cmd.as_line(), "goto hub@x1y2\r\n");
}

#[test]
fn test_facing_round_trip_all() {
    for f in [Facing::North, Facing::East, Facing::South, Facing::West] {
        assert_eq!(Facing::from_str(&f.to_string()).unwrap(), f);
    }
}

/// The server-side inverse of the line encoding, modeled as a matching
/// parser: splits off the command word and reads the fields back.
fn decode_line(line: &str) -> Option<(String, Vec<String>)> {
    let body = line.strip_suffix("\r\n")?;
    let (cmd, rest) = body.split_at(body.find(' ')?);
    let rest = &rest[1..];
    let fields: Vec<String> = match cmd {
        "pos" | "register" | "login" => rest.split(' ').map(str::to_string).collect(),
        "face" | "chat" | "username" => vec![rest.to_string()],
        _ => return None,
    };
    Some((cmd.to_string(), fields))
}

#[test]
fn test_client_line_round_trip() {
    let cases: Vec<(ClientToServer, &str, Vec<&str>)> = vec![
        (
            ClientToServer::AttemptPlayerMove(Position::new(-3, 44)),
            "pos",
            vec!["-3", "44"],
        ),
        (ClientToServer::SetPosition(0, -2147483648), "pos", vec!["0", "-2147483648"]),
        (ClientToServer::AttemptPlayerFacingChange(Facing::West), "face", vec!["West"]),
        (
            ClientToServer::Register("ann".to_string(), "pw1".to_string()),
            "register",
            vec!["ann", "pw1"],
        ),
        (
            ClientToServer::Login("bob".to_string(), "hunter".to_string()),
            "login",
            vec!["bob", "hunter"],
        ),
        (
            ClientToServer::ChatMessage("hi there all".to_string()),
            "chat",
            vec!["hi there all"],
        ),
        (ClientToServer::SetUsername("carol".to_string()), "username", vec!["carol"]),
    ];
    for (msg, cmd, fields) in cases {
        let (got_cmd, got_fields) = decode_line(&msg.as_line()).expect("line should decode");
        assert_eq!(got_cmd, cmd);
        assert_eq!(got_fields, fields);
    }
}
