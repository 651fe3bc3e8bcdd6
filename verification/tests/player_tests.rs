use wimble::input::MovementState;
use wimble::map::WorldMap;
use wimble::player::CharacterType;
use wimble::player::Player;
use wimble::player::Players;
use wimble::protocol::Facing;
use wimble::protocol::Position;

const GRID: i32 = 16;

fn still() -> MovementState {
    MovementState { is_moving: false, direction: Facing::South, dx: 0, dy: 0 }
}

fn running_in_place() -> MovementState {
    MovementState { is_moving: true, direction: Facing::East, dx: 0, dy: 0 }
}

#[test]
fn test_character_folder_names() {
    assert_eq!(CharacterType::Knight.folder_name(), "Knight");
    assert_eq!(CharacterType::Archer.folder_name(), "Archer");
    assert_eq!(CharacterType::Elf.folder_name(), "Elf");
    assert_eq!(CharacterType::Lizard.folder_name(), "Lizard");
    // Note the spelling in the asset folder structure.
    assert_eq!(CharacterType::Wizard.folder_name(), "Wizzard");
}

#[test]
fn test_character_cycle() {
    let mut c = CharacterType::Knight;
    for expected in [
        CharacterType::Archer,
        CharacterType::Elf,
        CharacterType::Lizard,
        CharacterType::Wizard,
        CharacterType::Knight,
    ] {
        c = c.next();
        assert_eq!(c, expected);
    }
}

#[test]
fn test_no_duplicate_players() {
    // Repeated adds under the same name never produce duplicates: the
    // number of distinct registry names equals the number of distinct
    // names passed, and the last writer wins.
    let mut players = Players::new("me".to_string(), Position::new(24, 24));
    players.add_or_update_player("a".to_string(), Position::new(1, 1), Facing::North);
    players.add_or_update_player("b".to_string(), Position::new(2, 2), Facing::East);
    players.add_or_update_player("a".to_string(), Position::new(9, 9), Facing::South);
    players.add_or_update_player("b".to_string(), Position::new(3, 3), Facing::West);
    assert_eq!(players.other_players.len(), 2);
    assert_eq!(players.other_players[0].name, "a");
    assert_eq!(players.other_players[0].pos.x, 9);
    assert_eq!(players.other_players[0].pos.y, 9);
    assert_eq!(players.other_players[0].direction, Facing::South);
    assert!(players.other_players[0].is_moving);
    assert_eq!(players.other_players[1].name, "b");
    assert_eq!(players.other_players[1].pos.x, 3);
}

#[test]
fn test_remove_player() {
    let mut players = Players::new("me".to_string(), Position::new(24, 24));
    players.add_or_update_player("a".to_string(), Position::new(1, 1), Facing::North);
    players.add_or_update_player("b".to_string(), Position::new(2, 2), Facing::East);
    players.remove_player("a");
    assert_eq!(players.other_players.len(), 1);
    assert_eq!(players.other_players[0].name, "b");
    // Removing an absent name is a no-op.
    players.remove_player("zz");
    assert_eq!(players.other_players.len(), 1);
}

#[test]
fn test_update_player_position_resets_animation() {
    let mut players = Players::new("me".to_string(), Position::new(24, 24));
    players.add_or_update_player("a".to_string(), Position::new(1, 1), Facing::North);
    players.other_players[0].frame_timer = 120;
    players.update_player_position("a", Position::new(5, 6), Facing::West);
    assert_eq!(players.other_players[0].pos.x, 5);
    assert_eq!(players.other_players[0].frame_timer, 0);
    assert!(players.other_players[0].is_moving);
    // An unknown name self-heals into an add.
    players.update_player_position("ghost", Position::new(7, 8), Facing::East);
    assert_eq!(players.other_players.len(), 2);
    assert_eq!(players.other_players[1].name, "ghost");
    assert!(!players.other_players[1].is_moving);
}

#[test]
fn test_chat_message_countdown() {
    let map = WorldMap::create_fallback_map();
    let mut player = Player::new("me".to_string(), Position::new(24, 24));
    player.set_chat_message("hello".to_string());
    assert_eq!(player.chat_message.as_deref(), Some("hello"));
    assert_eq!(player.chat_timer, 5000);
    player.update(&still(), &map, GRID, 1000);
    assert_eq!(player.chat_timer, 4000);
    assert!(player.chat_message.is_some());
    player.update(&still(), &map, GRID, 4000);
    assert_eq!(player.chat_timer, 0);
    assert!(player.chat_message.is_none());
}

#[test]
fn test_set_player_chat_message_targets() {
    let mut players = Players::new("me".to_string(), Position::new(24, 24));
    players.add_or_update_player("a".to_string(), Position::new(1, 1), Facing::North);
    players.set_player_chat_message("me", "mine".to_string());
    assert_eq!(players.self_player.chat_message.as_deref(), Some("mine"));
    players.set_player_chat_message("a", "theirs".to_string());
    assert_eq!(players.other_players[0].chat_message.as_deref(), Some("theirs"));
    // An unknown name changes nothing.
    players.set_player_chat_message("nobody", "lost".to_string());
    assert_eq!(players.self_player.chat_message.as_deref(), Some("mine"));
}

#[test]
fn test_run_animation_advances() {
    let map = WorldMap::create_fallback_map();
    let mut player = Player::new("me".to_string(), Position::new(24, 24));
    player.update(&running_in_place(), &map, GRID, 199);
    assert_eq!(player.current_frame, 0);
    assert_eq!(player.frame_timer, 199);
    player.update(&running_in_place(), &map, GRID, 1);
    assert_eq!(player.current_frame, 1);
    assert_eq!(player.frame_timer, 0);
    assert_eq!(player.direction, Facing::East);
}

#[test]
fn test_idle_animation_starts_after_delay() {
    let map = WorldMap::create_fallback_map();
    let mut player = Player::new("me".to_string(), Position::new(24, 24));
    player.update(&still(), &map, GRID, 2999);
    assert!(!player.is_in_idle_animation);
    player.update(&still(), &map, GRID, 1);
    assert!(player.is_in_idle_animation);
    assert_eq!(player.current_frame, 0);
    // The idle loop advances on its own cadence.
    player.update(&still(), &map, GRID, 500);
    assert_eq!(player.current_frame, 1);
    // Movement resets the idle state cleanly.
    player.update(&running_in_place(), &map, GRID, 1);
    assert!(!player.is_in_idle_animation);
    assert_eq!(player.idle_timer, 0);
}

#[test]
fn test_switch_character() {
    let mut players = Players::new("me".to_string(), Position::new(24, 24));
    assert_eq!(players.self_player.character_type, CharacterType::Knight);
    players.switch_character();
    assert_eq!(players.self_player.character_type, CharacterType::Archer);
}

#[test]
fn test_players_update_moves_only_local() {
    let map = WorldMap::create_fallback_map();
    let mut players = Players::new("me".to_string(), Position::new(24, 24));
    players.add_or_update_player("a".to_string(), Position::new(40, 40), Facing::North);
    let movement = MovementState { is_moving: true, direction: Facing::East, dx: 1, dy: 0 };
    players.update(&movement, &map, GRID, 16);
    assert_eq!(players.self_player.pos.x, 25);
    // Remote players never take local input; their position stays.
    assert_eq!(players.other_players[0].pos.x, 40);
    assert_eq!(players.other_players[0].pos.y, 40);
}
