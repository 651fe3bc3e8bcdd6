use wimble::input::MovementState;
use wimble::map::Room;
use wimble::map::TileType;
use wimble::map::WorldMap;
use wimble::map::reentry_position;
use wimble::player::Player;
use wimble::protocol::Facing;
use wimble::protocol::Position;

const GRID: i32 = 16;

fn boxed_room_layout() -> Vec<Vec<u8>> {
    let mut layout = Vec::new();
    for y in 0..12 {
        let mut row = Vec::new();
        for x in 0..12 {
            let code = if y == 0 || y == 11 || x == 0 || x == 11 { 1 } else { 0 };
            row.push(code);
        }
        layout.push(row);
    }
    layout
}

/// Two boxed rooms with paired doors: room 0 has a door at (7, 10) to room
/// 1, room 1 has a door at (7, 1) back to room 0.
fn two_room_map() -> WorldMap {
    let mut room_a = boxed_room_layout();
    room_a[10][7] = 7;
    let mut room_b = boxed_room_layout();
    room_b[1][7] = 7;
    WorldMap::from_layouts(vec![room_a, room_b], vec![(7, 10, 1), (7, 1, 0)])
}

#[test]
fn test_room_tile_codes() {
    let room = Room::new(vec![vec![0, 1, 2, 7], vec![3, 4, 5, 6], vec![8, 9, 0, 1]]);
    assert_eq!(room.width(), 4);
    assert_eq!(room.height(), 3);
    assert_eq!(room.tile(0, 0), TileType::Empty);
    assert_eq!(room.tile(1, 0), TileType::Wall);
    assert_eq!(room.tile(2, 0), TileType::Wall2);
    assert_eq!(room.tile(3, 0), TileType::Door);
    assert_eq!(room.tile(0, 1), TileType::Wall3);
    assert_eq!(room.tile(1, 1), TileType::Wall4);
    assert_eq!(room.tile(2, 1), TileType::Wall5);
    assert_eq!(room.tile(3, 1), TileType::Wall6);
    // Unrecognized codes default to a generic wall.
    assert_eq!(room.tile(0, 2), TileType::Wall);
    assert_eq!(room.tile(1, 2), TileType::Wall);
}

#[test]
fn test_fallback_map_walkability() {
    let map = WorldMap::create_fallback_map();
    assert_eq!(map.current_room, 0);
    // Interior is walkable, the border is not.
    assert!(map.is_valid_position(5 * GRID, 5 * GRID, GRID));
    assert!(!map.is_valid_position(8, 8, GRID));
    // Out of bounds is invalid.
    assert!(!map.is_valid_position(-50, 80, GRID));
    assert!(!map.is_valid_position(80, 13 * GRID, GRID));
}

#[test]
fn test_valid_move_scenario() {
    // The room grid has Empty at (5, 5); moving the hitbox center there
    // leaves the position at the attempted value: the move is accepted.
    let map = WorldMap::create_fallback_map();
    let mut player = Player::new("solo".to_string(), Position::new(5 * GRID - 1, 5 * GRID));
    let movement = MovementState { is_moving: true, direction: Facing::East, dx: 1, dy: 0 };
    player.update(&movement, &map, GRID, 16);
    assert_eq!(player.pos.x, 5 * GRID);
    assert_eq!(player.pos.y, 5 * GRID);
    assert!(player.is_moving);
}

#[test]
fn test_blocked_move_scenario() {
    // The room grid has Wall at (0, 0); attempting to move into it leaves
    // the player's position at its prior value: the move is rejected.
    let map = WorldMap::create_fallback_map();
    let mut player = Player::new("solo".to_string(), Position::new(24, 24));
    let movement = MovementState { is_moving: true, direction: Facing::North, dx: -16, dy: -16 };
    player.update(&movement, &map, GRID, 16);
    assert_eq!(player.pos.x, 24);
    assert_eq!(player.pos.y, 24);
}

#[test]
fn test_door_pairing_scenario() {
    // Room 0 has door (7,10) -> 1; room 1 has door (7,1) -> 0. Standing on
    // (7,10) in room 0 yields (1, 7, 1, facing); the facing, applied as an
    // offset, places the player off of (7,1).
    let mut map = two_room_map();
    let x = 7 * GRID + GRID / 2;
    let y = 10 * GRID + GRID / 2;
    let crossed = map.check_door_transition(x, y, GRID);
    assert_eq!(crossed, Some((7, 1, Facing::South)));
    assert_eq!(map.current_room, 1);
    let entry = reentry_position(7, 1, Facing::South, GRID);
    assert_eq!(entry.x, 7 * GRID + GRID / 2);
    assert_eq!(entry.y, 2 * GRID + GRID / 2);
    assert_ne!((entry.x / GRID, entry.y / GRID), (7, 1));
}

#[test]
fn test_door_reentry_is_idempotent() {
    // Transitioning through a door and immediately re-checking at the
    // offset re-entry point yields no further transition.
    let mut map = two_room_map();
    let crossed = map.check_door_transition(7 * GRID + 8, 10 * GRID + 8, GRID);
    let (ex, ey, facing) = crossed.expect("door transition expected");
    let entry = reentry_position(ex, ey, facing, GRID);
    let again = map.check_door_transition(entry.x, entry.y, GRID);
    assert_eq!(again, None);
    assert_eq!(map.current_room, 1);
}

#[test]
fn test_unpaired_door_changes_room_only() {
    // A door whose destination has no door back: the room index changes
    // but no re-entry point is returned.
    let mut room_a = boxed_room_layout();
    room_a[10][7] = 7;
    let room_b = boxed_room_layout();
    let mut map = WorldMap::from_layouts(vec![room_a, room_b], vec![(7, 10, 1)]);
    let crossed = map.check_door_transition(7 * GRID + 8, 10 * GRID + 8, GRID);
    assert_eq!(crossed, None);
    assert_eq!(map.current_room, 1);
}

#[test]
fn test_no_door_no_transition() {
    let mut map = two_room_map();
    let crossed = map.check_door_transition(5 * GRID + 8, 5 * GRID + 8, GRID);
    assert_eq!(crossed, None);
    assert_eq!(map.current_room, 0);
}
