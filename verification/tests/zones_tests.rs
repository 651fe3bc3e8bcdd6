use wimble::zones::ZoneLink;

#[test]
fn test_valid_zone_link() {
    let link = ZoneLink::from_str("hub@x20y30").expect("Invalid zone link format");
    assert_eq!(link.zones, vec!["hub"]);
    assert_eq!(link.pos.x, 20);
    assert_eq!(link.pos.y, 30);
}

#[test]
fn test_zone_link_with_multiple_zones() {
    let link = ZoneLink::from_str("hub/room1@x20y30").expect("Invalid zone link format");
    assert_eq!(link.zones, vec!["hub", "room1"]);
    assert_eq!(link.pos.x, 20);
    assert_eq!(link.pos.y, 30);
}

#[test]
fn test_zone_link_with_negative_coordinates() {
    let link = ZoneLink::from_str("dungeon/level1@x-10y-5").expect("Invalid zone link format");
    assert_eq!(link.zones, vec!["dungeon", "level1"]);
    assert_eq!(link.pos.x, -10);
    assert_eq!(link.pos.y, -5);
}

#[test]
fn test_zone_link_with_large_coordinates() {
    let link = ZoneLink::from_str("world/area1/room2@x1000y2000").expect("Invalid zone link format");
    assert_eq!(link.zones, vec!["world", "area1", "room2"]);
    assert_eq!(link.pos.x, 1000);
    assert_eq!(link.pos.y, 2000);
}

#[test]
#[should_panic(expected = "Invalid zone link format: ServerLineUnparsable")]
fn test_invalid_format_no_at() {
    ZoneLink::from_str("invalid").expect("Invalid zone link format");
}

#[test]
#[should_panic(expected = "Invalid zone link format: ServerLineUnparsable")]
fn test_invalid_position_format() {
    ZoneLink::from_str("zone@invalid").expect("Invalid zone link format");
}

#[test]
#[should_panic(expected = "Invalid zone link format: ServerLineUnparsable")]
fn test_invalid_x_coordinate() {
    ZoneLink::from_str("zone@abc20y30").expect("Invalid zone link format");
}

#[test]
#[should_panic(expected = "Invalid zone link format: ServerLineUnparsable")]
fn test_invalid_y_coordinate() {
    ZoneLink::from_str("zone@x20yabc").expect("Invalid zone link format");
}

#[test]
fn test_zone_link_renders_back() {
    let link = ZoneLink::from_str("hub/room1@x20y-30").expect("Invalid zone link format");
    assert_eq!(link.to_string(), "hub/room1@x20y-30");
}
