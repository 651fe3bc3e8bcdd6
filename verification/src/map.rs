//! The room graph: rooms are rectangular tile grids, linked by doors that
//! carry a destination room index. The map validates candidate positions
//! against wall tiles and computes room transitions with a safe re-entry
//! offset.
use vstd::prelude::*;

verus! {

use crate::input::PLAYER_SIZE;
use crate::protocol::Facing;
use crate::protocol::Position;

/// Kinds of tile in a room grid. The numbered walls are appearance variants
/// (sides, bottom, corners); they all block movement alike.
#[derive(Debug, Clone, Copy, PartialEq, Eq, Structural)]
pub enum TileType {
    Empty,
    Wall,
    Wall2,
    Wall3,
    Wall4,
    Wall5,
    Wall6,
    /// Skull decoration on the floor; walkable.
    Skull,
    /// Door to transition between rooms; walkable.
    Door,
}

/// Whether a player may stand on a tile: floor, decorations and doors are
/// walkable, every wall variant blocks.
pub open spec fn walkable(t: TileType) -> bool {
    t == TileType::Empty || t == TileType::Skull || t == TileType::Door
}

/// The tile a layout cell code denotes; unrecognized codes default to a
/// generic wall.
pub open spec fn tile_of_code(c: u8) -> TileType {
    if c == 0 {
        TileType::Empty
    } else if c == 1 {
        TileType::Wall
    } else if c == 2 {
        TileType::Wall2
    } else if c == 3 {
        TileType::Wall3
    } else if c == 4 {
        TileType::Wall4
    } else if c == 5 {
        TileType::Wall5
    } else if c == 6 {
        TileType::Wall6
    } else if c == 7 {
        TileType::Door
    } else {
        TileType::Wall
    }
}

/// A room: a rectangular grid of tiles, plus decoration positions kept
/// separately so they can be drawn on top of floor tiles.
pub struct Room {
    grid: Vec<Vec<TileType>>,
    width: usize,
    height: usize,
    decorations: Vec<(usize, usize, TileType)>,
}

impl Room {
    /// The grid is exactly `height` rows of exactly `width` tiles.
    pub closed spec fn wf(&self) -> bool {
        &&& self.grid@.len() == self.height
        &&& forall|y: int| 0 <= y < self.grid@.len() ==> (#[trigger] self.grid@[y])@.len()
            == self.width
    }

    /// The tile at grid cell `(gx, gy)`.
    pub closed spec fn spec_tile(&self, gx: int, gy: int) -> TileType {
        self.grid@[gy]@[gx]
    }

    pub closed spec fn spec_width(&self) -> int {
        self.width as int
    }

    pub closed spec fn spec_height(&self) -> int {
        self.height as int
    }

    /// The decoration list: positions and tiles drawn on top of the floor.
    pub closed spec fn spec_decorations(&self) -> Seq<(usize, usize, TileType)> {
        self.decorations@
    }

    /// Builds a room from a rectangular cell-code layout; each code maps to
    /// a tile per `tile_of_code`. A skull decoration is placed at (5, 5).
    pub fn new(layout: Vec<Vec<u8>>) -> (r: Self)
        requires
            forall|y: int| 0 <= y < layout@.len() ==> (#[trigger] layout@[y])@.len()
                == layout@[0]@.len(),
        ensures
            r.wf(),
            r.spec_height() == layout@.len(),
            r.spec_width() == if layout@.len() > 0 {
                layout@[0]@.len() as int
            } else {
                0
            },
            forall|y: int, x: int|
                0 <= y < layout@.len() && 0 <= x < layout@[y]@.len() ==> r.spec_tile(x, y)
                    == tile_of_code(#[trigger] layout@[y]@[x]),
            r.spec_decorations() == seq![(5usize, 5usize, TileType::Skull)],
    {
        let height = layout.len();
        let width = if height > 0 {
            layout[0].len()
        } else {
            0
        };
        let mut grid: Vec<Vec<TileType>> = Vec::new();
        let mut y: usize = 0;
        while y < height
            invariant
                0 <= y <= height,
                height == layout@.len(),
                width == if height > 0 {
                    layout@[0]@.len()
                } else {
                    0
                },
                forall|yy: int| 0 <= yy < layout@.len() ==> (#[trigger] layout@[yy])@.len()
                    == width,
                grid@.len() == y,
                forall|yy: int| 0 <= yy < y ==> (#[trigger] grid@[yy])@.len() == width,
                forall|yy: int, x: int|
                    0 <= yy < y && 0 <= x < width ==> grid@[yy]@[x] == tile_of_code(
                        #[trigger] layout@[yy]@[x],
                    ),
            decreases height - y,
        {
            let mut row: Vec<TileType> = Vec::new();
            let mut x: usize = 0;
            while x < width
                invariant
                    0 <= x <= width,
                    0 <= y < height,
                    height == layout@.len(),
                    layout@[y as int]@.len() == width,
                    row@.len() == x,
                    forall|xx: int|
                        0 <= xx < x ==> row@[xx] == tile_of_code(
                            #[trigger] layout@[y as int]@[xx],
                        ),
                decreases width - x,
            {
                let code = layout[y][x];
                let tile = if code == 0 {
                    TileType::Empty
                } else if code == 1 {
                    TileType::Wall
                } else if code == 2 {
                    TileType::Wall2
                } else if code == 3 {
                    TileType::Wall3
                } else if code == 4 {
                    TileType::Wall4
                } else if code == 5 {
                    TileType::Wall5
                } else if code == 6 {
                    TileType::Wall6
                } else if code == 7 {
                    TileType::Door
                } else {
                    TileType::Wall
                };
                row.push(tile);
                x += 1;
            }
            grid.push(row);
            y += 1;
        }
        let mut decorations: Vec<(usize, usize, TileType)> = Vec::new();
        decorations.push((5, 5, TileType::Skull));
        proof {
            assert(decorations@ =~= seq![(5usize, 5usize, TileType::Skull)]);
        }
        Self { grid, width, height, decorations }
    }

    /// The room's width in tiles.
    pub fn width(&self) -> (r: usize)
        ensures
            r == self.spec_width(),
    {
        self.width
    }

    /// The room's height in tiles.
    pub fn height(&self) -> (r: usize)
        ensures
            r == self.spec_height(),
    {
        self.height
    }

    /// The tile at grid cell `(gx, gy)`.
    pub fn tile(&self, gx: usize, gy: usize) -> (r: TileType)
        requires
            self.wf(),
            gx < self.spec_width(),
            gy < self.spec_height(),
        ensures
            r == self.spec_tile(gx as int, gy as int),
    {
        self.grid[gy][gx]
    }
}

/// Whether a room was built from the given layout.
pub open spec fn room_matches_layout(room: Room, layout: Seq<Seq<u8>>) -> bool {
    &&& room.wf()
    &&& room.spec_height() == layout.len()
    &&& room.spec_width() == if layout.len() > 0 {
        layout[0].len() as int
    } else {
        0
    }
    &&& forall|y: int, x: int|
        0 <= y < layout.len() && 0 <= x < layout[y].len() ==> room.spec_tile(x, y) == tile_of_code(
            #[trigger] layout[y][x],
        )
}

/// The map: an ordered list of rooms, the index of the room the player is
/// in, and the flat door list `(x, y, destination room)` shared by all
/// rooms.
pub struct WorldMap {
    rooms: Vec<Room>,
    pub current_room: usize,
    doors: Vec<(usize, usize, usize)>,
}

impl WorldMap {
    /// There is at least one room, `current_room` indexes a valid room,
    /// every room grid is rectangular, and every door leads to a valid room.
    pub closed spec fn wf(&self) -> bool {
        &&& self.rooms@.len() > 0
        &&& self.current_room < self.rooms@.len()
        &&& forall|i: int| 0 <= i < self.rooms@.len() ==> (#[trigger] self.rooms@[i]).wf()
        &&& forall|i: int| 0 <= i < self.doors@.len() ==> (#[trigger] self.doors@[i]).2
            < self.rooms@.len()
    }

    /// The room index the player is currently in.
    pub closed spec fn spec_current_room(&self) -> int {
        self.current_room as int
    }

    pub closed spec fn spec_rooms(&self) -> Seq<Room> {
        self.rooms@
    }

    pub closed spec fn spec_doors(&self) -> Seq<(usize, usize, usize)> {
        self.doors@
    }

    /// Builds a map from room layouts and door connections; play starts in
    /// the first room.
    pub fn from_layouts(room_layouts: Vec<Vec<Vec<u8>>>, doors: Vec<(usize, usize, usize)>) -> (r:
        WorldMap)
        requires
            room_layouts@.len() > 0,
            forall|i: int, y: int|
                0 <= i < room_layouts@.len() && 0 <= y < room_layouts@[i]@.len()
                    ==> (#[trigger] room_layouts@[i]@[y])@.len() == room_layouts@[i]@[0]@.len(),
            forall|i: int| 0 <= i < doors@.len() ==> (#[trigger] doors@[i]).2
                < room_layouts@.len(),
        ensures
            r.wf(),
            r.spec_current_room() == 0,
            r.spec_doors() == doors@,
            r.spec_rooms().len() == room_layouts@.len(),
            forall|i: int|
                0 <= i < room_layouts@.len() ==> room_matches_layout(
                    #[trigger] r.spec_rooms()[i],
                    room_layouts@[i].deep_view(),
                ),
    {
        let ghost orig = room_layouts@;
        let mut layouts = room_layouts;
        let mut rooms: Vec<Room> = Vec::new();
        while layouts.len() > 0
            invariant
                rooms@.len() + layouts@.len() == orig.len(),
                layouts@ =~= orig.subrange(rooms@.len() as int, orig.len() as int),
                forall|i: int, y: int|
                    0 <= i < orig.len() && 0 <= y < orig[i]@.len() ==> (
                    #[trigger] orig[i]@[y])@.len() == orig[i]@[0]@.len(),
                forall|i: int|
                    0 <= i < rooms@.len() ==> room_matches_layout(
                        #[trigger] rooms@[i],
                        orig[i].deep_view(),
                    ),
            decreases layouts@.len(),
        {
            let ghost k = rooms@.len() as int;
            proof {
                assert(layouts@[0] == orig[k]);
            }
            let layout = layouts.remove(0);
            let room = Room::new(layout);
            rooms.push(room);
            proof {
                assert(layouts@ =~= orig.subrange(k + 1, orig.len() as int));
            }
        }
        proof {
            assert(rooms@.len() == orig.len());
        }
        WorldMap { rooms, current_room: 0, doors }
    }

    /// A simple fallback map used when no map document can be loaded: one
    /// walled room with an empty interior.
    pub fn create_fallback_map() -> (r: WorldMap)
        ensures
            r.wf(),
            r.spec_current_room() == 0,
            r.spec_doors().len() == 0,
            r.spec_rooms().len() == 1,
            r.spec_rooms()[0].spec_width() == 12,
            r.spec_rooms()[0].spec_height() == 12,
            forall|x: int, y: int|
                1 <= x < 11 && 1 <= y < 11 ==> walkable(#[trigger] r.spec_rooms()[0].spec_tile(x, y)),
            forall|x: int, y: int|
                0 <= x < 12 && 0 <= y < 12 && (x == 0 || x == 11 || y == 0 || y == 11) ==> !walkable(
                    #[trigger] r.spec_rooms()[0].spec_tile(x, y),
                ),
    {
        let room_layout: Vec<Vec<u8>> = vec![
            vec![2, 5, 1, 1, 1, 1, 1, 1, 1, 1, 6, 3],
            vec![2, 0, 0, 0, 0, 0, 0, 0, 0, 0, 0, 3],
            vec![2, 0, 0, 0, 0, 0, 0, 0, 0, 0, 0, 3],
            vec![2, 0, 0, 0, 0, 0, 0, 0, 0, 0, 0, 3],
            vec![2, 0, 0, 0, 0, 0, 0, 0, 0, 0, 0, 3],
            vec![2, 0, 0, 0, 0, 0, 0, 0, 0, 0, 0, 3],
            vec![2, 0, 0, 0, 0, 0, 0, 0, 0, 0, 0, 3],
            vec![2, 0, 0, 0, 0, 0, 0, 0, 0, 0, 0, 3],
            vec![2, 0, 0, 0, 0, 0, 0, 0, 0, 0, 0, 3],
            vec![2, 0, 0, 0, 0, 0, 0, 0, 0, 0, 0, 3],
            vec![2, 0, 0, 0, 0, 0, 0, 0, 0, 0, 0, 3],
            vec![2, 1, 1, 1, 1, 1, 1, 1, 1, 1, 1, 3],
        ];
        let ghost lay = room_layout@;
        let layouts: Vec<Vec<Vec<u8>>> = vec![room_layout];
        let doors: Vec<(usize, usize, usize)> = Vec::new();
        let m = Self::from_layouts(layouts, doors);
        proof {
            let dv = layouts@[0].deep_view();
            assert(layouts@[0]@ == lay);
            assert(dv.len() == 12);
            assert(forall|y: int| 0 <= y < 12 ==> #[trigger] dv[y] == lay[y]@);
            assert(forall|y: int| 0 <= y < 12 ==> (#[trigger] lay[y])@.len() == 12);
            let room = m.spec_rooms()[0];
            assert(room_matches_layout(room, dv));
            assert forall|x: int, y: int| 1 <= x < 11 && 1 <= y < 11 implies walkable(
                #[trigger] room.spec_tile(x, y),
            ) by {
                assert(room.spec_tile(x, y) == tile_of_code(dv[y][x]));
                assert(dv[y][x] == lay[y]@[x]);
                assert(lay[y]@[x] == 0u8);
            }
            assert forall|x: int, y: int|
                0 <= x < 12 && 0 <= y < 12 && (x == 0 || x == 11 || y == 0 || y == 11) implies !walkable(
                #[trigger] room.spec_tile(x, y),
            ) by {
                assert(room.spec_tile(x, y) == tile_of_code(dv[y][x]));
                assert(dv[y][x] == lay[y]@[x]);
                let c = lay[y]@[x];
                assert(c == 1u8 || c == 2u8 || c == 3u8 || c == 5u8 || c == 6u8);
            }
        }
        m
    }
}

/// The half-size of the player's collision hitbox, slightly smaller than
/// half the sprite box so tile boundaries do not give false wall contact.
pub open spec fn player_half_size() -> int {
    PLAYER_SIZE as int * 2 / 5
}

/// The grid cell that pixel coordinate `v` falls in, or -1 when `v` is
/// negative and falls in no cell.
pub open spec fn cell_index(v: int, gs: int) -> int {
    if v < 0 {
        -1
    } else {
        v / gs
    }
}

/// Whether a hitbox corner at pixel `(cx, cy)` lands inside the room on a
/// walkable tile.
pub open spec fn corner_ok(room: Room, cx: int, cy: int, gs: int) -> bool {
    &&& 0 <= cx
    &&& 0 <= cy
    &&& cx / gs < room.spec_width()
    &&& cy / gs < room.spec_height()
    &&& walkable(room.spec_tile(cx / gs, cy / gs))
}

/// Whether all four corners of the player's hitbox centered at `(x, y)`
/// land on walkable tiles of the current room.
pub open spec fn spec_valid_position(m: WorldMap, x: int, y: int, gs: int) -> bool {
    let room = m.spec_rooms()[m.spec_current_room()];
    let h = player_half_size();
    &&& corner_ok(room, x - h, y - h, gs)
    &&& corner_ok(room, x + h, y - h, gs)
    &&& corner_ok(room, x - h, y + h, gs)
    &&& corner_ok(room, x + h, y + h, gs)
}

/// Whether a door triggers at cell `(cx, cy)` when the player is in room
/// `cur`: it sits on that cell and leads somewhere else.
pub open spec fn door_match(d: (usize, usize, usize), cx: int, cy: int, cur: int) -> bool {
    d.0 as int == cx && d.1 as int == cy && d.2 as int != cur
}

/// The index of the first door that triggers at `(cx, cy)` from room `cur`,
/// or the list length when none does.
pub open spec fn first_door_at(doors: Seq<(usize, usize, usize)>, cx: int, cy: int, cur: int) -> int
    decreases doors.len(),
{
    if doors.len() == 0 {
        0
    } else if door_match(doors[0], cx, cy, cur) {
        0
    } else {
        1 + first_door_at(doors.drop_first(), cx, cy, cur)
    }
}

/// A scan that saw no triggering door before `i`, and one at `i` or ran
/// out, pins down `first_door_at`.
proof fn lemma_first_door_at_pin(
    doors: Seq<(usize, usize, usize)>,
    cx: int,
    cy: int,
    cur: int,
    i: int,
)
    requires
        0 <= i <= doors.len(),
        forall|j: int| 0 <= j < i ==> !door_match(#[trigger] doors[j], cx, cy, cur),
        i == doors.len() || door_match(doors[i], cx, cy, cur),
    ensures
        first_door_at(doors, cx, cy, cur) == i,
    decreases doors.len(),
{
    if doors.len() == 0 {
    } else if door_match(doors[0], cx, cy, cur) {
        assert(i == 0);
    } else {
        assert(i >= 1);
        lemma_first_door_at_pin(doors.drop_first(), cx, cy, cur, i - 1);
    }
}

/// The index of the first door whose destination is `dest`, or the list
/// length when none is.
pub open spec fn first_door_to(doors: Seq<(usize, usize, usize)>, dest: int) -> int
    decreases doors.len(),
{
    if doors.len() == 0 {
        0
    } else if doors[0].2 as int == dest {
        0
    } else {
        1 + first_door_to(doors.drop_first(), dest)
    }
}

/// `first_door_to` returns an index in range, and a door to `dest` when
/// one exists.
pub proof fn lemma_first_door_to_props(doors: Seq<(usize, usize, usize)>, dest: int)
    ensures
        0 <= first_door_to(doors, dest) <= doors.len(),
        first_door_to(doors, dest) < doors.len() ==> doors[first_door_to(doors, dest)].2 as int
            == dest,
    decreases doors.len(),
{
    if doors.len() > 0 && doors[0].2 as int != dest {
        lemma_first_door_to_props(doors.drop_first(), dest);
    }
}

/// A scan that saw no door to `dest` before `i`, and one at `i` or ran out,
/// pins down `first_door_to`.
proof fn lemma_first_door_to_pin(doors: Seq<(usize, usize, usize)>, dest: int, i: int)
    requires
        0 <= i <= doors.len(),
        forall|j: int| 0 <= j < i ==> (#[trigger] doors[j]).2 as int != dest,
        i == doors.len() || doors[i].2 as int == dest,
    ensures
        first_door_to(doors, dest) == i,
    decreases doors.len(),
{
    if doors.len() == 0 {
    } else if doors[0].2 as int == dest {
        assert(i == 0);
    } else {
        assert(i >= 1);
        lemma_first_door_to_pin(doors.drop_first(), dest, i - 1);
    }
}

/// The facing handed back with a re-entry point, derived from the paired
/// door's position against its room's boundary: it points away from the
/// wall the door sits on, into the room, and defaults to south when the
/// door's position is ambiguous.
pub open spec fn entry_facing(ex: int, ey: int, room: Room) -> Facing {
    if ey == 1 {
        Facing::South
    } else if room.spec_height() >= 2 && ey == room.spec_height() - 2 {
        Facing::North
    } else if ex == 1 {
        Facing::East
    } else if room.spec_width() >= 2 && ex == room.spec_width() - 2 {
        Facing::West
    } else {
        Facing::South
    }
}

/// The room index the player is in after querying a door at `(x, y)`: the
/// first triggering door's destination, or the unchanged current room.
pub open spec fn spec_door_room(m: WorldMap, x: int, y: int, gs: int) -> int {
    let doors = m.spec_doors();
    let di = first_door_at(doors, cell_index(x, gs), cell_index(y, gs), m.spec_current_room());
    if di < doors.len() {
        doors[di].2 as int
    } else {
        m.spec_current_room()
    }
}

/// The re-entry point a door query yields: when a door triggers and a
/// paired door leads back to the room just left, that paired door's cell
/// and a facing pointing off it; otherwise nothing.
pub open spec fn spec_door_result(m: WorldMap, x: int, y: int, gs: int) -> Option<
    (usize, usize, Facing),
> {
    let doors = m.spec_doors();
    let di = first_door_at(doors, cell_index(x, gs), cell_index(y, gs), m.spec_current_room());
    if di < doors.len() {
        let pi = first_door_to(doors, m.spec_current_room());
        if pi < doors.len() {
            Some(
                (
                    doors[pi].0,
                    doors[pi].1,
                    entry_facing(
                        doors[pi].0 as int,
                        doors[pi].1 as int,
                        m.spec_rooms()[doors[di].2 as int],
                    ),
                ),
            )
        } else {
            None
        }
    } else {
        None
    }
}

/// What `check_door_transition` does to the map and returns, as one spec:
/// if a door triggers at the queried cell, the current room switches to its
/// destination, and the first door leading back to the room just left is
/// the re-entry point; a triggering door without a paired door switches the
/// room but yields no re-entry point.
pub open spec fn spec_door_transition(
    m: WorldMap,
    m2: WorldMap,
    r: Option<(usize, usize, Facing)>,
    x: int,
    y: int,
    gs: int,
) -> bool {
    &&& m2.spec_current_room() == spec_door_room(m, x, y, gs)
    &&& m2.spec_rooms() == m.spec_rooms()
    &&& m2.spec_doors() == m.spec_doors()
    &&& r == spec_door_result(m, x, y, gs)
}

impl WorldMap {
    /// Checks a candidate position: samples the four corners of the
    /// player's hitbox against the current room's grid; a corner on any
    /// wall tile or out of bounds makes the position invalid.
    pub fn is_valid_position(&self, x: i32, y: i32, grid_size: i32) -> (r: bool)
        requires
            self.wf(),
            grid_size > 0,
        ensures
            r == spec_valid_position(*self, x as int, y as int, grid_size as int),
    {
        let room = &self.rooms[self.current_room];
        let half: i64 = PLAYER_SIZE as i64 * 2 / 5;
        let x64 = x as i64;
        let y64 = y as i64;
        let gs = grid_size as i64;
        let a = corner_check(room, x64 - half, y64 - half, gs);
        let b = corner_check(room, x64 + half, y64 - half, gs);
        let c = corner_check(room, x64 - half, y64 + half, gs);
        let d = corner_check(room, x64 + half, y64 + half, gs);
        a && b && c && d
    }

    /// If the queried point stands on a door to another room, switches
    /// `current_room` to that door's destination and returns the paired
    /// door (the first one leading back to the room just left) as the
    /// re-entry cell, with a facing that points away from it; a triggering
    /// door with no paired door switches the room and returns nothing.
    pub fn check_door_transition(&mut self, x: i32, y: i32, grid_size: i32) -> (r: Option<
        (usize, usize, Facing),
    >)
        requires
            old(self).wf(),
            grid_size > 0,
        ensures
            final(self).wf(),
            spec_door_transition(
                *old(self),
                *final(self),
                r,
                x as int,
                y as int,
                grid_size as int,
            ),
    {
        let gs = grid_size as i64;
        let ghost cx = cell_index(x as int, grid_size as int);
        let ghost cy = cell_index(y as int, grid_size as int);
        let n = self.doors.len();
        if x < 0 || y < 0 {
            proof {
                assert(forall|j: int|
                    0 <= j < n ==> !door_match(#[trigger] self.doors@[j], cx, cy, self.current_room as int));
                lemma_first_door_at_pin(self.doors@, cx, cy, self.current_room as int, n as int);
            }
            return None;
        }
        let cxu: u64 = x as u64 / gs as u64;
        let cyu: u64 = y as u64 / gs as u64;
        proof {
            assert(cxu as int == cx);
            assert(cyu as int == cy);
        }
        let mut i: usize = 0;
        while i < n
            invariant
                0 <= i <= n,
                n == self.doors@.len(),
                self == old(self),
                self.wf(),
                cx == cell_index(x as int, grid_size as int),
                cy == cell_index(y as int, grid_size as int),
                cx >= 0,
                cy >= 0,
                cxu as int == cx,
                cyu as int == cy,
                forall|j: int|
                    0 <= j < i ==> !door_match(
                        #[trigger] self.doors@[j],
                        cx,
                        cy,
                        self.current_room as int,
                    ),
            decreases n - i,
        {
            let (dx, dy, dest) = self.doors[i];
            if dx as u64 == cxu && dy as u64 == cyu && dest != self.current_room {
                proof {
                    assert(door_match(self.doors@[i as int], cx, cy, self.current_room as int));
                    lemma_first_door_at_pin(
                        self.doors@,
                        cx,
                        cy,
                        self.current_room as int,
                        i as int,
                    );
                }
                let prev_room = self.current_room;
                self.current_room = dest;
                let mut j: usize = 0;
                while j < n
                    invariant
                        0 <= j <= n,
                        n == self.doors@.len(),
                        self.doors == old(self).doors,
                        self.rooms == old(self).rooms,
                        self.wf(),
                        cx == cell_index(x as int, grid_size as int),
                        cy == cell_index(y as int, grid_size as int),
                        prev_room == old(self).current_room,
                        self.current_room == dest,
                        dest == self.doors@[i as int].2,
                        0 <= i < n,
                        door_match(self.doors@[i as int], cx, cy, prev_room as int),
                        first_door_at(self.doors@, cx, cy, prev_room as int) == i,
                        forall|j2: int| 0 <= j2 < j ==> (#[trigger] self.doors@[j2]).2 != prev_room,
                    decreases n - j,
                {
                    let (ox, oy, odest) = self.doors[j];
                    if odest == prev_room {
                        proof {
                            lemma_first_door_to_pin(self.doors@, prev_room as int, j as int);
                        }
                        let room = &self.rooms[self.current_room];
                        let rh = room.height;
                        let rw = room.width;
                        let direction = if oy == 1 {
                            Facing::South
                        } else if rh >= 2 && oy == rh - 2 {
                            Facing::North
                        } else if ox == 1 {
                            Facing::East
                        } else if rw >= 2 && ox == rw - 2 {
                            Facing::West
                        } else {
                            Facing::South
                        };
                        return Some((ox, oy, direction));
                    }
                    j += 1;
                }
                proof {
                    lemma_first_door_to_pin(self.doors@, prev_room as int, n as int);
                }
                return None;
            }
            i += 1;
        }
        proof {
            lemma_first_door_at_pin(self.doors@, cx, cy, self.current_room as int, n as int);
        }
        None
    }
}

/// Executable mirror of `corner_ok` for one hitbox corner.
fn corner_check(room: &Room, cx: i64, cy: i64, gs: i64) -> (r: bool)
    requires
        room.wf(),
        gs > 0,
    ensures
        r == corner_ok(*room, cx as int, cy as int, gs as int),
{
    if cx < 0 || cy < 0 {
        return false;
    }
    let gx = cx as u64 / gs as u64;
    let gy = cy as u64 / gs as u64;
    proof {
        assert(gx as int == cx as int / gs as int);
        assert(gy as int == cy as int / gs as int);
    }
    if gx >= room.width as u64 || gy >= room.height as u64 {
        return false;
    }
    let t = room.grid[gy as usize][gx as usize];
    match t {
        TileType::Empty => true,
        TileType::Skull => true,
        TileType::Door => true,
        _ => false,
    }
}

/// The unit grid step a facing denotes.
pub open spec fn facing_step(f: Facing) -> (int, int) {
    match f {
        Facing::North => (0, -1),
        Facing::East => (1, 0),
        Facing::South => (0, 1),
        Facing::West => (-1, 0),
    }
}

/// The pixel position one cell away from a door cell in the given facing,
/// centered in that neighboring cell: where a player is placed after a door
/// transition so the door's own trigger cell is cleared.
pub fn reentry_position(entry_x: usize, entry_y: usize, facing: Facing, grid_size: i32) -> (r:
    Position)
    requires
        0 < grid_size <= 10000,
        entry_x <= 10000,
        entry_y <= 10000,
    ensures
        r.x as int == (entry_x as int + facing_step(facing).0) * grid_size as int + grid_size as int
            / 2,
        r.y as int == (entry_y as int + facing_step(facing).1) * grid_size as int + grid_size as int
            / 2,
{
    let (dx, dy): (i64, i64) = match facing {
        Facing::North => (0, -1),
        Facing::East => (1, 0),
        Facing::South => (0, 1),
        Facing::West => (-1, 0),
    };
    let gs = grid_size as i64;
    proof {
        assert(gs / 2 == grid_size as int / 2);
        vstd::arithmetic::div_mod::lemma_fundamental_div_mod(gs as int, 2);
        assert(0 <= gs as int / 2 < gs);
        lemma_step_product_bounds(entry_x as int + dx as int, gs as int);
        lemma_step_product_bounds(entry_y as int + dy as int, gs as int);
    }
    let px = (entry_x as i64 + dx) * gs + gs / 2;
    let py = (entry_y as i64 + dy) * gs + gs / 2;
    Position::new(px as i32, py as i32)
}

/// Bounds on a cell-to-pixel product for a cell index near the grid.
proof fn lemma_step_product_bounds(k: int, gs: int)
    requires
        -1 <= k <= 10001,
        0 < gs <= 10000,
    ensures
        -10000 <= k * gs <= 10001 * 10000,
{
    vstd::arithmetic::mul::lemma_mul_inequality(-1, k, gs);
    vstd::arithmetic::mul::lemma_mul_inequality(k, 10001, gs);
    assert((-1) * gs == -gs) by (nonlinear_arith);
    assert(10001 * gs <= 10001 * 10000);
}

/// Law: a door transition's re-entry point, offset one cell along the
/// returned facing, clears the door's own trigger cell, and re-checking the
/// transition at that offset position changes nothing and returns no
/// transition, provided no other door triggers at the offset cell.
pub proof fn lemma_door_reentry_idempotent(
    m: WorldMap,
    m2: WorldMap,
    rr: Option<(usize, usize, Facing)>,
    x: int,
    y: int,
    gs: int,
    m3: WorldMap,
    r2: Option<(usize, usize, Facing)>,
)
    requires
        gs > 0,
        spec_door_transition(m, m2, rr, x, y, gs),
        rr is Some,
        ({
            let (ex, ey, f) = rr.unwrap();
            let (dx, dy) = facing_step(f);
            forall|j: int|
                0 <= j < m2.spec_doors().len() ==> !door_match(
                    #[trigger] m2.spec_doors()[j],
                    ex as int + dx,
                    ey as int + dy,
                    m2.spec_current_room(),
                )
        }),
        ({
            let (ex, ey, f) = rr.unwrap();
            let (dx, dy) = facing_step(f);
            let px = (ex as int + dx) * gs + gs / 2;
            let py = (ey as int + dy) * gs + gs / 2;
            spec_door_transition(m2, m3, r2, px, py, gs)
        }),
    ensures
        ({
            let (ex, ey, f) = rr.unwrap();
            let (dx, dy) = facing_step(f);
            let px = (ex as int + dx) * gs + gs / 2;
            let py = (ey as int + dy) * gs + gs / 2;
            &&& (cell_index(px, gs), cell_index(py, gs)) != (ex as int, ey as int)
            &&& r2 is None
            &&& m3.spec_current_room() == m2.spec_current_room()
        }),
{
    let (ex, ey, f) = rr.unwrap();
    let (dx, dy) = facing_step(f);
    let px = (ex as int + dx) * gs + gs / 2;
    let py = (ey as int + dy) * gs + gs / 2;
    let h = gs / 2;
    vstd::arithmetic::div_mod::lemma_fundamental_div_mod(gs, 2);
    assert(0 <= h < gs);
    lemma_cell_of_center(ex as int + dx, gs);
    lemma_cell_of_center(ey as int + dy, gs);
    assert(cell_index(px, gs) == ex as int + dx);
    assert(cell_index(py, gs) == ey as int + dy);
    assert((dx, dy) != (0int, 0int));
    lemma_first_door_at_pin(
        m2.spec_doors(),
        ex as int + dx,
        ey as int + dy,
        m2.spec_current_room(),
        m2.spec_doors().len() as int,
    );
}

/// The center of cell `k` falls in cell `k`, for any cell index at least
/// -1: the pixel `k * gs + gs / 2` lies in cell `k`, and below zero it lies
/// in no cell.
proof fn lemma_cell_of_center(k: int, gs: int)
    requires
        gs > 0,
        k >= -1,
    ensures
        cell_index(k * gs + gs / 2, gs) == k,
{
    let h = gs / 2;
    vstd::arithmetic::div_mod::lemma_fundamental_div_mod(gs, 2);
    assert(0 <= h < gs);
    let p = k * gs + h;
    if k >= 0 {
        vstd::arithmetic::mul::lemma_mul_nonnegative(k, gs);
        vstd::arithmetic::div_mod::lemma_fundamental_div_mod_converse(p, gs, k, h);
    } else {
        assert(k == -1);
        assert(k * gs == -1 * gs);
        assert((-1) * gs == -gs) by (nonlinear_arith);
        assert(p < 0);
    }
}

} // verus!
