//! Players and the player registry: the local player plus the remote
//! players reconciled from server updates, with per-player animation and
//! chat state. Timers are integer milliseconds owned by the structs and
//! advanced through `update`.
use vstd::prelude::*;

verus! {

use crate::input::MovementState;
use crate::map::WorldMap;
use crate::map::spec_valid_position;
use crate::protocol::Facing;
use crate::protocol::Position;
use crate::protocol::str_eq;

/// Milliseconds of accumulated frame time before the run animation
/// advances a frame.
pub const RUN_FRAME_MS: u32 = 200;

/// Milliseconds of accumulated frame time before the idle animation
/// advances a frame.
pub const IDLE_FRAME_MS: u32 = 500;

/// Milliseconds without movement before the idle animation starts.
pub const IDLE_DELAY_MS: u32 = 3000;

/// Milliseconds a chat message stays displayed.
pub const CHAT_DISPLAY_MS: u32 = 5000;

/// The number of animation frames in a character's run and idle cycles.
pub const MAX_FRAMES: usize = 4;

/// The playable character models.
#[derive(Debug, Clone, Copy, PartialEq, Eq, Structural)]
pub enum CharacterType {
    Knight,
    Archer,
    Elf,
    Lizard,
    Wizard,
}

impl CharacterType {
    /// The asset folder name for this character.
    pub fn folder_name(&self) -> (r: &'static str)
        ensures
            r@ == folder_name_chars(*self),
    {
        let r = match self {
            CharacterType::Knight => "Knight",
            CharacterType::Archer => "Archer",
            CharacterType::Elf => "Elf",
            CharacterType::Lizard => "Lizard",
            // Note the spelling in the asset folder structure.
            CharacterType::Wizard => "Wizzard",
        };
        r
    }

    /// The next character in the selection cycle.
    pub fn next(&self) -> (r: Self)
        ensures
            r == next_character(*self),
    {
        match self {
            CharacterType::Knight => CharacterType::Archer,
            CharacterType::Archer => CharacterType::Elf,
            CharacterType::Elf => CharacterType::Lizard,
            CharacterType::Lizard => CharacterType::Wizard,
            CharacterType::Wizard => CharacterType::Knight,
        }
    }
}

/// The asset folder name of each character.
pub open spec fn folder_name_chars(c: CharacterType) -> Seq<char> {
    match c {
        CharacterType::Knight => "Knight"@,
        CharacterType::Archer => "Archer"@,
        CharacterType::Elf => "Elf"@,
        CharacterType::Lizard => "Lizard"@,
        CharacterType::Wizard => "Wizzard"@,
    }
}

/// The character selection cycle.
pub open spec fn next_character(c: CharacterType) -> CharacterType {
    match c {
        CharacterType::Knight => CharacterType::Archer,
        CharacterType::Archer => CharacterType::Elf,
        CharacterType::Elf => CharacterType::Lizard,
        CharacterType::Lizard => CharacterType::Wizard,
        CharacterType::Wizard => CharacterType::Knight,
    }
}

/// One player: name, position, facing, movement flag, animation state, an
/// optional chat message with its display countdown, and the character
/// skin. Local and remote players share this type.
pub struct Player {
    pub name: String,
    pub pos: Position,
    pub current_frame: usize,
    /// Accumulated frame time, in milliseconds.
    pub frame_timer: u32,
    pub direction: Facing,
    pub is_moving: bool,
    /// How long the player has been idle, in milliseconds.
    pub idle_timer: u32,
    /// Whether the player is in the looping idle animation.
    pub is_in_idle_animation: bool,
    pub character_type: CharacterType,
    /// The chat message currently displayed above the player, if any.
    pub chat_message: Option<String>,
    /// How much longer the chat message stays, in milliseconds.
    pub chat_timer: u32,
}

/// Where the player's position ends up when it attempts a move: the full
/// delta if the target is valid, else each axis alone, the vertical attempt
/// seeing the horizontal attempt's outcome.
pub open spec fn spec_moved_position(p: Player, mv: MovementState, m: WorldMap, gs: int) -> Position {
    let nx = (p.pos.x + mv.dx) as i32;
    let ny = (p.pos.y + mv.dy) as i32;
    if spec_valid_position(m, nx as int, ny as int, gs) {
        Position { x: nx, y: ny }
    } else {
        let x1 = if spec_valid_position(m, nx as int, p.pos.y as int, gs) {
            nx
        } else {
            p.pos.x
        };
        let y1 = if spec_valid_position(m, x1 as int, ny as int, gs) {
            ny
        } else {
            p.pos.y
        };
        Position { x: x1, y: y1 }
    }
}

/// Whether the player counts as moving after an update: the movement flag
/// is taken from the input whenever any axis of the move was applied, and
/// keeps its old value otherwise.
pub open spec fn spec_moved_flag(p: Player, mv: MovementState, m: WorldMap, gs: int) -> bool {
    let nx = (p.pos.x + mv.dx) as i32;
    let ny = (p.pos.y + mv.dy) as i32;
    if spec_valid_position(m, nx as int, ny as int, gs) {
        mv.is_moving
    } else {
        let x1 = if spec_valid_position(m, nx as int, p.pos.y as int, gs) {
            nx
        } else {
            p.pos.x
        };
        if spec_valid_position(m, nx as int, p.pos.y as int, gs) || spec_valid_position(
            m,
            x1 as int,
            ny as int,
            gs,
        ) {
            mv.is_moving
        } else {
            p.is_moving
        }
    }
}

/// The chat fields after one tick: the countdown decreases by the tick
/// length and the message clears when it runs out.
pub open spec fn spec_chat_step(msg: Option<String>, timer: u32, dt: u32) -> (Option<String>, u32) {
    match msg {
        Some(m) => {
            if timer <= dt {
                (None, 0u32)
            } else {
                (Some(m), (timer - dt) as u32)
            }
        },
        None => (None, timer),
    }
}

/// The animation fields after one tick, as (current_frame, frame_timer,
/// idle_timer, is_in_idle_animation): a moving player advances the run
/// cycle and leaves idle state; a still player accumulates idle time,
/// enters the idle animation past the threshold, and then loops it.
pub open spec fn spec_animation_step(
    moving: bool,
    frame: int,
    frame_timer: int,
    idle_timer: int,
    in_idle: bool,
    dt: int,
) -> (int, int, int, bool) {
    if moving {
        let ft = if frame_timer + dt > u32::MAX {
            u32::MAX as int
        } else {
            frame_timer + dt
        };
        if ft >= RUN_FRAME_MS {
            ((frame + 1) % (MAX_FRAMES as int), 0, 0, false)
        } else {
            (frame, ft, 0, false)
        }
    } else {
        let it = if idle_timer + dt > u32::MAX {
            u32::MAX as int
        } else {
            idle_timer + dt
        };
        if it >= IDLE_DELAY_MS && !in_idle {
            (0, 0, it, true)
        } else if in_idle {
            let ft = if frame_timer + dt > u32::MAX {
                u32::MAX as int
            } else {
                frame_timer + dt
            };
            if ft >= IDLE_FRAME_MS {
                ((frame + 1) % (MAX_FRAMES as int), 0, it, true)
            } else {
                (frame, ft, it, true)
            }
        } else {
            (frame, frame_timer, it, false)
        }
    }
}

/// The whole player state after one update tick.
pub open spec fn spec_player_update(p: Player, mv: MovementState, m: WorldMap, gs: int, dt: u32) -> Player {
    let dir = if mv.is_moving {
        mv.direction
    } else {
        p.direction
    };
    let pos = spec_moved_position(p, mv, m, gs);
    let moving = spec_moved_flag(p, mv, m, gs);
    let (msg, ct) = spec_chat_step(p.chat_message, p.chat_timer, dt);
    let (frame, ft, it, in_idle) = spec_animation_step(
        moving,
        p.current_frame as int,
        p.frame_timer as int,
        p.idle_timer as int,
        p.is_in_idle_animation,
        dt as int,
    );
    Player {
        name: p.name,
        pos,
        current_frame: frame as usize,
        frame_timer: ft as u32,
        direction: dir,
        is_moving: moving,
        idle_timer: it as u32,
        is_in_idle_animation: in_idle,
        character_type: p.character_type,
        chat_message: msg,
        chat_timer: ct,
    }
}

impl Player {
    /// A new player at a position: facing south, still, on the default
    /// character, with no chat message.
    pub fn new(name: String, pos: Position) -> (r: Self)
        ensures
            r.name == name,
            r.pos == pos,
            r.current_frame == 0,
            r.frame_timer == 0,
            r.direction == Facing::South,
            !r.is_moving,
            r.idle_timer == 0,
            !r.is_in_idle_animation,
            r.character_type == CharacterType::Knight,
            r.chat_message is None,
            r.chat_timer == 0,
    {
        Self {
            name,
            pos,
            current_frame: 0,
            frame_timer: 0,
            direction: Facing::South,
            is_moving: false,
            idle_timer: 0,
            is_in_idle_animation: false,
            character_type: CharacterType::Knight,
            chat_message: None,
            chat_timer: 0,
        }
    }

    /// One tick: applies the movement delta subject to the map's wall
    /// check (a rejected move leaves the position unchanged), counts the
    /// chat message down, and advances the animation state machine.
    pub fn update(&mut self, movement: &MovementState, map: &WorldMap, grid_size: i32, delta_time: u32)
        requires
            map.wf(),
            grid_size > 0,
            i32::MIN <= old(self).pos.x + movement.dx <= i32::MAX,
            i32::MIN <= old(self).pos.y + movement.dy <= i32::MAX,
        ensures
            *final(self) == spec_player_update(
                *old(self),
                *movement,
                *map,
                grid_size as int,
                delta_time,
            ),
    {
        if movement.is_moving {
            self.direction = movement.direction;
        }
        let new_x = self.pos.x + movement.dx;
        let new_y = self.pos.y + movement.dy;
        if map.is_valid_position(new_x, new_y, grid_size) {
            self.pos.x = new_x;
            self.pos.y = new_y;
            self.is_moving = movement.is_moving;
        } else {
            if map.is_valid_position(new_x, self.pos.y, grid_size) {
                self.pos.x = new_x;
                self.is_moving = movement.is_moving;
            }
            if map.is_valid_position(self.pos.x, new_y, grid_size) {
                self.pos.y = new_y;
                self.is_moving = movement.is_moving;
            }
        }
        if self.chat_message.is_some() {
            if self.chat_timer <= delta_time {
                self.chat_timer = 0;
                self.chat_message = None;
            } else {
                self.chat_timer = self.chat_timer - delta_time;
            }
        }
        if self.is_moving {
            self.idle_timer = 0;
            self.is_in_idle_animation = false;
            self.frame_timer = saturating_add_u32(self.frame_timer, delta_time);
            if self.frame_timer >= RUN_FRAME_MS {
                self.frame_timer = 0;
                proof {
                    vstd::arithmetic::div_mod::lemma_add_mod_noop(
                        self.current_frame as int,
                        1,
                        MAX_FRAMES as int,
                    );
                }
                self.current_frame = (self.current_frame % MAX_FRAMES + 1) % MAX_FRAMES;
            }
        } else {
            self.idle_timer = saturating_add_u32(self.idle_timer, delta_time);
            if self.idle_timer >= IDLE_DELAY_MS && !self.is_in_idle_animation {
                self.is_in_idle_animation = true;
                self.current_frame = 0;
                self.frame_timer = 0;
            } else if self.is_in_idle_animation {
                self.frame_timer = saturating_add_u32(self.frame_timer, delta_time);
                if self.frame_timer >= IDLE_FRAME_MS {
                    self.frame_timer = 0;
                    proof {
                        vstd::arithmetic::div_mod::lemma_add_mod_noop(
                            self.current_frame as int,
                            1,
                            MAX_FRAMES as int,
                        );
                    }
                    self.current_frame = (self.current_frame % MAX_FRAMES + 1) % MAX_FRAMES;
                }
            }
        }
    }

    /// Switches to the next character model.
    pub fn switch_character(&mut self)
        ensures
            *final(self) == (Player {
                character_type: next_character(old(self).character_type),
                ..*old(self)
            }),
    {
        self.character_type = self.character_type.next();
    }

    /// Attaches a chat message, displayed for a fixed time.
    pub fn set_chat_message(&mut self, message: String)
        ensures
            *final(self) == (Player {
                chat_message: Some(message),
                chat_timer: CHAT_DISPLAY_MS,
                ..*old(self)
            }),
    {
        self.chat_message = Some(message);
        self.chat_timer = CHAT_DISPLAY_MS;
    }
}

/// Addition on tick timers that sticks at the maximum instead of wrapping.
fn saturating_add_u32(a: u32, b: u32) -> (r: u32)
    ensures
        r as int == if a + b > u32::MAX {
            u32::MAX as int
        } else {
            a + b
        },
{
    if a > u32::MAX - b {
        u32::MAX
    } else {
        a + b
    }
}

/// The names of the players, in registry order.
pub open spec fn reg_names(players: Seq<Player>) -> Seq<Seq<char>> {
    players.map_values(|p: Player| p.name@)
}

/// No name appears twice in the registry.
pub open spec fn distinct_names(players: Seq<Player>) -> bool {
    reg_names(players).no_duplicates()
}

/// The index of the first player with the given name, or the registry
/// length when the name is absent.
pub open spec fn first_named(players: Seq<Player>, name: Seq<char>) -> int
    decreases players.len(),
{
    if players.len() == 0 {
        0
    } else if players[0].name@ == name {
        0
    } else {
        1 + first_named(players.drop_first(), name)
    }
}

/// `first_named` returns the least index bearing the name, or the length.
pub proof fn lemma_first_named_props(players: Seq<Player>, name: Seq<char>)
    ensures
        0 <= first_named(players, name) <= players.len(),
        first_named(players, name) < players.len() ==> players[first_named(players, name)].name@
            == name,
        forall|j: int| 0 <= j < first_named(players, name) ==> (#[trigger] players[j]).name@ != name,
    decreases players.len(),
{
    if players.len() > 0 && players[0].name@ != name {
        lemma_first_named_props(players.drop_first(), name);
        assert forall|j: int| 0 <= j < first_named(players, name) implies (
        #[trigger] players[j]).name@ != name by {
            if j > 0 {
                assert(players.drop_first()[j - 1].name@ != name);
            }
        }
    }
}

/// A scan that saw no player with the name before `i`, and one at `i` or
/// ran out, pins down `first_named`.
pub proof fn lemma_first_named_pin(players: Seq<Player>, name: Seq<char>, i: int)
    requires
        0 <= i <= players.len(),
        forall|j: int| 0 <= j < i ==> (#[trigger] players[j]).name@ != name,
        i == players.len() || players[i].name@ == name,
    ensures
        first_named(players, name) == i,
    decreases players.len(),
{
    if players.len() == 0 {
    } else if players[0].name@ == name {
        assert(i == 0);
    } else {
        assert(i >= 1);
        lemma_first_named_pin(players.drop_first(), name, i - 1);
    }
}

/// A player overwritten by a reconciliation update: new position and
/// facing, marked moving, everything else kept.
pub open spec fn updated_player(p: Player, pos: Position, facing: Facing) -> Player {
    Player { pos, direction: facing, is_moving: true, ..p }
}

/// A player overwritten by a movement update: as `updated_player`, and the
/// frame timer reset so the run animation restarts cleanly.
pub open spec fn updated_player_anim(p: Player, pos: Position, facing: Facing) -> Player {
    Player { pos, direction: facing, is_moving: true, frame_timer: 0, ..p }
}

/// The player appended for a name not yet in the registry: a fresh player
/// at the given position, turned to the given facing, not yet moving.
pub open spec fn new_remote_player(name: String, pos: Position, facing: Facing) -> Player {
    Player {
        name,
        pos,
        current_frame: 0,
        frame_timer: 0,
        direction: facing,
        is_moving: false,
        idle_timer: 0,
        is_in_idle_animation: false,
        character_type: CharacterType::Knight,
        chat_message: None,
        chat_timer: 0,
    }
}

/// How one reconciliation call relates the old and new remote lists, at
/// the level of the name's characters: the first player bearing the name is
/// overwritten (with the run animation restarted when `reset_anim`), or a
/// fresh player is appended when the name is absent.
pub open spec fn reconcile_applied(
    orig: Seq<Player>,
    now: Seq<Player>,
    name: Seq<char>,
    pos: Position,
    facing: Facing,
    reset_anim: bool,
) -> bool {
    let i = first_named(orig, name);
    if i < orig.len() {
        now == orig.update(
            i,
            if reset_anim {
                updated_player_anim(orig[i], pos, facing)
            } else {
                updated_player(orig[i], pos, facing)
            },
        )
    } else {
        &&& now.len() == orig.len() + 1
        &&& now.subrange(0, orig.len() as int) == orig
        &&& now.last() == new_remote_player(now.last().name, pos, facing)
        &&& now.last().name@ == name
    }
}

/// How attaching a chat message relates the old and new registries: the
/// local player when the name is theirs, else the first remote player
/// bearing the name, gets the message with a fresh display countdown; an
/// unknown name changes nothing.
pub open spec fn chat_applied(orig: Players, now: Players, username: Seq<char>, text: Seq<char>) -> bool {
    if orig.self_player.name@ == username {
        &&& now.other_players == orig.other_players
        &&& now.self_player == Player {
            chat_message: now.self_player.chat_message,
            chat_timer: CHAT_DISPLAY_MS,
            ..orig.self_player
        }
        &&& now.self_player.chat_message matches Some(m) && m@ == text
    } else {
        &&& now.self_player == orig.self_player
        &&& {
            let i = first_named(orig.other_players@, username);
            if i < orig.other_players@.len() {
                &&& now.other_players@ == orig.other_players@.update(
                    i,
                    Player {
                        chat_message: now.other_players@[i].chat_message,
                        chat_timer: CHAT_DISPLAY_MS,
                        ..orig.other_players@[i]
                    },
                )
                &&& now.other_players@[i].chat_message matches Some(m) && m@ == text
            } else {
                now.other_players == orig.other_players
            }
        }
    }
}

/// What `add_or_update_player` does to the remote list: the first player
/// bearing the name is overwritten, or a fresh player is appended when the
/// name is absent.
pub open spec fn spec_add_or_update(
    players: Seq<Player>,
    name: String,
    pos: Position,
    facing: Facing,
) -> Seq<Player> {
    let i = first_named(players, name@);
    if i < players.len() {
        players.update(i, updated_player(players[i], pos, facing))
    } else {
        players.push(new_remote_player(name, pos, facing))
    }
}

/// What `remove_player` does to the remote list: every player bearing the
/// name is dropped, the rest keep their order.
pub open spec fn spec_remove_named(players: Seq<Player>, name: Seq<char>) -> Seq<Player>
    decreases players.len(),
{
    if players.len() == 0 {
        Seq::empty()
    } else if players[0].name@ == name {
        spec_remove_named(players.drop_first(), name)
    } else {
        seq![players[0]] + spec_remove_named(players.drop_first(), name)
    }
}

/// Removal keeps distinctness and introduces no name.
pub proof fn lemma_remove_named_keeps_distinct(players: Seq<Player>, name: Seq<char>)
    requires
        distinct_names(players),
    ensures
        distinct_names(spec_remove_named(players, name)),
        forall|x: Seq<char>|
            reg_names(spec_remove_named(players, name)).contains(x) ==> reg_names(
                players,
            ).contains(x),
    decreases players.len(),
{
    if players.len() > 0 {
        let rest = players.drop_first();
        assert forall|i: int, j: int| 0 <= i < j < rest.len() implies reg_names(rest)[i]
            != reg_names(rest)[j] by {
            assert(reg_names(players)[i + 1] != reg_names(players)[j + 1]);
        }
        lemma_remove_named_keeps_distinct(rest, name);
        assert forall|x: Seq<char>| reg_names(rest).contains(x) implies reg_names(
            players,
        ).contains(x) by {
            let k = choose|k: int| 0 <= k < rest.len() && reg_names(rest)[k] == x;
            assert(reg_names(players)[k + 1] == x);
        }
        if players[0].name@ != name {
            let out = seq![players[0]] + spec_remove_named(rest, name);
            let rout = spec_remove_named(rest, name);
            assert(reg_names(out) =~= seq![players[0].name@] + reg_names(rout));
            assert forall|x: Seq<char>| reg_names(out).contains(x) implies reg_names(
                players,
            ).contains(x) by {
                let k = choose|k: int| 0 <= k < out.len() && reg_names(out)[k] == x;
                if k == 0 {
                    assert(reg_names(players)[0] == x);
                } else {
                    assert(reg_names(rout)[k - 1] == x);
                    assert(reg_names(rout).contains(x));
                    assert(reg_names(rest).contains(x));
                }
            }
            assert forall|i: int, j: int| 0 <= i < j < out.len() implies reg_names(out)[i]
                != reg_names(out)[j] by {
                if i == 0 {
                    assert(reg_names(rout)[j - 1] == reg_names(out)[j]);
                    assert(reg_names(rout).contains(reg_names(out)[j]));
                    assert(reg_names(rest).contains(reg_names(out)[j]));
                    let k = choose|k: int|
                        0 <= k < rest.len() && reg_names(rest)[k] == reg_names(out)[j];
                    assert(reg_names(players)[0] != reg_names(players)[k + 1]);
                }
            }
        }
    }
}

/// The player registry: exactly one local player, authoritative from local
/// input, plus the remote players keyed by unique name.
pub struct Players {
    pub self_player: Player,
    pub other_players: Vec<Player>,
}

/// The movement state of a remote player, to whom no local input applies:
/// no delta, keeping its own flag and direction.
pub open spec fn still_movement(p: Player) -> MovementState {
    MovementState { is_moving: p.is_moving, direction: p.direction, dx: 0, dy: 0 }
}

impl Players {
    /// Remote names are unique.
    pub open spec fn wf(&self) -> bool {
        distinct_names(self.other_players@)
    }

    /// A registry holding only the local player.
    pub fn new(player_name: String, start_pos: Position) -> (r: Self)
        ensures
            r.self_player == new_remote_player(player_name, start_pos, Facing::South),
            r.other_players@.len() == 0,
            r.wf(),
    {
        let r = Self { self_player: Player::new(player_name, start_pos), other_players: Vec::new() };
        proof {
            assert(reg_names(r.other_players@) =~= Seq::<Seq<char>>::empty());
        }
        r
    }

    /// One tick: the local player moves under the local input, every remote
    /// player advances its animation in place.
    pub fn update(&mut self, movement: &MovementState, map: &WorldMap, grid_size: i32, delta_time: u32)
        requires
            map.wf(),
            grid_size > 0,
            i32::MIN <= old(self).self_player.pos.x + movement.dx <= i32::MAX,
            i32::MIN <= old(self).self_player.pos.y + movement.dy <= i32::MAX,
        ensures
            final(self).self_player == spec_player_update(
                old(self).self_player,
                *movement,
                *map,
                grid_size as int,
                delta_time,
            ),
            final(self).other_players@.len() == old(self).other_players@.len(),
            forall|i: int|
                0 <= i < old(self).other_players@.len() ==> final(self).other_players@[i]
                    == spec_player_update(
                    #[trigger] old(self).other_players@[i],
                    still_movement(old(self).other_players@[i]),
                    *map,
                    grid_size as int,
                    delta_time,
                ),
            old(self).wf() ==> final(self).wf(),
    {
        self.self_player.update(movement, map, grid_size, delta_time);
        let ghost orig = self.other_players@;
        let mut updated: Vec<Player> = Vec::new();
        while self.other_players.len() > 0
            invariant
                map.wf(),
                grid_size > 0,
                orig == old(self).other_players@,
                self.self_player == spec_player_update(
                    old(self).self_player,
                    *movement,
                    *map,
                    grid_size as int,
                    delta_time,
                ),
                updated@.len() + self.other_players@.len() == orig.len(),
                self.other_players@ =~= orig.subrange(updated@.len() as int, orig.len() as int),
                forall|i: int|
                    0 <= i < updated@.len() ==> updated@[i] == spec_player_update(
                        #[trigger] orig[i],
                        still_movement(orig[i]),
                        *map,
                        grid_size as int,
                        delta_time,
                    ),
            decreases self.other_players@.len(),
        {
            let ghost k = updated@.len() as int;
            proof {
                assert(self.other_players@[0] == orig[k]);
            }
            let mut p = self.other_players.remove(0);
            let no_movement = MovementState {
                is_moving: p.is_moving,
                direction: p.direction,
                dx: 0,
                dy: 0,
            };
            p.update(&no_movement, map, grid_size, delta_time);
            updated.push(p);
            proof {
                assert(self.other_players@ =~= orig.subrange(k + 1, orig.len() as int));
            }
        }
        self.other_players = updated;
        proof {
            if distinct_names(orig) {
                assert(reg_names(self.other_players@) =~= reg_names(orig));
            }
        }
    }

    /// Switches the local player's character model.
    pub fn switch_character(&mut self)
        ensures
            final(self).self_player == (Player {
                character_type: next_character(old(self).self_player.character_type),
                ..old(self).self_player
            }),
            final(self).other_players == old(self).other_players,
    {
        self.self_player.switch_character();
    }

    /// Reconciles a join or update for a remote player: overwrites the
    /// first player bearing the name, or appends a new one. Never produces
    /// a duplicate name, and afterwards the set of remote names is the old
    /// set plus this name.
    pub fn add_or_update_player(&mut self, name: String, pos: Position, facing: Facing)
        ensures
            final(self).self_player == old(self).self_player,
            final(self).other_players@ == spec_add_or_update(
                old(self).other_players@,
                name,
                pos,
                facing,
            ),
            old(self).wf() ==> final(self).wf(),
            reg_names(final(self).other_players@).to_set() == reg_names(
                old(self).other_players@,
            ).to_set().insert(name@),
            reconcile_applied(
                old(self).other_players@,
                final(self).other_players@,
                name@,
                pos,
                facing,
                false,
            ),
    {
        let ghost orig = self.other_players@;
        let n = self.other_players.len();
        let mut i: usize = 0;
        while i < n
            invariant
                0 <= i <= n,
                n == self.other_players@.len(),
                self == old(self),
                orig == old(self).other_players@,
                forall|j: int| 0 <= j < i ==> (#[trigger] self.other_players@[j]).name@ != name@,
            decreases n - i,
        {
            if str_eq(self.other_players[i].name.as_str(), name.as_str()) {
                proof {
                    lemma_first_named_pin(orig, name@, i as int);
                }
                let p = self.other_players.remove(i);
                let upd = Player { pos, direction: facing, is_moving: true, ..p };
                self.other_players.insert(i, upd);
                proof {
                    assert(self.other_players@ =~= orig.update(
                        i as int,
                        updated_player(orig[i as int], pos, facing),
                    ));
                    lemma_add_names_update(orig, i as int, pos, facing);
                }
                return ;
            }
            i += 1;
        }
        proof {
            lemma_first_named_pin(orig, name@, n as int);
        }
        let mut new_player = Player::new(name, pos);
        new_player.direction = facing;
        self.other_players.push(new_player);
        proof {
            assert(self.other_players@ =~= orig.push(
                new_remote_player(new_player.name, pos, facing),
            ));
            assert(self.other_players@.subrange(0, orig.len() as int) =~= orig);
            lemma_add_names_push(orig, new_remote_player(new_player.name, pos, facing));
        }
    }

    /// Drops every remote player bearing the name; removing an absent name
    /// changes nothing.
    pub fn remove_player(&mut self, name: &str)
        ensures
            final(self).self_player == old(self).self_player,
            final(self).other_players@ == spec_remove_named(old(self).other_players@, name@),
            old(self).wf() ==> final(self).wf(),
    {
        let ghost orig = self.other_players@;
        let n0 = self.other_players.len();
        let mut kept: Vec<Player> = Vec::new();
        proof {
            assert(orig.subrange(0, orig.len() as int) =~= orig);
        }
        let mut idx: usize = 0;
        while self.other_players.len() > 0
            invariant
                n0 == orig.len(),
                idx <= n0,
                orig == old(self).other_players@,
                self.self_player == old(self).self_player,
                self.other_players@ =~= orig.subrange(idx as int, orig.len() as int),
                kept@ + spec_remove_named(orig.subrange(idx as int, orig.len() as int), name@)
                    =~= spec_remove_named(orig, name@),
            decreases self.other_players@.len(),
        {
            proof {
                assert(self.other_players@[0] == orig[idx as int]);
                assert(orig.subrange(idx as int, orig.len() as int).drop_first() =~= orig.subrange(
                    idx as int + 1,
                    orig.len() as int,
                ));
            }
            let p = self.other_players.remove(0);
            if !str_eq(p.name.as_str(), name) {
                let ghost old_kept = kept@;
                kept.push(p);
                proof {
                    let tail = spec_remove_named(
                        orig.subrange(idx as int + 1, orig.len() as int),
                        name@,
                    );
                    assert(old_kept + (seq![orig[idx as int]] + tail) =~= (old_kept + seq![
                        orig[idx as int],
                    ]) + tail);
                    assert(kept@ =~= old_kept + seq![orig[idx as int]]);
                }
            }
            idx += 1;
        }
        proof {
            assert(orig.subrange(orig.len() as int, orig.len() as int) =~= Seq::<Player>::empty());
            assert(kept@ + Seq::<Player>::empty() =~= kept@);
        }
        self.other_players = kept;
        proof {
            if distinct_names(orig) {
                lemma_remove_named_keeps_distinct(orig, name@);
            }
        }
    }

    /// Applies a movement update for a remote player, restarting its run
    /// animation; an unknown name is added instead, healing against
    /// out-of-order join and move messages.
    pub fn update_player_position(&mut self, name: &str, pos: Position, facing: Facing)
        ensures
            final(self).self_player == old(self).self_player,
            old(self).wf() ==> final(self).wf(),
            reconcile_applied(
                old(self).other_players@,
                final(self).other_players@,
                name@,
                pos,
                facing,
                true,
            ),
            reg_names(final(self).other_players@).to_set() == reg_names(
                old(self).other_players@,
            ).to_set().insert(name@),
    {
        let ghost orig = self.other_players@;
        let n = self.other_players.len();
        let mut i: usize = 0;
        while i < n
            invariant
                0 <= i <= n,
                n == self.other_players@.len(),
                self == old(self),
                orig == old(self).other_players@,
                forall|j: int| 0 <= j < i ==> (#[trigger] self.other_players@[j]).name@ != name@,
            decreases n - i,
        {
            if str_eq(self.other_players[i].name.as_str(), name) {
                proof {
                    lemma_first_named_pin(orig, name@, i as int);
                }
                let p = self.other_players.remove(i);
                let upd = Player { pos, direction: facing, is_moving: true, frame_timer: 0, ..p };
                self.other_players.insert(i, upd);
                proof {
                    assert(self.other_players@ =~= orig.update(
                        i as int,
                        updated_player_anim(orig[i as int], pos, facing),
                    ));
                    lemma_add_names_update_anim(orig, i as int, pos, facing);
                }
                return ;
            }
            i += 1;
        }
        proof {
            lemma_first_named_pin(orig, name@, n as int);
        }
        self.add_or_update_player(name.to_owned(), pos, facing);
        proof {
            assert(final(self).other_players@.subrange(0, orig.len() as int) =~= orig);
        }
    }

    /// Attaches a chat message, with its display countdown, to the local
    /// player when the name is theirs, else to the first remote player
    /// bearing the name; an unknown name changes nothing.
    pub fn set_player_chat_message(&mut self, username: &str, message: String)
        ensures
            chat_applied(*old(self), *final(self), username@, message@),
            old(self).wf() ==> final(self).wf(),
    {
        let ghost orig = self.other_players@;
        if str_eq(self.self_player.name.as_str(), username) {
            self.self_player.set_chat_message(message);
            return ;
        }
        let n = self.other_players.len();
        let mut i: usize = 0;
        while i < n
            invariant
                0 <= i <= n,
                n == self.other_players@.len(),
                self == old(self),
                orig == old(self).other_players@,
                old(self).self_player.name@ != username@,
                forall|j: int| 0 <= j < i ==> (#[trigger] self.other_players@[j]).name@
                    != username@,
            decreases n - i,
        {
            if str_eq(self.other_players[i].name.as_str(), username) {
                proof {
                    lemma_first_named_pin(orig, username@, i as int);
                }
                let p = self.other_players.remove(i);
                let upd = Player {
                    chat_message: Some(message),
                    chat_timer: CHAT_DISPLAY_MS,
                    ..p
                };
                self.other_players.insert(i, upd);
                proof {
                    assert(self.other_players@ =~= orig.update(
                        i as int,
                        Player {
                            chat_message: Some(message),
                            chat_timer: CHAT_DISPLAY_MS,
                            ..orig[i as int]
                        },
                    ));
                    lemma_names_update_same(
                        orig,
                        i as int,
                        Player {
                            chat_message: Some(message),
                            chat_timer: CHAT_DISPLAY_MS,
                            ..orig[i as int]
                        },
                    );
                }
                return ;
            }
            i += 1;
        }
        proof {
            lemma_first_named_pin(orig, username@, n as int);
        }
    }
}

/// Updating one entry with a player of the same name keeps the name list,
/// hence distinctness.
pub proof fn lemma_names_update_same(players: Seq<Player>, i: int, p: Player)
    requires
        0 <= i < players.len(),
        p.name@ == players[i].name@,
    ensures
        reg_names(players.update(i, p)) == reg_names(players),
        distinct_names(players) ==> distinct_names(players.update(i, p)),
        reg_names(players.update(i, p)).to_set() == reg_names(players).to_set(),
{
    assert(reg_names(players.update(i, p)) =~= reg_names(players));
}

/// Overwriting the first player bearing a name keeps names and adds the
/// (already present) name to the name set.
proof fn lemma_add_names_update(players: Seq<Player>, i: int, pos: Position, facing: Facing)
    requires
        0 <= i < players.len(),
    ensures
        ({
            let out = players.update(i, updated_player(players[i], pos, facing));
            &&& reg_names(out) == reg_names(players)
            &&& (distinct_names(players) ==> distinct_names(out))
            &&& reg_names(out).to_set() == reg_names(players).to_set().insert(players[i].name@)
        }),
{
    let out = players.update(i, updated_player(players[i], pos, facing));
    assert(reg_names(out) =~= reg_names(players));
    assert(reg_names(players)[i] == players[i].name@);
    assert(reg_names(players).contains(players[i].name@));
    assert(reg_names(players).to_set().insert(players[i].name@) =~= reg_names(players).to_set());
}

/// As `lemma_add_names_update`, for the animation-resetting overwrite.
proof fn lemma_add_names_update_anim(players: Seq<Player>, i: int, pos: Position, facing: Facing)
    requires
        0 <= i < players.len(),
    ensures
        ({
            let out = players.update(i, updated_player_anim(players[i], pos, facing));
            &&& reg_names(out) == reg_names(players)
            &&& (distinct_names(players) ==> distinct_names(out))
            &&& reg_names(out).to_set() == reg_names(players).to_set().insert(players[i].name@)
        }),
{
    let out = players.update(i, updated_player_anim(players[i], pos, facing));
    assert(reg_names(out) =~= reg_names(players));
    assert(reg_names(players)[i] == players[i].name@);
    assert(reg_names(players).contains(players[i].name@));
    assert(reg_names(players).to_set().insert(players[i].name@) =~= reg_names(players).to_set());
}

/// Appending a player with a fresh name keeps distinctness and adds the
/// name to the name set.
proof fn lemma_add_names_push(players: Seq<Player>, p: Player)
    requires
        forall|j: int| 0 <= j < players.len() ==> (#[trigger] players[j]).name@ != p.name@,
    ensures
        ({
            let out = players.push(p);
            &&& (distinct_names(players) ==> distinct_names(out))
            &&& reg_names(out).to_set() == reg_names(players).to_set().insert(p.name@)
        }),
{
    let out = players.push(p);
    assert(reg_names(out) =~= reg_names(players).push(p.name@));
    assert forall|x: Seq<char>| reg_names(out).to_set().contains(x) implies reg_names(
        players,
    ).to_set().insert(p.name@).contains(x) by {
        let k = choose|k: int| 0 <= k < reg_names(out).len() && reg_names(out)[k] == x;
        if k < players.len() {
            assert(reg_names(players)[k] == x);
        }
    }
    assert forall|x: Seq<char>|
        reg_names(players).to_set().insert(p.name@).contains(x) implies reg_names(
        out,
    ).to_set().contains(x) by {
        if x == p.name@ {
            assert(reg_names(out)[players.len() as int] == x);
        } else {
            let k = choose|k: int|
                0 <= k < reg_names(players).len() && reg_names(players)[k] == x;
            assert(reg_names(out)[k] == x);
        }
    }
    assert(reg_names(out).to_set() =~= reg_names(players).to_set().insert(p.name@));
    if distinct_names(players) {
        assert forall|i: int, j: int| 0 <= i < j < out.len() implies reg_names(out)[i]
            != reg_names(out)[j] by {
            if j < players.len() {
                assert(reg_names(players)[i] != reg_names(players)[j]);
            } else {
                assert(players[i].name@ != p.name@);
            }
        }
    }
}

/// The registry contents after a whole sequence of reconciliation calls.
pub open spec fn spec_add_all(
    players: Seq<Player>,
    calls: Seq<(String, Position, Facing)>,
) -> Seq<Player>
    decreases calls.len(),
{
    if calls.len() == 0 {
        players
    } else {
        spec_add_all(
            spec_add_or_update(players, calls[0].0, calls[0].1, calls[0].2),
            calls.drop_first(),
        )
    }
}

/// Reconciliation from any starting registry with unique names keeps names
/// unique, and the resulting name set is the starting one plus the names
/// passed.
proof fn lemma_add_all_names(players: Seq<Player>, calls: Seq<(String, Position, Facing)>)
    requires
        distinct_names(players),
    ensures
        distinct_names(spec_add_all(players, calls)),
        reg_names(spec_add_all(players, calls)).to_set() == reg_names(players).to_set()
            + calls.map_values(|c: (String, Position, Facing)| c.0@).to_set(),
    decreases calls.len(),
{
    let passed = calls.map_values(|c: (String, Position, Facing)| c.0@);
    if calls.len() == 0 {
        assert(passed.to_set() =~= Set::<Seq<char>>::empty());
        assert(reg_names(players).to_set() + passed.to_set() =~= reg_names(players).to_set());
    } else {
        let name = calls[0].0;
        let step = spec_add_or_update(players, name, calls[0].1, calls[0].2);
        let i = first_named(players, name@);
        lemma_first_named_props(players, name@);
        if i < players.len() {
            lemma_add_names_update(players, i, calls[0].1, calls[0].2);
        } else {
            lemma_add_names_push(players, new_remote_player(name, calls[0].1, calls[0].2));
        }
        lemma_add_all_names(step, calls.drop_first());
        let rest_passed = calls.drop_first().map_values(|c: (String, Position, Facing)| c.0@);
        assert(rest_passed =~= passed.drop_first());
        assert(reg_names(spec_add_all(players, calls)).to_set() =~= reg_names(players).to_set()
            + passed.to_set()) by {
            assert(reg_names(spec_add_all(players, calls)).to_set() == reg_names(
                step,
            ).to_set() + rest_passed.to_set());
            assert(reg_names(step).to_set() == reg_names(players).to_set().insert(name@));
            assert(passed[0] == name@);
            assert(passed.contains(name@));
            assert forall|x: Seq<char>| passed.contains(x) implies x == name@
                || passed.drop_first().contains(x) by {
                let k = choose|k: int| 0 <= k < passed.len() && passed[k] == x;
                if k > 0 {
                    assert(passed.drop_first()[k - 1] == x);
                }
            }
            assert forall|x: Seq<char>| passed.drop_first().contains(x) implies passed.contains(
                x,
            ) by {
                let k = choose|k: int|
                    0 <= k < passed.drop_first().len() && passed.drop_first()[k] == x;
                assert(passed[k + 1] == x);
            }
        }
    }
}

/// Law: for any sequence of `add_or_update_player` calls on an initially
/// empty registry, the remote names are distinct and are exactly the names
/// passed, so the number of remote players equals the number of distinct
/// names passed, regardless of call order or repeats.
pub proof fn lemma_no_duplicate_players(calls: Seq<(String, Position, Facing)>)
    ensures
        distinct_names(spec_add_all(Seq::empty(), calls)),
        reg_names(spec_add_all(Seq::empty(), calls)).to_set() == calls.map_values(
            |c: (String, Position, Facing)| c.0@,
        ).to_set(),
        spec_add_all(Seq::empty(), calls).len() == calls.map_values(
            |c: (String, Position, Facing)| c.0@,
        ).to_set().len(),
{
    let empty = Seq::<Player>::empty();
    assert(reg_names(empty) =~= Seq::<Seq<char>>::empty());
    lemma_add_all_names(empty, calls);
    let out = spec_add_all(empty, calls);
    assert(reg_names(empty).to_set() =~= Set::<Seq<char>>::empty());
    assert(reg_names(out).to_set() =~= calls.map_values(
        |c: (String, Position, Facing)| c.0@,
    ).to_set());
    reg_names(out).unique_seq_to_set();
    assert(reg_names(out).len() == out.len());
}

} // verus!
