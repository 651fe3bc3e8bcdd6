//! The session: the login lifecycle, the reconciliation of inbound server
//! messages into the player registry with self-echo suppression, the
//! per-tick local movement with door transitions, and the decisions about
//! what to send. The I/O layer around the session performs the actual
//! sends and receives and hands the session plain strings and events.
use vstd::prelude::*;

verus! {

use crate::input::MovementState;
use crate::map::WorldMap;
use crate::map::facing_step;
use crate::map::first_door_to;
use crate::map::reentry_position;
use crate::map::spec_door_result;
use crate::map::spec_door_room;
use crate::net::NetClient;
use crate::net::ServerMsg;
use crate::net::spec_parse_server_message;
use crate::player::CHAT_DISPLAY_MS;
use crate::player::Player;
use crate::player::Players;
use crate::player::chat_applied;
use crate::player::first_named;
use crate::player::lemma_first_named_pin;
use crate::player::lemma_names_update_same;
use crate::player::new_remote_player;
use crate::player::reconcile_applied;
use crate::player::spec_add_or_update;
use crate::player::spec_player_update;
use crate::player::spec_remove_named;
use crate::player::still_movement;
use crate::protocol::ClientToServer;
use crate::protocol::Facing;
use crate::protocol::Position;
use crate::protocol::ServerToClient;
use crate::protocol::str_eq;
use crate::text::contains_seq;
use crate::text::str_contains;

/// The pixel size of one grid cell.
pub const GRID_SIZE: i32 = 16;

/// The cap on inbound messages applied in one tick, so a flood of updates
/// cannot starve the rest of the frame.
pub const MAX_MESSAGES_PER_TICK: usize = 10;

/// The lifecycle stages of a client session. A session moves from
/// `PreAuth` to `InGame` once, or starts and stays `Offline`; it never
/// returns to `PreAuth`.
pub enum Stage {
    PreAuth,
    /// Reserved; unused by the current flow.
    InMenu,
    InGame,
    /// Entered directly for local or solo play.
    Offline,
}

/// A whole client session: the lifecycle stage, the username bound at
/// login, the player registry, the room map, and the transport state.
pub struct Session {
    pub stage: Stage,
    pub username: String,
    pub players: Players,
    pub map: WorldMap,
    pub nc: NetClient,
    /// Accumulated time since the scripted player last turned, in
    /// milliseconds.
    pub sim_move_timer: u32,
    /// Which way the scripted player walks next, as a step index into the
    /// four directions.
    pub sim_direction: u8,
}

/// Whether a server line signals successful authentication.
pub open spec fn is_auth_success(s: Seq<char>) -> bool {
    contains_seq(s, "Logged in"@) || contains_seq(s, "Registered user"@)
}

/// How processing one raw inbound chunk relates the session before and
/// after: protocol-violation notices and unclassifiable chunks change
/// nothing, and a recognized message is applied to the registry with
/// self-echo suppression. Everything but the player registry is kept.
pub open spec fn message_step_rel(s0: Session, s1: Session, message: Seq<char>) -> bool {
    &&& (s0.players.wf() ==> s1.players.wf())
    &&& s1.stage == s0.stage
    &&& s1.username == s0.username
    &&& s1.map == s0.map
    &&& s1.nc == s0.nc
    &&& s1.sim_move_timer == s0.sim_move_timer
    &&& s1.sim_direction == s0.sim_direction
    &&& if contains_seq(message, "Invalid protocol"@) {
        s1 == s0
    } else {
        match spec_parse_server_message(message) {
            Some(sm) => match sm {
                ServerMsg::Joined(u, x, y, f) => {
                    if u == s0.username@ {
                        s1 == s0
                    } else {
                        &&& s1.players.self_player == s0.players.self_player
                        &&& reconcile_applied(
                            s0.players.other_players@,
                            s1.players.other_players@,
                            u,
                            Position { x: x as i32, y: y as i32 },
                            f,
                            false,
                        )
                    }
                },
                ServerMsg::Left(u) => {
                    &&& s1.players.self_player == s0.players.self_player
                    &&& s1.players.other_players@ == spec_remove_named(
                        s0.players.other_players@,
                        u,
                    )
                },
                ServerMsg::Moved(u, x, y, f) => {
                    if u == s0.username@ {
                        s1 == s0
                    } else {
                        &&& s1.players.self_player == s0.players.self_player
                        &&& reconcile_applied(
                            s0.players.other_players@,
                            s1.players.other_players@,
                            u,
                            Position { x: x as i32, y: y as i32 },
                            f,
                            true,
                        )
                    }
                },
                ServerMsg::Chat(u, t) => chat_applied(s0.players, s1.players, u, t),
            },
            None => s1 == s0,
        }
    }
}

/// How processing a whole batch of chunks, in order, relates the session
/// before and after: the chain of single-chunk steps.
pub open spec fn processed_rel(s0: Session, s1: Session, messages: Seq<Seq<char>>) -> bool
    decreases messages.len(),
{
    if messages.len() == 0 {
        s1 == s0
    } else {
        exists|mid: Session|
            #[trigger] message_step_rel(s0, mid, messages[0]) && processed_rel(
                mid,
                s1,
                messages.drop_first(),
            )
    }
}

/// Chaining one more step onto a processed batch.
proof fn lemma_processed_snoc(s0: Session, s1: Session, s2: Session, messages: Seq<Seq<char>>, m: Seq<char>)
    requires
        processed_rel(s0, s1, messages),
        message_step_rel(s1, s2, m),
    ensures
        processed_rel(s0, s2, messages.push(m)),
    decreases messages.len(),
{
    if messages.len() == 0 {
        assert(messages.push(m)[0] == m);
        assert(messages.push(m).drop_first() =~= Seq::<Seq<char>>::empty());
        assert(message_step_rel(s0, s2, m) && processed_rel(s2, s2, Seq::<Seq<char>>::empty()));
    } else {
        let mid = choose|mid: Session|
            #[trigger] message_step_rel(s0, mid, messages[0]) && processed_rel(
                mid,
                s1,
                messages.drop_first(),
            );
        lemma_processed_snoc(mid, s1, s2, messages.drop_first(), m);
        assert(messages.push(m)[0] == messages[0]);
        assert(messages.push(m).drop_first() =~= messages.drop_first().push(m));
        assert(message_step_rel(s0, mid, messages.push(m)[0]) && processed_rel(
            mid,
            s2,
            messages.push(m).drop_first(),
        ));
    }
}

impl Session {
    /// The registry has unique remote names and the map is well formed.
    pub open spec fn wf(&self) -> bool {
        &&& self.players.wf()
        &&& self.map.wf()
    }

    /// A fresh session on the given map: offline sessions start (and stay)
    /// in the `Offline` stage, online ones await authentication in
    /// `PreAuth`. The local player starts centered in the second cell.
    pub fn new(offline_mode: bool, map: WorldMap) -> (r: Session)
        requires
            map.wf(),
        ensures
            r.wf(),
            offline_mode ==> r.stage is Offline,
            !offline_mode ==> r.stage is PreAuth,
            r.username@ == Seq::<char>::empty(),
            r.players.self_player.name@ == "Player"@,
            r.players.self_player.pos.x == GRID_SIZE + GRID_SIZE / 2,
            r.players.self_player.pos.y == GRID_SIZE + GRID_SIZE / 2,
            r.players.other_players@.len() == 0,
            r.map == map,
            r.nc.spec_offline() == offline_mode,
            r.sim_move_timer == 0,
            r.sim_direction == 0,
    {
        let nc = NetClient::new_with_mode(offline_mode);
        let start = Position::new(GRID_SIZE + GRID_SIZE / 2, GRID_SIZE + GRID_SIZE / 2);
        let players = Players::new(String::from_str("Player"), start);
        Session {
            stage: if offline_mode {
                Stage::Offline
            } else {
                Stage::PreAuth
            },
            username: String::new(),
            players,
            map,
            nc,
            sim_move_timer: 0,
            sim_direction: 0,
        }
    }

    /// Reads one authentication response: on a success marker, binds the
    /// local player's name to the submitted username, enters the game, and
    /// hands back the identification message for the caller to send; any
    /// other line leaves the session untouched, and the caller keeps
    /// polling.
    pub fn handle_auth_response(&mut self, line: &str) -> (r: Option<ClientToServer>)
        ensures
            if is_auth_success(line@) {
                &&& final(self).stage is InGame
                &&& final(self).username == old(self).username
                &&& final(self).map == old(self).map
                &&& final(self).nc == old(self).nc
                &&& final(self).players.other_players == old(self).players.other_players
                &&& final(self).players.self_player == Player {
                    name: final(self).players.self_player.name,
                    ..old(self).players.self_player
                }
                &&& final(self).players.self_player.name@ == old(self).username@
                &&& (r matches Some(m) && (m matches ClientToServer::SetUsername(u) && u@ == old(self).username@))
            } else {
                &&& *final(self) == *old(self)
                &&& r is None
            },
    {
        if str_contains(line, "Logged in") || str_contains(line, "Registered user") {
            self.players.self_player.name = self.username.clone();
            self.stage = Stage::InGame;
            Some(ClientToServer::SetUsername(self.username.clone()))
        } else {
            None
        }
    }

    /// Applies one typed server message to the registry. A `PlayerMoved`
    /// or `PlayerJoined` bearing the local username never mutates the
    /// remote-player list: the local player's own position is
    /// authoritative locally, not server-reflected.
    pub fn apply_server_message(&mut self, msg: ServerToClient)
        ensures
            old(self).players.wf() ==> final(self).players.wf(),
            final(self).stage == old(self).stage,
            final(self).username == old(self).username,
            final(self).map == old(self).map,
            final(self).nc == old(self).nc,
            final(self).sim_move_timer == old(self).sim_move_timer,
            final(self).sim_direction == old(self).sim_direction,
            (match msg {
                ServerToClient::PlayerMoved(u, _, _) => u@ == old(self).username@,
                ServerToClient::PlayerJoined(u, _, _) => u@ == old(self).username@,
                _ => false,
            }) ==> *final(self) == *old(self),
            match msg {
                ServerToClient::PlayerJoined(u, p, f) => {
                    if u@ == old(self).username@ {
                        *final(self) == *old(self)
                    } else {
                        &&& final(self).players.self_player == old(self).players.self_player
                        &&& final(self).players.other_players@ == spec_add_or_update(
                            old(self).players.other_players@,
                            u,
                            p,
                            f,
                        )
                        &&& reconcile_applied(
                            old(self).players.other_players@,
                            final(self).players.other_players@,
                            u@,
                            p,
                            f,
                            false,
                        )
                    }
                },
                ServerToClient::PlayerLeft(u) => {
                    &&& final(self).players.self_player == old(self).players.self_player
                    &&& final(self).players.other_players@ == spec_remove_named(
                        old(self).players.other_players@,
                        u@,
                    )
                },
                ServerToClient::PlayerMoved(u, p, f) => {
                    if u@ == old(self).username@ {
                        *final(self) == *old(self)
                    } else {
                        &&& final(self).players.self_player == old(self).players.self_player
                        &&& reconcile_applied(
                            old(self).players.other_players@,
                            final(self).players.other_players@,
                            u@,
                            p,
                            f,
                            true,
                        )
                    }
                },
                ServerToClient::ChatMessage(u, t) => chat_applied(
                    old(self).players,
                    final(self).players,
                    u@,
                    t@,
                ),
                ServerToClient::EntityMoved(_) => *final(self) == *old(self),
            },
    {
        match msg {
            ServerToClient::PlayerJoined(username, position, facing) => {
                if str_eq(username.as_str(), self.username.as_str()) {
                    return ;
                }
                self.players.add_or_update_player(username, position, facing);
            },
            ServerToClient::PlayerLeft(username) => {
                self.players.remove_player(username.as_str());
            },
            ServerToClient::PlayerMoved(username, position, facing) => {
                if str_eq(username.as_str(), self.username.as_str()) {
                    return ;
                }
                self.players.update_player_position(username.as_str(), position, facing);
            },
            ServerToClient::ChatMessage(username, text) => {
                self.players.set_player_chat_message(username.as_str(), text);
            },
            ServerToClient::EntityMoved(_) => {},
        }
    }

    /// Processes one raw inbound chunk: protocol-violation notices are
    /// skipped, anything the codec cannot classify is ignored as noise,
    /// and a recognized message is applied to the registry with self-echo
    /// suppression.
    pub fn process_message_text(&mut self, message: &str)
        ensures
            message_step_rel(*old(self), *final(self), message@),
    {
        if str_contains(message, "Invalid protocol") {
            return ;
        }
        let parsed = self.nc.parse_server_message(message);
        match parsed {
            Some(m) => {
                self.apply_server_message(m);
            },
            None => {},
        }
    }

    /// Applies at most [`MAX_MESSAGES_PER_TICK`] of the given raw inbound
    /// chunks, in order, through `process_message_text`; the rest wait for
    /// the next tick so one burst cannot consume the frame budget.
    pub fn process_incoming(&mut self, messages: &Vec<String>)
        ensures
            ({
                let applied = if messages@.len() <= MAX_MESSAGES_PER_TICK {
                    messages@.len() as int
                } else {
                    MAX_MESSAGES_PER_TICK as int
                };
                processed_rel(*old(self), *final(self), messages.deep_view().take(applied))
            }),
            old(self).players.wf() ==> final(self).players.wf(),
            final(self).stage == old(self).stage,
            final(self).username == old(self).username,
            final(self).map == old(self).map,
            final(self).nc == old(self).nc,
    {
        let n = messages.len();
        proof {
            assert(messages.deep_view().take(0int) =~= Seq::<Seq<char>>::empty());
        }
        let mut i: usize = 0;
        while i < n && i < MAX_MESSAGES_PER_TICK
            invariant
                0 <= i,
                i <= n,
                i <= MAX_MESSAGES_PER_TICK,
                n == messages@.len(),
                processed_rel(*old(self), *self, messages.deep_view().take(i as int)),
                old(self).players.wf() ==> self.players.wf(),
                self.stage == old(self).stage,
                self.username == old(self).username,
                self.map == old(self).map,
                self.nc == old(self).nc,
            decreases n - i,
        {
            let ghost before = *self;
            self.process_message_text(messages[i].as_str());
            proof {
                assert(messages.deep_view()[i as int] == messages@[i as int]@);
                lemma_processed_snoc(
                    *old(self),
                    before,
                    *self,
                    messages.deep_view().take(i as int),
                    messages.deep_view()[i as int],
                );
                assert(messages.deep_view().take(i as int).push(messages.deep_view()[i as int])
                    =~= messages.deep_view().take(i as int + 1));
            }
            i += 1;
        }
    }

    /// One tick of local simulation: moves the local player under the
    /// input subject to the map's wall check, advances every player's
    /// animation, and follows a door transition by switching rooms and
    /// placing the player at the paired door's re-entry point, offset one
    /// cell along the returned facing so the door does not immediately
    /// re-trigger. Returns the door transition taken, if any.
    pub fn update_local(&mut self, movement: &MovementState, delta_time: u32) -> (door: Option<
        (usize, usize, Facing),
    >)
        requires
            old(self).wf(),
            i32::MIN <= old(self).players.self_player.pos.x + movement.dx <= i32::MAX,
            i32::MIN <= old(self).players.self_player.pos.y + movement.dy <= i32::MAX,
            forall|i: int|
                0 <= i < old(self).map.spec_doors().len() ==> (#[trigger] old(self).map.spec_doors()[i]).0 <= 10000 && old(self).map.spec_doors()[i].1 <= 10000,
        ensures
            final(self).wf(),
            final(self).stage == old(self).stage,
            final(self).username == old(self).username,
            final(self).nc == old(self).nc,
            final(self).map.spec_rooms() == old(self).map.spec_rooms(),
            final(self).map.spec_doors() == old(self).map.spec_doors(),
            final(self).players.other_players@.len() == old(self).players.other_players@.len(),
            forall|i: int|
                0 <= i < old(self).players.other_players@.len() ==> final(self).players.other_players@[i] == spec_player_update(
                    #[trigger] old(self).players.other_players@[i],
                    still_movement(old(self).players.other_players@[i]),
                    old(self).map,
                    GRID_SIZE as int,
                    delta_time,
                ),
            ({
                let moved = spec_player_update(
                    old(self).players.self_player,
                    *movement,
                    old(self).map,
                    GRID_SIZE as int,
                    delta_time,
                );
                let dr = spec_door_result(
                    old(self).map,
                    moved.pos.x as int,
                    moved.pos.y as int,
                    GRID_SIZE as int,
                );
                &&& final(self).map.spec_current_room() == spec_door_room(
                    old(self).map,
                    moved.pos.x as int,
                    moved.pos.y as int,
                    GRID_SIZE as int,
                )
                &&& door == dr
                &&& match dr {
                    Some(entry) => {
                        &&& final(self).players.self_player == Player {
                            pos: final(self).players.self_player.pos,
                            direction: entry.2,
                            ..moved
                        }
                        &&& final(self).players.self_player.pos.x as int == (entry.0 as int
                            + facing_step(entry.2).0) * GRID_SIZE as int + GRID_SIZE as int / 2
                        &&& final(self).players.self_player.pos.y as int == (entry.1 as int
                            + facing_step(entry.2).1) * GRID_SIZE as int + GRID_SIZE as int / 2
                    },
                    None => final(self).players.self_player == moved,
                }
            }),
    {
        self.players.update(movement, &self.map, GRID_SIZE, delta_time);
        let px = self.players.self_player.pos.x;
        let py = self.players.self_player.pos.y;
        let crossed = self.map.check_door_transition(px, py, GRID_SIZE);
        match crossed {
            Some((entry_x, entry_y, facing)) => {
                proof {
                    let doors = old(self).map.spec_doors();
                    let pi = first_door_to(doors, old(self).map.spec_current_room());
                    crate::map::lemma_first_door_to_props(
                        doors,
                        old(self).map.spec_current_room(),
                    );
                    assert(entry_x == doors[pi].0 && entry_y == doors[pi].1);
                    assert(doors[pi].0 <= 10000 && doors[pi].1 <= 10000);
                }
                let newpos = reentry_position(entry_x, entry_y, facing, GRID_SIZE);
                self.players.self_player.pos = newpos;
                self.players.self_player.direction = facing;
                Some((entry_x, entry_y, facing))
            },
            None => None,
        }
    }
}

/// The messages one input tick sends to the server: identification, the
/// facing carried by the input, and, only while the player is actually
/// moving, the absolute position.
pub fn movement_messages(username: &str, movement: &MovementState, player_pos: &Position) -> (r:
    Vec<ClientToServer>)
    ensures
        r@.len() == if movement.is_moving {
            3int
        } else {
            2int
        },
        r@[0] matches ClientToServer::SetUsername(u) && u@ == username@,
        r@[1] matches ClientToServer::AttemptPlayerFacingChange(f) && f == movement.direction,
        movement.is_moving ==> (r@[2] matches ClientToServer::AttemptPlayerMove(p) && p
            == *player_pos),
{
    let mut out: Vec<ClientToServer> = Vec::new();
    out.push(ClientToServer::SetUsername(username.to_owned()));
    out.push(ClientToServer::AttemptPlayerFacingChange(movement.direction));
    if movement.is_moving {
        out.push(ClientToServer::AttemptPlayerMove(Position::new(player_pos.x, player_pos.y)));
    }
    out
}

/// The messages that re-broadcast the local player's absolute state:
/// identification, the current facing, and the absolute position. Sent
/// after a door transition, and periodically so idle clients remain
/// visible to peers.
pub fn absolute_position_messages(username: &str, direction: Facing, pos: Position) -> (r: Vec<
    ClientToServer,
>)
    ensures
        r@.len() == 3,
        r@[0] matches ClientToServer::SetUsername(u) && u@ == username@,
        r@[1] matches ClientToServer::AttemptPlayerFacingChange(f) && f == direction,
        r@[2] matches ClientToServer::SetPosition(x, y) && x == pos.x && y == pos.y,
{
    let mut out: Vec<ClientToServer> = Vec::new();
    out.push(ClientToServer::SetUsername(username.to_owned()));
    out.push(ClientToServer::AttemptPlayerFacingChange(direction));
    out.push(ClientToServer::SetPosition(pos.x, pos.y));
    out
}

/// The facing the scripted player takes for a direction index; indices
/// cycle north, east, south, west.
pub open spec fn sim_facing(d: u8) -> Facing {
    if d == 0 {
        Facing::North
    } else if d == 1 {
        Facing::East
    } else if d == 2 {
        Facing::South
    } else if d == 3 {
        Facing::West
    } else {
        Facing::South
    }
}

/// One scripted step: the player turns to the direction, walks one cell
/// that way, is marked moving, and is clamped to the play area.
pub open spec fn sim_step_player(p: Player, d: u8, gs: int) -> Player {
    let f = sim_facing(d);
    let (dx, dy) = facing_step(f);
    let nx = clamp_coord(p.pos.x + dx * gs, gs);
    let ny = clamp_coord(p.pos.y + dy * gs, gs);
    Player {
        pos: Position { x: nx as i32, y: ny as i32 },
        direction: f,
        is_moving: true,
        ..p
    }
}

/// A coordinate clamped to the scripted player's play area, one to ten
/// cells from the origin.
pub open spec fn clamp_coord(v: int, gs: int) -> int {
    if v < gs {
        gs
    } else if v > gs * 10 {
        gs * 10
    } else {
        v
    }
}

/// The registry after seeding: an empty registry gains the walking
/// `SimPlayer` and the still `StaticPlayer`; any other registry is kept.
pub open spec fn sim_seeded_rel(orig: Seq<Player>, base: Seq<Player>) -> bool {
    if orig.len() == 0 {
        &&& base.len() == 2
        &&& base[0].name@ == "SimPlayer"@
        &&& base[0] == new_remote_player(base[0].name, Position { x: 56, y: 56 }, Facing::South)
        &&& base[1].name@ == "StaticPlayer"@
        &&& base[1] == new_remote_player(base[1].name, Position { x: 88, y: 40 }, Facing::East)
    } else {
        base == orig
    }
}

/// How one simulation tick relates the old and new remote lists once the
/// turn timer has fired: the first player named `SimPlayer` takes one
/// scripted step; with no such player nothing changes.
pub open spec fn sim_step_rel(base: Seq<Player>, now: Seq<Player>, d: u8, gs: int) -> bool {
    let i = first_named(base, "SimPlayer"@);
    if i < base.len() {
        now == base.update(i, sim_step_player(base[i], d, gs))
    } else {
        now == base
    }
}

impl Session {
    /// Synthesizes and drives the scripted remote players used for local
    /// testing in offline mode: an empty registry is seeded with a walking
    /// `SimPlayer` and a still `StaticPlayer`, and every couple of seconds
    /// the walker turns clockwise and takes one clamped step.
    pub fn simulate_other_players(&mut self, delta_time: u32)
        requires
            old(self).players.wf(),
        ensures
            final(self).players.wf(),
            final(self).stage == old(self).stage,
            final(self).username == old(self).username,
            final(self).map == old(self).map,
            final(self).nc == old(self).nc,
            final(self).players.self_player == old(self).players.self_player,
            ({
                let t2 = if old(self).sim_move_timer + delta_time > u32::MAX {
                    u32::MAX as int
                } else {
                    old(self).sim_move_timer + delta_time
                };
                let fires = t2 > 2000;
                let d2 = ((old(self).sim_direction + 1) % 4) as u8;
                &&& final(self).sim_move_timer == if fires {
                    0int
                } else {
                    t2
                }
                &&& final(self).sim_direction == if fires {
                    d2
                } else {
                    old(self).sim_direction
                }
                &&& if old(self).players.other_players@.len() == 0 {
                    let now = final(self).players.other_players@;
                    &&& now.len() == 2
                    &&& now[1].name@ == "StaticPlayer"@
                    &&& now[1] == new_remote_player(
                        now[1].name,
                        Position { x: 88, y: 40 },
                        Facing::East,
                    )
                    &&& now[0].name@ == "SimPlayer"@
                    &&& now[0] == if fires {
                        sim_step_player(
                            new_remote_player(
                                now[0].name,
                                Position { x: 56, y: 56 },
                                Facing::South,
                            ),
                            d2,
                            GRID_SIZE as int,
                        )
                    } else {
                        new_remote_player(
                            now[0].name,
                            Position { x: 56, y: 56 },
                            Facing::South,
                        )
                    }
                } else {
                    if fires {
                        sim_step_rel(
                            old(self).players.other_players@,
                            final(self).players.other_players@,
                            d2,
                            GRID_SIZE as int,
                        )
                    } else {
                        final(self).players.other_players == old(self).players.other_players
                    }
                }
            }),
    {
        let ghost orig = self.players.other_players@;
        if self.players.other_players.len() == 0 {
            let start_pos = Position::new(
                3 * GRID_SIZE + GRID_SIZE / 2,
                3 * GRID_SIZE + GRID_SIZE / 2,
            );
            self.players.add_or_update_player(
                String::from_str("SimPlayer"),
                start_pos,
                Facing::South,
            );
            let ghost mid = self.players.other_players@;
            let start_pos2 = Position::new(
                5 * GRID_SIZE + GRID_SIZE / 2,
                2 * GRID_SIZE + GRID_SIZE / 2,
            );
            self.players.add_or_update_player(
                String::from_str("StaticPlayer"),
                start_pos2,
                Facing::East,
            );
            proof {
                reveal_strlit("SimPlayer");
                reveal_strlit("StaticPlayer");
                assert("SimPlayer"@.len() == 9);
                assert("StaticPlayer"@.len() == 12);
                assert("SimPlayer"@ != "StaticPlayer"@);
                assert(mid.len() == 1);
                assert(mid[0].name@ == "SimPlayer"@);
                lemma_first_named_pin(mid, "StaticPlayer"@, 1);
                let now = self.players.other_players@;
                assert(now.subrange(0, 1)[0] == now[0]);
                assert(now[0] == mid[0]);
                assert(sim_seeded_rel(orig, now));
            }
        }
        let t2 = if self.sim_move_timer > u32::MAX - delta_time {
            u32::MAX
        } else {
            self.sim_move_timer + delta_time
        };
        if t2 > 2000 {
            self.sim_move_timer = 0;
            proof {
                vstd::arithmetic::div_mod::lemma_add_mod_noop(self.sim_direction as int, 1, 4);
            }
            self.sim_direction = (self.sim_direction % 4 + 1) % 4;
            let d = self.sim_direction;
            let ghost base = self.players.other_players@;
            let n = self.players.other_players.len();
            let mut i: usize = 0;
            while i < n
                invariant
                    0 <= i <= n,
                    n == self.players.other_players@.len(),
                    base == self.players.other_players@,
                    self.stage == old(self).stage,
                    self.username == old(self).username,
                    self.map == old(self).map,
                    self.nc == old(self).nc,
                    self.players.self_player == old(self).players.self_player,
                    self.players.wf(),
                    self.sim_move_timer == 0,
                    self.sim_direction == d,
                    d == ((old(self).sim_direction + 1) % 4) as u8,
                    2000 < (if old(self).sim_move_timer + delta_time > u32::MAX {
                        u32::MAX as int
                    } else {
                        old(self).sim_move_timer + delta_time
                    }),
                    sim_seeded_rel(old(self).players.other_players@, base),
                    forall|j: int|
                        0 <= j < i ==> (#[trigger] self.players.other_players@[j]).name@
                            != "SimPlayer"@,
                decreases n - i,
            {
                if str_eq(self.players.other_players[i].name.as_str(), "SimPlayer") {
                    proof {
                        lemma_first_named_pin(base, "SimPlayer"@, i as int);
                    }
                    let p = self.players.other_players.remove(i);
                    let stepped = step_sim_player(p, d, GRID_SIZE);
                    self.players.other_players.insert(i, stepped);
                    proof {
                        assert(self.players.other_players@ =~= base.update(
                            i as int,
                            sim_step_player(base[i as int], d, GRID_SIZE as int),
                        ));
                        lemma_names_update_same(
                            base,
                            i as int,
                            sim_step_player(base[i as int], d, GRID_SIZE as int),
                        );
                    }
                    return ;
                }
                i += 1;
            }
            proof {
                lemma_first_named_pin(base, "SimPlayer"@, n as int);
            }
        } else {
            self.sim_move_timer = t2;
        }
    }
}

/// Executable mirror of one scripted step.
fn step_sim_player(p: Player, d: u8, grid_size: i32) -> (r: Player)
    requires
        0 < grid_size <= 10000,
    ensures
        r == sim_step_player(p, d, grid_size as int),
{
    let facing = if d == 0 {
        Facing::North
    } else if d == 1 {
        Facing::East
    } else if d == 2 {
        Facing::South
    } else if d == 3 {
        Facing::West
    } else {
        Facing::South
    };
    let gs = grid_size as i64;
    let (sx, sy): (i64, i64) = match facing {
        Facing::North => (0, -gs),
        Facing::East => (gs, 0),
        Facing::South => (0, gs),
        Facing::West => (-gs, 0),
    };
    proof {
        let (dx, dy) = facing_step(facing);
        assert(sx as int == dx * gs as int && sy as int == dy * gs as int);
    }
    let nx = clamp_to_area(p.pos.x as i64 + sx, gs);
    let ny = clamp_to_area(p.pos.y as i64 + sy, gs);
    Player { pos: Position::new(nx, ny), direction: facing, is_moving: true, ..p }
}

/// Executable mirror of `clamp_coord`; the clamped value fits an `i32`.
fn clamp_to_area(v: i64, gs: i64) -> (r: i32)
    requires
        0 < gs <= 10000,
        i32::MIN - 10000 <= v <= i32::MAX as int + 10000,
    ensures
        r as int == clamp_coord(v as int, gs as int),
{
    if v < gs {
        gs as i32
    } else if v > gs * 10 {
        (gs * 10) as i32
    } else {
        v as i32
    }
}

} // verus!
