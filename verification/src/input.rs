//! Movement and key-press state handed to the core by the input layer, and
//! the game's fixed size constants.
use vstd::prelude::*;

verus! {

use crate::net::NetClient;
use crate::protocol::Facing;
use crate::protocol::Position;

/// How far a player moves per tick, in pixels.
pub const MOVEMENT_SPEED: i32 = 1;

/// The side length of the square world, in pixels.
pub const WORLD_SIZE: i32 = 800;

/// The side length of a player's full sprite box, in pixels.
pub const PLAYER_SIZE: i32 = 16;

/// One tick's worth of movement input: the direction faced and the position
/// delta to attempt.
pub struct MovementState {
    pub is_moving: bool,
    pub direction: Facing,
    pub dx: i32,
    pub dy: i32,
}

/// Key-press events that are actions rather than movement.
pub struct KeyPressState {
    pub switch_character: bool,
}

/// Sends the per-tick movement report through the client: identification,
/// the facing carried by the input, and, while the player is moving, the
/// absolute position. Send failures are ignored; transport errors never
/// abort the session.
pub fn send_movement_to_server(
    nc: &mut NetClient,
    movement: &MovementState,
    username: &str,
    player_pos: &Position,
)
    ensures
        *final(nc) == *old(nc),
{
    let mut msgs = crate::session::movement_messages(username, movement, player_pos);
    while msgs.len() > 0
        invariant
            *nc == *old(nc),
        decreases msgs@.len(),
    {
        let msg = msgs.remove(0);
        let _ = nc.send(msg);
    }
}

} // verus!
