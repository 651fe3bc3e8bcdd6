//! Core of a multiplayer tile-based game client: the wire-protocol codec,
//! the transport state with an offline fallback, the login session state
//! machine, the room/door map used to validate movement, and the registry
//! that reconciles remote player updates into a consistent local view.
pub mod event;
pub mod filter;
pub mod input;
pub mod map;
pub mod net;
pub mod player;
pub mod protocol;
pub mod session;
pub mod text;
pub mod zones;

pub use protocol::Facing;
pub use protocol::Position;
pub use protocol::ProtocolError;
