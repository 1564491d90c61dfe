//! A real-time fan-out hub: sessions grouped into named rooms, a coordinator
//! that owns session identity and room membership, the per-connection
//! session state machine that interprets inbound frames, and the shared
//! playlist state whose changes are broadcast to a room.

pub mod laws;
pub mod playlist;
pub mod registry;
pub mod session;
