//! A verified server endpoint for the early phases of a length-prefixed,
//! stateful game-network protocol: framing a byte stream into packets,
//! decoding their fields, and driving the per-connection handshake and
//! login state machine. Transport I/O stays outside this crate.

pub mod client;
pub mod client_state;
pub mod config;
pub mod errors;
pub mod mc_packet;
pub mod player;
pub mod server;
pub mod util;
pub mod uuid;

