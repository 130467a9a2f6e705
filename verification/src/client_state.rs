//! The protocol phase of one connection. The phase decides which packet ids
//! are legal; transitions are driven by handlers and never reverse.

use vstd::prelude::*;

verus! {

/// The protocol phase of a connection.
#[derive(Clone, Copy, Debug, PartialEq, Eq, Structural)]
pub enum ClientState {
    Handshake,
    Status,
    Login,
    Configuration,
    Play,
}

/// The phase named by a wire value, if any.
pub open spec fn spec_state_of(value: i32) -> Option<ClientState> {
    if value == 0 {
        Some(ClientState::Handshake)
    } else if value == 1 {
        Some(ClientState::Status)
    } else if value == 2 {
        Some(ClientState::Login)
    } else if value == 3 {
        Some(ClientState::Configuration)
    } else if value == 4 {
        Some(ClientState::Play)
    } else {
        None
    }
}

impl ClientState {
    /// The phase a wire value names; values outside the table are rejected
    /// rather than trusted.
    pub fn from_i32(value: i32) -> (r: Option<ClientState>)
        ensures
            r == spec_state_of(value),
    {
        match value {
            0 => Some(ClientState::Handshake),
            1 => Some(ClientState::Status),
            2 => Some(ClientState::Login),
            3 => Some(ClientState::Configuration),
            4 => Some(ClientState::Play),
            _ => None,
        }
    }
}

} // verus!
