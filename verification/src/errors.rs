//! Typed errors for the codec, the per-connection session and the server
//! startup path. Every failure on adversarial input is reported as a value;
//! no verified function of this crate panics.

use vstd::prelude::*;

verus! {

/// Errors caused by Minecraft packets
#[derive(Clone, Copy, Debug, PartialEq, Eq, Structural)]
pub enum PacketError {
    /// The buffer ended before the field did; more input may repair it.
    Truncated,
    /// A variable-length integer used more groups than its type allows.
    Overlong,
    /// A text field held bytes that are not valid UTF-8.
    InvalidText,
    /// The bytes cannot be a frame no matter what input follows.
    Malformed,
    /// A whole frame is not available yet; the caller must read more input.
    NeedMoreData,
}

/// Errors caused by the Minecraft client
#[derive(Debug)]
pub enum ClientError {
    /// Another instance of the client session is already running.
    AlreadyRunning,
    /// Client sent a packet id outside the current state's table.
    InvalidPacketID(i32),
    /// Client named a server host other than the configured one.
    IncorrectHost(String),
    /// Client is on a different protocol version (got, expected).
    InvalidProtocolVersion(i32, i32),
    /// A packet field could not be decoded.
    PacketError(PacketError),
    /// Client asked for a protocol state that handshaking cannot reach.
    InvalidStateTransition(i32),
    /// The requested mode needs an external identity authority.
    Unsupported,
}

/// Errors caused by the server
#[derive(Debug)]
pub enum ServerError {
    /// Required property in the server configuration is missing.
    MissingProperty(String),
    /// Binding the listening socket failed (host, port, cause).
    SocketBindFailed(String, u16, String),
}

} // verus!
