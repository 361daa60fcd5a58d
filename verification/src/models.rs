use vstd::prelude::*;

verus! {

/// A connection as the front end sees it: the name it was opened under and
/// the remote endpoint it reaches.
#[derive(Debug, Clone)]
pub struct TcpConnectionState {
    pub id: String,
    pub endpoint: String,
}

/// What is sent to the front end: the connection's name and what happened.
#[derive(Debug, Clone)]
pub struct EventPayload {
    pub id: String,
    pub event: EventType,
}

/// What can happen on a connection.
#[derive(Debug, Clone)]
pub enum EventType {
    /// The connection was established.
    Connect { endpoint: String },
    /// The connection was closed.
    Disconnect { endpoint: String, reason: DisconnectReason },
    /// Bytes arrived from the server.
    Message { endpoint: String, data: Vec<u8> },
    /// Something went wrong.
    Error { endpoint: String, message: String },
}

/// Why a connection was closed.
#[derive(Debug, Clone)]
pub enum DisconnectReason {
    /// The peer closed the stream in an orderly way.
    Normal,
    /// The peer reset or aborted the connection.
    Reset,
    /// The connection timed out.
    Timeout,
    /// Any other failure, with its description.
    Error(String),
}

} // verus!
