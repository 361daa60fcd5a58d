//! Connection bookkeeping, read-loop decisions and error classification for a
//! TCP client that reports what happens on each connection as events.

pub mod desktop;
pub mod error;
pub mod failure;
pub mod history;
pub mod mobile;
pub mod models;
pub mod reader;

pub use desktop::{
    connect_event, first_address, init, AddressRole, Tcpclient, EVENT_NAME,
    REPLACE_SETTLE_MILLIS,
};
pub use error::{Error, IoErrorKind, IoFailure, WSAECONNRESET};
pub use history::TableOp;
pub use failure::{disconnect_reason, is_connection_reset_error, is_timeout_error};
pub use models::{DisconnectReason, EventPayload, EventType, TcpConnectionState};
pub use reader::{on_read, ReadOutcome, ReadSession, ReadStep, READ_BUFFER_SIZE};
