use vstd::prelude::*;

use crate::error::Error;

verus! {

/// The message of the error that every operation gives on mobile platforms.
pub open spec fn unsupported_message() -> Seq<char> {
    "TCP client not supported on mobile yet"@
}

/// Whether an outcome is the error that mobile platforms answer with.
pub open spec fn is_unsupported(r: Result<(), Error>) -> bool {
    r matches Err(Error::ConnectionError(m)) && m@ == unsupported_message()
}

/// The client on mobile platforms; setting it up always succeeds.
pub fn init() -> (r: Result<Tcpclient, Error>)
    ensures
        r is Ok,
{
    Ok(Tcpclient {})
}

/// The client on mobile platforms, where TCP connections are not offered:
/// every operation that would open, close or use a connection fails, and no
/// connection is ever open.
pub struct Tcpclient {}

impl Tcpclient {
    fn unsupported() -> (r: Result<(), Error>)
        ensures
            is_unsupported(r),
    {
        Err(Error::ConnectionError("TCP client not supported on mobile yet".to_string()))
    }

    /// Fails: connections are not offered on mobile platforms.
    pub fn connect(&self, id: String, endpoint: String) -> (r: Result<(), Error>)
        ensures
            is_unsupported(r),
    {
        Self::unsupported()
    }

    /// Fails: connections are not offered on mobile platforms.
    pub fn connect_with_bind(&self, id: String, local_addr: String, endpoint: String) -> (r: Result<
        (),
        Error,
    >)
        ensures
            is_unsupported(r),
    {
        Self::unsupported()
    }

    /// Fails: connections are not offered on mobile platforms.
    pub fn disconnect(&self, id: String) -> (r: Result<(), Error>)
        ensures
            is_unsupported(r),
    {
        Self::unsupported()
    }

    /// Fails: connections are not offered on mobile platforms.
    pub fn send(&self, id: String, data: Vec<u8>) -> (r: Result<(), Error>)
        ensures
            is_unsupported(r),
    {
        Self::unsupported()
    }

    /// No connection is ever open on mobile platforms.
    pub fn is_connected(&self, id: String) -> (r: bool)
        ensures
            !r,
    {
        false
    }

    /// No connection is ever open on mobile platforms.
    pub fn get_connections(&self) -> (r: Vec<String>)
        ensures
            r@.len() == 0,
    {
        Vec::new()
    }
}

} // verus!
