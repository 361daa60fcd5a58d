use vstd::prelude::*;

verus! {

/// The kinds of I/O failure that the library tells apart; every other kind
/// is `Other`.
#[derive(Debug, Clone, Copy, PartialEq, Eq, Structural)]
pub enum IoErrorKind {
    ConnectionReset,
    ConnectionAborted,
    TimedOut,
    WouldBlock,
    Other,
}

/// The code that Windows reports for a connection reset by the peer.
pub const WSAECONNRESET: i32 = 10054;

/// What the library reads of an I/O error, as plain values.
pub struct IoFailureView {
    pub kind: IoErrorKind,
    pub raw_os_error: Option<i32>,
    pub message: Seq<char>,
}

/// The plain values of a failure with this kind, code and description.
pub open spec fn failure_view(kind: IoErrorKind, raw_os_error: Option<i32>, message: Seq<char>) -> IoFailureView {
    IoFailureView { kind, raw_os_error, message }
}

/// The Windows code for a connection reset never comes with a timeout or
/// would-block kind.
pub open spec fn is_consistent(v: IoFailureView) -> bool {
    v.raw_os_error == Some(WSAECONNRESET) ==> !(v.kind == IoErrorKind::TimedOut || v.kind
        == IoErrorKind::WouldBlock)
}

/// What the library reads of an I/O error: its kind, the operating system's
/// error code where there is one, and its description. Kind and code always
/// agree (see `is_consistent`).
#[derive(Debug)]
pub struct IoFailure {
    kind: IoErrorKind,
    raw_os_error: Option<i32>,
    message: String,
}

impl View for IoFailure {
    type V = IoFailureView;

    closed spec fn view(&self) -> IoFailureView {
        IoFailureView { kind: self.kind, raw_os_error: self.raw_os_error, message: self.message@ }
    }
}

impl IoFailure {
    #[verifier::type_invariant]
    spec fn inv(&self) -> bool {
        is_consistent(self@)
    }

    /// The failure with this kind, code and description, or nothing where
    /// kind and code disagree.
    pub fn new(kind: IoErrorKind, raw_os_error: Option<i32>, message: String) -> (r: Option<IoFailure>)
        ensures
            r is Some <==> is_consistent(failure_view(kind, raw_os_error, message@)),
            r matches Some(f) ==> f@ == failure_view(kind, raw_os_error, message@),
    {
        let timeout_kind = match kind {
            IoErrorKind::TimedOut => true,
            IoErrorKind::WouldBlock => true,
            _ => false,
        };
        let reset_code = match raw_os_error {
            Some(code) => code == WSAECONNRESET,
            None => false,
        };
        if reset_code && timeout_kind {
            None
        } else {
            Some(IoFailure { kind, raw_os_error, message })
        }
    }

    /// The failure's kind.
    pub fn kind(&self) -> (k: IoErrorKind)
        ensures
            k == self@.kind,
            is_consistent(self@),
    {
        proof {
            use_type_invariant(self);
        }
        self.kind
    }

    /// The operating system's error code, where there is one.
    pub fn raw_os_error(&self) -> (c: Option<i32>)
        ensures
            c == self@.raw_os_error,
            is_consistent(self@),
    {
        proof {
            use_type_invariant(self);
        }
        self.raw_os_error
    }

    /// The failure's description.
    pub fn message(&self) -> (m: &String)
        ensures
            m@ == self@.message,
    {
        &self.message
    }
}

/// The errors of the client.
#[derive(Debug)]
pub enum Error {
    /// An I/O operation failed.
    Io(IoFailure),
    /// A connection could not be set up.
    ConnectionError(String),
    /// No connection is open under the given name.
    ConnectionNotFound(String),
}

} // verus!
