use vstd::prelude::*;

use crate::error::{is_consistent, IoErrorKind, IoFailure, IoFailureView, WSAECONNRESET};
use crate::models::DisconnectReason;

verus! {

/// An error means that the connection was reset when its kind says the peer
/// reset or aborted it, or when it carries the Windows reset code. (On other
/// systems a reset by the peer has the kind `ConnectionReset`.)
pub open spec fn spec_is_reset(e: IoFailureView) -> bool {
    ||| e.kind == IoErrorKind::ConnectionReset
    ||| e.kind == IoErrorKind::ConnectionAborted
    ||| e.raw_os_error == Some(WSAECONNRESET)
}

/// An error means a timeout when its kind is a timeout or a would-block.
pub open spec fn spec_is_timeout(e: IoFailureView) -> bool {
    ||| e.kind == IoErrorKind::TimedOut
    ||| e.kind == IoErrorKind::WouldBlock
}

/// Whether `r` is the reason a read failure `e` closes a connection with: a
/// reset, then a timeout, and otherwise the error's own description.
pub open spec fn is_disconnect_reason(r: DisconnectReason, e: IoFailureView) -> bool {
    if spec_is_reset(e) {
        r is Reset
    } else if spec_is_timeout(e) {
        r is Timeout
    } else {
        r matches DisconnectReason::Error(m) && m@ == e.message
    }
}

/// Whether `r` names the failure `e` as intended: `Reset` for a failure
/// whose kind is a reset or an abort, or that carries the Windows reset
/// code; `Timeout` for a failure whose kind is a timeout or a would-block;
/// for any other failure, its own description.
pub open spec fn names_reason(r: DisconnectReason, e: IoFailureView) -> bool {
    let reset_kind = e.kind == IoErrorKind::ConnectionReset || e.kind
        == IoErrorKind::ConnectionAborted || e.raw_os_error == Some(10054i32);
    let timeout_kind = e.kind == IoErrorKind::TimedOut || e.kind == IoErrorKind::WouldBlock;
    &&& reset_kind ==> r is Reset
    &&& timeout_kind ==> r is Timeout
    &&& !reset_kind && !timeout_kind ==> (r matches DisconnectReason::Error(m) && m@ == e.message)
}

/// Checks whether the error indicates that the connection was reset.
pub fn is_connection_reset_error(e: &IoFailure) -> (r: bool)
    ensures
        r == spec_is_reset(e@),
        e@.kind == IoErrorKind::ConnectionReset ==> r,
        e@.kind == IoErrorKind::ConnectionAborted ==> r,
        e@.raw_os_error == Some(10054i32) ==> r,
        r ==> (e@.kind == IoErrorKind::ConnectionReset || e@.kind == IoErrorKind::ConnectionAborted
            || e@.raw_os_error == Some(10054i32)),
{
    let kind_says_reset = match e.kind() {
        IoErrorKind::ConnectionReset => true,
        IoErrorKind::ConnectionAborted => true,
        _ => false,
    };
    let code_says_reset = match e.raw_os_error() {
        Some(code) => code == WSAECONNRESET,
        None => false,
    };
    kind_says_reset || code_says_reset
}

/// Checks whether the error indicates that the connection timed out.
pub fn is_timeout_error(e: &IoFailure) -> (r: bool)
    ensures
        r == spec_is_timeout(e@),
        r ==> !spec_is_reset(e@),
        e@.kind == IoErrorKind::TimedOut ==> r,
        e@.kind == IoErrorKind::WouldBlock ==> r,
        r ==> (e@.kind == IoErrorKind::TimedOut || e@.kind == IoErrorKind::WouldBlock),
{
    let kind = e.kind();
    proof {
        law_reset_and_timeout_disjoint(e@);
    }
    match kind {
        IoErrorKind::TimedOut => true,
        IoErrorKind::WouldBlock => true,
        _ => false,
    }
}

/// The reason with which a failed read closes the connection.
pub fn disconnect_reason(e: &IoFailure) -> (r: DisconnectReason)
    ensures
        is_disconnect_reason(r, e@),
        names_reason(r, e@),
{
    let reset = is_connection_reset_error(e);
    let timeout = is_timeout_error(e);
    if reset {
        DisconnectReason::Reset
    } else if timeout {
        DisconnectReason::Timeout
    } else {
        DisconnectReason::Error(e.message().clone())
    }
}

/// No error is both a reset and a timeout, so testing for a reset first
/// never hides a timeout.
pub proof fn law_reset_and_timeout_disjoint(e: IoFailureView)
    requires
        is_consistent(e),
    ensures
        !(spec_is_reset(e) && spec_is_timeout(e)),
{
}

/// What a reset is: a failure is classified as a reset exactly when its
/// kind says the peer reset or aborted the connection, or when it carries the
/// Windows reset code; its code does not matter otherwise.
pub proof fn law_reset_meaning(e: IoFailureView)
    ensures
        e.kind == IoErrorKind::ConnectionReset ==> spec_is_reset(e),
        e.kind == IoErrorKind::ConnectionAborted ==> spec_is_reset(e),
        e.raw_os_error == Some(10054i32) ==> spec_is_reset(e),
        spec_is_reset(e) ==> (e.kind == IoErrorKind::ConnectionReset || e.kind
            == IoErrorKind::ConnectionAborted || e.raw_os_error == Some(10054i32)),
{
}

/// What a timeout is: a failure is classified as a timeout exactly when its
/// kind is a timeout or a would-block, whatever its code.
pub proof fn law_timeout_meaning(e: IoFailureView)
    ensures
        e.kind == IoErrorKind::TimedOut ==> spec_is_timeout(e),
        e.kind == IoErrorKind::WouldBlock ==> spec_is_timeout(e),
        spec_is_timeout(e) ==> (e.kind == IoErrorKind::TimedOut || e.kind == IoErrorKind::WouldBlock),
{
}

/// The reason a failed read closes its connection with: `Reset` for every
/// reset (by kind, or by the Windows reset code), `Timeout` for every timeout
/// or would-block, and otherwise the failure's own description.
pub proof fn law_disconnect_reason_meaning(r: DisconnectReason, e: IoFailureView)
    requires
        is_consistent(e),
        is_disconnect_reason(r, e),
    ensures
        names_reason(r, e),
{
}

} // verus!
