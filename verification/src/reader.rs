use vstd::prelude::*;

use crate::error::{is_consistent, IoFailure, IoFailureView};
use crate::failure::{disconnect_reason, is_disconnect_reason, names_reason};
use crate::desktop::{connect_event, is_connect_event};
use crate::models::{DisconnectReason, EventPayload, EventType};

verus! {

/// The size of the buffer that each read fills at most.
pub const READ_BUFFER_SIZE: usize = 65535;

/// What one read from a connection gave back.
pub enum ReadOutcome {
    /// The read succeeded with this many bytes at the front of the buffer;
    /// zero means the peer closed the stream.
    Received(usize),
    /// The read failed.
    Failed(IoFailure),
}

/// What the reading task does after one read: the event it reports, and
/// whether it goes on reading. When it stops, the connection is dropped from
/// the table.
pub struct ReadStep {
    pub event: EventPayload,
    pub keep_reading: bool,
}

/// A read goes on to the next one exactly when it brought at least one byte.
pub open spec fn continues_reading(outcome: ReadOutcome) -> bool {
    outcome matches ReadOutcome::Received(len) && len > 0
}

/// The event that a read outcome is reported as, for the connection `id` to
/// `endpoint`, with `buf` the bytes the read filled in.
pub open spec fn is_read_event(
    event: EventPayload,
    id: String,
    endpoint: String,
    buf: Seq<u8>,
    outcome: ReadOutcome,
) -> bool {
    &&& event.id == id
    &&& match (outcome, event.event) {
        (ReadOutcome::Received(len), EventType::Message { endpoint: ep, data }) =>
            len > 0 && ep == endpoint && data@ == buf.subrange(0, len as int),
        (ReadOutcome::Received(len), EventType::Disconnect { endpoint: ep, reason }) =>
            len == 0 && ep == endpoint && reason == DisconnectReason::Normal,
        (ReadOutcome::Failed(e), EventType::Disconnect { endpoint: ep, reason }) =>
            ep == endpoint && is_disconnect_reason(reason, e@),
        _ => false,
    }
}

/// Decides what follows one read on a connection: an orderly close (zero
/// bytes) reports a normal disconnect and stops; received bytes are forwarded
/// as a message and reading goes on; a failure reports a disconnect with the
/// classified reason and stops.
pub fn on_read(id: &String, endpoint: &String, buf: &[u8], outcome: ReadOutcome) -> (step: ReadStep)
    requires
        outcome matches ReadOutcome::Received(len) ==> len <= buf@.len(),
    ensures
        is_read_event(step.event, *id, *endpoint, buf@, outcome),
        step.keep_reading == continues_reading(outcome),
        step.event.id == *id,
        match outcome {
            ReadOutcome::Received(len) => if len > 0 {
                step.keep_reading && forwards_bytes(step.event.event, *endpoint, buf@, len as int)
            } else {
                !step.keep_reading && closes_normally(step.event.event, *endpoint)
            },
            ReadOutcome::Failed(e) => !step.keep_reading && closes_for(step.event.event, *endpoint, e@),
        },
{
    match outcome {
        ReadOutcome::Received(len) => {
            if len == 0 {
                ReadStep {
                    event: EventPayload {
                        id: id.clone(),
                        event: EventType::Disconnect {
                            endpoint: endpoint.clone(),
                            reason: DisconnectReason::Normal,
                        },
                    },
                    keep_reading: false,
                }
            } else {
                let data = received_bytes(buf, len);
                ReadStep {
                    event: EventPayload {
                        id: id.clone(),
                        event: EventType::Message { endpoint: endpoint.clone(), data },
                    },
                    keep_reading: true,
                }
            }
        },
        ReadOutcome::Failed(e) => {
            let reason = disconnect_reason(&e);
            ReadStep {
                event: EventPayload {
                    id: id.clone(),
                    event: EventType::Disconnect { endpoint: endpoint.clone(), reason },
                },
                keep_reading: false,
            }
        },
    }
}

/// The first `len` bytes of the buffer, copied out.
fn received_bytes(buf: &[u8], len: usize) -> (data: Vec<u8>)
    requires
        len <= buf@.len(),
    ensures
        data@ == buf@.subrange(0, len as int),
{
    let mut data: Vec<u8> = Vec::new();
    let mut i: usize = 0;
    while i < len
        invariant
            i <= len,
            len <= buf@.len(),
            data@ == buf@.subrange(0, i as int),
        decreases len - i,
    {
        data.push(buf[i]);
        i = i + 1;
    }
    data
}


/// The endpoint that an event names.
pub open spec fn event_endpoint(event: EventType) -> String {
    match event {
        EventType::Connect { endpoint } => endpoint,
        EventType::Disconnect { endpoint, .. } => endpoint,
        EventType::Message { endpoint, .. } => endpoint,
        EventType::Error { endpoint, .. } => endpoint,
    }
}

/// The events reported for one connection, in order: first the `Connect`,
/// then messages, and at most one `Disconnect`, which comes last. All of
/// them name the connection and its endpoint.
pub open spec fn is_lifecycle(events: Seq<EventPayload>, id: String, endpoint: String) -> bool {
    &&& events.len() >= 1
    &&& is_connect_event(events[0], id, endpoint)
    &&& forall|i: int| 0 <= i < events.len() ==> (#[trigger] events[i]).id == id
    &&& forall|i: int| 0 <= i < events.len() ==> event_endpoint((#[trigger] events[i]).event) == endpoint
    &&& forall|i: int| 0 < i < events.len() - 1 ==> (#[trigger] events[i]).event is Message
    &&& events.len() > 1 ==> (events.last().event is Message || events.last().event is Disconnect)
}

/// Whether the last event reported is the final `Disconnect`.
pub open spec fn has_ended(events: Seq<EventPayload>) -> bool {
    events.len() > 0 && events.last().event is Disconnect
}

struct SessionState {
    ended: bool,
    history: Ghost<Seq<EventPayload>>,
}

/// The reading side of one connection: it reports the connection, then each
/// read, until the read that ends it. It remembers the tag under which the
/// connection was recorded, so that it can drop exactly that connection from
/// the table when it ends.
pub struct ReadSession {
    id: String,
    endpoint: String,
    tag: u64,
    state: SessionState,
}

impl ReadSession {
    #[verifier::type_invariant]
    spec fn inv(&self) -> bool {
        &&& is_lifecycle(self.state.history@, self.id, self.endpoint)
        &&& self.state.ended == has_ended(self.state.history@)
    }

    /// The events reported so far.
    pub closed spec fn history(&self) -> Seq<EventPayload> {
        self.state.history@
    }

    /// Whether the session has reported its final event.
    pub closed spec fn ended(&self) -> bool {
        self.state.ended
    }

    /// The name of the connection.
    pub closed spec fn conn_id(&self) -> String {
        self.id
    }

    /// The endpoint of the connection.
    pub closed spec fn conn_endpoint(&self) -> String {
        self.endpoint
    }

    /// The tag the connection was recorded with.
    pub closed spec fn conn_tag(&self) -> u64 {
        self.tag
    }

    /// Starts the session of the connection `id` to `endpoint`, recorded with
    /// `tag`, and gives the `Connect` event that reports it.
    pub fn open(id: String, endpoint: String, tag: u64) -> (r: (ReadSession, EventPayload))
        ensures
            is_connect_event(r.1, id, endpoint),
            r.0.history() == seq![r.1],
            !r.0.ended(),
            r.0.conn_id() == id,
            r.0.conn_endpoint() == endpoint,
            r.0.conn_tag() == tag,
    {
        let event = connect_event(&id, &endpoint);
        let history: Ghost<Seq<EventPayload>> = Ghost(Seq::empty().push(event));
        let session = ReadSession { id, endpoint, tag, state: SessionState { ended: false, history } };
        (session, event)
    }

    /// The name of the connection.
    pub fn id(&self) -> (r: &String)
        ensures
            *r == self.conn_id(),
    {
        &self.id
    }

    /// The tag the connection was recorded with.
    pub fn tag(&self) -> (r: u64)
        ensures
            r == self.conn_tag(),
    {
        self.tag
    }

    /// Whether the session has reported its final event.
    pub fn is_ended(&self) -> (r: bool)
        ensures
            r == self.ended(),
    {
        self.state.ended
    }

    /// Takes one read: once the session has ended nothing more is reported;
    /// before that, the read is reported as `on_read` decides, and a read that
    /// stops reading ends the session. The events reported always keep the
    /// order of a connection's life.
    pub fn step(&mut self, buf: &[u8], outcome: ReadOutcome) -> (r: Option<ReadStep>)
        requires
            outcome matches ReadOutcome::Received(len) ==> len <= buf@.len(),
        ensures
            final(self).conn_id() == old(self).conn_id(),
            final(self).conn_endpoint() == old(self).conn_endpoint(),
            final(self).conn_tag() == old(self).conn_tag(),
            old(self).ended() ==> r is None && final(self).history() == old(self).history()
                && final(self).ended(),
            !old(self).ended() ==> (r matches Some(s) && is_read_event(
                s.event,
                old(self).conn_id(),
                old(self).conn_endpoint(),
                buf@,
                outcome,
            ) && s.keep_reading == continues_reading(outcome) && final(self).history()
                == old(self).history().push(s.event) && final(self).ended() == !s.keep_reading),
            is_lifecycle(final(self).history(), final(self).conn_id(), final(self).conn_endpoint()),
            final(self).ended() == has_ended(final(self).history()),
    {
        proof {
            use_type_invariant(&*self);
        }
        if self.state.ended {
            return None;
        }
        let step = on_read(&self.id, &self.endpoint, buf, outcome);
        let ghost old_history = self.state.history@;
        let new_history: Ghost<Seq<EventPayload>> = Ghost(old_history.push(step.event));
        proof {
            assert(new_history@[0] == old_history[0]);
            assert forall|i: int| 0 <= i < new_history@.len() implies (#[trigger] new_history@[i]).id
                == self.id by {
                if i < old_history.len() {
                    assert(new_history@[i] == old_history[i]);
                }
            }
            assert forall|i: int| 0 <= i < new_history@.len() implies event_endpoint(
                (#[trigger] new_history@[i]).event,
            ) == self.endpoint by {
                if i < old_history.len() {
                    assert(new_history@[i] == old_history[i]);
                }
            }
            assert forall|i: int| 0 < i < new_history@.len() - 1 implies (#[trigger] new_history@[i]).event is Message by {
                assert(new_history@[i] == old_history[i]);
                if i == old_history.len() - 1 {
                    assert(!has_ended(old_history));
                }
            }
        }
        self.state = SessionState { ended: !step.keep_reading, history: new_history };
        Some(step)
    }
}

/// In the events of a connection only the first is a `Connect`, and a
/// `Disconnect` can only be the last.
pub proof fn law_connect_first_disconnect_last(events: Seq<EventPayload>, id: String, endpoint: String)
    requires
        is_lifecycle(events, id, endpoint),
    ensures
        events[0].event is Connect,
        forall|i: int| 0 < i < events.len() ==> !((#[trigger] events[i]).event is Connect),
        forall|i: int| 0 <= i < events.len() && (#[trigger] events[i]).event is Disconnect ==> i
            == events.len() - 1,
{
    assert forall|i: int| 0 < i < events.len() implies !((#[trigger] events[i]).event is Connect) by {
        if i < events.len() - 1 {
            assert(events[i].event is Message);
        }
    }
    assert forall|i: int| 0 <= i < events.len() && (#[trigger] events[i]).event is Disconnect implies i
        == events.len() - 1 by {
        if 0 < i < events.len() - 1 {
            assert(events[i].event is Message);
        }
    }
}

/// The event is a message from `endpoint` that carries exactly the first
/// `len` bytes of `buf`.
pub open spec fn forwards_bytes(event: EventType, endpoint: String, buf: Seq<u8>, len: int) -> bool {
    event matches EventType::Message { endpoint: ep, data } && ep == endpoint && data@.len() == len
        && forall|j: int| 0 <= j < len ==> data@[j] == buf[j]
}

/// The event is the orderly close of the connection to `endpoint`.
pub open spec fn closes_normally(event: EventType, endpoint: String) -> bool {
    event matches EventType::Disconnect { endpoint: ep, reason } && ep == endpoint && reason is Normal
}

/// The event closes the connection to `endpoint` for the failure `e`, with
/// the reason that names it.
pub open spec fn closes_for(event: EventType, endpoint: String, e: IoFailureView) -> bool {
    event matches EventType::Disconnect { endpoint: ep, reason } && ep == endpoint && names_reason(
        reason,
        e,
    )
}

/// What a read is reported as: a read of `len > 0` bytes is a message that
/// carries exactly the first `len` bytes of the buffer, and reading goes on;
/// a read of zero bytes is a normal disconnect, and reading stops; a failed
/// read is a disconnect with the reason the failure is classified as (a reset
/// for every reset kind or the Windows reset code, a timeout for every
/// timeout or would-block kind, otherwise its description), and reading stops.
pub proof fn law_read_meaning(
    event: EventPayload,
    id: String,
    endpoint: String,
    buf: Seq<u8>,
    outcome: ReadOutcome,
)
    requires
        is_read_event(event, id, endpoint, buf, outcome),
        outcome matches ReadOutcome::Received(len) ==> len <= buf.len(),
        outcome matches ReadOutcome::Failed(e) ==> is_consistent(e@),
    ensures
        event.id == id,
        match outcome {
            ReadOutcome::Received(len) => if len > 0 {
                continues_reading(outcome) && forwards_bytes(event.event, endpoint, buf, len as int)
            } else {
                !continues_reading(outcome) && closes_normally(event.event, endpoint)
            },
            ReadOutcome::Failed(e) => !continues_reading(outcome) && closes_for(event.event, endpoint, e@),
        },
{
}

/// A reading task goes on exactly while it reports messages: the event that
/// ends it is always a disconnect, and a disconnect always ends it.
pub proof fn law_reading_stops_exactly_on_disconnect(
    event: EventPayload,
    id: String,
    endpoint: String,
    buf: Seq<u8>,
    outcome: ReadOutcome,
)
    requires
        is_read_event(event, id, endpoint, buf, outcome),
    ensures
        continues_reading(outcome) <==> event.event is Message,
        !continues_reading(outcome) <==> event.event is Disconnect,
{
}

} // verus!
