use tcpclient::desktop::{connect_event, first_address, init, AddressRole, Tcpclient};
use tcpclient::mobile;
use tcpclient::{
    disconnect_reason, is_connection_reset_error, is_timeout_error, on_read, DisconnectReason,
    Error, EventType, IoErrorKind, IoFailure, ReadOutcome, ReadSession, EVENT_NAME,
    READ_BUFFER_SIZE, REPLACE_SETTLE_MILLIS, WSAECONNRESET,
};

fn failure(kind: IoErrorKind, code: Option<i32>, message: &str) -> IoFailure {
    IoFailure::new(kind, code, message.to_string()).unwrap()
}

fn record(t: &mut Tcpclient<u32>, id: String, endpoint: String, handle: u32) -> Option<u32> {
    let tag = t.reserve_tag().unwrap();
    assert!(t.is_fresh_tag(tag));
    t.connect(id, endpoint, tag, handle)
}

fn s(text: &str) -> String {
    text.to_string()
}

#[test]
fn reset_kinds_are_resets() {
    assert!(is_connection_reset_error(&failure(IoErrorKind::ConnectionReset, None, "r")));
    assert!(is_connection_reset_error(&failure(IoErrorKind::ConnectionAborted, None, "a")));
}

#[test]
fn windows_reset_code_is_reset() {
    assert_eq!(WSAECONNRESET, 10054);
    assert!(is_connection_reset_error(&failure(IoErrorKind::Other, Some(10054), "w")));
}

#[test]
fn unix_codes_alone_are_not_resets() {
    // On Linux 53 is EBADR; a real reset there has kind ConnectionReset.
    assert!(!is_connection_reset_error(&failure(IoErrorKind::Other, Some(53), "u")));
    assert!(!is_connection_reset_error(&failure(IoErrorKind::Other, Some(104), "u")));
    assert!(is_connection_reset_error(&failure(IoErrorKind::ConnectionReset, Some(104), "r")));
}

#[test]
fn other_errors_are_not_resets() {
    assert!(!is_connection_reset_error(&failure(IoErrorKind::Other, None, "x")));
    assert!(!is_connection_reset_error(&failure(IoErrorKind::TimedOut, Some(104), "x")));
    assert!(!is_connection_reset_error(&failure(IoErrorKind::WouldBlock, Some(0), "x")));
}

#[test]
fn timeout_kinds_are_timeouts() {
    assert!(is_timeout_error(&failure(IoErrorKind::TimedOut, None, "t")));
    assert!(is_timeout_error(&failure(IoErrorKind::WouldBlock, None, "b")));
    assert!(!is_timeout_error(&failure(IoErrorKind::ConnectionReset, None, "r")));
    assert!(!is_timeout_error(&failure(IoErrorKind::Other, Some(10054), "r")));
}

#[test]
fn timeout_kind_with_reset_code_is_refused() {
    assert!(IoFailure::new(IoErrorKind::TimedOut, Some(10054), s("t")).is_none());
    assert!(IoFailure::new(IoErrorKind::WouldBlock, Some(10054), s("t")).is_none());
    assert!(IoFailure::new(IoErrorKind::TimedOut, Some(110), s("t")).is_some());
}

#[test]
fn reset_and_timeout_never_both() {
    let kinds = [
        IoErrorKind::ConnectionReset,
        IoErrorKind::ConnectionAborted,
        IoErrorKind::TimedOut,
        IoErrorKind::WouldBlock,
        IoErrorKind::Other,
    ];
    for kind in kinds {
        for code in [None, Some(10054), Some(104), Some(0)] {
            if let Some(e) = IoFailure::new(kind, code, s("m")) {
                assert!(!(is_connection_reset_error(&e) && is_timeout_error(&e)));
            }
        }
    }
}

#[test]
fn reset_reason() {
    let r = disconnect_reason(&failure(IoErrorKind::ConnectionAborted, None, "a"));
    assert!(matches!(r, DisconnectReason::Reset));
}

#[test]
fn timeout_reason() {
    let r = disconnect_reason(&failure(IoErrorKind::WouldBlock, None, "t"));
    assert!(matches!(r, DisconnectReason::Timeout));
}

#[test]
fn other_failure_keeps_its_message() {
    let r = disconnect_reason(&failure(IoErrorKind::Other, Some(32), "broken pipe"));
    match r {
        DisconnectReason::Error(m) => assert_eq!(m, "broken pipe"),
        other => panic!("unexpected reason {:?}", other),
    }
}

#[test]
fn zero_byte_read_is_normal_disconnect() {
    let buf = [9u8; 8];
    let step = on_read(&s("c1"), &s("10.0.0.1:80"), &buf, ReadOutcome::Received(0));
    assert!(!step.keep_reading);
    assert_eq!(step.event.id, "c1");
    match step.event.event {
        EventType::Disconnect { endpoint, reason } => {
            assert_eq!(endpoint, "10.0.0.1:80");
            assert!(matches!(reason, DisconnectReason::Normal));
        }
        other => panic!("unexpected event {:?}", other),
    }
}

#[test]
fn received_bytes_are_forwarded_exactly() {
    let mut buf = vec![0u8; READ_BUFFER_SIZE];
    buf[0] = 0x01;
    buf[1] = 0x02;
    buf[2] = 0x03;
    buf[3] = 0xff;
    let step = on_read(&s("c1"), &s("h:1"), &buf, ReadOutcome::Received(3));
    assert!(step.keep_reading);
    match step.event.event {
        EventType::Message { endpoint, data } => {
            assert_eq!(endpoint, "h:1");
            assert_eq!(data, vec![0x01, 0x02, 0x03]);
        }
        other => panic!("unexpected event {:?}", other),
    }
}

#[test]
fn full_buffer_read_is_forwarded() {
    let buf: Vec<u8> = (0..READ_BUFFER_SIZE).map(|i| (i % 251) as u8).collect();
    let step = on_read(&s("c"), &s("h"), &buf, ReadOutcome::Received(READ_BUFFER_SIZE));
    assert!(step.keep_reading);
    match step.event.event {
        EventType::Message { data, .. } => assert_eq!(data, buf),
        other => panic!("unexpected event {:?}", other),
    }
}

#[test]
fn failed_read_disconnects_with_reason() {
    let buf = [0u8; 4];
    let outcome = ReadOutcome::Failed(failure(IoErrorKind::ConnectionReset, None, "reset"));
    let step = on_read(&s("c2"), &s("h:2"), &buf, outcome);
    assert!(!step.keep_reading);
    assert_eq!(step.event.id, "c2");
    match step.event.event {
        EventType::Disconnect { endpoint, reason } => {
            assert_eq!(endpoint, "h:2");
            assert!(matches!(reason, DisconnectReason::Reset));
        }
        other => panic!("unexpected event {:?}", other),
    }
}

#[test]
fn failed_read_with_other_error_carries_message() {
    let buf = [0u8; 4];
    let outcome = ReadOutcome::Failed(failure(IoErrorKind::Other, None, "oops"));
    let step = on_read(&s("c3"), &s("h:3"), &buf, outcome);
    assert!(!step.keep_reading);
    match step.event.event {
        EventType::Disconnect { reason: DisconnectReason::Error(m), .. } => assert_eq!(m, "oops"),
        other => panic!("unexpected event {:?}", other),
    }
}

#[test]
fn init_has_no_connections() {
    let t: Tcpclient<u32> = init().unwrap();
    assert!(t.get_connections().is_empty());
    assert!(!t.is_connected(s("any")));
}

#[test]
fn connect_then_is_connected() {
    let mut t: Tcpclient<u32> = Tcpclient::new();
    assert!(record(&mut t, s("my-conn"), s("192.168.1.100:8080"), 1).is_none());
    assert!(t.is_connected(s("my-conn")));
    assert!(!t.is_connected(s("other")));
    assert_eq!(t.get_connections(), vec![s("my-conn")]);
}

#[test]
fn send_finds_the_writer() {
    let mut t: Tcpclient<u32> = Tcpclient::new();
    record(&mut t, s("a"), s("h:1"), 11);
    record(&mut t, s("b"), s("h:2"), 22);
    assert_eq!(*t.send(s("b")).unwrap(), 22);
    assert_eq!(*t.send(s("a")).unwrap(), 11);
}

#[test]
fn send_to_unknown_connection_fails() {
    let t: Tcpclient<u32> = Tcpclient::new();
    match t.send(s("ghost")) {
        Err(Error::ConnectionNotFound(id)) => assert_eq!(id, "ghost"),
        other => panic!("unexpected result {:?}", other.map(|h| *h)),
    }
}

#[test]
fn disconnect_hands_back_handle() {
    let mut t: Tcpclient<u32> = Tcpclient::new();
    record(&mut t, s("a"), s("h:1"), 5);
    assert!(matches!(t.disconnect(s("a")), Ok(5)));
    assert!(!t.is_connected(s("a")));
}

#[test]
fn disconnect_unknown_fails_and_keeps_table() {
    let mut t: Tcpclient<u32> = Tcpclient::new();
    record(&mut t, s("a"), s("h:1"), 5);
    match t.disconnect(s("b")) {
        Err(Error::ConnectionNotFound(id)) => assert_eq!(id, "b"),
        other => panic!("unexpected result {:?}", other),
    }
    assert!(t.is_connected(s("a")));
}

#[test]
fn disconnect_twice_fails_second_time() {
    let mut t: Tcpclient<u32> = Tcpclient::new();
    record(&mut t, s("a"), s("h:1"), 5);
    assert!(t.disconnect(s("a")).is_ok());
    assert!(matches!(t.disconnect(s("a")), Err(Error::ConnectionNotFound(_))));
}

#[test]
fn reconnect_replaces_previous() {
    let mut t: Tcpclient<u32> = Tcpclient::new();
    record(&mut t, s("a"), s("h:1"), 1);
    assert_eq!(record(&mut t, s("a"), s("h:2"), 2), Some(1));
    assert_eq!(t.get_connections(), vec![s("a")]);
    assert_eq!(*t.send(s("a")).unwrap(), 2);
}

#[test]
fn other_names_untouched() {
    let mut t: Tcpclient<u32> = Tcpclient::new();
    record(&mut t, s("a"), s("h:1"), 1);
    record(&mut t, s("b"), s("h:2"), 2);
    record(&mut t, s("c"), s("h:3"), 3);
    assert!(t.disconnect(s("b")).is_ok());
    assert_eq!(*t.send(s("a")).unwrap(), 1);
    assert_eq!(*t.send(s("c")).unwrap(), 3);
    let mut names = t.get_connections();
    names.sort();
    assert_eq!(names, vec![s("a"), s("c")]);
}

#[test]
fn remove_after_reader_stops() {
    let mut t: Tcpclient<u32> = Tcpclient::new();
    record(&mut t, s("a"), s("h:1"), 1);
    assert_eq!(t.remove(&s("a")), Some(1));
    assert_eq!(t.remove(&s("a")), None);
    assert!(t.get_connections().is_empty());
}

#[test]
fn connect_event_names_connection() {
    let e = connect_event(&s("my-conn"), &s("192.168.1.100:8080"));
    assert_eq!(e.id, "my-conn");
    match e.event {
        EventType::Connect { endpoint } => assert_eq!(endpoint, "192.168.1.100:8080"),
        other => panic!("unexpected event {:?}", other),
    }
}

#[test]
fn first_address_takes_resolved_one() {
    assert!(matches!(first_address(Some(42u16), AddressRole::Local), Ok(42)));
}

#[test]
fn unresolved_local_address() {
    match first_address::<u16>(None, AddressRole::Local) {
        Err(Error::ConnectionError(m)) => assert_eq!(m, "Invalid local address"),
        other => panic!("unexpected result {:?}", other),
    }
}

#[test]
fn unresolved_endpoint() {
    match first_address::<u16>(None, AddressRole::Remote) {
        Err(Error::ConnectionError(m)) => assert_eq!(m, "Invalid endpoint"),
        other => panic!("unexpected result {:?}", other),
    }
}

#[test]
fn constants() {
    assert_eq!(EVENT_NAME, "plugin://tcpclient");
    assert_eq!(READ_BUFFER_SIZE, 65535);
    assert_eq!(REPLACE_SETTLE_MILLIS, 100);
}

fn assert_unsupported(r: Result<(), Error>) {
    match r {
        Err(Error::ConnectionError(m)) => assert_eq!(m, "TCP client not supported on mobile yet"),
        other => panic!("unexpected result {:?}", other),
    }
}

#[test]
fn mobile_operations_are_unsupported() {
    let m = mobile::init().unwrap();
    assert_unsupported(m.connect(s("a"), s("h:1")));
    assert_unsupported(m.connect_with_bind(s("a"), s("0.0.0.0:0"), s("h:1")));
    assert_unsupported(m.disconnect(s("a")));
    assert_unsupported(m.send(s("a"), vec![1, 2, 3]));
    assert!(!m.is_connected(s("a")));
    assert!(m.get_connections().is_empty());
}

#[test]
fn tags_count_up() {
    let mut t: Tcpclient<u32> = Tcpclient::new();
    assert_eq!(t.reserve_tag(), Some(0));
    assert_eq!(t.reserve_tag(), Some(1));
    assert_eq!(t.reserve_tag(), Some(2));
}

#[test]
fn stale_reader_leaves_new_connection() {
    let mut t: Tcpclient<u32> = Tcpclient::new();
    let old_tag = t.reserve_tag().unwrap();
    t.connect(s("a"), s("h:1"), old_tag, 1);
    let new_tag = t.reserve_tag().unwrap();
    assert_eq!(t.connect(s("a"), s("h:2"), new_tag, 2), Some(1));
    assert_eq!(t.remove_tagged(&s("a"), old_tag), None);
    assert!(t.is_connected(s("a")));
    assert_eq!(t.remove_tagged(&s("a"), new_tag), Some(2));
    assert!(!t.is_connected(s("a")));
}

#[test]
fn session_reports_connect_then_messages_then_one_disconnect() {
    let (mut session, connect) = ReadSession::open(s("c"), s("h:9"), 7);
    assert_eq!(session.tag(), 7);
    assert_eq!(session.id(), "c");
    assert!(matches!(connect.event, EventType::Connect { .. }));
    let buf = [5u8, 6, 7];
    let step = session.step(&buf, ReadOutcome::Received(2)).unwrap();
    assert!(step.keep_reading);
    assert!(!session.is_ended());
    match step.event.event {
        EventType::Message { data, .. } => assert_eq!(data, vec![5, 6]),
        other => panic!("unexpected event {:?}", other),
    }
    let step = session.step(&buf, ReadOutcome::Received(0)).unwrap();
    assert!(!step.keep_reading);
    assert!(session.is_ended());
    assert!(matches!(step.event.event, EventType::Disconnect { reason: DisconnectReason::Normal, .. }));
    assert!(session.step(&buf, ReadOutcome::Received(3)).is_none());
}

#[test]
fn used_tags_are_not_fresh() {
    let mut t: Tcpclient<u32> = Tcpclient::new();
    assert!(!t.is_fresh_tag(0));
    let first = t.reserve_tag().unwrap();
    let second = t.reserve_tag().unwrap();
    assert!(t.is_fresh_tag(first));
    assert!(t.is_fresh_tag(second));
    t.connect(s("a"), s("h:1"), second, 1);
    assert!(!t.is_fresh_tag(first));
    assert!(!t.is_fresh_tag(second));
    let third = t.reserve_tag().unwrap();
    assert!(t.is_fresh_tag(third));
}
