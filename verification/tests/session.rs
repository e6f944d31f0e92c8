use visionary::frames::extract_frames;
use visionary::link::GameLink;
use visionary::outbox::push_outbox_capped;
use visionary::session::{
    connect_error, connect_hint, ConnectFailure, Session, SocketAction, SocketEvent,
    PING_INTERVAL, STALE_TIMEOUT,
};

const START: u64 = 1_000_000_000_000;

/// A link whose queue holds these frames.
fn queued(frames: &[String]) -> GameLink {
    let mut link = GameLink::default();
    link.requeue_front(frames.to_vec());
    link
}

fn two_frames() -> Vec<String> {
    vec![
        "<TCP_MESSAGE>{\"command\":\"first\"}</TCP_MESSAGE>".to_string(),
        "<TCP_MESSAGE>{\"command\":\"second\"}</TCP_MESSAGE>".to_string(),
    ]
}

#[test]
fn failed_flush_requeues_unsent_frames_in_original_order() {
    let pending = two_frames();
    let mut link = queued(&pending);
    let mut session = Session::new(START);
    assert!(matches!(
        session.step(&mut link, SocketEvent::Opened, START),
        SocketAction::Write
    ));
    let action = session.step(
        &mut link,
        SocketEvent::WriteFailed {
            index: 0,
            error: "broken pipe".to_string(),
        },
        START,
    );
    match action {
        SocketAction::Stop { reason } => assert!(
            reason.starts_with("send:"),
            "a closed write half must report a send failure: {reason:?}"
        ),
        other => panic!("the connection must end: {other:?}"),
    }
    assert_eq!(
        link.take_pending(),
        pending,
        "the failed frame and every later frame must be available for reconnect"
    );
}

#[test]
fn successful_flush_writes_pending_frames_in_order() {
    let expected = two_frames();
    let mut link = queued(&expected);
    let mut session = Session::new(START);
    assert!(matches!(
        session.step(&mut link, SocketEvent::Opened, START),
        SocketAction::Write
    ));
    assert_eq!(session.frames(), &expected);
    assert!(link.take_pending().is_empty());
    assert!(matches!(
        session.step(&mut link, SocketEvent::Written, START),
        SocketAction::Read
    ));
    match session.step(&mut link, SocketEvent::Closed, START) {
        SocketAction::Stop { reason } => assert_eq!(reason, "closed by plugin"),
        other => panic!("the connection must end: {other:?}"),
    }
}

#[test]
fn pong_updates_liveness_and_silent_stale_connection_requests_reconnect() {
    let mut link = GameLink::default();
    link.connected(START);
    let later = START + STALE_TIMEOUT + 1_000_000_000;
    assert!(link.silent_too_long(later));
    let mut pong =
        "<TCP_MESSAGE>{\"header\":\"Pong\",\"body\":\"{}\"}</TCP_MESSAGE>".to_string();
    for payload in extract_frames(&mut pong) {
        link.handle_frame(&payload, later);
    }
    assert!(!link.silent_too_long(later));
    assert_eq!(link.stats().0, 1);

    link.connected(START);
    let mut session = Session::new(later);
    session.step(&mut link, SocketEvent::Opened, later);
    session.step(&mut link, SocketEvent::Written, later);
    match session.step(&mut link, SocketEvent::Idle, later) {
        SocketAction::Stop { reason } => assert_eq!(
            reason,
            "stale: no frames from the game for 20s (emulator stalled or connection half-open; reconnecting)"
        ),
        other => panic!("the connection must end: {other:?}"),
    }
}

#[test]
fn a_failed_flush_puts_back_what_was_not_written_in_front_of_what_came_since() {
    let mut link = queued(&["a".to_string(), "b".to_string(), "c".to_string()]);
    let mut session = Session::new(START);
    session.step(&mut link, SocketEvent::Opened, START);
    link.send_reset_pins();
    session.step(
        &mut link,
        SocketEvent::WriteFailed {
            index: 1,
            error: "x".to_string(),
        },
        START,
    );
    let rest = link.take_pending();
    assert_eq!(&rest[..2], &["b".to_string(), "c".to_string()]);
    assert!(rest[2].contains("reset_pins"));
    assert_eq!(rest.len(), 3);
}

#[test]
fn pings_are_numbered_and_spaced() {
    let mut link = GameLink::default();
    link.connected(START);
    let mut session = Session::new(START);
    session.step(&mut link, SocketEvent::Opened, START);
    let mut now = START + PING_INTERVAL - 1;
    assert!(matches!(
        session.step(&mut link, SocketEvent::Written, now),
        SocketAction::Read
    ));
    for number in 1..=2 {
        now = now + PING_INTERVAL;
        session.step(&mut link, SocketEvent::Idle, now - 1);
        match session.step(&mut link, SocketEvent::Written, now) {
            SocketAction::Ping { frame } => assert_eq!(
                frame,
                format!("<TCP_MESSAGE>{{\"command\":\"ping\",\"echo\":{number}}}</TCP_MESSAGE>")
            ),
            other => panic!("a ping is due: {other:?}"),
        }
        assert!(matches!(
            session.step(&mut link, SocketEvent::PingWritten, now),
            SocketAction::Read
        ));
        session.step(&mut link, SocketEvent::Delivered, now);
    }
    match session.step(
        &mut link,
        SocketEvent::PingFailed {
            error: "reset".to_string(),
        },
        now,
    ) {
        SocketAction::Stop { reason } => assert_eq!(reason, "send ping: reset"),
        other => panic!("the connection must end: {other:?}"),
    }
}

#[test]
fn what_is_received_is_handed_on_frame_by_frame() {
    let mut link = GameLink::default();
    link.connected(START);
    let mut session = Session::new(START);
    session.step(&mut link, SocketEvent::Opened, START);
    session.step(&mut link, SocketEvent::Written, START);
    let first = session.step(
        &mut link,
        SocketEvent::Received {
            text: "<TCP_MESSAGE>one</TCP_MESSAGE><TCP_MES".to_string(),
        },
        START,
    );
    match first {
        SocketAction::Deliver { payloads } => assert_eq!(payloads, vec!["one".to_string()]),
        other => panic!("frames are to be delivered: {other:?}"),
    }
    assert!(matches!(
        session.step(&mut link, SocketEvent::Delivered, START),
        SocketAction::Write
    ));
    let second = session.step(
        &mut link,
        SocketEvent::Received {
            text: "SAGE>two</TCP_MESSAGE>".to_string(),
        },
        START,
    );
    match second {
        SocketAction::Deliver { payloads } => assert_eq!(payloads, vec!["two".to_string()]),
        other => panic!("frames are to be delivered: {other:?}"),
    }
    match session.step(
        &mut link,
        SocketEvent::ReadFailed {
            error: "boom".to_string(),
        },
        START,
    ) {
        SocketAction::Stop { reason } => assert_eq!(reason, "recv: boom"),
        other => panic!("the connection must end: {other:?}"),
    }
}

#[test]
fn a_connection_error_says_what_to_do() {
    for failure in [ConnectFailure::Refused, ConnectFailure::TimedOut] {
        assert!(!connect_hint(failure).is_empty());
        assert_eq!(
            connect_error("127.0.0.1:7878", "no", failure),
            format!("connect to 127.0.0.1:7878: no{}", connect_hint(failure))
        );
    }
    assert_eq!(connect_hint(ConnectFailure::Other), "");
    let mut messages = Vec::new();
    push_outbox_capped(&mut messages, "x".to_string());
    assert_eq!(messages, vec!["x".to_string()]);
}
