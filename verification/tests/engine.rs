use whixp_transport::config::TransportConfig;
use whixp_transport::config::TransportKind;
use whixp_transport::connection::ReadOutcome;
use whixp_transport::connection::SendGuard;
use whixp_transport::connection::SendQueueOutcome;
use whixp_transport::connection::TransportEvent;
use whixp_transport::connection::TransportState;
use whixp_transport::connection::WriterAction;
use whixp_transport::connection::reader_step;
use whixp_transport::connection::writer_poll_step;
use whixp_transport::connection::writer_write_step;
use whixp_transport::handshake::HandshakeError;
use whixp_transport::handshake::HandshakeErrorCode;
use whixp_transport::stanza::StreamFramer;
use whixp_transport::websocket::WsMessageKind;
use whixp_transport::websocket::WsReadBuffer;
use whixp_transport::websocket::WsReadDecision;
use whixp_transport::websocket::ws_read_decision;
use whixp_transport::websocket::ws_url;

#[test]
fn state_codes_are_the_fixed_ordering() {
    assert_eq!(TransportState::Disconnected.code(), 0);
    assert_eq!(TransportState::Connecting.code(), 1);
    assert_eq!(TransportState::Connected.code(), 2);
    assert_eq!(TransportState::TlsSuccess.code(), 3);
    assert_eq!(TransportState::Disconnecting.code(), 4);
    assert_eq!(TransportState::ConnectionFailure.code(), 5);
    assert_eq!(TransportState::Reconnecting.code(), 6);
}

#[test]
fn error_codes_are_fixed() {
    assert_eq!(HandshakeErrorCode::Success.as_i32(), 0);
    assert_eq!(HandshakeError::Connection(String::new()).code().as_i32(), 1);
    assert_eq!(HandshakeError::Tls(String::new()).code().as_i32(), 2);
    assert_eq!(HandshakeError::Stream(String::new()).code().as_i32(), 3);
    assert_eq!(HandshakeError::Timeout(250).code().as_i32(), 4);
    assert_eq!(HandshakeError::SeeOtherHost(String::new()).code().as_i32(), 5);
    assert_eq!(HandshakeError::BadCertificate(String::new()).code().as_i32(), 6);
}

#[test]
fn error_messages_carry_detail() {
    assert_eq!(
        HandshakeError::Connection("refused".to_string()).message(),
        "connection failed: refused"
    );
    assert_eq!(
        HandshakeError::BadCertificate("expired".to_string()).message(),
        "invalid certificate: expired"
    );
    assert_eq!(HandshakeError::Timeout(2000).message(), "timeout after 2000ms");
}

#[test]
fn transport_kind_codes_round_trip() {
    for (kind, code) in [
        (TransportKind::Tcp, 0),
        (TransportKind::TcpStartTls, 1),
        (TransportKind::DirectTls, 2),
        (TransportKind::WebSocket, 3),
        (TransportKind::WebSocketTls, 4),
    ] {
        assert_eq!(kind.code(), code);
        assert_eq!(TransportKind::from_code(code), kind);
    }
    assert_eq!(TransportKind::from_code(-1), TransportKind::TcpStartTls);
    assert_eq!(TransportKind::from_code(99), TransportKind::TcpStartTls);
}

#[test]
fn config_defaults() {
    let c = TransportConfig::default();
    assert_eq!(c.host, "");
    assert_eq!(c.port, 5222);
    assert_eq!(c.kind, TransportKind::TcpStartTls);
    assert_eq!(c.connect_timeout_ms, 2000);
    assert_eq!(c.connect_timeout(), 2000);
    assert!(c.tls_server_name.is_none());
    assert!(c.service.is_none());
    assert!(!c.use_ipv6);
    assert_eq!(c.ws_path.as_deref(), Some("/ws"));
}

#[test]
fn zero_byte_read_emits_one_disconnected_event() {
    let mut f = StreamFramer::new();
    let step = reader_step(&mut f, false, ReadOutcome::Eof);
    assert!(step.exit);
    assert_eq!(step.events.len(), 1);
    match &step.events[0] {
        TransportEvent::State(code) => assert_eq!(*code, 0),
        other => panic!("expected a state event, got {:?}", other),
    }
}

#[test]
fn reader_exits_on_shutdown() {
    let mut f = StreamFramer::new();
    let step = reader_step(&mut f, true, ReadOutcome::Data(b"<iq>x</iq>".to_vec()));
    assert!(step.exit);
    assert_eq!(step.events.len(), 1);
    assert!(matches!(step.events[0], TransportEvent::State(0)));
}

#[test]
fn reader_retries_transient_errors_silently() {
    let mut f = StreamFramer::new();
    let step = reader_step(&mut f, false, ReadOutcome::Transient);
    assert!(!step.exit);
    assert!(step.events.is_empty());
}

#[test]
fn reader_terminal_error_still_reports_disconnect() {
    let mut f = StreamFramer::new();
    let step = reader_step(&mut f, false, ReadOutcome::Failed);
    assert!(step.exit);
    assert_eq!(step.events.len(), 1);
    assert!(matches!(step.events[0], TransportEvent::State(0)));
}

#[test]
fn reader_turns_data_into_stanza_events_in_order() {
    let mut f = StreamFramer::new();
    let step = reader_step(
        &mut f,
        false,
        ReadOutcome::Data(b"<iq>a</iq><presence>b</presence>".to_vec()),
    );
    assert!(!step.exit);
    let texts: Vec<&str> = step
        .events
        .iter()
        .map(|e| match e {
            TransportEvent::Stanza(s) => s.as_str(),
            other => panic!("expected stanza events, got {:?}", other),
        })
        .collect();
    assert_eq!(texts, vec!["<iq>a</iq>", "<presence>b</presence>"]);
}

#[test]
fn writer_exits_on_shutdown_or_closed_queue() {
    assert!(matches!(
        writer_poll_step(true, SendQueueOutcome::Received(b"x".to_vec())),
        WriterAction::Exit
    ));
    assert!(matches!(
        writer_poll_step(false, SendQueueOutcome::Closed),
        WriterAction::Exit
    ));
}

#[test]
fn writer_writes_received_buffer_in_full() {
    match writer_poll_step(false, SendQueueOutcome::Received(b"<iq/>".to_vec())) {
        WriterAction::Write(bytes) => assert_eq!(bytes, b"<iq/>".to_vec()),
        WriterAction::Exit => panic!("expected a write"),
    }
}

#[test]
fn writer_failure_emits_one_error_and_exits() {
    let step = writer_write_step(false, "broken pipe".to_string());
    assert!(step.exit);
    assert_eq!(step.events.len(), 1);
    match &step.events[0] {
        TransportEvent::Error(code, msg) => {
            assert_eq!(*code, 1);
            assert_eq!(msg, "broken pipe");
        }
        other => panic!("expected an error event, got {:?}", other),
    }
    let ok = writer_write_step(true, String::new());
    assert!(!ok.exit);
    assert!(ok.events.is_empty());
}

#[test]
fn send_fails_after_shutdown() {
    let mut g = SendGuard::new();
    assert!(g.send_check().is_err());
    g.on_connected();
    assert!(g.send_check().is_ok());
    g.shutdown();
    match g.send_check() {
        Err(HandshakeError::Connection(m)) => assert_eq!(m, "not connected"),
        other => panic!("expected the not-connected error, got {:?}", other),
    }
}

#[test]
fn ws_frame_decisions() {
    assert_eq!(ws_read_decision(WsMessageKind::Text), WsReadDecision::Deliver);
    assert_eq!(ws_read_decision(WsMessageKind::Binary), WsReadDecision::Deliver);
    assert_eq!(ws_read_decision(WsMessageKind::Ping), WsReadDecision::Retry);
    assert_eq!(ws_read_decision(WsMessageKind::Pong), WsReadDecision::Retry);
    assert_eq!(ws_read_decision(WsMessageKind::Close), WsReadDecision::Eof);
    assert_eq!(ws_read_decision(WsMessageKind::Raw), WsReadDecision::Eof);
}

#[test]
fn ws_read_buffer_hands_out_bytes_in_order() {
    let mut b = WsReadBuffer::new();
    assert!(b.is_drained());
    b.refill(b"hello world".to_vec());
    assert!(!b.is_drained());
    assert_eq!(b.take(5), b"hello".to_vec());
    assert_eq!(b.take(100), b" world".to_vec());
    assert!(b.is_drained());
    assert_eq!(b.take(4), Vec::<u8>::new());
}

#[test]
fn ws_url_shapes() {
    assert_eq!(ws_url("example.com", 5280, "/ws", false), "ws://example.com:5280/ws");
    assert_eq!(ws_url("example.com", 443, "/xmpp", true), "wss://example.com:443/xmpp");
    assert_eq!(ws_url("example.com", 80, "", false), "ws://example.com:80");
    assert_eq!(ws_url("example.com", 80, "///x", false), "ws://example.com:80/x");
    assert_eq!(ws_url("example.com", 80, "ws", false), "ws://example.com:80/ws");
}

#[test]
fn error_code_from_conversion() {
    let e = HandshakeError::Tls("bad".to_string());
    let code: HandshakeErrorCode = (&e).into();
    assert_eq!(code.as_i32(), 2);
}
