use zed_core::rpc::connection_io::{
    ConnectionIo, IoAction, IoError, IoEvent, Phase, Ready, KEEPALIVE_INTERVAL, RECEIVE_TIMEOUT,
    WRITE_TIMEOUT,
};
use zed_core::rpc::message_stream::{append_bytes, Message, MessageStream, Read, WebSocketMessage};
use zed_core::rpc::peer::{
    request_envelope, ConnectionId, ConnectionState, Dispatch, Envelope, ErrorCode, Payload, Peer,
    PeerError, PeerId, Receipt, RequestError, StreamStep,
};

#[test]
fn written_messages_are_read() {
    let mut stream = MessageStream::new();
    for envelope in [vec![], vec![1u8, 2, 3], vec![7u8; 100_000]] {
        let sent = stream.write(Message::Envelope(envelope.clone())).unwrap();
        match &sent {
            WebSocketMessage::Binary(bytes) => {
                assert_ne!(bytes, &envelope);
                assert!(envelope.len() < 1000 || bytes.len() < envelope.len());
            }
            other => panic!("{:?}", other),
        }
        match stream.read(Some(sent)) {
            Read::Done(Message::Envelope(bytes)) => assert_eq!(bytes, envelope),
            other => panic!("{:?}", other),
        }
        assert!(stream.encoding_buffer.is_empty());
    }
    let ping = stream.write(Message::Ping);
    assert!(matches!(ping, Some(WebSocketMessage::Ping)));
    assert!(matches!(stream.read(ping), Read::Done(Message::Ping)));
    let pong = stream.write(Message::Pong);
    assert!(matches!(stream.read(pong), Read::Done(Message::Pong)));
}

#[test]
fn other_messages_are_passed_over() {
    let mut stream = MessageStream::new();
    assert!(matches!(stream.read(Some(WebSocketMessage::Other)), Read::Next));
    assert!(matches!(stream.read(Some(WebSocketMessage::Close)), Read::Closed));
    assert!(matches!(stream.read(None), Read::Closed));
    assert!(matches!(
        stream.read(Some(WebSocketMessage::Binary(vec![1, 2, 3, 4]))),
        Read::Corrupt
    ));
    let mut buffer = vec![1u8];
    append_bytes(&mut buffer, &vec![2, 3]);
    assert_eq!(buffer, vec![1, 2, 3]);
}

#[test]
fn connections_and_peers_have_the_same_numbers() {
    let id = ConnectionId { owner_id: 7, id: 42 };
    assert_eq!(id.text(), "7/42");
    let peer = PeerId::from(id);
    assert_eq!(peer, PeerId { owner_id: 7, id: 42 });
    assert_eq!(ConnectionId::from(peer), id);
}

#[test]
fn answer_reaches_the_requester_once() {
    let mut peer = Peer::new(3);
    assert_eq!(peer.epoch(), 3);
    let connection = peer.add_connection();
    assert_eq!(connection, ConnectionId { owner_id: 3, id: 0 });
    let other = peer.add_connection();
    assert_eq!(other, ConnectionId { owner_id: 3, id: 1 });
    let first = peer.request(connection, Payload::Other(vec![1]), 11).unwrap();
    let second = peer.request(connection, Payload::Other(vec![2]), 12).unwrap();
    assert_eq!((first.id, second.id), (0, 1));
    assert_eq!(first.responding_to, None);
    assert!(matches!(peer.receive(connection, Some(1)), Dispatch::Requester(12)));
    assert!(matches!(peer.receive(connection, Some(1)), Dispatch::UnknownRequest));
    assert!(matches!(peer.receive(connection, Some(0)), Dispatch::Requester(11)));
    assert!(matches!(peer.receive(connection, None), Dispatch::Handler));
    // The numbers of another connection are its own.
    assert!(matches!(peer.receive(other, Some(0)), Dispatch::UnknownRequest));
}

#[test]
fn answers_reach_the_stream() {
    let mut state = ConnectionState::new();
    let id = state.begin_stream(5).unwrap();
    assert!(matches!(state.dispatch(Some(id)), Dispatch::StreamRequester(5)));
    assert!(matches!(state.dispatch(Some(id)), Dispatch::StreamRequester(5)));
    assert!(matches!(state.stream_step(id, &Payload::Other(vec![1])), StreamStep::Yield));
    assert!(matches!(state.stream_step(id, &Payload::EndStream), StreamStep::End));
    assert!(matches!(state.dispatch(Some(id)), Dispatch::UnknownRequest));
    let id = state.begin_stream(6).unwrap();
    let error = Payload::Error {
        code: ErrorCode::Internal,
        message: "no".to_string(),
    };
    // An error is handed on, and the stream goes on.
    assert!(matches!(state.stream_step(id, &error), StreamStep::Fail));
    assert!(matches!(state.dispatch(Some(id)), Dispatch::StreamRequester(6)));
}

#[test]
fn closed_connection_takes_no_request() {
    let mut state = ConnectionState::new();
    let request = state.begin_request(1).unwrap();
    let stream = state.begin_stream(2).unwrap();
    assert_ne!(request, stream);
    let (requests, streams) = state.close();
    assert_eq!((requests, streams), (vec![1], vec![2]));
    assert!(matches!(state.begin_request(3), Err(PeerError::ConnectionClosed)));
    assert!(matches!(state.begin_stream(3), Err(PeerError::ConnectionClosed)));
    assert!(matches!(state.dispatch(Some(request)), Dispatch::Closed));
    assert_eq!(PeerError::ConnectionClosed.text(), "connection was closed");
}

#[test]
fn messages_are_addressed() {
    let mut peer = Peer::new(1);
    let a = peer.add_connection();
    let b = peer.add_connection();
    let sent = peer.send(a, Payload::Other(vec![9])).unwrap();
    assert_eq!((sent.id, sent.responding_to, sent.original_sender_id), (0, None, None));
    let forwarded = peer.forward_send(b, a, Payload::Other(vec![9])).unwrap();
    assert_eq!(forwarded.original_sender_id, Some(PeerId::from(b)));
    assert_eq!(forwarded.id, 1);
    let request = peer.forward_request(b, a, Payload::Other(vec![9]), 4).unwrap();
    assert_eq!(request.original_sender_id, Some(PeerId::from(b)));
    let receipt = Receipt {
        sender_id: PeerId::from(a),
        message_id: 77,
    };
    let answer = peer.respond(receipt, Payload::Other(vec![])).unwrap();
    assert_eq!(answer.responding_to, Some(77));
    let end = peer.end_stream(receipt).unwrap();
    assert_eq!(end.responding_to, Some(77));
    assert!(matches!(end.payload, Payload::EndStream));
    let refused = peer
        .respond_with_error(receipt, ErrorCode::Internal, "bad".to_string())
        .unwrap();
    assert!(matches!(refused.payload, Payload::Error { code: ErrorCode::Internal, .. }));
    let unhandled = peer.respond_with_unhandled_message(a, 5, "Hello").unwrap();
    assert_eq!(unhandled.responding_to, Some(5));
    match unhandled.payload {
        Payload::Error { message, .. } => assert_eq!(message, "message Hello was not handled"),
        other => panic!("{:?}", other),
    }
}

#[test]
fn unknown_connections_are_named() {
    let mut peer = Peer::new(1);
    let a = peer.add_connection();
    peer.disconnect(a);
    peer.disconnect(a);
    match peer.send(a, Payload::EndStream) {
        Err(error) => assert_eq!(error.text(), "no such connection: 1/0"),
        Ok(_) => panic!("sent"),
    }
    assert!(peer.request_stream(a, Payload::EndStream, 1).is_err());
    let b = peer.add_connection();
    let _ = peer.request(b, Payload::EndStream, 8).unwrap();
    let (requests, streams) = peer.end_connection(b);
    assert_eq!((requests, streams), (vec![8], vec![]));
    // What is handed on needs nobody who waits.
    assert_eq!(peer.receive(b, None), Dispatch::Handler);
    assert_eq!(peer.receive(b, Some(0)), Dispatch::Closed);
    let c = peer.add_connection();
    let first = peer.request(c, Payload::EndStream, 21).unwrap();
    let _ = peer.request(c, Payload::EndStream, 22).unwrap();
    let _ = peer.request(c, Payload::EndStream, 22).unwrap();
    peer.teardown();
    assert!(peer.send(c, Payload::EndStream).is_err());
    // Answers come in until the connection has ended.
    assert_eq!(peer.receive(c, Some(first.id)), Dispatch::Requester(21));
    assert_eq!(peer.receive(c, None), Dispatch::Handler);
    assert_eq!(peer.end_connection(c), (vec![22, 22], vec![]));
    assert_eq!(peer.receive(c, Some(1)), Dispatch::Closed);
}

#[test]
fn dynamic_messages_keep_what_they_hold() {
    let mut peer = Peer::new(1);
    let a = peer.add_connection();
    let envelope = Envelope {
        id: 99,
        responding_to: Some(3),
        original_sender_id: None,
        payload: Payload::Other(vec![4]),
    };
    let sent = peer.send_dynamic(a, envelope).unwrap();
    assert_eq!((sent.id, sent.responding_to), (99, Some(3)));
    let request = Envelope {
        id: 99,
        responding_to: None,
        original_sender_id: None,
        payload: Payload::Other(vec![4]),
    };
    let sent = peer.request_dynamic(a, request, 21).unwrap();
    assert_eq!(sent.id, 0);
    assert!(matches!(peer.receive(a, Some(0)), Dispatch::Requester(21)));
}

#[test]
fn responses_are_typed() {
    let id = ConnectionId { owner_id: 1, id: 2 };
    let envelope = |payload: Payload| Envelope {
        id: 5,
        responding_to: Some(1),
        original_sender_id: None,
        payload,
    };
    let typed = request_envelope(id, envelope(Payload::Other(vec![1, 2]))).unwrap();
    assert_eq!((typed.message_id, typed.sender_id), (5, PeerId::from(id)));
    assert_eq!(typed.payload, vec![1, 2]);
    let error = Payload::Error {
        code: ErrorCode::Other(3),
        message: "m".to_string(),
    };
    assert!(matches!(
        request_envelope(id, envelope(error)),
        Err(RequestError::Rpc { code: ErrorCode::Other(3), .. })
    ));
    assert!(matches!(
        request_envelope(id, envelope(Payload::EndStream)),
        Err(RequestError::WrongType)
    ));
}

const NOTHING: Ready = Ready {
    outgoing: None,
    incoming: None,
    passed: None,
};

#[test]
fn idle_connection_pings() {
    let mut io = ConnectionIo::new(0);
    assert_eq!(io.select(KEEPALIVE_INTERVAL - 1, NOTHING), None);
    let ready = Ready {
        incoming: Some(IoEvent::IncomingPing),
        ..NOTHING
    };
    let event = io.select(KEEPALIVE_INTERVAL, ready).unwrap();
    assert_eq!(event, IoEvent::Keepalive);
    assert_eq!(io.step(KEEPALIVE_INTERVAL, event), IoAction::Ping);
    let passed = Ready {
        passed: Some(IoEvent::Passed),
        ..NOTHING
    };
    let event = io.select(KEEPALIVE_INTERVAL + 5, passed).unwrap();
    assert_eq!(io.step(KEEPALIVE_INTERVAL + 5, event), IoAction::Wait);
    assert_eq!(io.keepalive_at, 2 * KEEPALIVE_INTERVAL + 5);
    assert_eq!(io.phase, Phase::Waiting);
}

#[test]
fn sending_goes_first_and_puts_the_ping_off() {
    let mut io = ConnectionIo::new(0);
    let ready = Ready {
        outgoing: Some(IoEvent::Outgoing),
        incoming: Some(IoEvent::IncomingEnvelope),
        passed: None,
    };
    let now = KEEPALIVE_INTERVAL + 10;
    let event = io.select(now, ready).unwrap();
    assert_eq!(io.step(now, event), IoAction::Write);
    assert_eq!(io.step(now + 1, IoEvent::Passed), IoAction::Wait);
    assert_eq!(io.keepalive_at, now + 1 + KEEPALIVE_INTERVAL);
}

#[test]
fn incoming_keeps_the_connection() {
    let mut io = ConnectionIo::new(0);
    assert_eq!(io.step(900, IoEvent::IncomingEnvelope), IoAction::HandOver);
    assert_eq!(io.step(950, IoEvent::Passed), IoAction::Read);
    assert_eq!(io.receive_by, 900 + RECEIVE_TIMEOUT);
    assert_eq!(io.step(990, IoEvent::IncomingPing), IoAction::Read);
    assert_eq!(io.receive_by, 990 + RECEIVE_TIMEOUT);
}

#[test]
fn connections_end_with_a_reason() {
    let reasons = [
        (None, IoEvent::ReadFailed, Err(IoError::ReadFailed)),
        (None, IoEvent::ReceiveTimeout, Err(IoError::DelayTooLong)),
        (None, IoEvent::OutgoingClosed, Ok(())),
        (Some(IoEvent::Outgoing), IoEvent::PassFailed, Err(IoError::WriteFailed)),
        (Some(IoEvent::Outgoing), IoEvent::PassTimeout, Err(IoError::WriteTimedOut)),
        (Some(IoEvent::Keepalive), IoEvent::PassFailed, Err(IoError::KeepaliveFailed)),
        (Some(IoEvent::Keepalive), IoEvent::PassTimeout, Err(IoError::KeepaliveTimedOut)),
        (Some(IoEvent::IncomingEnvelope), IoEvent::PassFailed, Ok(())),
        (Some(IoEvent::IncomingEnvelope), IoEvent::PassTimeout, Err(IoError::HandingOverTimedOut)),
    ];
    for (before, event, reason) in reasons {
        let mut io = ConnectionIo::new(0);
        if let Some(before) = before {
            io.step(0, before);
            assert_eq!(io.select(WRITE_TIMEOUT, NOTHING), Some(IoEvent::PassTimeout));
        }
        assert_eq!(io.step(1, event), IoAction::Stop(reason));
        assert_eq!(io.step(2, IoEvent::Outgoing), IoAction::Wait);
        assert_eq!(io.select(u64::MAX, NOTHING), None);
    }
    assert_eq!(IoError::DelayTooLong.text(), "delay between messages too long");
    assert_eq!(IoError::WriteTimedOut.text(), "timed out writing message");
}

#[test]
fn silence_ends_the_connection() {
    let mut io = ConnectionIo::new(0);
    io.keepalive_at = u64::MAX;
    assert_eq!(io.select(RECEIVE_TIMEOUT - 1, NOTHING), None);
    assert_eq!(io.select(RECEIVE_TIMEOUT, NOTHING), Some(IoEvent::ReceiveTimeout));
}
