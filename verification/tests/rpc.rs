use volex::rpc::{closed_action, StreamSenderState};
use volex::rpc::{
    bad_request_frame, cancel_frame, client_action, error_body, error_frame, error_from_body,
    frame_stream_message, http_request_body, http_status_for_error, length_prefixed,
    parse_client_message, parse_http_error, parse_http_request, parse_server_message,
    parse_stream_events, parse_u16, request_frame, response_frame, stream_end_message,
    stream_error_message, stream_item_message, stream_recv_result, transport_closed,
    ClientAction, ClientMessage, HttpClient, LengthPrefix, PendingKind, RpcError, ServerMessage,
    StreamEvent, CONTENT_TYPE_RPC_ERROR, ERR_CODE_DECODE_ERROR, ERR_CODE_HANDLER_ERROR,
    ERR_CODE_UNKNOWN_METHOD,
};
use volex::DecodeError;

#[test]
fn rpc_errors() {
    let e = RpcError::new(7, "boom");
    assert_eq!(e.code, 7);
    assert_eq!(e.message, "boom");
    assert_eq!(e.to_text(), "RPC error 7: boom");
    let d = RpcError::decode(DecodeError::InvalidBool(3));
    assert_eq!(d.code, ERR_CODE_DECODE_ERROR);
    assert_eq!(d.message, "decode error: invalid bool value: 3");
    let c = RpcError::stream_closed();
    assert!(c.is_stream_closed());
    assert!(!e.is_stream_closed());
    assert!(!RpcError::new(1, "stream closed").is_stream_closed());
    assert!(!RpcError::new(0, "stream closed!").is_stream_closed());
    assert_eq!(transport_closed().message, "transport closed");
    assert_eq!(ERR_CODE_UNKNOWN_METHOD, 1);
    assert_eq!(ERR_CODE_HANDLER_ERROR, 3);
}

#[test]
fn client_frames() {
    assert_eq!(request_frame(1, 2, &[9, 9]), vec![0x80, 1, 2, 9, 9]);
    assert_eq!(request_frame(300, 1, &[]), vec![0x80, 0xac, 0x02, 1]);
    assert_eq!(cancel_frame(5), vec![0x81, 5]);
}

#[test]
fn server_frames() {
    assert_eq!(response_frame(3, &[1, 2]), vec![0x00, 3, 1, 2]);
    assert_eq!(error_frame(3, 2, "no"), vec![0x03, 3, 2, 2, b'n', b'o']);
    assert_eq!(error_body(1, "x"), vec![1, 1, b'x']);
    let bad = bad_request_frame(4);
    let mut expected = vec![0x03, 4, 2, 29];
    expected.extend_from_slice(b"failed to decode method index");
    assert_eq!(bad, expected);
}

#[test]
fn stream_messages_and_framing() {
    assert_eq!(stream_item_message(&[7]), vec![0x01, 7]);
    assert_eq!(stream_end_message(), vec![0x02]);
    assert_eq!(stream_error_message(3, "bad"), vec![0x03, 3, 3, b'b', b'a', b'd']);
    assert_eq!(frame_stream_message(200, &[0x01, 7, 8]), vec![0x01, 0xc8, 0x01, 7, 8]);
    assert_eq!(frame_stream_message(1, &[0x02]), vec![0x02, 1]);
    assert_eq!(length_prefixed(&[5, 6]), vec![2, 5, 6]);
    assert_eq!(http_request_body(300, &[1]), vec![0xac, 0x02, 1]);
}

#[test]
fn server_messages_read_back() {
    match parse_server_message(&response_frame(9, &[1, 2, 3])) {
        Some((9, ServerMessage::Response(p))) => assert_eq!(p, vec![1, 2, 3]),
        other => panic!("unexpected {:?}", other),
    }
    match parse_server_message(&frame_stream_message(9, &stream_item_message(&[4]))) {
        Some((9, ServerMessage::StreamItem(p))) => assert_eq!(p, vec![4]),
        other => panic!("unexpected {:?}", other),
    }
    assert!(matches!(
        parse_server_message(&frame_stream_message(9, &stream_end_message())),
        Some((9, ServerMessage::StreamEnd))
    ));
    match parse_server_message(&error_frame(9, 3, "handler failed")) {
        Some((9, ServerMessage::Error(e))) => {
            assert_eq!(e.code, 3);
            assert_eq!(e.message, "handler failed");
        }
        other => panic!("unexpected {:?}", other),
    }
    assert!(parse_server_message(&[]).is_none());
    assert!(parse_server_message(&[0x00]).is_none());
    assert!(parse_server_message(&[0x09, 1]).is_none());
}

#[test]
fn error_bodies() {
    let e = error_from_body(&[5, 3, b'a', b'b', b'c']);
    assert_eq!((e.code, e.message.as_str()), (5, "abc"));
    let e = error_from_body(&[5, 9, b'a']);
    assert_eq!((e.code, e.message.as_str()), (5, "unknown error"));
    let e = error_from_body(&[]);
    assert_eq!((e.code, e.message.as_str()), (0, ""));
    let e = error_from_body(&[1, 2, 0xff, b'a']);
    assert_eq!(e.message, "\u{fffd}a");
    let e = error_from_body(&[0x80, 0x80, 0x80, 0x80, 0x80, 0x01, 0]);
    assert_eq!(e.code, 0);
}

#[test]
fn client_actions() {
    let a = client_action(ServerMessage::Response(vec![1]), Some(PendingKind::Unary));
    assert!(matches!(a, ClientAction::Resolve(Ok(ref p)) if p == &vec![1]));
    let a = client_action(ServerMessage::Response(vec![1]), Some(PendingKind::Stream));
    assert!(matches!(a, ClientAction::Ignore));
    let a = client_action(ServerMessage::StreamItem(vec![2]), Some(PendingKind::Stream));
    assert!(matches!(a, ClientAction::PushItem(ref p) if p == &vec![2]));
    let a = client_action(ServerMessage::StreamItem(vec![2]), Some(PendingKind::Unary));
    assert!(matches!(a, ClientAction::Ignore));
    let a = client_action(ServerMessage::StreamEnd, Some(PendingKind::Stream));
    assert!(matches!(a, ClientAction::EndStream));
    let a = client_action(ServerMessage::Error(RpcError::new(3, "x")), Some(PendingKind::Unary));
    assert!(matches!(a, ClientAction::Resolve(Err(ref e)) if e.code == 3));
    let a = client_action(ServerMessage::Error(RpcError::new(3, "x")), Some(PendingKind::Stream));
    assert!(matches!(a, ClientAction::FailStream(ref e) if e.message == "x"));
    let a = client_action(ServerMessage::StreamEnd, None);
    assert!(matches!(a, ClientAction::Ignore));
}

#[test]
fn client_messages_read_back() {
    match parse_client_message(&request_frame(7, 3, &[1, 2])) {
        Some(ClientMessage::Request { call_id: 7, method_index: 3, payload }) => assert_eq!(payload, vec![1, 2]),
        other => panic!("unexpected {:?}", other),
    }
    assert!(matches!(parse_client_message(&cancel_frame(7)), Some(ClientMessage::Cancel { call_id: 7 })));
    assert!(matches!(parse_client_message(&[0x80, 7]), Some(ClientMessage::BadRequest { call_id: 7 })));
    assert!(matches!(parse_client_message(&[0x80, 7, 0x80]), Some(ClientMessage::BadRequest { call_id: 7 })));
    assert!(parse_client_message(&[0x82, 7]).is_none());
    assert!(parse_client_message(&[0x80]).is_none());
    let big = [0x80u8, 1, 0x80, 0x80, 0x80, 0x80, 0x10, 5];
    match parse_client_message(&big) {
        Some(ClientMessage::Request { method_index, payload, .. }) => {
            assert_eq!(method_index, 0);
            assert_eq!(payload, vec![5]);
        }
        other => panic!("unexpected {:?}", other),
    }
}

#[test]
fn http_requests_and_statuses() {
    assert_eq!(parse_http_request(&http_request_body(4, &[1, 2])), Some((4, vec![1, 2])));
    assert_eq!(parse_http_request(&[]), None);
    assert_eq!(parse_http_request(&[0xff]), None);
    assert_eq!(http_status_for_error(ERR_CODE_UNKNOWN_METHOD), 404);
    assert_eq!(http_status_for_error(ERR_CODE_DECODE_ERROR), 400);
    assert_eq!(http_status_for_error(ERR_CODE_HANDLER_ERROR), 500);
    assert_eq!(http_status_for_error(0), 500);
}

#[test]
fn http_errors() {
    let e = parse_http_error(CONTENT_TYPE_RPC_ERROR, &error_body(1, "unknown method"));
    assert_eq!((e.code, e.message.as_str()), (1, "unknown method"));
    let e = parse_http_error("text/plain", &error_body(1, "unknown method"));
    assert_eq!((e.code, e.message.as_str()), (3, "HTTP error"));
    let e = parse_http_error(CONTENT_TYPE_RPC_ERROR, &[]);
    assert_eq!((e.code, e.message.as_str()), (3, "HTTP error"));
    let e = parse_http_error(CONTENT_TYPE_RPC_ERROR, &[1, 5, b'a']);
    assert_eq!((e.code, e.message.as_str()), (3, "HTTP error"));
}

fn describe(events: &[StreamEvent]) -> Vec<String> {
    events
        .iter()
        .map(|e| match e {
            StreamEvent::Item(p) => format!("item {:?}", p),
            StreamEvent::End => "end".to_string(),
            StreamEvent::Error(e) => format!("error {} {}", e.code, e.message),
        })
        .collect()
}

#[test]
fn stream_bodies() {
    let mut body = Vec::new();
    body.extend(length_prefixed(&stream_item_message(&[1])));
    body.extend(length_prefixed(&stream_item_message(&[2, 3])));
    body.extend(length_prefixed(&stream_end_message()));
    assert_eq!(describe(&parse_stream_events(&body)), vec!["item [1]", "item [2, 3]", "end"]);

    let mut body = Vec::new();
    body.extend(length_prefixed(&stream_item_message(&[1])));
    body.extend(length_prefixed(&stream_error_message(3, "oops")));
    body.extend(length_prefixed(&stream_item_message(&[9])));
    assert_eq!(describe(&parse_stream_events(&body)), vec!["item [1]", "error 3 oops"]);

    assert_eq!(describe(&parse_stream_events(&[])), vec!["end"]);
    assert_eq!(
        describe(&parse_stream_events(&[0x80])),
        vec!["error 0 invalid LEB128 in stream"]
    );
    assert_eq!(describe(&parse_stream_events(&[5, 1])), vec!["error 0 truncated stream message"]);
    assert_eq!(describe(&parse_stream_events(&[0])), vec!["error 0 truncated stream message"]);
    assert_eq!(
        describe(&parse_stream_events(&[1, 9])),
        vec!["error 0 unknown stream message type"]
    );
    assert_eq!(describe(&parse_stream_events(&[2, 1, 4])), vec!["item [4]", "end"]);
}

#[test]
fn receiving_from_a_stream() {
    assert_eq!(stream_recv_result(Some(StreamEvent::Item(vec![1]))).unwrap(), vec![1]);
    assert!(stream_recv_result(Some(StreamEvent::End)).unwrap_err().is_stream_closed());
    assert!(stream_recv_result(None).unwrap_err().is_stream_closed());
    assert_eq!(stream_recv_result(Some(StreamEvent::Error(RpcError::new(4, "x")))).unwrap_err().code, 4);
}

#[test]
fn length_prefixes_read_back() {
    assert_eq!(length_prefixed(&[]), vec![0]);
    for len in [0u64, 1, 127, 128, 300, 65536, u64::MAX] {
        let mut prefix = Vec::new();
        volex::encode_leb128_u64(len, &mut prefix);
        let mut state = LengthPrefix::new();
        let mut got = None;
        for (i, b) in prefix.iter().enumerate() {
            got = state.feed(*b);
            assert_eq!(got.is_some(), i + 1 == prefix.len());
        }
        assert_eq!(got, Some(len));
    }
}

#[test]
fn http_client_addresses() {
    let c = HttpClient::new("http://localhost:8080/api/rpc");
    assert_eq!((c.host(), c.port(), c.path()), ("localhost", 8080, "/api/rpc"));
    let c = HttpClient::new("example.com");
    assert_eq!((c.host(), c.port(), c.path()), ("example.com", 80, "/rpc"));
    let c = HttpClient::new("http://h:notaport/x");
    assert_eq!((c.host(), c.port(), c.path()), ("h", 80, "/x"));
    let c = HttpClient::new("h:+99");
    assert_eq!((c.host(), c.port(), c.path()), ("h", 99, "/rpc"));
    let c = HttpClient::new("h:70000/");
    assert_eq!((c.host(), c.port(), c.path()), ("h", 80, "/"));
}

#[test]
fn port_numbers() {
    assert_eq!(parse_u16("0"), Some(0));
    assert_eq!(parse_u16("65535"), Some(65535));
    assert_eq!(parse_u16("065535"), Some(65535));
    assert_eq!(parse_u16("65536"), None);
    assert_eq!(parse_u16("+1"), Some(1));
    assert_eq!(parse_u16("+"), None);
    assert_eq!(parse_u16(""), None);
    assert_eq!(parse_u16("-1"), None);
    assert_eq!(parse_u16("1 "), None);
    for s in ["0", "80", "443", "65535", "+7", "99999", "a1", "00"] {
        assert_eq!(parse_u16(s), s.parse::<u16>().ok());
    }
}

#[test]
fn error_messages_keep_their_text() {
    let e = parse_http_error(CONTENT_TYPE_RPC_ERROR, &[0x03, 0x04, 0x6f, 0x6f, 0x70, 0x73]);
    assert_eq!((e.code, e.message.as_str()), (3, "oops"));
    let e = parse_http_error(CONTENT_TYPE_RPC_ERROR, &[0x01, 0x09, 0x61]);
    assert_eq!((e.code, e.message.as_str()), (3, "HTTP error"));
    let e = error_from_body(&error_body(4, "déjà vu"));
    assert_eq!((e.code, e.message.as_str()), (4, "déjà vu"));
}

#[test]
fn closing_decisions() {
    match closed_action(PendingKind::Unary) {
        ClientAction::Resolve(Err(e)) => assert_eq!((e.code, e.message.as_str()), (0, "transport closed")),
        other => panic!("unexpected {:?}", other),
    }
    match closed_action(PendingKind::Stream) {
        ClientAction::FailStream(e) => assert_eq!((e.code, e.message.as_str()), (0, "transport closed")),
        other => panic!("unexpected {:?}", other),
    }
    let s = StreamSenderState::new();
    assert_eq!(s.close_message(), Some(vec![2]));
    let mut s = StreamSenderState::new();
    assert_eq!(s.error_message(3, "no"), vec![3, 3, 2, b'n', b'o']);
    assert_eq!(s.close_message(), None);
}
