use websock::connection::{Connection, Phase};
use websock::frame::{encode_frame, encode_frame_masked, OpCode};
use websock::registry::Registry;
use websock::WsError;

const SAMPLE_KEY: &[u8] = b"dGhlIHNhbXBsZSBub25jZQ==";

fn masked(fin: bool, op: OpCode, payload: &[u8]) -> Vec<u8> {
    encode_frame_masked(fin, op, &payload.to_vec(), &vec![0x37, 0xfa, 0x21, 0x3d]).unwrap()
}

fn feed_handshake(c: &mut Connection) {
    c.on_header(b"Upgrade".to_vec(), b"websocket".to_vec());
    c.on_header(b"Connection".to_vec(), b"Upgrade".to_vec());
    c.on_header(b"Sec-WebSocket-Key".to_vec(), SAMPLE_KEY.to_vec());
    c.on_header(b"Sec-WebSocket-Version".to_vec(), b"13".to_vec());
}

fn open_connection() -> Connection {
    let mut c = Connection::new();
    assert_eq!(c.phase, Phase::AwaitingHandshake);
    assert!(c.want_read && !c.want_write);
    feed_handshake(&mut c);
    c.on_headers_complete().unwrap();
    assert_eq!(c.phase, Phase::HandshakeResponsePending);
    assert!(!c.want_read && c.want_write);
    let n = c.pending_output().len();
    c.on_written(n);
    assert_eq!(c.phase, Phase::Open);
    assert!(c.want_read && !c.want_write);
    c
}

#[test]
fn handshake_produces_the_exact_response() {
    let mut c = Connection::new();
    feed_handshake(&mut c);
    c.on_headers_complete().unwrap();
    let expected = b"HTTP/1.1 101 Switching Protocols\r\nConnection: Upgrade\r\n\
Sec-WebSocket-Accept: s3pPLMBiTxaQ9kYGzzhZRbK+xOo=\r\nUpgrade: websocket\r\n\r\n"
        .to_vec();
    assert_eq!(c.pending_output().clone(), expected);
}

#[test]
fn partial_writes_keep_the_response_pending() {
    let mut c = Connection::new();
    feed_handshake(&mut c);
    c.on_headers_complete().unwrap();
    let whole = c.pending_output().clone();
    c.on_written(10);
    assert_eq!(c.phase, Phase::HandshakeResponsePending);
    assert!(c.want_write);
    assert_eq!(c.pending_output().clone(), whole[10..].to_vec());
    c.on_written(whole.len() - 10);
    assert_eq!(c.phase, Phase::Open);
    assert!(c.want_read && !c.want_write);
}

#[test]
fn a_bad_handshake_closes_the_connection() {
    let mut c = Connection::new();
    c.on_header(b"Upgrade".to_vec(), b"websocket".to_vec());
    assert_eq!(c.on_headers_complete().unwrap_err(), WsError::BadHandshake);
    assert_eq!(c.phase, Phase::Closed);
}

#[test]
fn complete_message_is_delivered() {
    let mut c = open_connection();
    let (msgs, err) = c.handle_readable(&masked(true, OpCode::Text, b"Hello"));
    assert!(err.is_none());
    assert_eq!(msgs.len(), 1);
    assert_eq!(msgs[0].opcode, OpCode::Text);
    assert_eq!(msgs[0].data, b"Hello".to_vec());
    assert_eq!(c.phase, Phase::Open);
}

#[test]
fn fragmented_message_is_delivered_whole() {
    let mut c = open_connection();
    let (first, err) = c.handle_readable(&masked(false, OpCode::Text, b"Hel"));
    assert!(err.is_none());
    assert_eq!(first.len(), 0);
    let (second, err) = c.handle_readable(&masked(true, OpCode::Continuation, b"lo"));
    assert!(err.is_none());
    assert_eq!(second.len(), 1);
    assert_eq!(second[0].opcode, OpCode::Text);
    assert_eq!(second[0].data, b"Hello".to_vec());
    assert_eq!(c.phase, Phase::Open);
}

#[test]
fn bytes_split_mid_frame_give_the_same_message() {
    let mut c = open_connection();
    let bytes = masked(true, OpCode::Text, b"Hello");
    let cut = 3;
    let (msgs, _) = c.handle_readable(&bytes[..cut].to_vec());
    assert_eq!(msgs.len(), 0);
    assert_eq!(c.phase, Phase::Open);
    let (msgs, _) = c.handle_readable(&bytes[cut..].to_vec());
    assert_eq!(msgs.len(), 1);
    assert_eq!(msgs[0].data, b"Hello".to_vec());
}

#[test]
fn ping_is_answered_with_an_echoing_pong() {
    let mut c = open_connection();
    let (msgs, err) = c.handle_readable(&masked(true, OpCode::Ping, b"mark"));
    assert!(err.is_none());
    assert_eq!(msgs.len(), 0);
    let pong = encode_frame(true, OpCode::Pong, &b"mark".to_vec()).unwrap();
    assert_eq!(c.pending_output().clone(), pong);
    assert_eq!(c.phase, Phase::Open);
    assert!(c.want_write);
}

#[test]
fn ping_between_fragments_leaves_the_message_intact() {
    let mut c = open_connection();
    assert_eq!(c.handle_readable(&masked(false, OpCode::Text, b"He")).0.len(), 0);
    assert_eq!(c.handle_readable(&masked(true, OpCode::Ping, b"x")).0.len(), 0);
    let (msgs, _) = c.handle_readable(&masked(true, OpCode::Continuation, b"llo"));
    assert_eq!(msgs.len(), 1);
    assert_eq!(msgs[0].data, b"Hello".to_vec());
}

#[test]
fn close_with_no_payload_is_answered_with_an_empty_close() {
    let mut c = open_connection();
    let (msgs, err) = c.handle_readable(&masked(true, OpCode::Close, b""));
    assert!(err.is_none());
    assert_eq!(msgs.len(), 0);
    assert_eq!(c.phase, Phase::Closed);
    let reply = encode_frame(true, OpCode::Close, &Vec::new()).unwrap();
    assert_eq!(reply, vec![0x88, 0x00]);
    assert_eq!(c.pending_output().clone(), reply);
}

#[test]
fn close_payload_is_echoed() {
    let mut c = open_connection();
    let _ = c.handle_readable(&masked(true, OpCode::Close, &[3, 232]));
    let reply = encode_frame(true, OpCode::Close, &vec![3, 232]).unwrap();
    assert_eq!(c.pending_output().clone(), reply);
    assert_eq!(c.phase, Phase::Closed);
}

#[test]
fn protocol_violation_sends_close_1002_and_no_partial_message() {
    let mut c = open_connection();
    // a fragment is in progress; a forbidden fragmented control frame arrives
    assert_eq!(c.handle_readable(&masked(false, OpCode::Text, b"Hel")).0.len(), 0);
    let (msgs, err) = c.handle_readable(&masked(false, OpCode::Ping, b"x"));
    assert_eq!(err, Some(WsError::ProtocolError));
    assert_eq!(msgs.len(), 0);
    assert_eq!(c.phase, Phase::ClosingSent);
    let close = encode_frame(true, OpCode::Close, &vec![3, 234]).unwrap();
    assert_eq!(c.pending_output().clone(), close);
    // once the close is flushed the connection is fully closed
    let n = c.pending_output().len();
    c.on_written(n);
    assert_eq!(c.phase, Phase::Closed);
}

#[test]
fn continuation_without_a_start_is_a_protocol_violation() {
    let mut c = open_connection();
    let (msgs, err) = c.handle_readable(&masked(true, OpCode::Continuation, b"lost"));
    assert_eq!(err, Some(WsError::ProtocolError));
    assert_eq!(msgs.len(), 0);
    assert_eq!(c.phase, Phase::ClosingSent);
    let close = encode_frame(true, OpCode::Close, &vec![3, 234]).unwrap();
    assert_eq!(c.pending_output().clone(), close);
}

#[test]
fn registry_assigns_fresh_monotone_identifiers() {
    let mut reg = Registry::new();
    let a = reg.accept();
    let b = reg.accept();
    assert_eq!(a, 1);
    assert_eq!(b, 2);
    assert!(reg.contains(a) && reg.contains(b));
    assert!(!reg.contains(77));
    assert_eq!(reg.interest_of(a), Some((true, false)));
}

#[test]
fn registry_runs_a_connection_through_its_whole_life() {
    let mut reg = Registry::new();
    let id = reg.accept();
    reg.dispatch_header(id, b"Upgrade".to_vec(), b"websocket".to_vec());
    reg.dispatch_header(id, b"Connection".to_vec(), b"Upgrade".to_vec());
    reg.dispatch_header(id, b"Sec-WebSocket-Key".to_vec(), SAMPLE_KEY.to_vec());
    reg.dispatch_header(id, b"Sec-WebSocket-Version".to_vec(), b"13".to_vec());
    assert_eq!(reg.dispatch_headers_complete(id), Some(Ok(())));
    assert_eq!(reg.interest_of(id), Some((false, true)));
    let response = reg.output_of(id).unwrap();
    assert!(response.starts_with(b"HTTP/1.1 101 Switching Protocols\r\n"));
    reg.dispatch_written(id, response.len());
    assert_eq!(reg.interest_of(id), Some((true, false)));
    let (msgs, out) = reg.dispatch_readable(id, &masked(true, OpCode::Text, b"hi")).unwrap();
    assert_eq!(msgs.len(), 1);
    assert_eq!(msgs[0].data, b"hi".to_vec());
    assert!(out.is_none());
    // the peer closes: the connection leaves the registry and its close
    // reply comes back for a best-effort write
    let (msgs, out) = reg.dispatch_readable(id, &masked(true, OpCode::Close, b"")).unwrap();
    assert_eq!(msgs.len(), 0);
    assert_eq!(out.unwrap(), vec![0x88, 0x00]);
    assert!(!reg.contains(id));
    assert_eq!(reg.interest_of(id), None);
    // the identifier is never reassigned
    let c = reg.accept();
    assert_eq!(c, 2);
}

#[test]
fn registry_drops_a_connection_whose_handshake_fails() {
    let mut reg = Registry::new();
    let id = reg.accept();
    reg.dispatch_header(id, b"Upgrade".to_vec(), b"websocket".to_vec());
    assert_eq!(
        reg.dispatch_headers_complete(id),
        Some(Err(WsError::BadHandshake))
    );
    assert!(!reg.contains(id));
    assert_eq!(reg.dispatch_headers_complete(id), None);
    assert!(reg.dispatch_readable(id, &Vec::new()).is_none());
}

#[test]
fn events_for_unknown_identifiers_are_ignored() {
    let mut reg = Registry::new();
    assert!(reg.dispatch_readable(9, &Vec::new()).is_none());
    assert_eq!(reg.output_of(9), None);
    reg.dispatch_written(9, 4);
    assert!(!reg.contains(9));
}
