use websock::frame::{decode_frame, encode_frame, encode_frame_masked, DecodeOutcome, OpCode};
use websock::WsError;

fn mask_key() -> Vec<u8> {
    vec![0x37, 0xfa, 0x21, 0x3d]
}

fn masked(fin: bool, op: OpCode, payload: &[u8]) -> Vec<u8> {
    encode_frame_masked(fin, op, &payload.to_vec(), &mask_key()).unwrap()
}

fn decode_one(bytes: &Vec<u8>) -> (websock::frame::Frame, usize) {
    match decode_frame(bytes) {
        DecodeOutcome::Decoded(f, n) => (f, n),
        DecodeOutcome::NeedMoreData => panic!("unexpected NeedMoreData"),
        DecodeOutcome::ProtocolError => panic!("unexpected ProtocolError"),
    }
}

#[test]
fn round_trip_simple_text() {
    let bytes = masked(true, OpCode::Text, b"Hello");
    let (f, n) = decode_one(&bytes);
    assert_eq!(n, bytes.len());
    assert!(f.fin);
    assert_eq!(f.opcode, OpCode::Text);
    assert!(f.masked);
    assert_eq!(f.payload, b"Hello".to_vec());
}

#[test]
fn round_trip_all_opcodes() {
    let cases: Vec<(bool, OpCode, &[u8])> = vec![
        (true, OpCode::Text, b"abc"),
        (false, OpCode::Text, b"abc"),
        (true, OpCode::Binary, &[0, 1, 2, 255]),
        (false, OpCode::Binary, b""),
        (false, OpCode::Continuation, b"mid"),
        (true, OpCode::Continuation, b"end"),
        (true, OpCode::Close, &[3, 232]),
        (true, OpCode::Ping, b"p"),
        (true, OpCode::Pong, b"q"),
    ];
    for (fin, op, payload) in cases {
        let bytes = masked(fin, op, payload);
        let (f, n) = decode_one(&bytes);
        assert_eq!(n, bytes.len());
        assert_eq!(f.fin, fin);
        assert_eq!(f.opcode, op);
        assert_eq!(f.payload, payload.to_vec());
    }
}

#[test]
fn length_tiers_encode_and_recover() {
    // 7-bit lengths: 0, 1, 125; 16-bit: 126, 65535; 64-bit: 65536
    for &len in &[0usize, 1, 125, 126, 65535, 65536] {
        let payload: Vec<u8> = (0..len).map(|i| (i % 251) as u8).collect();
        let server = encode_frame(true, OpCode::Binary, &payload).unwrap();
        assert_eq!(server[0], 0x80 | 2);
        if len <= 125 {
            assert_eq!(server[1] as usize, len);
            assert_eq!(server.len(), 2 + len);
        } else if len <= 65535 {
            assert_eq!(server[1], 126);
            assert_eq!(server[2] as usize, len / 256);
            assert_eq!(server[3] as usize, len % 256);
            assert_eq!(server.len(), 4 + len);
        } else {
            assert_eq!(server[1], 127);
            let mut v: usize = 0;
            for k in 0..8 {
                v = v * 256 + server[2 + k] as usize;
            }
            assert_eq!(v, len);
            assert_eq!(server.len(), 10 + len);
        }
        assert_eq!(&server[server.len() - len..], &payload[..]);

        let client = masked(true, OpCode::Binary, &payload);
        let (f, n) = decode_one(&client);
        assert_eq!(n, client.len());
        assert_eq!(f.payload.len(), len);
        assert_eq!(f.payload, payload);
    }
}

#[test]
fn partial_frames_need_more_data_then_decode_whole() {
    let bytes = masked(true, OpCode::Text, b"split me apart");
    // every strict prefix of the frame asks for more data
    for cut in 0..bytes.len() {
        let prefix: Vec<u8> = bytes[..cut].to_vec();
        match decode_frame(&prefix) {
            DecodeOutcome::NeedMoreData => {},
            _ => panic!("prefix of {} bytes should need more data", cut),
        }
    }
    // the bytes arriving later give the same frame as arriving together
    let (f, n) = decode_one(&bytes);
    assert_eq!(n, bytes.len());
    assert_eq!(f.payload, b"split me apart".to_vec());
}

#[test]
fn trailing_bytes_stay_for_the_next_decode() {
    let mut bytes = masked(true, OpCode::Text, b"one");
    let second = masked(true, OpCode::Text, b"two");
    let first_len = bytes.len();
    bytes.extend_from_slice(&second);
    let (f, n) = decode_one(&bytes);
    assert_eq!(n, first_len);
    assert_eq!(f.payload, b"one".to_vec());
    let rest: Vec<u8> = bytes[n..].to_vec();
    let (g, m) = decode_one(&rest);
    assert_eq!(m, rest.len());
    assert_eq!(g.payload, b"two".to_vec());
}

#[test]
fn reserved_bits_are_a_protocol_error() {
    let mut bytes = masked(true, OpCode::Text, b"x");
    bytes[0] |= 0x40;
    assert!(matches!(decode_frame(&bytes), DecodeOutcome::ProtocolError));
}

#[test]
fn unknown_opcode_is_a_protocol_error() {
    let mut bytes = masked(true, OpCode::Text, b"x");
    bytes[0] = (bytes[0] & 0xf0) | 0x03;
    assert!(matches!(decode_frame(&bytes), DecodeOutcome::ProtocolError));
}

#[test]
fn unmasked_client_frame_is_a_protocol_error() {
    // a server frame is unmasked; a server receiving one must reject it
    let bytes = encode_frame(true, OpCode::Text, &b"x".to_vec()).unwrap();
    assert!(matches!(decode_frame(&bytes), DecodeOutcome::ProtocolError));
}

#[test]
fn fragmented_control_frame_is_a_protocol_error() {
    let bytes = masked(false, OpCode::Ping, b"p");
    assert!(matches!(decode_frame(&bytes), DecodeOutcome::ProtocolError));
    let close = masked(false, OpCode::Close, b"");
    assert!(matches!(decode_frame(&close), DecodeOutcome::ProtocolError));
}

#[test]
fn oversized_control_frame_is_a_protocol_error() {
    // built by hand: encode_frame_masked refuses to build one
    let payload = [7u8; 126];
    let key = mask_key();
    let mut bytes = vec![0x89, 0xFE, 0x00, 0x7E];
    bytes.extend_from_slice(&key);
    for (i, b) in payload.iter().enumerate() {
        bytes.push(b ^ key[i % 4]);
    }
    assert!(matches!(decode_frame(&bytes), DecodeOutcome::ProtocolError));
}

#[test]
fn encoding_an_oversized_control_frame_is_refused() {
    let payload = vec![7u8; 126];
    assert_eq!(
        encode_frame(true, OpCode::Ping, &payload).unwrap_err(),
        WsError::InvalidFrame
    );
    assert_eq!(
        encode_frame_masked(true, OpCode::Close, &payload, &mask_key()).unwrap_err(),
        WsError::InvalidFrame
    );
}

#[test]
fn length_at_2_63_is_a_protocol_error() {
    // 64-bit length field with the high bit set
    let bytes = vec![0x82, 0xFF, 0x80, 0, 0, 0, 0, 0, 0, 0];
    assert!(matches!(decode_frame(&bytes), DecodeOutcome::ProtocolError));
}

#[test]
fn masking_actually_scrambles_the_wire_bytes() {
    // the payload must not appear in clear on the wire unless the key is zero
    let bytes = masked(true, OpCode::Text, b"Hello");
    let tail: Vec<u8> = bytes[bytes.len() - 5..].to_vec();
    assert_ne!(tail, b"Hello".to_vec());
}
