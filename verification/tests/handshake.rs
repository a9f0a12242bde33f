use websock::handshake::{
    check_key, contains_token, eq_ignore_case, gen_key, trimmed_equals, validate_upgrade,
    HeaderMap,
};
use websock::WsError;

const SAMPLE_KEY: &[u8] = b"dGhlIHNhbXBsZSBub25jZQ==";
const SAMPLE_ACCEPT: &[u8] = b"s3pPLMBiTxaQ9kYGzzhZRbK+xOo=";

fn good_headers() -> HeaderMap {
    let mut h = HeaderMap::new();
    h.insert(b"Host".to_vec(), b"example.com".to_vec());
    h.insert(b"Upgrade".to_vec(), b"websocket".to_vec());
    h.insert(b"Connection".to_vec(), b"Upgrade".to_vec());
    h.insert(b"Sec-WebSocket-Key".to_vec(), SAMPLE_KEY.to_vec());
    h.insert(b"Sec-WebSocket-Version".to_vec(), b"13".to_vec());
    h
}

#[test]
fn sample_key_yields_the_canonical_accept_token() {
    assert_eq!(gen_key(&SAMPLE_KEY.to_vec()), SAMPLE_ACCEPT.to_vec());
}

#[test]
fn valid_upgrade_request_is_accepted() {
    let token = validate_upgrade(&good_headers()).unwrap();
    assert_eq!(token, SAMPLE_ACCEPT.to_vec());
}

#[test]
fn header_names_are_case_insensitive() {
    let mut h = HeaderMap::new();
    h.insert(b"UPGRADE".to_vec(), b"WebSocket".to_vec());
    h.insert(b"connection".to_vec(), b"keep-alive, Upgrade".to_vec());
    h.insert(b"SEC-WEBSOCKET-KEY".to_vec(), SAMPLE_KEY.to_vec());
    h.insert(b"sec-websocket-version".to_vec(), b"13".to_vec());
    let token = validate_upgrade(&h).unwrap();
    assert_eq!(token, SAMPLE_ACCEPT.to_vec());
}

#[test]
fn a_later_insert_replaces_the_earlier_value() {
    let mut h = good_headers();
    h.insert(b"sec-websocket-version".to_vec(), b"8".to_vec());
    assert_eq!(validate_upgrade(&h).unwrap_err(), WsError::BadHandshake);
    h.insert(b"Sec-WebSocket-Version".to_vec(), b"13".to_vec());
    assert!(validate_upgrade(&h).is_ok());
    assert_eq!(h.lookup(&b"SEC-WebSocket-VERSION".to_vec()), Some(b"13".to_vec()));
}

#[test]
fn missing_headers_fail_the_handshake() {
    for name in ["Upgrade", "Connection", "Sec-WebSocket-Key", "Sec-WebSocket-Version"] {
        let mut h = HeaderMap::new();
        for (k, v) in [
            ("Upgrade", b"websocket".to_vec()),
            ("Connection", b"Upgrade".to_vec()),
            ("Sec-WebSocket-Key", SAMPLE_KEY.to_vec()),
            ("Sec-WebSocket-Version", b"13".to_vec()),
        ] {
            if k != name {
                h.insert(k.as_bytes().to_vec(), v);
            }
        }
        assert_eq!(validate_upgrade(&h).unwrap_err(), WsError::BadHandshake);
    }
}

#[test]
fn wrong_version_fails_the_handshake() {
    let mut h = good_headers();
    h.insert(b"Sec-WebSocket-Version".to_vec(), b"8".to_vec());
    assert_eq!(validate_upgrade(&h).unwrap_err(), WsError::BadHandshake);
}

#[test]
fn upgrade_without_the_websocket_token_fails() {
    let mut h = good_headers();
    h.insert(b"Upgrade".to_vec(), b"h2c".to_vec());
    assert_eq!(validate_upgrade(&h).unwrap_err(), WsError::BadHandshake);
}

#[test]
fn malformed_keys_fail_the_handshake() {
    for bad in [
        &b""[..],
        &b"short"[..],
        &b"dGhlIHNhbXBsZSBub25jZQ=!"[..],
        &b"dGhlIHNhbXBsZSBub25jZSBi"[..],
        &b"dGhl IHNhbXBsZSBub25jZQ=="[..],
    ] {
        let mut h = good_headers();
        h.insert(b"Sec-WebSocket-Key".to_vec(), bad.to_vec());
        assert_eq!(validate_upgrade(&h).unwrap_err(), WsError::BadHandshake);
    }
}

#[test]
fn key_check_accepts_the_sample_key() {
    assert!(check_key(&SAMPLE_KEY.to_vec()));
    assert!(!check_key(&b"dGhlIHNhbXBsZSBub25jZSBi".to_vec()));
}

#[test]
fn token_lists_are_split_on_commas_and_trimmed() {
    let value = b"  keep-alive ,\tUPGRADE , foo".to_vec();
    assert!(contains_token(&value, &b"upgrade".to_vec()));
    assert!(contains_token(&value, &b"keep-alive".to_vec()));
    assert!(contains_token(&value, &b"foo".to_vec()));
    assert!(!contains_token(&value, &b"websocket".to_vec()));
    assert!(!contains_token(&b"upgraded".to_vec(), &b"upgrade".to_vec()));
}

#[test]
fn trimming_and_case_folding_behave() {
    assert!(trimmed_equals(&b"  13\t".to_vec(), &b"13".to_vec()));
    assert!(!trimmed_equals(&b"1 3".to_vec(), &b"13".to_vec()));
    assert!(eq_ignore_case(&b"WebSocket".to_vec(), &b"wEBSOCKET".to_vec()));
    assert!(!eq_ignore_case(&b"websocket".to_vec(), &b"websockets".to_vec()));
}

#[test]
fn accept_token_differs_when_the_key_differs() {
    // a wrapper handing its argument back unchanged could not pass both
    // this and the canonical example
    let other = gen_key(&b"AAAAAAAAAAAAAAAAAAAAAA==".to_vec());
    assert_ne!(other, SAMPLE_ACCEPT.to_vec());
    assert_ne!(other, b"AAAAAAAAAAAAAAAAAAAAAA==".to_vec());
    assert_eq!(other.len(), 28);
}
