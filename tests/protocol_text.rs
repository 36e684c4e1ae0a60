use miniremotery::error::rmtError;
use miniremotery::http::{header_value, parse_handshake};
use miniremotery::remotery::Remotery;
use miniremotery::rmtSampleFlags;
use miniremotery::server::{receive_handshake_bytes, ConnectionState, ServerAction};
use miniremotery::thread::ThreadContext;
use miniremotery::wire::{decode_named, encode_name_entry, encode_thread_name, MessageType};

const REQUEST: &str = "GET / HTTP/1.1\r\nHost: localhost\r\nUpgrade: websocket\r\nSec-WebSocket-Key: dGhlIHNhbXBsZSBub25jZQ==\r\nSec-WebSocket-Version: 13\r\n\r\n";

#[test]
fn parses_handshake_fields() {
    let req = parse_handshake(&REQUEST.as_bytes().to_vec());
    assert!(req.is_get);
    assert_eq!(req.version, Some(b"13".to_vec()));
    assert_eq!(req.host, Some(b"localhost".to_vec()));
    assert_eq!(req.key, Some(b"dGhlIHNhbXBsZSBub25jZQ==".to_vec()));
}

#[test]
fn parses_missing_fields_as_none() {
    let req = parse_handshake(&b"POST / HTTP/1.1\r\nHost: a\r\n".to_vec());
    assert!(!req.is_get);
    assert_eq!(req.version, None);
    assert_eq!(req.host, Some(b"a".to_vec()));
    assert_eq!(req.key, None);
    let empty = parse_handshake(&Vec::new());
    assert!(!empty.is_get);
    assert_eq!(empty.host, None);
}

#[test]
fn header_lookup_skips_other_lines() {
    let b = b"GET /\r\nX: 1\r\nHost: h\r\n".to_vec();
    assert_eq!(header_value(&b, &b"Host: ".to_vec(), 7), Some(b"h".to_vec()));
    assert_eq!(header_value(&b, &b"Y: ".to_vec(), 7), None);
}

#[test]
fn raw_handshake_missing_version_is_rejected() {
    let bad = b"GET / HTTP/1.1\r\nHost: localhost\r\nSec-WebSocket-Key: dGhlIHNhbXBsZSBub25jZQ==\r\n\r\n".to_vec();
    let (s, a) = receive_handshake_bytes(ConnectionState::HandshakeWait, &bad, &Vec::new());
    assert_eq!(s, ConnectionState::Listening);
    assert_eq!(a, ServerAction::Reject(rmtError::RMT_ERROR_WEBSOCKET_HANDSHAKE_NO_VERSION));
    let good = REQUEST.as_bytes().to_vec();
    let (s, a) = receive_handshake_bytes(ConnectionState::HandshakeWait, &good, &vec![b"localhost".to_vec()]);
    assert_eq!(s, ConnectionState::Connected);
    assert_eq!(a, ServerAction::CompleteHandshake);
}

#[test]
fn named_frames_round_trip() {
    let f = encode_name_entry(3, "parse").unwrap();
    assert_eq!(f.len(), 5 + 8 + 5);
    assert_eq!(f[4], 1);
    assert_eq!(decode_named(&f), Some((MessageType::NameDictionaryEntry, 3, b"parse".to_vec())));
    let t = encode_thread_name(9, "main").unwrap();
    assert_eq!(decode_named(&t), Some((MessageType::ThreadName, 9, b"main".to_vec())));
    let mut short = t.clone();
    short.truncate(7);
    assert_eq!(decode_named(&short), None);
}

#[test]
fn unsent_names_come_once() {
    let mut c = ThreadContext::new(1);
    c.begin_sample(Some("a"), 0, 0);
    c.begin_sample(Some("b"), 0, 1);
    let (first, names) = c.take_unsent_names();
    assert_eq!(first, 0);
    assert_eq!(names, vec!["a".to_string(), "b".to_string()]);
    c.begin_sample(Some("a"), 0, 2);
    c.begin_sample(Some("c"), 0, 3);
    let (first, names) = c.take_unsent_names();
    assert_eq!(first, 2);
    assert_eq!(names, vec!["c".to_string()]);
    let mut r = Remotery::new();
    r.initialize().unwrap();
    r.begin_cpu_sample(4, None, rmtSampleFlags::RMTSF_None, 0);
    let (first, names) = r.take_unsent_names(4);
    assert_eq!(first, 0);
    assert_eq!(names, vec!["<unnamed>".to_string()]);
    assert_eq!(r.take_unsent_names(5).1.len(), 0);
}
