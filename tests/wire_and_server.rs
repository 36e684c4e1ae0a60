use miniremotery::error::{rmtError, u32_to_rmtError};
use miniremotery::sample::Sample;
use miniremotery::server::{
    check_handshake, receive_handshake, step, ConnectionState, HandshakeRequest, ServerAction,
    ServerEvent,
};
use miniremotery::wire::{decode_frame, decode_snapshot, encode_frame, encode_snapshot, MessageType};

fn sample(name: u64, depth: u64, start: u64, end: u64) -> Sample {
    Sample {
        name,
        depth,
        start,
        end,
        duration: end - start,
        call_count: 1,
        flags: 2,
        last_start: start,
    }
}

#[test]
fn snapshot_round_trip() {
    let rs = vec![sample(1, 0, 5, 50), sample(2, 1, 6, 9), sample(u64::MAX, 2, 7, 8)];
    let bytes = encode_snapshot(42, &rs).unwrap();
    assert_eq!(bytes.len(), 5 + 16 + 64 * 3);
    assert_eq!(&bytes[0..5], &[208, 0, 0, 0, 2]);
    assert_eq!(&bytes[5..13], &[42, 0, 0, 0, 0, 0, 0, 0]);
    let (t, back) = decode_snapshot(&bytes).unwrap();
    assert_eq!(t, 42);
    assert_eq!(back, rs);
}

#[test]
fn empty_snapshot_round_trip() {
    let bytes = encode_snapshot(7, &Vec::new()).unwrap();
    assert_eq!(bytes.len(), 21);
    assert_eq!(decode_snapshot(&bytes), Some((7, Vec::new())));
}

#[test]
fn snapshot_decoding_rejects_damage() {
    let rs = vec![sample(1, 0, 5, 50)];
    let mut bytes = encode_snapshot(1, &rs).unwrap();
    bytes.pop();
    assert!(decode_snapshot(&bytes).is_none());
    let mut wrong_kind = encode_snapshot(1, &rs).unwrap();
    wrong_kind[4] = 3;
    assert!(decode_snapshot(&wrong_kind).is_none());
    let mut wrong_count = encode_snapshot(1, &rs).unwrap();
    wrong_count[13] = 2;
    assert!(decode_snapshot(&wrong_count).is_none());
}

#[test]
fn frame_round_trip() {
    let f = encode_frame(MessageType::ThreadName, vec![104, 105]).unwrap();
    assert_eq!(f, vec![2, 0, 0, 0, 3, 104, 105]);
    let (k, p) = decode_frame(&f).unwrap();
    assert_eq!(k, MessageType::ThreadName);
    assert_eq!(p, vec![104, 105]);
    assert!(decode_frame(&vec![0, 0, 0, 0, 9]).is_none());
}

fn good_request() -> HandshakeRequest {
    HandshakeRequest {
        is_get: true,
        version: Some(b"13".to_vec()),
        host: Some(b"localhost".to_vec()),
        key: Some(b"dGhlIHNhbXBsZSBub25jZQ==".to_vec()),
    }
}

#[test]
fn handshake_errors() {
    let allowed = vec![b"localhost".to_vec()];
    assert_eq!(check_handshake(&good_request(), &allowed), Ok(()));
    assert_eq!(check_handshake(&good_request(), &Vec::new()), Ok(()));
    let mut r = good_request();
    r.is_get = false;
    assert_eq!(check_handshake(&r, &allowed), Err(rmtError::RMT_ERROR_WEBSOCKET_HANDSHAKE_NOT_GET));
    let mut r = good_request();
    r.version = None;
    assert_eq!(check_handshake(&r, &allowed), Err(rmtError::RMT_ERROR_WEBSOCKET_HANDSHAKE_NO_VERSION));
    let mut r = good_request();
    r.version = Some(b"8".to_vec());
    assert_eq!(check_handshake(&r, &allowed), Err(rmtError::RMT_ERROR_WEBSOCKET_HANDSHAKE_BAD_VERSION));
    let mut r = good_request();
    r.host = None;
    assert_eq!(check_handshake(&r, &allowed), Err(rmtError::RMT_ERROR_WEBSOCKET_HANDSHAKE_NO_HOST));
    let mut r = good_request();
    r.host = Some(b"example.com".to_vec());
    assert_eq!(check_handshake(&r, &allowed), Err(rmtError::RMT_ERROR_WEBSOCKET_HANDSHAKE_BAD_HOST));
    let mut r = good_request();
    r.key = None;
    assert_eq!(check_handshake(&r, &allowed), Err(rmtError::RMT_ERROR_WEBSOCKET_HANDSHAKE_NO_KEY));
    let mut r = good_request();
    r.key = Some(b"short".to_vec());
    assert_eq!(check_handshake(&r, &allowed), Err(rmtError::RMT_ERROR_WEBSOCKET_HANDSHAKE_BAD_KEY));
}

#[test]
fn malformed_handshake_returns_to_listening() {
    let (s, a) = step(ConnectionState::Listening, ServerEvent::ClientArrived);
    assert_eq!(s, ConnectionState::HandshakeWait);
    assert_eq!(a, ServerAction::Accept);
    let mut r = good_request();
    r.key = None;
    let (s, a) = receive_handshake(s, &r, &Vec::new());
    assert_eq!(s, ConnectionState::Listening);
    assert_eq!(a, ServerAction::Reject(rmtError::RMT_ERROR_WEBSOCKET_HANDSHAKE_NO_KEY));
    let (s, _) = step(s, ServerEvent::ClientArrived);
    let (s, a) = receive_handshake(s, &good_request(), &Vec::new());
    assert_eq!(s, ConnectionState::Connected);
    assert_eq!(a, ServerAction::CompleteHandshake);
}

#[test]
fn connection_lifecycle() {
    let (s, a) = step(ConnectionState::Connected, ServerEvent::ClientArrived);
    assert_eq!((s, a), (ConnectionState::Connected, ServerAction::RefuseBusy));
    let (s, a) = step(s, ServerEvent::SendTimedOut);
    assert_eq!((s, a), (ConnectionState::Closing, ServerAction::Close));
    let (s, a) = step(s, ServerEvent::Flushed);
    assert_eq!((s, a), (ConnectionState::Closed, ServerAction::Release));
    let (s, a) = step(s, ServerEvent::Reset);
    assert_eq!((s, a), (ConnectionState::Listening, ServerAction::Nothing));
}

#[test]
fn error_codes() {
    assert_eq!(u32_to_rmtError(0), rmtError::RMT_ERROR_NONE);
    assert_eq!(u32_to_rmtError(24), rmtError::RMT_ERROR_WEBSOCKET_HANDSHAKE_BAD_HOST);
    assert_eq!(u32_to_rmtError(45), rmtError::RMT_ERROR_UNKNOWN);
    assert_eq!(u32_to_rmtError(46), rmtError::RMT_ERROR_UNKNOWN);
    assert_eq!(u32_to_rmtError(u32::MAX), rmtError::RMT_ERROR_UNKNOWN);
    for c in 0..=45u32 {
        assert_eq!(u32_to_rmtError(c).code(), c);
    }
}
