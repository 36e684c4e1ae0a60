use vstd::prelude::*;

use crate::error::rmtError;
use crate::http::{
    find_header, get_prefix, has_prefix_at, headers_start, host_key, key_key, parse_handshake,
    version_key,
};

verus! {

/// The state of the viewer connection.
#[derive(Clone, Copy, Debug, PartialEq, Eq, Structural)]
pub enum ConnectionState {
    Listening,
    HandshakeWait,
    Connected,
    Closing,
    Closed,
}

/// What happened on the socket since the last step.
#[derive(Clone, Copy, Debug, PartialEq, Eq, Structural)]
pub enum ServerEvent {
    /// A viewer connected to the listening socket.
    ClientArrived,
    /// The handshake request was read and found valid.
    HandshakeAccepted,
    /// The handshake request was read and refused with this error.
    HandshakeRejected(rmtError),
    /// A send did not drain within its bounded wait.
    SendTimedOut,
    /// The viewer closed the connection or a socket call failed.
    ConnectionLost,
    /// Queued data was flushed, as far as it could be.
    Flushed,
    /// The slot may take a new viewer.
    Reset,
}

/// What the server loop must do next.
#[derive(Clone, Copy, Debug, PartialEq, Eq, Structural)]
pub enum ServerAction {
    Nothing,
    /// Take the pending connection and wait for its handshake.
    Accept,
    /// Refuse a second viewer: one is already being served.
    RefuseBusy,
    /// Send the handshake response: the viewer is connected.
    CompleteHandshake,
    /// Close the connection attempt with this error.
    Reject(rmtError),
    /// Flush what is queued, best effort, then close.
    Close,
    /// Release the socket.
    Release,
}

/// The event that a handshake verdict makes.
pub open spec fn verdict_event(v: Result<(), rmtError>) -> ServerEvent {
    match v {
        Ok(()) => ServerEvent::HandshakeAccepted,
        Err(e) => ServerEvent::HandshakeRejected(e),
    }
}

/// The next state after an event.
pub open spec fn next_state(s: ConnectionState, e: ServerEvent) -> ConnectionState {
    match (s, e) {
        (ConnectionState::Listening, ServerEvent::ClientArrived) => ConnectionState::HandshakeWait,
        (ConnectionState::HandshakeWait, ServerEvent::HandshakeAccepted) => ConnectionState::Connected,
        (ConnectionState::HandshakeWait, ServerEvent::HandshakeRejected(_)) => ConnectionState::Listening,
        (ConnectionState::HandshakeWait, ServerEvent::ConnectionLost) => ConnectionState::Listening,
        (ConnectionState::Connected, ServerEvent::SendTimedOut) => ConnectionState::Closing,
        (ConnectionState::Connected, ServerEvent::ConnectionLost) => ConnectionState::Closing,
        (ConnectionState::Closing, ServerEvent::Flushed) => ConnectionState::Closed,
        (ConnectionState::Closing, ServerEvent::ConnectionLost) => ConnectionState::Closed,
        (ConnectionState::Closed, ServerEvent::Reset) => ConnectionState::Listening,
        _ => s,
    }
}

/// The action that goes with an event.
pub open spec fn next_action(s: ConnectionState, e: ServerEvent) -> ServerAction {
    match (s, e) {
        (ConnectionState::Listening, ServerEvent::ClientArrived) => ServerAction::Accept,
        (_, ServerEvent::ClientArrived) => ServerAction::RefuseBusy,
        (ConnectionState::HandshakeWait, ServerEvent::HandshakeAccepted) => ServerAction::CompleteHandshake,
        (ConnectionState::HandshakeWait, ServerEvent::HandshakeRejected(err)) => ServerAction::Reject(err),
        (ConnectionState::HandshakeWait, ServerEvent::ConnectionLost) => ServerAction::Release,
        (ConnectionState::Connected, ServerEvent::SendTimedOut) => ServerAction::Close,
        (ConnectionState::Connected, ServerEvent::ConnectionLost) => ServerAction::Close,
        (ConnectionState::Closing, ServerEvent::Flushed) => ServerAction::Release,
        (ConnectionState::Closing, ServerEvent::ConnectionLost) => ServerAction::Release,
        _ => ServerAction::Nothing,
    }
}

/// One step of the connection state machine.
pub fn step(s: ConnectionState, e: ServerEvent) -> (r: (ConnectionState, ServerAction))
    ensures
        r.0 == next_state(s, e),
        r.1 == next_action(s, e),
{
    match (s, e) {
        (ConnectionState::Listening, ServerEvent::ClientArrived) => (
            ConnectionState::HandshakeWait,
            ServerAction::Accept,
        ),
        (_, ServerEvent::ClientArrived) => (s, ServerAction::RefuseBusy),
        (ConnectionState::HandshakeWait, ServerEvent::HandshakeAccepted) => (
            ConnectionState::Connected,
            ServerAction::CompleteHandshake,
        ),
        (ConnectionState::HandshakeWait, ServerEvent::HandshakeRejected(err)) => (
            ConnectionState::Listening,
            ServerAction::Reject(err),
        ),
        (ConnectionState::HandshakeWait, ServerEvent::ConnectionLost) => (
            ConnectionState::Listening,
            ServerAction::Release,
        ),
        (ConnectionState::Connected, ServerEvent::SendTimedOut) => (
            ConnectionState::Closing,
            ServerAction::Close,
        ),
        (ConnectionState::Connected, ServerEvent::ConnectionLost) => (
            ConnectionState::Closing,
            ServerAction::Close,
        ),
        (ConnectionState::Closing, ServerEvent::Flushed) => (ConnectionState::Closed, ServerAction::Release),
        (ConnectionState::Closing, ServerEvent::ConnectionLost) => (
            ConnectionState::Closed,
            ServerAction::Release,
        ),
        (ConnectionState::Closed, ServerEvent::Reset) => (ConnectionState::Listening, ServerAction::Nothing),
        _ => (s, ServerAction::Nothing),
    }
}

/// The fields of a handshake request that the server checks. A field the
/// request did not carry is `None`.
pub struct HandshakeRequest {
    pub is_get: bool,
    pub version: Option<Vec<u8>>,
    pub host: Option<Vec<u8>>,
    pub key: Option<Vec<u8>>,
}

/// The one protocol version served: "13".
pub open spec fn supported_version() -> Seq<u8> {
    seq![49u8, 51u8]
}

/// The length of a well-formed key: 16 bytes in base64.
pub const KEY_LEN: usize = 24;

pub open spec fn opt_view(o: Option<Vec<u8>>) -> Option<Seq<u8>> {
    match o {
        Some(v) => Some(v@),
        None => None,
    }
}

/// The verdict on a handshake request; `allowed` lists the hosts that may
/// connect, and an empty list allows any.
pub open spec fn handshake_check(
    is_get: bool,
    version: Option<Seq<u8>>,
    host: Option<Seq<u8>>,
    key: Option<Seq<u8>>,
    allowed: Seq<Seq<u8>>,
) -> Result<(), rmtError> {
    if !is_get {
        Err(rmtError::RMT_ERROR_WEBSOCKET_HANDSHAKE_NOT_GET)
    } else if version is None {
        Err(rmtError::RMT_ERROR_WEBSOCKET_HANDSHAKE_NO_VERSION)
    } else if version->0 != supported_version() {
        Err(rmtError::RMT_ERROR_WEBSOCKET_HANDSHAKE_BAD_VERSION)
    } else if host is None {
        Err(rmtError::RMT_ERROR_WEBSOCKET_HANDSHAKE_NO_HOST)
    } else if allowed.len() > 0 && !allowed.contains(host->0) {
        Err(rmtError::RMT_ERROR_WEBSOCKET_HANDSHAKE_BAD_HOST)
    } else if key is None {
        Err(rmtError::RMT_ERROR_WEBSOCKET_HANDSHAKE_NO_KEY)
    } else if key->0.len() != KEY_LEN {
        Err(rmtError::RMT_ERROR_WEBSOCKET_HANDSHAKE_BAD_KEY)
    } else {
        Ok(())
    }
}

impl HandshakeRequest {
    pub open spec fn check(&self, allowed: Seq<Seq<u8>>) -> Result<(), rmtError> {
        handshake_check(self.is_get, opt_view(self.version), opt_view(self.host), opt_view(self.key), allowed)
    }
}

fn bytes_eq(a: &Vec<u8>, b: &Vec<u8>) -> (r: bool)
    ensures
        r == (a@ == b@),
{
    if a.len() != b.len() {
        return false;
    }
    let mut i: usize = 0;
    while i < a.len()
        invariant
            i <= a.len(),
            a.len() == b.len(),
            forall|j: int| 0 <= j < i ==> a@[j] == b@[j],
        decreases a.len() - i,
    {
        if a[i] != b[i] {
            return false;
        }
        i = i + 1;
    }
    proof {
        assert(a@ =~= b@);
    }
    true
}

fn host_allowed(host: &Vec<u8>, allowed: &Vec<Vec<u8>>) -> (r: bool)
    ensures
        r == (allowed@.len() == 0 || allowed@.map_values(|v: Vec<u8>| v@).contains(host@)),
{
    let ghost av = allowed@.map_values(|v: Vec<u8>| v@);
    if allowed.len() == 0 {
        return true;
    }
    let mut i: usize = 0;
    while i < allowed.len()
        invariant
            i <= allowed.len(),
            av == allowed@.map_values(|v: Vec<u8>| v@),
            forall|j: int| 0 <= j < i ==> av[j] != host@,
        decreases allowed.len() - i,
    {
        if bytes_eq(&allowed[i], host) {
            proof {
                assert(av[i as int] == host@);
            }
            return true;
        }
        i = i + 1;
    }
    false
}

/// Checks a handshake request against the allowed hosts.
pub fn check_handshake(req: &HandshakeRequest, allowed: &Vec<Vec<u8>>) -> (r: Result<(), rmtError>)
    ensures
        r == req.check(allowed@.map_values(|v: Vec<u8>| v@)),
{
    if !req.is_get {
        return Err(rmtError::RMT_ERROR_WEBSOCKET_HANDSHAKE_NOT_GET);
    }
    match &req.version {
        None => {
            return Err(rmtError::RMT_ERROR_WEBSOCKET_HANDSHAKE_NO_VERSION);
        },
        Some(v) => {
            if !(v.len() == 2 && v[0] == 49u8 && v[1] == 51u8) {
                proof {
                    if v@ == supported_version() {
                        assert(v@[0] == 49u8 && v@[1] == 51u8);
                    }
                }
                return Err(rmtError::RMT_ERROR_WEBSOCKET_HANDSHAKE_BAD_VERSION);
            }
            proof {
                assert(v@ =~= supported_version());
            }
        },
    }
    match &req.host {
        None => {
            return Err(rmtError::RMT_ERROR_WEBSOCKET_HANDSHAKE_NO_HOST);
        },
        Some(h) => {
            if !host_allowed(h, allowed) {
                return Err(rmtError::RMT_ERROR_WEBSOCKET_HANDSHAKE_BAD_HOST);
            }
        },
    }
    match &req.key {
        None => Err(rmtError::RMT_ERROR_WEBSOCKET_HANDSHAKE_NO_KEY),
        Some(k) => if k.len() != KEY_LEN {
            Err(rmtError::RMT_ERROR_WEBSOCKET_HANDSHAKE_BAD_KEY)
        } else {
            Ok(())
        },
    }
}

/// Checks the handshake of the waiting viewer and steps the state
/// machine with the verdict.
pub fn receive_handshake(s: ConnectionState, req: &HandshakeRequest, allowed: &Vec<Vec<u8>>) -> (r: (
    ConnectionState,
    ServerAction,
))
    ensures
        r.0 == next_state(s, verdict_event(req.check(allowed@.map_values(|v: Vec<u8>| v@)))),
        r.1 == next_action(s, verdict_event(req.check(allowed@.map_values(|v: Vec<u8>| v@)))),
{
    let verdict = check_handshake(req, allowed);
    let e = match verdict {
        Ok(()) => ServerEvent::HandshakeAccepted,
        Err(err) => ServerEvent::HandshakeRejected(err),
    };
    step(s, e)
}

/// Parses a raw handshake request, checks it, and steps the state machine
/// with the verdict.
pub fn receive_handshake_bytes(s: ConnectionState, request: &Vec<u8>, allowed: &Vec<Vec<u8>>) -> (r: (
    ConnectionState,
    ServerAction,
))
    ensures
        ({
            let verdict = handshake_check(
                has_prefix_at(request@, 0, get_prefix()),
                find_header(request@, version_key(), headers_start(request@)),
                find_header(request@, host_key(), headers_start(request@)),
                find_header(request@, key_key(), headers_start(request@)),
                allowed@.map_values(|v: Vec<u8>| v@),
            );
            r.0 == next_state(s, verdict_event(verdict)) && r.1 == next_action(s, verdict_event(verdict))
        }),
{
    let req = parse_handshake(request);
    receive_handshake(s, &req, allowed)
}

/// A handshake request missing a required field is rejected with the
/// error that names the field, and the server goes back to listening for
/// the next viewer rather than staying in the handshake.
pub proof fn lemma_malformed_handshake_listens(
    is_get: bool,
    version: Option<Seq<u8>>,
    host: Option<Seq<u8>>,
    key: Option<Seq<u8>>,
    allowed: Seq<Seq<u8>>,
)
    requires
        handshake_check(is_get, version, host, key, allowed) is Err,
    ensures
        next_state(
            ConnectionState::HandshakeWait,
            verdict_event(handshake_check(is_get, version, host, key, allowed)),
        ) == ConnectionState::Listening,
        next_action(
            ConnectionState::HandshakeWait,
            verdict_event(handshake_check(is_get, version, host, key, allowed)),
        ) == ServerAction::Reject(handshake_check(is_get, version, host, key, allowed)->Err_0),
        is_get && version is None ==> handshake_check(is_get, version, host, key, allowed) == Err::<
            (),
            rmtError,
        >(rmtError::RMT_ERROR_WEBSOCKET_HANDSHAKE_NO_VERSION),
        is_get && version == Some(supported_version()) && host is None ==> handshake_check(
            is_get,
            version,
            host,
            key,
            allowed,
        ) == Err::<(), rmtError>(rmtError::RMT_ERROR_WEBSOCKET_HANDSHAKE_NO_HOST),
{
}

} // verus!
