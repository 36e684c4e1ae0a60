use vstd::prelude::*;

verus! {

/// The closed set of error kinds of the profiler.
///
/// Each kind has a fixed numeric code, the one the viewer and native
/// bindings use on the wire; `rmtError::code` gives it and
/// `u32_to_rmtError` maps a code back.
#[allow(non_camel_case_types)]
#[derive(Clone, Copy, Debug, PartialEq, Eq, Structural)]
pub enum rmtError {
    /// No error.
    RMT_ERROR_NONE,
    /// Not an error but an internal message to calling code.
    RMT_ERROR_RECURSIVE_SAMPLE,
    // System errors
    /// Malloc call within remotery failed.
    RMT_ERROR_MALLOC_FAIL,
    /// Attempt to allocate thread local storage failed.
    RMT_ERROR_TLS_ALLOC_FAIL,
    /// Failed to create a virtual memory mirror buffer.
    RMT_ERROR_VIRTUAL_MEMORY_BUFFER_FAIL,
    /// Failed to create a thread for the server.
    RMT_ERROR_CREATE_THREAD_FAIL,
    // Network socket errors
    /// Network initialisation failure (e.g. on Win32, WSAStartup fails).
    RMT_ERROR_SOCKET_INIT_NETWORK_FAIL,
    /// Can't create a socket for connection to the remote viewer.
    RMT_ERROR_SOCKET_CREATE_FAIL,
    /// Can't bind a socket for the server.
    RMT_ERROR_SOCKET_BIND_FAIL,
    /// Created server socket failed to enter a listen state.
    RMT_ERROR_SOCKET_LISTEN_FAIL,
    /// Created server socket failed to switch to a non-blocking state.
    RMT_ERROR_SOCKET_SET_NON_BLOCKING_FAIL,
    /// Poll attempt on an invalid socket.
    RMT_ERROR_SOCKET_INVALID_POLL,
    /// Server failed to call select on socket.
    RMT_ERROR_SOCKET_SELECT_FAIL,
    /// Poll notified that the socket has errors.
    RMT_ERROR_SOCKET_POLL_ERRORS,
    /// Server failed to accept connection from client.
    RMT_ERROR_SOCKET_ACCEPT_FAIL,
    /// Timed out trying to send data.
    RMT_ERROR_SOCKET_SEND_TIMEOUT,
    /// Unrecoverable error occured while client/server tried to send data.
    RMT_ERROR_SOCKET_SEND_FAIL,
    /// No data available when attempting a receive.
    RMT_ERROR_SOCKET_RECV_NO_DATA,
    /// Timed out trying to receive data.
    RMT_ERROR_SOCKET_RECV_TIMEOUT,
    /// Unrecoverable error occured while client/server tried to receive data.
    RMT_ERROR_SOCKET_RECV_FAILED,
    // WebSocket handshake and framing errors
    /// WebSocket server handshake failed, not HTTP GET.
    RMT_ERROR_WEBSOCKET_HANDSHAKE_NOT_GET,
    /// WebSocket server handshake failed, can't locate WebSocket version.
    RMT_ERROR_WEBSOCKET_HANDSHAKE_NO_VERSION,
    /// WebSocket server handshake failed, unsupported WebSocket version.
    RMT_ERROR_WEBSOCKET_HANDSHAKE_BAD_VERSION,
    /// WebSocket server handshake failed, can't locate host.
    RMT_ERROR_WEBSOCKET_HANDSHAKE_NO_HOST,
    /// WebSocket server handshake failed, host is not allowed to connect.
    RMT_ERROR_WEBSOCKET_HANDSHAKE_BAD_HOST,
    /// WebSocket server handshake failed, can't locate WebSocket key.
    RMT_ERROR_WEBSOCKET_HANDSHAKE_NO_KEY,
    /// WebSocket server handshake failed, WebSocket key is ill-formed.
    RMT_ERROR_WEBSOCKET_HANDSHAKE_BAD_KEY,
    /// WebSocket server handshake failed, internal error, bad string code.
    RMT_ERROR_WEBSOCKET_HANDSHAKE_STRING_FAIL,
    /// WebSocket server received a disconnect request and closed the socket.
    RMT_ERROR_WEBSOCKET_DISCONNECTED,
    /// Couldn't parse WebSocket frame header.
    RMT_ERROR_WEBSOCKET_BAD_FRAME_HEADER,
    /// Partially received wide frame header size.
    RMT_ERROR_WEBSOCKET_BAD_FRAME_HEADER_SIZE,
    /// Partially received frame header data mask.
    RMT_ERROR_WEBSOCKET_BAD_FRAME_HEADER_MASK,
    /// Timeout receiving frame header.
    RMT_ERROR_WEBSOCKET_RECEIVE_TIMEOUT,
    // Profiler state errors
    /// Remotery object has not been created.
    RMT_ERROR_REMOTERY_NOT_CREATED,
    /// An attempt was made to send an incomplete profile tree to the client.
    RMT_ERROR_SEND_ON_INCOMPLETE_PROFILE,
    // GPU back-end errors (kept so that every code keeps its meaning)
    /// This indicates that the CUDA driver is in the process of shutting down.
    RMT_ERROR_CUDA_DEINITIALIZED,
    /// This indicates that the CUDA driver has not been initialized with cuInit() or that initialization has failed.
    RMT_ERROR_CUDA_NOT_INITIALIZED,
    /// This most frequently indicates that there is no context bound to the current thread.
    RMT_ERROR_CUDA_INVALID_CONTEXT,
    /// This indicates that one or more of the parameters passed to the API call is not within an acceptable range of values.
    RMT_ERROR_CUDA_INVALID_VALUE,
    /// This indicates that a resource handle passed to the API call was not valid.
    RMT_ERROR_CUDA_INVALID_HANDLE,
    /// The API call failed because it was unable to allocate enough memory to perform the requested operation.
    RMT_ERROR_CUDA_OUT_OF_MEMORY,
    /// This indicates that a resource handle passed to the API call was not valid.
    RMT_ERROR_ERROR_NOT_READY,
    /// Failed to create query for sample.
    RMT_ERROR_D3D11_FAILED_TO_CREATE_QUERY,
    /// Generic OpenGL error, no need to expose detail since app will need an OpenGL error callback registered.
    RMT_ERROR_OPENGL_ERROR,
    /// Unknown CUDA error.
    RMT_ERROR_CUDA_UNKNOWN,
    // Any code outside the table above
    /// Unknown error.
    RMT_ERROR_UNKNOWN,
}

impl rmtError {
    /// The numeric code of an error kind.
    pub open spec fn spec_code(self) -> u32 {
        match self {
            rmtError::RMT_ERROR_NONE => 0,
            rmtError::RMT_ERROR_RECURSIVE_SAMPLE => 1,
            rmtError::RMT_ERROR_MALLOC_FAIL => 2,
            rmtError::RMT_ERROR_TLS_ALLOC_FAIL => 3,
            rmtError::RMT_ERROR_VIRTUAL_MEMORY_BUFFER_FAIL => 4,
            rmtError::RMT_ERROR_CREATE_THREAD_FAIL => 5,
            rmtError::RMT_ERROR_SOCKET_INIT_NETWORK_FAIL => 6,
            rmtError::RMT_ERROR_SOCKET_CREATE_FAIL => 7,
            rmtError::RMT_ERROR_SOCKET_BIND_FAIL => 8,
            rmtError::RMT_ERROR_SOCKET_LISTEN_FAIL => 9,
            rmtError::RMT_ERROR_SOCKET_SET_NON_BLOCKING_FAIL => 10,
            rmtError::RMT_ERROR_SOCKET_INVALID_POLL => 11,
            rmtError::RMT_ERROR_SOCKET_SELECT_FAIL => 12,
            rmtError::RMT_ERROR_SOCKET_POLL_ERRORS => 13,
            rmtError::RMT_ERROR_SOCKET_ACCEPT_FAIL => 14,
            rmtError::RMT_ERROR_SOCKET_SEND_TIMEOUT => 15,
            rmtError::RMT_ERROR_SOCKET_SEND_FAIL => 16,
            rmtError::RMT_ERROR_SOCKET_RECV_NO_DATA => 17,
            rmtError::RMT_ERROR_SOCKET_RECV_TIMEOUT => 18,
            rmtError::RMT_ERROR_SOCKET_RECV_FAILED => 19,
            rmtError::RMT_ERROR_WEBSOCKET_HANDSHAKE_NOT_GET => 20,
            rmtError::RMT_ERROR_WEBSOCKET_HANDSHAKE_NO_VERSION => 21,
            rmtError::RMT_ERROR_WEBSOCKET_HANDSHAKE_BAD_VERSION => 22,
            rmtError::RMT_ERROR_WEBSOCKET_HANDSHAKE_NO_HOST => 23,
            rmtError::RMT_ERROR_WEBSOCKET_HANDSHAKE_BAD_HOST => 24,
            rmtError::RMT_ERROR_WEBSOCKET_HANDSHAKE_NO_KEY => 25,
            rmtError::RMT_ERROR_WEBSOCKET_HANDSHAKE_BAD_KEY => 26,
            rmtError::RMT_ERROR_WEBSOCKET_HANDSHAKE_STRING_FAIL => 27,
            rmtError::RMT_ERROR_WEBSOCKET_DISCONNECTED => 28,
            rmtError::RMT_ERROR_WEBSOCKET_BAD_FRAME_HEADER => 29,
            rmtError::RMT_ERROR_WEBSOCKET_BAD_FRAME_HEADER_SIZE => 30,
            rmtError::RMT_ERROR_WEBSOCKET_BAD_FRAME_HEADER_MASK => 31,
            rmtError::RMT_ERROR_WEBSOCKET_RECEIVE_TIMEOUT => 32,
            rmtError::RMT_ERROR_REMOTERY_NOT_CREATED => 33,
            rmtError::RMT_ERROR_SEND_ON_INCOMPLETE_PROFILE => 34,
            rmtError::RMT_ERROR_CUDA_DEINITIALIZED => 35,
            rmtError::RMT_ERROR_CUDA_NOT_INITIALIZED => 36,
            rmtError::RMT_ERROR_CUDA_INVALID_CONTEXT => 37,
            rmtError::RMT_ERROR_CUDA_INVALID_VALUE => 38,
            rmtError::RMT_ERROR_CUDA_INVALID_HANDLE => 39,
            rmtError::RMT_ERROR_CUDA_OUT_OF_MEMORY => 40,
            rmtError::RMT_ERROR_ERROR_NOT_READY => 41,
            rmtError::RMT_ERROR_D3D11_FAILED_TO_CREATE_QUERY => 42,
            rmtError::RMT_ERROR_OPENGL_ERROR => 43,
            rmtError::RMT_ERROR_CUDA_UNKNOWN => 44,
            rmtError::RMT_ERROR_UNKNOWN => 45,
        }
    }

    /// The numeric code of this error kind.
    pub fn code(&self) -> (r: u32)
        ensures
            r == self.spec_code(),
    {
        match self {
            rmtError::RMT_ERROR_NONE => 0,
            rmtError::RMT_ERROR_RECURSIVE_SAMPLE => 1,
            rmtError::RMT_ERROR_MALLOC_FAIL => 2,
            rmtError::RMT_ERROR_TLS_ALLOC_FAIL => 3,
            rmtError::RMT_ERROR_VIRTUAL_MEMORY_BUFFER_FAIL => 4,
            rmtError::RMT_ERROR_CREATE_THREAD_FAIL => 5,
            rmtError::RMT_ERROR_SOCKET_INIT_NETWORK_FAIL => 6,
            rmtError::RMT_ERROR_SOCKET_CREATE_FAIL => 7,
            rmtError::RMT_ERROR_SOCKET_BIND_FAIL => 8,
            rmtError::RMT_ERROR_SOCKET_LISTEN_FAIL => 9,
            rmtError::RMT_ERROR_SOCKET_SET_NON_BLOCKING_FAIL => 10,
            rmtError::RMT_ERROR_SOCKET_INVALID_POLL => 11,
            rmtError::RMT_ERROR_SOCKET_SELECT_FAIL => 12,
            rmtError::RMT_ERROR_SOCKET_POLL_ERRORS => 13,
            rmtError::RMT_ERROR_SOCKET_ACCEPT_FAIL => 14,
            rmtError::RMT_ERROR_SOCKET_SEND_TIMEOUT => 15,
            rmtError::RMT_ERROR_SOCKET_SEND_FAIL => 16,
            rmtError::RMT_ERROR_SOCKET_RECV_NO_DATA => 17,
            rmtError::RMT_ERROR_SOCKET_RECV_TIMEOUT => 18,
            rmtError::RMT_ERROR_SOCKET_RECV_FAILED => 19,
            rmtError::RMT_ERROR_WEBSOCKET_HANDSHAKE_NOT_GET => 20,
            rmtError::RMT_ERROR_WEBSOCKET_HANDSHAKE_NO_VERSION => 21,
            rmtError::RMT_ERROR_WEBSOCKET_HANDSHAKE_BAD_VERSION => 22,
            rmtError::RMT_ERROR_WEBSOCKET_HANDSHAKE_NO_HOST => 23,
            rmtError::RMT_ERROR_WEBSOCKET_HANDSHAKE_BAD_HOST => 24,
            rmtError::RMT_ERROR_WEBSOCKET_HANDSHAKE_NO_KEY => 25,
            rmtError::RMT_ERROR_WEBSOCKET_HANDSHAKE_BAD_KEY => 26,
            rmtError::RMT_ERROR_WEBSOCKET_HANDSHAKE_STRING_FAIL => 27,
            rmtError::RMT_ERROR_WEBSOCKET_DISCONNECTED => 28,
            rmtError::RMT_ERROR_WEBSOCKET_BAD_FRAME_HEADER => 29,
            rmtError::RMT_ERROR_WEBSOCKET_BAD_FRAME_HEADER_SIZE => 30,
            rmtError::RMT_ERROR_WEBSOCKET_BAD_FRAME_HEADER_MASK => 31,
            rmtError::RMT_ERROR_WEBSOCKET_RECEIVE_TIMEOUT => 32,
            rmtError::RMT_ERROR_REMOTERY_NOT_CREATED => 33,
            rmtError::RMT_ERROR_SEND_ON_INCOMPLETE_PROFILE => 34,
            rmtError::RMT_ERROR_CUDA_DEINITIALIZED => 35,
            rmtError::RMT_ERROR_CUDA_NOT_INITIALIZED => 36,
            rmtError::RMT_ERROR_CUDA_INVALID_CONTEXT => 37,
            rmtError::RMT_ERROR_CUDA_INVALID_VALUE => 38,
            rmtError::RMT_ERROR_CUDA_INVALID_HANDLE => 39,
            rmtError::RMT_ERROR_CUDA_OUT_OF_MEMORY => 40,
            rmtError::RMT_ERROR_ERROR_NOT_READY => 41,
            rmtError::RMT_ERROR_D3D11_FAILED_TO_CREATE_QUERY => 42,
            rmtError::RMT_ERROR_OPENGL_ERROR => 43,
            rmtError::RMT_ERROR_CUDA_UNKNOWN => 44,
            rmtError::RMT_ERROR_UNKNOWN => 45,
        }
    }
}

/// The largest code that names an error kind.
pub const MAX_ERROR_CODE: u32 = 45;

/// Maps a numeric code to its error kind; a code that names no kind
/// becomes `RMT_ERROR_UNKNOWN`.
#[allow(non_snake_case)]
pub fn u32_to_rmtError(error: u32) -> (r: rmtError)
    ensures
        error <= MAX_ERROR_CODE ==> r.spec_code() == error,
        error > MAX_ERROR_CODE ==> r == rmtError::RMT_ERROR_UNKNOWN,
{
    match error {
        0 => rmtError::RMT_ERROR_NONE,
        1 => rmtError::RMT_ERROR_RECURSIVE_SAMPLE,
        2 => rmtError::RMT_ERROR_MALLOC_FAIL,
        3 => rmtError::RMT_ERROR_TLS_ALLOC_FAIL,
        4 => rmtError::RMT_ERROR_VIRTUAL_MEMORY_BUFFER_FAIL,
        5 => rmtError::RMT_ERROR_CREATE_THREAD_FAIL,
        6 => rmtError::RMT_ERROR_SOCKET_INIT_NETWORK_FAIL,
        7 => rmtError::RMT_ERROR_SOCKET_CREATE_FAIL,
        8 => rmtError::RMT_ERROR_SOCKET_BIND_FAIL,
        9 => rmtError::RMT_ERROR_SOCKET_LISTEN_FAIL,
        10 => rmtError::RMT_ERROR_SOCKET_SET_NON_BLOCKING_FAIL,
        11 => rmtError::RMT_ERROR_SOCKET_INVALID_POLL,
        12 => rmtError::RMT_ERROR_SOCKET_SELECT_FAIL,
        13 => rmtError::RMT_ERROR_SOCKET_POLL_ERRORS,
        14 => rmtError::RMT_ERROR_SOCKET_ACCEPT_FAIL,
        15 => rmtError::RMT_ERROR_SOCKET_SEND_TIMEOUT,
        16 => rmtError::RMT_ERROR_SOCKET_SEND_FAIL,
        17 => rmtError::RMT_ERROR_SOCKET_RECV_NO_DATA,
        18 => rmtError::RMT_ERROR_SOCKET_RECV_TIMEOUT,
        19 => rmtError::RMT_ERROR_SOCKET_RECV_FAILED,
        20 => rmtError::RMT_ERROR_WEBSOCKET_HANDSHAKE_NOT_GET,
        21 => rmtError::RMT_ERROR_WEBSOCKET_HANDSHAKE_NO_VERSION,
        22 => rmtError::RMT_ERROR_WEBSOCKET_HANDSHAKE_BAD_VERSION,
        23 => rmtError::RMT_ERROR_WEBSOCKET_HANDSHAKE_NO_HOST,
        24 => rmtError::RMT_ERROR_WEBSOCKET_HANDSHAKE_BAD_HOST,
        25 => rmtError::RMT_ERROR_WEBSOCKET_HANDSHAKE_NO_KEY,
        26 => rmtError::RMT_ERROR_WEBSOCKET_HANDSHAKE_BAD_KEY,
        27 => rmtError::RMT_ERROR_WEBSOCKET_HANDSHAKE_STRING_FAIL,
        28 => rmtError::RMT_ERROR_WEBSOCKET_DISCONNECTED,
        29 => rmtError::RMT_ERROR_WEBSOCKET_BAD_FRAME_HEADER,
        30 => rmtError::RMT_ERROR_WEBSOCKET_BAD_FRAME_HEADER_SIZE,
        31 => rmtError::RMT_ERROR_WEBSOCKET_BAD_FRAME_HEADER_MASK,
        32 => rmtError::RMT_ERROR_WEBSOCKET_RECEIVE_TIMEOUT,
        33 => rmtError::RMT_ERROR_REMOTERY_NOT_CREATED,
        34 => rmtError::RMT_ERROR_SEND_ON_INCOMPLETE_PROFILE,
        35 => rmtError::RMT_ERROR_CUDA_DEINITIALIZED,
        36 => rmtError::RMT_ERROR_CUDA_NOT_INITIALIZED,
        37 => rmtError::RMT_ERROR_CUDA_INVALID_CONTEXT,
        38 => rmtError::RMT_ERROR_CUDA_INVALID_VALUE,
        39 => rmtError::RMT_ERROR_CUDA_INVALID_HANDLE,
        40 => rmtError::RMT_ERROR_CUDA_OUT_OF_MEMORY,
        41 => rmtError::RMT_ERROR_ERROR_NOT_READY,
        42 => rmtError::RMT_ERROR_D3D11_FAILED_TO_CREATE_QUERY,
        43 => rmtError::RMT_ERROR_OPENGL_ERROR,
        44 => rmtError::RMT_ERROR_CUDA_UNKNOWN,
        45 => rmtError::RMT_ERROR_UNKNOWN,
        _ => rmtError::RMT_ERROR_UNKNOWN,
    }
}

/// Distinct kinds have distinct codes, so a code names one kind at most.
pub proof fn lemma_code_injective(a: rmtError, b: rmtError)
    ensures
        a.spec_code() == b.spec_code() ==> a == b,
{
}

} // verus!
