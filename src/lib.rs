//! A real-time instrumentation profiler engine: per-thread sample trees
//! with aggregation flags, a registry of threads with the lifecycle of
//! the profiler instance, a binary wire format for snapshots, and the
//! viewer connection state machine with its handshake check.
//!
//! Time stamps and thread identities come from the caller, so every
//! function here is a plain computation on values.
use vstd::prelude::*;

pub mod error;
pub mod http;
pub mod remotery;
pub mod sample;
pub mod server;
pub mod thread;
pub mod wire;

pub use crate::error::{rmtError, u32_to_rmtError};
pub use crate::remotery::{LifecycleError, LifecycleState, Remotery, RemoteryScope};
pub use crate::sample::{rmtSampleFlags, Sample};

verus! {

} // verus!
