//! The decisions of a WebSocket fan-out proxy: which client address a
//! request is attributed to, whether it is admitted, how messages are
//! buffered per reader, and when connections are retried, pinged or closed.
use vstd::prelude::*;

/// Client addresses and their extraction from a forwarding header.
pub mod addr;
/// Authentication, key labels and the decision on an upgrade request.
pub mod admission;
/// Capped exponential reconnection delay.
pub mod backoff;
/// Broadcast of messages to readers with bounded buffers.
pub mod bus;
/// Per-address and global connection limits.
pub mod rate_limit;
/// Liveness decisions of a client session.
pub mod session;
/// The connect loop of an upstream subscriber.
pub mod subscriber;

verus! {

} // verus!
