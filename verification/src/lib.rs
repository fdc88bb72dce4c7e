//! Verified core of an IBC batched-query protocol.
//!
//! One side opens an application channel over the host transport, sends a
//! packet carrying a batch of opaque read-only sub-queries, and later receives
//! an acknowledgment with one outcome per sub-query, in order.  The other side
//! executes the batch against its local query engine.  On ack arrival the
//! origin overwrites a per-channel result cache and, when the packet named a
//! callback address, emits exactly one forwarding call.
//!
//! Identifiers, addresses, version strings and serialized payloads are all
//! byte strings (UTF-8 where they are text).  The host transport, the
//! persistent storage substrate and the local query engine are collaborators
//! outside this library: the host adapters hand plain values in and take the
//! computed directives out.

use vstd::prelude::*;

pub mod ack;
pub mod b64;
pub mod contract;
pub mod handshake;
pub mod ibc;
pub mod jstr;
pub mod packet;
pub mod receiver;
pub mod scan;
pub mod state;
pub mod wire;

verus! {

} // verus!
