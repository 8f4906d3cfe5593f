//! Peer-to-peer connection layer and chain synchronization engine for a
//! UTXO-based blockchain node.
//!
//! The crate models and verifies the policy core of the node's network
//! stack: per-peer connection state with a bounded outbound queue and rate
//! counters, a peer registry that admits, bans, prunes and broadcasts to
//! peers, the server-side admission rules, and the sync runner's pacing
//! decisions. Socket, thread and HTTP plumbing live outside the library and
//! drive it through plain values.

pub mod adapters;
pub mod client;
pub mod clock;
pub mod conn;
pub mod msg;
pub mod peer;
pub mod peers;
pub mod pool;
pub mod rng;
pub mod serv;
pub mod store;
pub mod sync;
pub mod types;

use vstd::prelude::*;

verus! {

/// The capacity of each peer's outbound message queue. Overflow is dropped,
/// never blocked on: holding up a producer would stall a whole broadcast
/// round.
pub const SEND_CHANNEL_CAP: usize = 40;

} // verus!
