//! A synchronization bridge between a peer-to-peer block network and a
//! durable, sequentially numbered local ledger.
//!
//! Blocks arrive from the network in arbitrary order; the buffering layer
//! reorders them and releases a gap-free, strictly ascending stream to the
//! durable store adapter, which advances a persistent cursor one block at a
//! time. An orchestrator state machine ties the pieces to a single
//! cancellation domain, and an availability watchdog self-terminates when its
//! externally maintained liveness record disappears or is marked dead.
//!
//! The surrounding process (network, database, timers) lives outside this
//! crate; it feeds plain values in and carries the decisions out.

pub mod block;
pub mod buffer;
pub mod orchestrator;
pub mod store;
pub mod watchdog;
