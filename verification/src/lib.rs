//! Verified node engines for a line-delimited JSON message protocol.
//!
//! Each node in a simulated cluster reads one JSON envelope per line on
//! stdin and writes one per line on stdout.  This crate holds the verified
//! core of those nodes: the typed messages, the per-workload state machines
//! (broadcast with retransmission, grow-only set, PN-counter, and both the
//! single-node and the CAS-serialized transaction stores), the reply
//! correlator, and the encoder that frames outbound envelopes as JSON text.
//! The unverified shell around it does the actual I/O and task scheduling.

pub mod broadcast;
pub mod codec;
pub mod correlator;
pub mod countvec;
pub mod gset;
pub mod msg;
pub mod pn;
pub mod store;
pub mod txn;

use vstd::prelude::*;

verus! {

/// The error code a node reports to its client when a compare-and-swap
/// against the remote register fails.
pub const CAS_CONFLICT: i64 = 30;

} // verus!
