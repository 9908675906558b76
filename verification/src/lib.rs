//! Core logic of a group-based position-broadcast load-test server.
//!
//! Incoming client connections are partitioned into fixed-size groups; each
//! group runs a multi-cycle broadcast protocol over a fixed 10-byte wire
//! frame, all groups rendezvous once at a counting barrier, and per-client
//! round-trip latencies are aggregated into a single average.
//!
//! This crate holds the verified computation: the wire codec, the grouping
//! rules, the per-group state machine, the barrier and session-controller
//! state, and the latency aggregation. The surrounding process (socket
//! accept loop, per-group threads, channels) drives these functions and
//! performs the actual I/O.

pub mod codec;
pub mod grouping;
pub mod group_state;
pub mod barrier;
pub mod controller;
pub mod latency;
