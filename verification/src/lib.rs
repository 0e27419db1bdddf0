//! Verified core of raftor, a distributed websocket chat whose nodes agree on
//! cluster membership through raft and spread rooms and users over a
//! consistent hash ring.
//!
//! The actor plumbing (sockets, timers, HTTP) lives outside this crate; what
//! stands here is the logic that those actors run: frame coding, node
//! identities, the hash ring, the network bookkeeping and the chat rooms.

pub mod channel;
pub mod config;
pub mod hash_ring;
pub mod network;
pub mod raftor;
pub mod server;
pub mod session;
pub mod utils;
