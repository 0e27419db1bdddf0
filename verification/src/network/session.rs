//! The serving side of a connection from a peer.

use vstd::prelude::*;
use crate::config::NodeId;

verus! {

/// How long, in milliseconds, a peer may stay silent before its connection
/// is closed.
pub const PEER_TIMEOUT_MS: u64 = 10000;

/// How often, in milliseconds, the serving side sends a heartbeat.
pub const PEER_HEARTBEAT_INTERVAL_MS: u64 = 1000;

/// The state of a connection from a peer: when it was last heard of, in
/// milliseconds of the caller's monotonic clock, and which node it is once it
/// has joined.
pub struct NodeSession {
    hb: u64,
    id: Option<NodeId>,
}

/// Whether a peer last heard of at `hb` has been silent too long at `now`.
pub open spec fn peer_timed_out(hb: u64, now: u64) -> bool {
    now > hb && now - hb > PEER_TIMEOUT_MS
}

impl NodeSession {
    /// When the peer was last heard of.
    pub closed spec fn last_heard(&self) -> u64 {
        self.hb
    }

    /// The node the peer said it is, once it has joined.
    pub closed spec fn peer_id(&self) -> Option<NodeId> {
        self.id
    }

    /// A connection accepted at `now`, from a peer that has not joined yet.
    pub fn new(now: u64) -> (s: NodeSession)
        ensures
            s.last_heard() == now,
            s.peer_id() is None,
    {
        NodeSession { hb: now, id: None }
    }

    /// The node the peer said it is, once it has joined.
    pub fn id(&self) -> (r: Option<NodeId>)
        ensures
            r == self.peer_id(),
    {
        self.id
    }

    /// A heartbeat arrived at `now`.
    pub fn on_ping(&mut self, now: u64)
        ensures
            final(self).last_heard() == now,
            final(self).peer_id() == old(self).peer_id(),
    {
        self.hb = now;
    }

    /// The peer joined as node `id`.
    pub fn on_join(&mut self, id: NodeId)
        ensures
            final(self).peer_id() == Some(id),
            final(self).last_heard() == old(self).last_heard(),
    {
        self.id = Some(id);
    }

    /// The heartbeat timer fired at `now`: returns whether the connection is
    /// to be closed because the peer has been silent for more than
    /// `PEER_TIMEOUT_MS`. A heartbeat is written back either way.
    pub fn heartbeat(&self, now: u64) -> (close: bool)
        ensures
            close == peer_timed_out(self.last_heard(), now),
    {
        now > self.hb && now - self.hb > PEER_TIMEOUT_MS
    }
}

} // verus!
