//! The state of the connection from this node to one peer.

use vstd::prelude::*;
use std::collections::HashSet;
use crate::config::{NetworkType, NodeId, NodeInfo};

verus! {

broadcast use vstd::std_specs::hash::group_hash_axioms;

/// Whether the connection to the peer is up.
#[derive(Clone, Copy, Debug, PartialEq, Eq, Structural)]
pub enum NodeState {
    Registered,
    Connected,
}

/// This node's side of the connection to a peer: where the peer is, whether
/// the connection is up, and which requests still wait for their answer.
pub struct Node {
    id: NodeId,
    local_id: NodeId,
    mid: u64,
    state: NodeState,
    peer_addr: String,
    writer: bool,
    requests: HashSet<u64>,
    net_type: NetworkType,
    info: NodeInfo,
}

/// The abstract state of a peer connection.
pub struct NodeView {
    pub id: NodeId,
    pub local_id: NodeId,
    /// The id of the latest request sent.
    pub mid: u64,
    pub state: NodeState,
    pub peer_addr: Seq<char>,
    /// Whether a writer to the peer exists: from the first connection on.
    pub writer: bool,
    /// The ids of the requests that wait for an answer.
    pub pending: Set<u64>,
    pub net_type: NetworkType,
    /// This node's own addresses, announced to the peer on joining.
    pub info: NodeInfo,
}

/// What to do once the connection to the peer is up.
pub struct Connected {
    /// Tell the network that this peer is connected.
    pub peer_connected: NodeId,
    /// Send the peer a join request carrying this node's id and addresses.
    pub join_id: NodeId,
    pub join_info: NodeInfo,
    /// Start sending heartbeats (on the cluster network only).
    pub heartbeat: bool,
}

impl View for Node {
    type V = NodeView;

    closed spec fn view(&self) -> NodeView {
        NodeView {
            id: self.id,
            local_id: self.local_id,
            mid: self.mid,
            state: self.state,
            peer_addr: self.peer_addr@,
            writer: self.writer,
            pending: self.requests@,
            net_type: self.net_type,
            info: self.info,
        }
    }
}

impl NodeView {
    /// Every pending request has an id that was handed out: between 1 and the
    /// latest id.
    pub open spec fn wf(self) -> bool {
        forall|m: u64| #[trigger] self.pending.contains(m) ==> 1 <= m <= self.mid
    }
}

impl Node {
    /// The connection to peer `id` at `peer_addr`, not yet up, with no
    /// request sent; `info` holds this node's own addresses.
    pub fn new(id: NodeId, local_id: NodeId, peer_addr: String, net_type: NetworkType, info: NodeInfo) -> (n: Node)
        ensures
            n@ == (NodeView {
                id,
                local_id,
                mid: 0,
                state: NodeState::Registered,
                peer_addr: peer_addr@,
                writer: false,
                pending: Set::empty(),
                net_type,
                info,
            }),
            n@.wf(),
    {
        Node {
            id,
            local_id,
            mid: 0,
            state: NodeState::Registered,
            peer_addr,
            writer: false,
            requests: HashSet::new(),
            net_type,
            info,
        }
    }

    /// The id of the peer.
    pub fn id(&self) -> (r: NodeId)
        ensures
            r == self@.id,
    {
        self.id
    }

    /// The id of the latest request sent.
    pub fn mid(&self) -> (r: u64)
        ensures
            r == self@.mid,
    {
        self.mid
    }

    /// The address of the peer.
    pub fn peer_addr(&self) -> (r: &String)
        ensures
            r@ == self@.peer_addr,
    {
        &self.peer_addr
    }

    /// Whether a connection attempt is to be made: not when the connection is
    /// up already.
    pub fn connect(&self) -> (attempt: bool)
        ensures
            attempt == (self@.state != NodeState::Connected),
    {
        self.state != NodeState::Connected
    }

    /// The connection is up: from now on requests can be written, and the
    /// peer is to learn who this node is.
    pub fn on_connected(&mut self) -> (r: Connected)
        requires
            old(self)@.wf(),
        ensures
            final(self)@ == (NodeView { state: NodeState::Connected, writer: true, ..old(self)@ }),
            final(self)@.wf(),
            r.peer_connected == old(self)@.id,
            r.join_id == old(self)@.local_id,
            r.join_info == old(self)@.info,
            r.heartbeat == (old(self)@.net_type == NetworkType::Cluster),
    {
        self.state = NodeState::Connected;
        self.writer = true;
        Connected {
            peer_connected: self.id,
            join_id: self.local_id,
            join_info: self.info.duplicate(),
            heartbeat: self.net_type == NetworkType::Cluster,
        }
    }

    /// Whether a message that wants no answer can be written to the peer:
    /// only once a writer exists; otherwise it is dropped.
    pub fn dispatch(&self) -> (write: bool)
        ensures
            write == self@.writer,
    {
        self.writer
    }

    /// Prepares a request that waits for an answer: when a writer exists, the
    /// request gets the next id, which is recorded as pending and returned;
    /// otherwise nothing is sent and the answer never comes.
    pub fn send_remote(&mut self) -> (mid: Option<u64>)
        requires
            old(self)@.wf(),
            old(self)@.writer ==> old(self)@.mid < u64::MAX,
        ensures
            final(self)@.wf(),
            match mid {
                Some(m) => old(self)@.writer && m == old(self)@.mid + 1 && final(self)@ == (NodeView {
                    mid: m,
                    pending: old(self)@.pending.insert(m),
                    ..old(self)@
                }),
                None => !old(self)@.writer && final(self)@ == old(self)@,
            },
    {
        if self.writer {
            self.mid = self.mid + 1;
            self.requests.insert(self.mid);
            Some(self.mid)
        } else {
            None
        }
    }

    /// An answer to request `mid` arrived: when that request was pending it
    /// stops pending and the answer is to be handed on (`true`); otherwise
    /// the answer is dropped.
    pub fn on_response(&mut self, mid: u64) -> (deliver: bool)
        requires
            old(self)@.wf(),
        ensures
            final(self)@.wf(),
            deliver == old(self)@.pending.contains(mid),
            final(self)@ == (NodeView { pending: old(self)@.pending.remove(mid), ..old(self)@ }),
    {
        self.requests.remove(&mid)
    }

    /// The connection actor stopped.
    pub fn stopped(&mut self)
        ensures
            final(self)@ == (NodeView { state: NodeState::Registered, ..old(self)@ }),
    {
        self.state = NodeState::Registered;
    }
}

/// Request ids are fresh and every answer is matched once: the request
/// that `send_remote` records is new, its answer is handed on, a second
/// answer with that id is dropped, and after the answer the pending requests
/// are those from before the request.
pub proof fn lemma_request_answered_once(v: NodeView)
    requires
        v.wf(),
        v.writer,
        v.mid < u64::MAX,
    ensures
        ({
            let m = (v.mid + 1) as u64;
            let sent = NodeView { mid: m, pending: v.pending.insert(m), ..v };
            &&& !v.pending.contains(m)
            &&& sent.wf()
            &&& sent.pending.contains(m)
            &&& !sent.pending.remove(m).contains(m)
            &&& sent.pending.remove(m) == v.pending
        }),
{
    let m = (v.mid + 1) as u64;
    assert(v.pending.insert(m).remove(m) =~= v.pending);
}

/// An answer whose id names no pending request changes nothing.
pub proof fn lemma_unknown_answer_ignored(v: NodeView, mid: u64)
    requires
        !v.pending.contains(mid),
    ensures
        (NodeView { pending: v.pending.remove(mid), ..v }) == v,
{
    assert(v.pending.remove(mid) =~= v.pending);
}

} // verus!
