//! The bookkeeping of a node's view of its peers: which peers it knows, which
//! it has a connection to, which are cut off, and where the ring places keys.

use vstd::prelude::*;
use vstd::std_specs::iter::IteratorSpec;
use std::collections::{HashMap, HashSet};
use crate::config::{ConfigSchema, NetworkType, NodeId, NodeInfo};
use crate::hash_ring::{lemma_ring_owner, ring_get_node, ring_nodes, ring_owner, NodeRing};
use crate::network::node::{Node, NodeState, NodeView};
use crate::utils::{generate_node_id, node_id_of};

verus! {

broadcast use vstd::std_specs::hash::group_hash_axioms;

/// A message that the network hands to the node that owns `.0` on the hash
/// ring, without waiting for an answer.
pub struct DistributeMessage<M>(pub String, pub M);

/// A message that the network hands to the node that owns `.0` on the hash
/// ring, waiting for that node's answer.
pub struct DistributeAndWait<M>(pub String, pub M);

/// How far the cluster has formed.
#[derive(Clone, Copy, Debug, PartialEq, Eq, Structural)]
pub enum NetworkState {
    Initialized,
    SingleNode,
    Cluster,
}

/// What the discovery service answered when the network started.
pub enum DiscoveryOutcome {
    /// The service could not be reached: nothing is registered.
    Unreachable,
    /// The service reports no formed cluster (or its answer could not be
    /// read): the nodes known already are registered.
    Known,
    /// The service reports a formed cluster with these nodes: they replace
    /// what was known, this node joins that cluster, and they are
    /// registered.
    Fetched(HashMap<NodeId, NodeInfo>),
}

/// One of the two networks of a node (cluster or application).
pub struct Network {
    id: NodeId,
    net_type: NetworkType,
    address: Option<String>,
    discovery_host: String,
    peers: Vec<String>,
    nodes: HashSet<NodeId>,
    nodes_connected: Vec<NodeId>,
    isolated_nodes: Vec<NodeId>,
    nodes_info: HashMap<NodeId, NodeInfo>,
    state: NetworkState,
    leader: Option<NodeId>,
    info: NodeInfo,
    join_mode: bool,
}

/// The abstract state of a network.
pub struct NetView {
    /// This node's id.
    pub id: NodeId,
    pub net_type: NetworkType,
    /// The address this network listens on, once bound.
    pub address: Option<Seq<char>>,
    pub discovery_host: Seq<char>,
    /// The peers for which a connection has been started.
    pub nodes: Set<NodeId>,
    /// The peers reported connected, in the order reported.
    pub nodes_connected: Seq<NodeId>,
    /// The peers cut off from raft traffic, in the order cut off.
    pub isolated: Seq<NodeId>,
    /// What is known of each node's addresses.
    pub nodes_info: Map<NodeId, NodeInfo>,
    pub state: NetworkState,
    /// The raft leader of the latest metrics.
    pub leader: Option<NodeId>,
    /// This node's own addresses.
    pub info: NodeInfo,
    /// Whether this node joins a cluster that formed before it.
    pub join_mode: bool,
}

impl View for Network {
    type V = NetView;

    closed spec fn view(&self) -> NetView {
        NetView {
            id: self.id,
            net_type: self.net_type,
            address: match self.address {
                Some(a) => Some(a@),
                None => None,
            },
            discovery_host: self.discovery_host@,
            nodes: self.nodes@,
            nodes_connected: self.nodes_connected@,
            isolated: self.isolated_nodes@,
            nodes_info: self.nodes_info@,
            state: self.state,
            leader: self.leader,
            info: self.info,
            join_mode: self.join_mode,
        }
    }
}

/// Cutting off `id`: recorded once.
pub open spec fn isolate_step(s: Seq<NodeId>, id: NodeId) -> Seq<NodeId> {
    if s.contains(id) {
        s
    } else {
        s.push(id)
    }
}

/// The test that keeps every node other than `id`.
pub open spec fn other_than(id: NodeId) -> spec_fn(NodeId) -> bool {
    |x: NodeId| x != id
}

/// Restoring `id`: every entry of it is removed, the others keeping their
/// order.
pub open spec fn restore_step(s: Seq<NodeId>, id: NodeId) -> Seq<NodeId> {
    s.filter(other_than(id))
}

/// The address under which a network of kind `t` reaches the node `info`.
pub open spec fn peer_addr_for(t: NetworkType, info: NodeInfo) -> Seq<char> {
    match t {
        NetworkType::App => info.app_addr@,
        NetworkType::Cluster => info.cluster_addr@,
    }
}

/// Whether registering `info` makes a connection: not to this node's own
/// address, and not twice to one peer.
pub open spec fn register_starts(v: NetView, id: NodeId, info: NodeInfo) -> bool {
    v.address != Some(peer_addr_for(v.net_type, info)) && !v.nodes.contains(id)
}

/// Registering node `id` with addresses `info`: unless the address is this
/// network's own, the node is restored and a connection is started once.
pub open spec fn register_step(v: NetView, id: NodeId, info: NodeInfo) -> NetView {
    if v.address == Some(peer_addr_for(v.net_type, info)) {
        v
    } else {
        NetView { isolated: restore_step(v.isolated, id), nodes: v.nodes.insert(id), ..v }
    }
}

/// The connection that registering starts.
pub open spec fn started_node(v: NetView, id: NodeId, info: NodeInfo) -> NodeView {
    NodeView {
        id,
        local_id: v.id,
        mid: 0,
        state: NodeState::Registered,
        peer_addr: peer_addr_for(v.net_type, info),
        writer: false,
        pending: Set::empty(),
        net_type: v.net_type,
        info: v.info,
    }
}

/// The addresses known after configuring the nodes `nodes` over `m`: each
/// node under the id of its cluster address, a later one replacing an
/// earlier one of the same id.
pub open spec fn configured(m: Map<NodeId, NodeInfo>, nodes: Seq<NodeInfo>) -> Map<NodeId, NodeInfo>
    decreases nodes.len(),
{
    if nodes.len() == 0 {
        m
    } else {
        configured(m, nodes.drop_last()).insert(
            node_id_of(nodes.last().cluster_addr@),
            nodes.last(),
        )
    }
}

/// The state after registering the first `k` entries of `known` in order,
/// with the connections started on the way.
pub open spec fn register_all(v: NetView, known: Seq<(NodeId, NodeInfo)>, k: int) -> (NetView, Seq<NodeView>)
    decreases k,
{
    if k <= 0 {
        (v, Seq::empty())
    } else {
        let (v1, started) = register_all(v, known, k - 1);
        let (id, info) = known[k - 1];
        (
            register_step(v1, id, info),
            if register_starts(v1, id, info) {
                started.push(started_node(v1, id, info))
            } else {
                started
            },
        )
    }
}

/// Whether raft traffic from `source` to `target` goes out: only to a peer
/// with a connection, and never to or from a node that is cut off.
pub open spec fn raft_rpc_allowed(v: NetView, target: NodeId, source: NodeId) -> bool {
    v.nodes.contains(target) && !v.isolated.contains(target) && !v.isolated.contains(source)
}

/// Where a message for a key that the ring places on `owner` goes: to
/// `owner` when a connection to it exists, else nowhere.
pub open spec fn target_for(v: NetView, owner: NodeId) -> Option<NodeId> {
    if v.nodes.contains(owner) {
        Some(owner)
    } else {
        None
    }
}

/// The public address of node `id`, or the empty string when it is not
/// known.
pub open spec fn public_addr_of(v: NetView, id: NodeId) -> Seq<char> {
    if v.nodes_info.contains_key(id) {
        v.nodes_info[id].public_addr@
    } else {
        Seq::<char>::empty()
    }
}

/// Whether `known` lists the entries of `m`: each entry of `known` is one of
/// `m`, and each key of `m` has an entry in `known`.
pub open spec fn lists_entries(known: Seq<(NodeId, NodeInfo)>, m: Map<NodeId, NodeInfo>) -> bool {
    &&& forall|i: int|
        0 <= i < known.len() ==> m.contains_key(#[trigger] known[i].0) && m[known[i].0] == known[i].1
    &&& forall|k: NodeId| #[trigger] m.contains_key(k) ==> exists|i: int| 0 <= i < known.len() && known[i].0 == k
}

/// The state after the discovery service answered `outcome` (see
/// `DiscoveryOutcome`), before the known nodes are registered.
pub open spec fn discovered_view(v: NetView, outcome: DiscoveryOutcome) -> NetView {
    match outcome {
        DiscoveryOutcome::Fetched(m) => NetView { nodes_info: m@, join_mode: true, ..v },
        _ => v,
    }
}

/// The entries of `m`, in the order in which the map hands them out.
fn entries(m: &HashMap<NodeId, NodeInfo>) -> (known: Vec<(NodeId, NodeInfo)>)
    ensures
        lists_entries(known@, m@),
{
    let ghost all = vstd::std_specs::hash::spec_hash_map_iter(m).remaining();
    let mut known: Vec<(NodeId, NodeInfo)> = Vec::new();
    for e in it: m.iter()
        invariant
            it.seq() == all,
            known@.len() == it.index(),
            forall|i: int| 0 <= i < it.index() ==> #[trigger] known@[i] == (*all[i].0, *all[i].1),
    {
        let (id, info) = e;
        known.push((*id, info.duplicate()));
    }
    proof {
        assert(known@.len() == all.len());
        assert forall|k: NodeId| #[trigger] m@.contains_key(k) implies exists|i: int|
            0 <= i < known@.len() && known@[i].0 == k by {
            assert(all.contains((&k, &m@[k])));
            let i = choose|i: int| 0 <= i < all.len() && all[i] == (&k, &m@[k]);
            assert(known@[i].0 == k);
        }
        assert forall|i: int| 0 <= i < known@.len() implies m@.contains_key(#[trigger] known@[i].0)
            && m@[known@[i].0] == known@[i].1 by {
            assert(m@.contains_key(*all[i].0));
        }
    }
    known
}

/// A copy of `v`.
fn copy_ids(v: &Vec<NodeId>) -> (r: Vec<NodeId>)
    ensures
        r@ == v@,
{
    let mut r: Vec<NodeId> = Vec::new();
    let mut i: usize = 0;
    while i < v.len()
        invariant
            i <= v@.len(),
            r@ == v@.subrange(0, i as int),
        decreases v@.len() - i,
    {
        r.push(v[i]);
        i = i + 1;
        assert(r@ =~= v@.subrange(0, i as int));
    }
    assert(v@.subrange(0, v@.len() as int) =~= v@);
    r
}

/// Whether `v` holds `id`.
fn contains_id(v: &Vec<NodeId>, id: NodeId) -> (b: bool)
    ensures
        b == v@.contains(id),
{
    let mut i: usize = 0;
    while i < v.len()
        invariant
            i <= v@.len(),
            forall|j: int| 0 <= j < i ==> v@[j] != id,
        decreases v@.len() - i,
    {
        if v[i] == id {
            return true;
        }
        i = i + 1;
    }
    false
}

impl Network {
    /// A network of kind `net_type` for node `id`, not yet bound, that knows
    /// no peer, in the state `Initialized`.
    pub fn new(
        id: NodeId,
        net_type: NetworkType,
        discovery_host: String,
        info: NodeInfo,
    ) -> (n: Network)
        ensures
            n@ == (NetView {
                id,
                net_type,
                address: None,
                discovery_host: discovery_host@,
                nodes: Set::empty(),
                nodes_connected: Seq::empty(),
                isolated: Seq::empty(),
                nodes_info: Map::empty(),
                state: NetworkState::Initialized,
                leader: None,
                info,
                join_mode: false,
            }),
    {
        let n = Network {
            id,
            net_type,
            address: None,
            discovery_host,
            peers: Vec::new(),
            nodes: HashSet::new(),
            nodes_connected: Vec::new(),
            isolated_nodes: Vec::new(),
            nodes_info: HashMap::new(),
            state: NetworkState::Initialized,
            leader: None,
            info,
            join_mode: false,
        };
        assert(n@.nodes_connected =~= Seq::<NodeId>::empty());
        assert(n@.isolated =~= Seq::<NodeId>::empty());
        n
    }

    /// Records the configured nodes, each under the id of its cluster address.
    pub fn configure(&mut self, config: ConfigSchema)
        ensures
            final(self)@ == (NetView {
                nodes_info: configured(old(self)@.nodes_info, config.nodes@),
                ..old(self)@
            }),
    {
        let nodes = config.nodes;
        let mut i: usize = 0;
        while i < nodes.len()
            invariant
                i <= nodes@.len(),
                self@ == (NetView {
                    nodes_info: configured(old(self)@.nodes_info, nodes@.take(i as int)),
                    ..old(self)@
                }),
            decreases nodes@.len() - i,
        {
            let node = &nodes[i];
            let id = generate_node_id(node.cluster_addr.as_str());
            self.nodes_info.insert(id, node.duplicate());
            proof {
                assert(nodes@.take(i + 1).drop_last() =~= nodes@.take(i as int));
            }
            i = i + 1;
        }
        assert(nodes@.take(nodes@.len() as int) =~= nodes@);
    }

    /// Sets the address this network listens on.
    pub fn bind(&mut self, address: &str)
        ensures
            final(self)@ == (NetView { address: Some(address@), ..old(self)@ }),
    {
        self.address = Some(address.to_owned());
    }

    /// Whether a connection to node `id` has been started.
    pub fn get_node(&self, id: NodeId) -> (r: bool)
        ensures
            r == self@.nodes.contains(id),
    {
        self.nodes.contains(&id)
    }

    /// Cuts node `id` off from raft traffic (once).
    pub fn isolate_node(&mut self, id: NodeId)
        ensures
            final(self)@ == (NetView { isolated: isolate_step(old(self)@.isolated, id), ..old(self)@ }),
    {
        if contains_id(&self.isolated_nodes, id) {
            return ;
        }
        self.isolated_nodes.push(id);
    }

    /// Lets raft traffic for node `id` through again: every entry of it
    /// among the cut-off nodes is removed.
    pub fn restore_node(&mut self, id: NodeId)
        ensures
            final(self)@ == (NetView { isolated: restore_step(old(self)@.isolated, id), ..old(self)@ }),
    {
        let ghost s = self.isolated_nodes@;
        let mut kept: Vec<NodeId> = Vec::new();
        let mut i: usize = 0;
        while i < self.isolated_nodes.len()
            invariant
                i <= s.len(),
                self.isolated_nodes@ == s,
                self@ == old(self)@,
                kept@ == s.take(i as int).filter(other_than(id)),
            decreases s.len() - i,
        {
            proof {
                assert(s.take(i + 1) =~= s.take(i as int).push(s[i as int]));
                s.take(i as int).lemma_filter_push(s[i as int], other_than(id));
            }
            let x = self.isolated_nodes[i];
            if x != id {
                kept.push(x);
            }
            i = i + 1;
        }
        proof {
            assert(s.take(s.len() as int) =~= s);
        }
        self.isolated_nodes = kept;
    }

    /// Registers node `id`, whose addresses are `info`. Unless its address on
    /// this network is the network's own, the node is restored and, if no
    /// connection to it was started yet, the connection to start is
    /// returned. The network must be bound.
    pub fn register_node(&mut self, id: NodeId, info: &NodeInfo) -> (started: Option<Node>)
        requires
            old(self)@.address is Some,
        ensures
            final(self)@ == register_step(old(self)@, id, *info),
            match started {
                Some(n) => register_starts(old(self)@, id, *info) && n@ == started_node(
                    old(self)@,
                    id,
                    *info,
                ),
                None => !register_starts(old(self)@, id, *info),
            },
            started matches Some(n) ==> n@.id == id && n@.local_id == old(self)@.id && n@.info
                == old(self)@.info && n@.state == NodeState::Registered,
            final(self)@.id == old(self)@.id,
    {
        proof {
            lemma_started_node_carries_ids(old(self)@, id, *info);
        }
        let peer_addr = match self.net_type {
            NetworkType::App => info.app_addr.clone(),
            NetworkType::Cluster => info.cluster_addr.clone(),
        };
        let same = match &self.address {
            Some(a) => *a == peer_addr,
            None => false,
        };
        if same {
            return None;
        }
        self.restore_node(id);
        if !self.nodes.contains(&id) {
            self.nodes.insert(id);
            Some(Node::new(id, self.id, peer_addr, self.net_type, self.info.duplicate()))
        } else {
            proof {
                assert(self@.nodes.insert(id) =~= self@.nodes);
            }
            None
        }
    }

    /// Registers each entry of `known` in order (see `register_node`) and
    /// returns the connections to start. The network must be bound.
    pub fn register_nodes(&mut self, known: &Vec<(NodeId, NodeInfo)>) -> (started: Vec<Node>)
        requires
            old(self)@.address is Some,
        ensures
            final(self)@ == register_all(old(self)@, known@, known@.len() as int).0,
            started@.map_values(|n: Node| n@) == register_all(old(self)@, known@, known@.len() as int).1,
            forall|j: int|
                0 <= j < started@.len() ==> (#[trigger] started@[j])@.local_id == old(self)@.id
                    && started@[j]@.info == old(self)@.info,
    {
        let mut started: Vec<Node> = Vec::new();
        let mut i: usize = 0;
        while i < known.len()
            invariant
                i <= known@.len(),
                self@.address is Some,
                self@ == register_all(old(self)@, known@, i as int).0,
                started@.map_values(|n: Node| n@) == register_all(old(self)@, known@, i as int).1,
            decreases known@.len() - i,
        {
            let (id, info) = (known[i].0, &known[i].1);
            let ghost before = started@.map_values(|n: Node| n@);
            match self.register_node(id, info) {
                Some(n) => {
                    started.push(n);
                    proof {
                        assert(started@.map_values(|n: Node| n@) =~= before.push(n@));
                    }
                },
                None => {},
            }
            i = i + 1;
        }
        proof {
            lemma_register_all_started(old(self)@, known@, known@.len() as int);
            assert forall|j: int| 0 <= j < started@.len() implies (#[trigger] started@[j])@.local_id
                == old(self)@.id && started@[j]@.info == old(self)@.info by {
                assert(started@.map_values(|n: Node| n@)[j] == started@[j]@);
            }
        }
        started
    }

    /// The discovery service answered `outcome` after the network started
    /// (see `DiscoveryOutcome`). Unless it could not be reached, every node
    /// then known is registered (see `register_node`): each one whose
    /// address on this network is not the network's own gets a connection,
    /// and no other node does. Returns the connections to start. The network
    /// must be bound.
    pub fn on_discovered(&mut self, outcome: DiscoveryOutcome) -> (started: Vec<Node>)
        requires
            old(self)@.address is Some,
        ensures
            outcome is Unreachable ==> final(self)@ == old(self)@ && started@.len() == 0,
            !(outcome is Unreachable) ==> exists|known: Seq<(NodeId, NodeInfo)>|
                #[trigger] lists_entries(known, discovered_view(old(self)@, outcome).nodes_info)
                    && final(self)@ == register_all(
                    discovered_view(old(self)@, outcome),
                    known,
                    known.len() as int,
                ).0 && started@.map_values(|n: Node| n@) == register_all(
                    discovered_view(old(self)@, outcome),
                    known,
                    known.len() as int,
                ).1,
            final(self)@.nodes_info == discovered_view(old(self)@, outcome).nodes_info,
            final(self)@.join_mode == discovered_view(old(self)@, outcome).join_mode,
            !(outcome is Unreachable) ==> forall|id: NodeId|
                #[trigger] final(self)@.nodes_info.contains_key(id) && old(self)@.address != Some(
                    peer_addr_for(old(self)@.net_type, final(self)@.nodes_info[id]),
                ) ==> final(self)@.nodes.contains(id),
            forall|id: NodeId|
                #[trigger] final(self)@.nodes.contains(id) ==> old(self)@.nodes.contains(id) || (
                final(self)@.nodes_info.contains_key(id) && old(self)@.address != Some(
                    peer_addr_for(old(self)@.net_type, final(self)@.nodes_info[id]),
                )),
            forall|j: int|
                0 <= j < started@.len() ==> (#[trigger] started@[j])@.local_id == old(self)@.id
                    && started@[j]@.info == old(self)@.info,
    {
        match outcome {
            DiscoveryOutcome::Unreachable => {
                return Vec::new();
            },
            DiscoveryOutcome::Known => {},
            DiscoveryOutcome::Fetched(m) => {
                self.on_cluster_nodes(m);
            },
        }
        let ghost v1 = self@;
        let known = entries(&self.nodes_info);
        let started = self.register_nodes(&known);
        proof {
            let n = known@.len() as int;
            lemma_register_all_keeps(v1, known@, n);
            assert forall|id: NodeId|
                #[trigger] self@.nodes_info.contains_key(id) && v1.address != Some(
                    peer_addr_for(v1.net_type, self@.nodes_info[id]),
                ) implies self@.nodes.contains(id) by {
                let i = choose|i: int| 0 <= i < known@.len() && known@[i].0 == id;
                assert(v1.nodes_info.contains_key(known@[i].0));
                lemma_register_all_connects(v1, known@, n, i);
            }
            assert forall|id: NodeId| #[trigger] self@.nodes.contains(id) implies v1.nodes.contains(id) || (
            self@.nodes_info.contains_key(id) && v1.address != Some(
                peer_addr_for(v1.net_type, self@.nodes_info[id]),
            )) by {
                if !v1.nodes.contains(id) {
                    let i = choose|i: int|
                        0 <= i < n && known@[i].0 == id && v1.address != Some(
                            peer_addr_for(v1.net_type, known@[i].1),
                        );
                    assert(v1.nodes_info.contains_key(known@[i].0));
                }
            }
        }
        started
    }

    /// A peer went away: it is cut off, forgotten and its connection dropped.
    /// Returns whether raft is to remove it from the cluster (on the cluster
    /// network only).
    pub fn node_disconnect(&mut self, id: NodeId) -> (remove_from_raft: bool)
        ensures
            final(self)@ == (NetView {
                isolated: old(self)@.isolated.push(id),
                nodes_info: old(self)@.nodes_info.remove(id),
                nodes: old(self)@.nodes.remove(id),
                ..old(self)@
            }),
            remove_from_raft == (old(self)@.net_type == NetworkType::Cluster),
    {
        self.isolated_nodes.push(id);
        self.nodes_info.remove(&id);
        self.nodes.remove(&id);
        self.net_type == NetworkType::Cluster
    }

    /// A peer introduced itself: its addresses are recorded and it is
    /// registered (see `register_node`). The network must be bound.
    pub fn handshake(&mut self, id: NodeId, info: NodeInfo) -> (started: Option<Node>)
        requires
            old(self)@.address is Some,
        ensures
            ({
                let v1 = NetView { nodes_info: old(self)@.nodes_info.insert(id, info), ..old(self)@ };
                &&& final(self)@ == register_step(v1, id, info)
                &&& match started {
                    Some(n) => register_starts(v1, id, info) && n@ == started_node(v1, id, info),
                    None => !register_starts(v1, id, info),
                }
            }),
            started matches Some(n) ==> n@.id == id && n@.local_id == old(self)@.id && n@.info
                == old(self)@.info,
    {
        self.nodes_info.insert(id, info.duplicate());
        self.register_node(id, &info)
    }

    /// How far the cluster has formed.
    pub fn cluster_state(&self) -> (s: NetworkState)
        ensures
            s == self@.state,
    {
        self.state
    }

    /// Records how far the cluster has formed.
    pub fn set_cluster_state(&mut self, state: NetworkState)
        ensures
            final(self)@ == (NetView { state, ..old(self)@ }),
    {
        self.state = state;
    }

    /// What is known of each node's addresses.
    pub fn get_nodes(&self) -> (m: HashMap<NodeId, NodeInfo>)
        ensures
            m@ == self@.nodes_info,
    {
        self.nodes_info.clone()
    }

    /// The peers reported connected, and whether this node joins a cluster
    /// that formed before it.
    pub fn discover_nodes(&self) -> (r: (Vec<NodeId>, bool))
        ensures
            r.0@ == self@.nodes_connected,
            r.1 == self@.join_mode,
    {
        (copy_ids(&self.nodes_connected), self.join_mode)
    }

    /// The network started: this node counts itself connected.
    pub fn on_started(&mut self)
        ensures
            final(self)@ == (NetView {
                nodes_connected: old(self)@.nodes_connected.push(old(self)@.id),
                ..old(self)@
            }),
    {
        self.nodes_connected.push(self.id);
    }

    /// Whether the discovery service reports a formed cluster, whose nodes
    /// are then to be fetched.
    pub fn should_fetch_nodes(&self, reported: NetworkState) -> (fetch: bool)
        ensures
            fetch == (reported == NetworkState::Cluster),
    {
        reported == NetworkState::Cluster
    }

    /// The nodes of a formed cluster arrived from the discovery service: they
    /// replace what was known, and this node joins that cluster.
    pub fn on_cluster_nodes(&mut self, nodes: HashMap<NodeId, NodeInfo>)
        ensures
            final(self)@ == (NetView { nodes_info: nodes@, join_mode: true, ..old(self)@ }),
    {
        self.nodes_info = nodes;
        self.join_mode = true;
    }

    /// A peer reported itself connected.
    pub fn peer_connected(&mut self, id: NodeId)
        ensures
            final(self)@ == (NetView {
                nodes_connected: old(self)@.nodes_connected.push(id),
                ..old(self)@
            }),
    {
        self.nodes_connected.push(id);
    }

    /// New raft metrics arrived, naming `leader` as the current leader.
    pub fn on_metrics(&mut self, leader: Option<NodeId>)
        ensures
            final(self)@ == (NetView { leader, ..old(self)@ }),
    {
        self.leader = leader;
    }

    /// The current raft leader, if the latest metrics name one; otherwise the
    /// question is to be asked again.
    pub fn current_leader(&self) -> (r: Option<NodeId>)
        ensures
            r == self@.leader,
    {
        self.leader
    }

    /// Whether a raft message from `source` to `target` is sent: only to a
    /// peer with a connection, and never to or from a node that is cut off;
    /// otherwise the request fails.
    pub fn route_raft_rpc(&self, target: NodeId, source: NodeId) -> (send: bool)
        ensures
            send == raft_rpc_allowed(self@, target, source),
            send ==> self@.nodes.contains(target),
            send <==> (self@.nodes.contains(target) && !self@.isolated.contains(target)
                && !self@.isolated.contains(source)),
    {
        proof {
            lemma_raft_rpc_needs_connection(self@, target, source);
        }
        if self.nodes.contains(&target) {
            if contains_id(&self.isolated_nodes, target) || contains_id(&self.isolated_nodes, source) {
                return false;
            }
            return true;
        }
        false
    }

    /// Where a message for a key that the ring places on `owner` goes: to
    /// `owner` when a connection to it exists, else nowhere.
    pub fn distribute_target_for(&self, owner: NodeId) -> (target: Option<NodeId>)
        ensures
            target == target_for(self@, owner),
            target matches Some(t) ==> t == owner,
            target is Some <==> self@.nodes.contains(owner),
    {
        if self.nodes.contains(&owner) {
            Some(owner)
        } else {
            None
        }
    }

    /// Where a message for `key` goes: to its owner on `ring` when a
    /// connection to it exists, else nowhere. The ring must hold a node.
    pub fn distribute_target(&self, ring: &NodeRing, key: String) -> (target: Option<NodeId>)
        requires
            !ring_nodes(*ring).is_empty(),
        ensures
            ring_owner(*ring, key@) matches Some(owner) && target == target_for(self@, owner),
            target matches Some(t) ==> ring_owner(*ring, key@) == Some(t) && self@.nodes.contains(t),
    {
        let owner = Self::owner_of(ring, key);
        self.distribute_target_for(owner)
    }

    /// `distribute_target` when the ring holds a node; `Err(())` when it
    /// holds none.
    pub fn try_distribute_target(&self, ring: &NodeRing, key: String) -> (res: Result<Option<NodeId>, ()>)
        ensures
            res == match ring_owner(*ring, key@) {
                Some(owner) => Ok(target_for(self@, owner)),
                None => Err(()),
            },
    {
        proof {
            lemma_ring_owner(*ring, key@);
        }
        if ring_get_node(ring, key.clone()).is_none() {
            return Err(());
        }
        Ok(self.distribute_target(ring, key))
    }

    /// `get_node_address` when the ring holds a node; `None` when it holds
    /// none.
    pub fn try_get_node_address(&self, ring: &NodeRing, key: String) -> (res: Option<(NodeId, String)>)
        ensures
            match ring_owner(*ring, key@) {
                Some(owner) => res matches Some(r) && r.0 == owner && r.1@ == public_addr_of(self@, owner),
                None => res is None,
            },
    {
        proof {
            lemma_ring_owner(*ring, key@);
        }
        if ring_get_node(ring, key.clone()).is_none() {
            return None;
        }
        Some(self.get_node_address(ring, key))
    }

    /// The owner of `key` on `ring`, which must hold a node.
    fn owner_of(ring: &NodeRing, key: String) -> (owner: NodeId)
        requires
            !ring_nodes(*ring).is_empty(),
        ensures
            ring_owner(*ring, key@) == Some(owner),
    {
        proof {
            lemma_ring_owner(*ring, key@);
        }
        match ring_get_node(ring, key) {
            Some(o) => o,
            None => {
                proof {
                    assert(false);
                }
                0
            },
        }
    }

    /// The public address of node `owner`, or an empty string when it is not
    /// known, with the id.
    pub fn node_address(&self, owner: NodeId) -> (r: (NodeId, String))
        ensures
            r.0 == owner,
            r.1@ == public_addr_of(self@, owner),
            self@.nodes_info.contains_key(owner) ==> r.1@ == self@.nodes_info[owner].public_addr@,
            !self@.nodes_info.contains_key(owner) ==> r.1@.len() == 0,
    {
        match self.nodes_info.get(&owner) {
            Some(info) => (owner, info.public_addr.clone()),
            None => (owner, String::new()),
        }
    }

    /// The node that `ring` places `key` on, with its public address (or an
    /// empty string when it is not known). The ring must hold a node.
    pub fn get_node_address(&self, ring: &NodeRing, key: String) -> (r: (NodeId, String))
        requires
            !ring_nodes(*ring).is_empty(),
        ensures
            ring_owner(*ring, key@) == Some(r.0),
            r.1@ == public_addr_of(self@, r.0),
            self@.nodes_info.contains_key(r.0) ==> r.1@ == self@.nodes_info[r.0].public_addr@,
    {
        let owner = Self::owner_of(ring, key);
        self.node_address(owner)
    }
}

} // verus!

verus! {

/// Cutting a node off records it, and cutting it off twice is cutting it
/// off once.
pub proof fn lemma_isolate_idempotent(s: Seq<NodeId>, id: NodeId)
    ensures
        isolate_step(s, id).contains(id),
        isolate_step(isolate_step(s, id), id) == isolate_step(s, id),
{
    if !s.contains(id) {
        assert(s.push(id)[s.len() as int] == id);
    }
}

/// Restoring a node that was just cut off undoes the cut.
pub proof fn lemma_restore_undoes_isolate(s: Seq<NodeId>, id: NodeId)
    requires
        !s.contains(id),
    ensures
        restore_step(isolate_step(s, id), id) == s,
{
    s.lemma_filter_push(id, other_than(id));
    lemma_filter_keeps_all(s, id);
}

/// Removing a node that a sequence does not hold leaves it as it was.
proof fn lemma_filter_keeps_all(s: Seq<NodeId>, id: NodeId)
    requires
        !s.contains(id),
    ensures
        s.filter(other_than(id)) == s,
    decreases s.len(),
{
    reveal(Seq::filter);
    if s.len() > 0 {
        assert(!s.drop_last().contains(id)) by {
            if s.drop_last().contains(id) {
                let j = choose|j: int| 0 <= j < s.drop_last().len() && s.drop_last()[j] == id;
                assert(s[j] == id);
            }
        }
        lemma_filter_keeps_all(s.drop_last(), id);
        assert(s.last() != id) by {
            assert(s[s.len() - 1] == s.last());
        }
        assert(s.drop_last().push(s.last()) =~= s);
    }
}

/// Restoring a node lifts its cut entirely, however often it was cut off,
/// and leaves every other node as cut off as it was.
pub proof fn lemma_restore_lifts(s: Seq<NodeId>, id: NodeId, other: NodeId)
    requires
        other != id,
    ensures
        !restore_step(s, id).contains(id),
        restore_step(s, id).contains(other) == s.contains(other),
{
    let p = other_than(id);
    let r = s.filter(p);
    if r.contains(id) {
        let j = choose|j: int| 0 <= j < r.len() && r[j] == id;
        s.lemma_filter_pred(p, j);
    }
    if s.contains(other) {
        let i = choose|i: int| 0 <= i < s.len() && s[i] == other;
        s.lemma_filter_contains(p, i);
    }
    if r.contains(other) {
        s.lemma_filter_contains_rev(p, other);
    }
}

/// Registering a list of nodes changes neither what is known of the nodes'
/// addresses nor the network's own address and kind, and connects only
/// nodes of the list whose address is not the network's own.
pub proof fn lemma_register_all_keeps(v: NetView, known: Seq<(NodeId, NodeInfo)>, k: int)
    requires
        k <= known.len(),
    ensures
        register_all(v, known, k).0.nodes_info == v.nodes_info,
        register_all(v, known, k).0.address == v.address,
        register_all(v, known, k).0.net_type == v.net_type,
        register_all(v, known, k).0.join_mode == v.join_mode,
        register_all(v, known, k).0.id == v.id,
        register_all(v, known, k).0.info == v.info,
        forall|x: NodeId|
            #[trigger] register_all(v, known, k).0.nodes.contains(x) ==> v.nodes.contains(x) || exists|i: int|
                0 <= i < k && known[i].0 == x && v.address != Some(peer_addr_for(v.net_type, known[i].1)),
    decreases k,
{
    if k > 0 {
        lemma_register_all_keeps(v, known, k - 1);
        let v1 = register_all(v, known, k - 1).0;
        assert forall|x: NodeId| #[trigger] register_all(v, known, k).0.nodes.contains(x) implies v.nodes.contains(x)
            || exists|i: int|
            0 <= i < k && known[i].0 == x && v.address != Some(peer_addr_for(v.net_type, known[i].1)) by {
            if !v1.nodes.contains(x) {
                assert(known[k - 1].0 == x);
            }
        }
    }
}

/// Registering a list of nodes connects each node of the list whose address
/// on this network is not the network's own.
pub proof fn lemma_register_all_connects(v: NetView, known: Seq<(NodeId, NodeInfo)>, k: int, i: int)
    requires
        0 <= i < k <= known.len(),
        v.address != Some(peer_addr_for(v.net_type, known[i].1)),
    ensures
        register_all(v, known, k).0.nodes.contains(known[i].0),
    decreases k,
{
    lemma_register_all_keeps(v, known, k - 1);
    if i < k - 1 {
        lemma_register_all_connects(v, known, k - 1, i);
    }
}

/// No raft message goes to or comes from a node that is cut off.
pub proof fn lemma_isolated_node_gets_no_raft(v: NetView, x: NodeId, other: NodeId)
    ensures
        ({
            let w = NetView { isolated: isolate_step(v.isolated, x), ..v };
            &&& !raft_rpc_allowed(w, x, other)
            &&& !raft_rpc_allowed(w, other, x)
        }),
{
    lemma_isolate_idempotent(v.isolated, x);
}

/// Registering a node under an address other than the network's own gives
/// it a connection and lifts its cut, so raft traffic to it flows from any
/// node that is not cut off; and a node is never connected twice.
pub proof fn lemma_register_connects(v: NetView, id: NodeId, info: NodeInfo, source: NodeId)
    requires
        v.address != Some(peer_addr_for(v.net_type, info)),
        source != id,
        !v.isolated.contains(source),
    ensures
        register_step(v, id, info).nodes.contains(id),
        raft_rpc_allowed(register_step(v, id, info), id, source),
        !register_starts(register_step(v, id, info), id, info),
{
    lemma_restore_lifts(v.isolated, id, source);
}

/// A node that goes away gets no more raft traffic.
pub proof fn lemma_disconnected_node_gets_no_raft(v: NetView, id: NodeId, other: NodeId)
    ensures
        ({
            let w = NetView {
                isolated: v.isolated.push(id),
                nodes_info: v.nodes_info.remove(id),
                nodes: v.nodes.remove(id),
                ..v
            };
            &&& !raft_rpc_allowed(w, id, other)
            &&& !raft_rpc_allowed(w, other, id)
        }),
{
    assert(v.isolated.push(id)[v.isolated.len() as int] == id);
}

/// After configuring, every configured node is known under the id of its
/// cluster address, and the last one configured keeps its addresses.
pub proof fn lemma_configured_knows(m: Map<NodeId, NodeInfo>, nodes: Seq<NodeInfo>, i: int)
    requires
        0 <= i < nodes.len(),
    ensures
        configured(m, nodes).contains_key(node_id_of(nodes[i].cluster_addr@)),
        configured(m, nodes)[node_id_of(nodes.last().cluster_addr@)] == nodes.last(),
    decreases nodes.len(),
{
    if i < nodes.len() - 1 {
        lemma_configured_knows(m, nodes.drop_last(), i);
        assert(nodes.drop_last()[i] == nodes[i]);
    }
}

/// Asking how far the cluster has formed gives back what was last
/// recorded, and recording it touches nothing else.
pub proof fn lemma_cluster_state_read_back(v: NetView, first: NetworkState, last: NetworkState)
    ensures
        (NetView { state: last, ..v }).state == last,
        (NetView { state: last, ..NetView { state: first, ..v } }) == (NetView { state: last, ..v }),
        (NetView { state: v.state, ..v }) == v,
{
}

/// The connection that registering starts is to the registered node, at
/// its address on this network, and carries this node's own id and
/// addresses; it starts down, with no request sent.
pub proof fn lemma_started_node_carries_ids(v: NetView, id: NodeId, info: NodeInfo)
    ensures
        started_node(v, id, info).id == id,
        started_node(v, id, info).local_id == v.id,
        started_node(v, id, info).info == v.info,
        started_node(v, id, info).net_type == v.net_type,
        v.net_type == NetworkType::App ==> started_node(v, id, info).peer_addr == info.app_addr@,
        v.net_type == NetworkType::Cluster ==> started_node(v, id, info).peer_addr == info.cluster_addr@,
        started_node(v, id, info).state == NodeState::Registered,
        !started_node(v, id, info).writer,
        started_node(v, id, info).mid == 0,
        started_node(v, id, info).pending == Set::<u64>::empty(),
{
}

/// Every connection that registering a list starts carries this node's own
/// id and addresses, and goes to a node of the list.
pub proof fn lemma_register_all_started(v: NetView, known: Seq<(NodeId, NodeInfo)>, k: int)
    requires
        k <= known.len(),
    ensures
        forall|j: int|
            0 <= j < register_all(v, known, k).1.len() ==> (#[trigger] register_all(v, known, k).1[j]).local_id
                == v.id && register_all(v, known, k).1[j].info == v.info && exists|i: int|
                0 <= i < k && known[i].0 == register_all(v, known, k).1[j].id,
    decreases k,
{
    if k > 0 {
        lemma_register_all_started(v, known, k - 1);
        lemma_register_all_keeps(v, known, k - 1);
        let (v1, st) = register_all(v, known, k - 1);
        let (id, info) = known[k - 1];
        lemma_started_node_carries_ids(v1, id, info);
        let cur = register_all(v, known, k).1;
        assert forall|j: int| 0 <= j < cur.len() implies (#[trigger] cur[j]).local_id == v.id && cur[j].info
            == v.info && exists|i: int| 0 <= i < k && known[i].0 == cur[j].id by {
            if j < st.len() {
                assert(cur[j] == st[j]);
                let i = choose|i: int| 0 <= i < k - 1 && known[i].0 == st[j].id;
                assert(0 <= i < k && known[i].0 == cur[j].id);
            } else {
                assert(cur[j] == started_node(v1, id, info));
                assert(known[k - 1].0 == cur[j].id);
            }
        }
    }
}

/// A message for a key goes only to the key's owner, and to it exactly when
/// a connection to it exists.
pub proof fn lemma_target_for(v: NetView, owner: NodeId)
    ensures
        target_for(v, owner) matches Some(t) ==> t == owner && v.nodes.contains(owner),
        target_for(v, owner) is None <==> !v.nodes.contains(owner),
{
}

/// Raft traffic goes out only to a peer with a connection, and only when
/// neither end is cut off; then it always goes.
pub proof fn lemma_raft_rpc_needs_connection(v: NetView, target: NodeId, source: NodeId)
    ensures
        raft_rpc_allowed(v, target, source) ==> v.nodes.contains(target),
        raft_rpc_allowed(v, target, source) <==> (v.nodes.contains(target) && !v.isolated.contains(target)
            && !v.isolated.contains(source)),
{
}

/// The address lookup gives the recorded public address of every known
/// node, whether or not a connection to it exists, and the empty string for
/// a node that is not known.
pub proof fn lemma_public_addr_known(v: NetView, id: NodeId)
    ensures
        v.nodes_info.contains_key(id) ==> public_addr_of(v, id) == v.nodes_info[id].public_addr@,
        !v.nodes_info.contains_key(id) ==> public_addr_of(v, id).len() == 0,
        public_addr_of(NetView { nodes: Set::empty(), ..v }, id) == public_addr_of(v, id),
{
}

} // verus!
