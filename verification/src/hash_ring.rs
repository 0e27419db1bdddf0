//! The consistent hash ring that assigns rooms and users to nodes.
//!
//! A ring is a set of points (64-bit hashes), each owned by a node; every
//! node the ring takes in owns a fixed number of points ("virtual nodes").
//! A key is served by the first point at or after the key's own hash, and
//! when there is none, by the lowest point: the ring wraps round.

use vstd::prelude::*;
use ::hash_ring::HashRing;
use crate::config::NodeId;
use crate::network::request::decimal;

verus! {

/// A consistent hash ring of node ids, held in the `HashRing` of the
/// `hash_ring` crate. (Verus cannot take that type as it stands: its default
/// hasher parameter names a type of a crate that this one does not depend
/// on, so the ring is kept in a field that only the wrappers below touch.)
/// Only `ring_new_empty` and `ring_add_node` make or change one, so the
/// crate's sorted list of points always holds exactly the points of its map.
#[verifier::external_body]
pub struct NodeRing {
    inner: HashRing<NodeId>,
}

/// The points of a ring, each with the node that owns it (the map `ring` of
/// `HashRing`).
pub uninterp spec fn ring_vnodes(r: NodeRing) -> Map<u64, NodeId>;

/// How many points the ring gives each node it takes in (the `replicas`
/// that the ring was made with).
pub uninterp spec fn ring_replicas(r: NodeRing) -> int;

/// The point of the ring for the string `key` (`gen_key` of `hash_ring`: the
/// 64-bit xxHash of the key's UTF-8 bytes with seed 0).
pub uninterp spec fn ring_key_hash(key: Seq<char>) -> u64;

/// No points at all.
pub open spec fn no_points() -> Map<u64, NodeId> {
    Map::empty()
}

/// The nodes that a ring holds: those that own at least one point.
pub open spec fn ring_nodes(r: NodeRing) -> Set<NodeId> {
    ring_vnodes(r).values()
}

/// Whether `k` is the first of `points` at or after `h`.
pub open spec fn is_first_point_from(points: Set<u64>, h: u64, k: u64) -> bool {
    &&& points.contains(k)
    &&& h <= k
    &&& forall|j: u64| points.contains(j) && h <= j ==> k <= j
}

/// Whether `k` is the lowest of `points`.
pub open spec fn is_lowest_point(points: Set<u64>, k: u64) -> bool {
    &&& points.contains(k)
    &&& forall|j: u64| points.contains(j) ==> k <= j
}

/// The point that serves the hash `h`: the first at or after `h`, else the
/// lowest; none when there are no points.
pub open spec fn serving_point(points: Set<u64>, h: u64) -> Option<u64> {
    if exists|k: u64| is_first_point_from(points, h, k) {
        Some(choose|k: u64| is_first_point_from(points, h, k))
    } else if exists|k: u64| is_lowest_point(points, k) {
        Some(choose|k: u64| is_lowest_point(points, k))
    } else {
        None
    }
}

/// The node that the ring places `key` on: the owner of the point that
/// serves the key's hash; none on an empty ring.
pub open spec fn ring_owner(r: NodeRing, key: Seq<char>) -> Option<NodeId> {
    owner_of_hash(r, ring_key_hash(key))
}

/// The owner of the point that serves the hash `h`; none on an empty ring.
pub open spec fn owner_of_hash(r: NodeRing, h: u64) -> Option<NodeId> {
    match serving_point(ring_vnodes(r).dom(), h) {
        Some(k) => Some(ring_vnodes(r)[k]),
        None => None,
    }
}

/// The label of the `i`-th point of `node`: its id, a colon and `i`, in
/// decimal.
pub open spec fn vnode_label(node: NodeId, i: int) -> Seq<char> {
    decimal(node as nat) + seq![':'] + decimal(i as nat)
}

/// The points after giving `node` its first `n` points, one after another,
/// each under the hash of its label (a later one replacing an earlier one
/// at the same hash).
pub open spec fn add_vnodes(m: Map<u64, NodeId>, node: NodeId, n: int) -> Map<u64, NodeId>
    decreases n,
{
    if n <= 0 {
        m
    } else {
        add_vnodes(m, node, n - 1).insert(ring_key_hash(vnode_label(node, n - 1)), node)
    }
}

/// `HashRing::new` of `hash_ring` with no nodes and `replicas` points per
/// node to come: the ring starts without points.
#[verifier::external_body]
fn ring_new_empty(replicas: isize) -> (r: NodeRing)
    ensures
        ring_vnodes(r) == no_points(),
        ring_replicas(r) == replicas as int,
{
    NodeRing { inner: HashRing::new(Vec::new(), replicas) }
}

/// `HashRing::add_node` of `hash_ring`: for `i` from 0 below the ring's
/// `replicas`, the point under the hash of the label `"{node}:{i}"` is
/// given to `node`.
#[verifier::external_body]
fn ring_add_node(r: &mut NodeRing, node: NodeId)
    ensures
        ring_vnodes(*final(r)) == add_vnodes(ring_vnodes(*old(r)), node, ring_replicas(*old(r))),
        ring_replicas(*final(r)) == ring_replicas(*old(r)),
{
    r.inner.add_node(&node);
}

/// `HashRing::get_node` of `hash_ring`: the owner of the first point at or
/// after the hash of `key`, else of the lowest point; `None` on a ring
/// without points.
#[verifier::external_body]
pub(crate) fn ring_get_node(r: &NodeRing, key: String) -> (owner: Option<NodeId>)
    ensures
        owner == owner_of_hash(*r, ring_key_hash(key@)),
{
    r.inner.get_node(key).copied()
}

/// Builder of the ring that a node shares between its actors.
pub struct Ring;

impl Ring {
    /// A ring with no nodes in which each node will get `replicas` points.
    pub fn new(replicas: isize) -> (r: NodeRing)
        ensures
            ring_vnodes(r) == no_points(),
            ring_replicas(r) == replicas as int,
    {
        ring_new_empty(replicas)
    }

    /// Takes `node` into the ring: it gets the ring's number of points, each
    /// under the hash of its label.
    pub fn add_node(ring: &mut NodeRing, node: NodeId)
        ensures
            ring_vnodes(*final(ring)) == add_vnodes(ring_vnodes(*old(ring)), node, ring_replicas(*old(ring))),
            ring_replicas(*final(ring)) == ring_replicas(*old(ring)),
    {
        ring_add_node(ring, node);
    }
}

/// Any set of points that holds `x` has a lowest point.
proof fn lemma_lowest_exists(points: Set<u64>, x: u64)
    requires
        points.contains(x),
    ensures
        exists|k: u64| is_lowest_point(points, k),
    decreases x,
{
    if exists|j: u64| points.contains(j) && j < x {
        let j = choose|j: u64| points.contains(j) && j < x;
        lemma_lowest_exists(points, j);
    } else {
        assert(is_lowest_point(points, x));
    }
}

/// A ring places every key on one of its nodes, and on none exactly when it
/// holds no node.
pub proof fn lemma_ring_owner(r: NodeRing, key: Seq<char>)
    ensures
        ring_owner(r, key) is None <==> ring_nodes(r).is_empty(),
        ring_owner(r, key) matches Some(n) ==> ring_nodes(r).contains(n),
{
    let m = ring_vnodes(r);
    let points = m.dom();
    let h = ring_key_hash(key);
    if !points.is_empty() {
        let x = points.choose();
        lemma_lowest_exists(points, x);
        assert(m.values().contains(m[x]));
        match serving_point(points, h) {
            Some(k) => {
                assert(points.contains(k));
                assert(m.values().contains(m[k]));
            },
            None => {},
        }
    } else {
        if !ring_nodes(r).is_empty() {
            let n = choose|n: NodeId| ring_nodes(r).contains(n);
            assert(ring_nodes(r).contains(n));
            let k = choose|k: u64| points.contains(k) && m[k] == n;
            assert(points.contains(k));
        }
    }
}

/// Giving `node` points keeps every earlier point, and every point is then
/// owned by `node` or as before; with at least one point to give, `node` is
/// on the ring.
pub proof fn lemma_add_vnodes(m: Map<u64, NodeId>, node: NodeId, n: int)
    ensures
        m.dom().subset_of(add_vnodes(m, node, n).dom()),
        forall|k: u64|
            #[trigger] add_vnodes(m, node, n).dom().contains(k) ==> (add_vnodes(m, node, n)[k] == node
                || (m.dom().contains(k) && add_vnodes(m, node, n)[k] == m[k])),
        n > 0 ==> add_vnodes(m, node, n).contains_key(ring_key_hash(vnode_label(node, n - 1))),
        n > 0 ==> add_vnodes(m, node, n).values().contains(node),
    decreases n,
{
    if n > 0 {
        lemma_add_vnodes(m, node, n - 1);
        let prev = add_vnodes(m, node, n - 1);
        let k0 = ring_key_hash(vnode_label(node, n - 1));
        let cur = add_vnodes(m, node, n);
        assert(cur == prev.insert(k0, node));
        assert forall|k: u64| #[trigger] cur.dom().contains(k) implies (cur[k] == node || (
        m.dom().contains(k) && cur[k] == m[k])) by {
            if k != k0 {
                assert(prev.dom().contains(k));
            }
        }
        assert(cur.dom().contains(k0) && cur[k0] == node);
    }
}

/// A ring that holds a single node places every key on that node.
pub proof fn lemma_single_node_ring(r: NodeRing, node: NodeId, n: int, key: Seq<char>)
    requires
        ring_vnodes(r) == add_vnodes(Map::<u64, NodeId>::empty(), node, n),
        n > 0,
    ensures
        ring_owner(r, key) == Some(node),
{
    lemma_add_vnodes(Map::<u64, NodeId>::empty(), node, n);
    lemma_ring_owner(r, key);
    let m = ring_vnodes(r);
    assert(m.values().contains(node));
    match ring_owner(r, key) {
        Some(o) => {
            let k = choose|k: u64| m.dom().contains(k) && m[k] == o;
            assert(add_vnodes(Map::<u64, NodeId>::empty(), node, n).dom().contains(k));
            assert(m[k] == node);
        },
        None => {},
    }
}

} // verus!
