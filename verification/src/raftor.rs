//! The decisions of the node supervisor: who this node is, where client
//! requests to raft go, and what becomes of their answers.

use vstd::prelude::*;
use crate::config::{NodeId, NodeInfo};
use crate::network::NetworkState;
use crate::utils::{generate_node_id, node_id_of};

verus! {

/// The number of virtual nodes each node gets on the hash ring.
pub const RING_REPLICAS: isize = 10;

/// Where a client request to raft goes.
#[derive(Clone, Copy, Debug, PartialEq, Eq, Structural)]
pub enum ClientRoute {
    /// To this node's own raft.
    Local,
    /// To the leader, through the cluster network.
    Remote(NodeId),
}

/// Why raft refused a client request.
#[derive(Clone, Copy, Debug, PartialEq, Eq, Structural)]
pub enum ClientErrorKind {
    Internal,
    Application,
    ForwardToLeader,
}

/// What to do with the answer to a client request.
#[derive(Clone, Copy, Debug, PartialEq, Eq, Structural)]
pub enum ClientResponseAction {
    /// The request was applied.
    Done,
    /// Send the request again.
    Resend,
    /// Report the application's error.
    Report,
}

/// What a node does once its raft is initialized.
pub struct StartupPlan {
    /// The state both networks move to.
    pub cluster_state: NetworkState,
    /// Whether to announce this node to the discovery service as joining.
    pub announce_join: bool,
}

/// The id and addresses of this node, from its three addresses; the id is
/// that of the cluster address.
pub fn node_identity(cluster_addr: &str, app_addr: &str, public_addr: &str) -> (r: (NodeId, NodeInfo))
    ensures
        r.0 == node_id_of(cluster_addr@),
        r.1.cluster_addr@ == cluster_addr@,
        r.1.app_addr@ == app_addr@,
        r.1.public_addr@ == public_addr@,
{
    let info = NodeInfo {
        cluster_addr: cluster_addr.to_owned(),
        app_addr: app_addr.to_owned(),
        public_addr: public_addr.to_owned(),
    };
    (generate_node_id(cluster_addr), info)
}

/// Where a client request goes when `leader` leads: to this node's own raft
/// when this node leads and its raft runs, else to the leader.
pub fn client_request_route(leader: NodeId, self_id: NodeId, has_raft: bool) -> (r: ClientRoute)
    ensures
        r == (if leader == self_id && has_raft {
            ClientRoute::Local
        } else {
            ClientRoute::Remote(leader)
        }),
{
    if leader == self_id && has_raft {
        ClientRoute::Local
    } else {
        ClientRoute::Remote(leader)
    }
}

/// What to do with the answer to a client request: nothing once it is
/// applied; send it again after an internal error or when told to forward it
/// to the leader; report an application error.
pub fn handle_client_response(res: Result<(), ClientErrorKind>) -> (a: ClientResponseAction)
    ensures
        a == match res {
            Ok(()) => ClientResponseAction::Done,
            Err(ClientErrorKind::Internal) => ClientResponseAction::Resend,
            Err(ClientErrorKind::ForwardToLeader) => ClientResponseAction::Resend,
            Err(ClientErrorKind::Application) => ClientResponseAction::Report,
        },
{
    match res {
        Ok(()) => ClientResponseAction::Done,
        Err(ClientErrorKind::Internal) => ClientResponseAction::Resend,
        Err(ClientErrorKind::ForwardToLeader) => ClientResponseAction::Resend,
        Err(ClientErrorKind::Application) => ClientResponseAction::Report,
    }
}

/// What follows the initialization of raft: both networks count the cluster
/// as formed, and a node that joins a formed cluster announces itself.
pub fn startup_plan(join_mode: bool) -> (p: StartupPlan)
    ensures
        p.cluster_state == NetworkState::Cluster,
        p.announce_join == join_mode,
{
    StartupPlan { cluster_state: NetworkState::Cluster, announce_join: join_mode }
}

} // verus!
