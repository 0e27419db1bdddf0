use vstd::prelude::*;

verus! {

/// Identifier of a cluster node.
pub type NodeId = u64;

/// Which of the two networks of a node a value belongs to: the cluster
/// network that carries raft traffic, or the application network that carries
/// chat traffic.
#[derive(Clone, Copy, Debug, PartialEq, Eq, Structural)]
pub enum NetworkType {
    Cluster,
    App,
}

/// The three addresses under which a node can be reached.
#[derive(Clone, Debug, PartialEq)]
pub struct NodeInfo {
    pub cluster_addr: String,
    pub app_addr: String,
    pub public_addr: String,
}

/// How a node joins a cluster.
#[derive(Clone, Copy, Debug, PartialEq, Eq, Structural)]
pub enum JoinStrategy {
    Static,
    Dynamic,
}

/// The statically configured nodes.
pub type NodeList = Vec<NodeInfo>;

/// The configuration file of a node.
#[derive(Clone, Debug)]
pub struct ConfigSchema {
    pub discovery_host: String,
    pub join_strategy: JoinStrategy,
    pub nodes: NodeList,
}

impl NodeInfo {
    /// A copy of `self` with the same three addresses.
    pub fn duplicate(&self) -> (r: NodeInfo)
        ensures
            r == *self,
    {
        NodeInfo {
            cluster_addr: self.cluster_addr.clone(),
            app_addr: self.app_addr.clone(),
            public_addr: self.public_addr.clone(),
        }
    }
}

} // verus!
