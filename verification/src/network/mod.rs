//! The node-to-node network: frame coding and the bookkeeping of peers.

pub mod codec;
pub mod network;
pub mod node;
pub mod remote;
pub mod request;
pub mod session;

pub use self::codec::{ClientNodeCodec, NodeCodec, NodePayload, NodeRequest, NodeResponse};
pub use self::network::{DistributeAndWait, DistributeMessage};
pub use self::node::Node;
pub use self::session::NodeSession;
pub use self::network::{Network, NetworkState};
