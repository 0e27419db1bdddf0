use std::collections::HashMap;
use raftor::config::{ConfigSchema, JoinStrategy, NetworkType, NodeInfo};
use raftor::hash_ring::Ring;
use raftor::network::node::Node;
use raftor::network::network::DiscoveryOutcome;
use raftor::network::{Network, NetworkState, NodeSession};
use raftor::utils::generate_node_id;

fn info(n: u16) -> NodeInfo {
    NodeInfo {
        cluster_addr: format!("127.0.0.1:{}", 8000 + n),
        app_addr: format!("127.0.0.1:{}", 9000 + n),
        public_addr: format!("127.0.0.1:{}", 8080 + n),
    }
}

fn cluster_net() -> Network {
    let mut net = Network::new(1, NetworkType::Cluster, "disc:80".to_string(), info(0));
    net.bind("127.0.0.1:8000");
    net
}

#[test]
fn new_network_is_initialized_and_empty() {
    let net = cluster_net();
    assert_eq!(net.cluster_state(), NetworkState::Initialized);
    assert!(net.get_nodes().is_empty());
    assert_eq!(net.discover_nodes(), (vec![], false));
    assert_eq!(net.current_leader(), None);
}

#[test]
fn configure_keys_nodes_by_cluster_address() {
    let mut net = cluster_net();
    net.configure(ConfigSchema {
        discovery_host: "disc:80".to_string(),
        join_strategy: JoinStrategy::Static,
        nodes: vec![info(1), info(2)],
    });
    let nodes = net.get_nodes();
    assert_eq!(nodes.len(), 2);
    assert_eq!(nodes[&generate_node_id("127.0.0.1:8001")], info(1));
    assert_eq!(nodes[&generate_node_id("127.0.0.1:8002")], info(2));
}

#[test]
fn register_starts_one_connection_per_peer() {
    let mut net = cluster_net();
    let node = net.register_node(7, &info(1)).expect("a connection to start");
    assert_eq!(node.id(), 7);
    assert_eq!(node.peer_addr(), "127.0.0.1:8001");
    assert!(net.get_node(7));
    assert!(net.register_node(7, &info(1)).is_none());
}

#[test]
fn register_skips_own_address() {
    let mut net = cluster_net();
    assert!(net.register_node(1, &info(0)).is_none());
    assert!(!net.get_node(1));
}

#[test]
fn app_network_connects_to_app_address() {
    let mut net = Network::new(1, NetworkType::App, "d".to_string(), info(0));
    net.bind("127.0.0.1:9000");
    let node = net.register_node(3, &info(3)).unwrap();
    assert_eq!(node.peer_addr(), "127.0.0.1:9003");
}

#[test]
fn isolation_blocks_raft_and_restore_lifts_it() {
    let mut net = cluster_net();
    net.register_node(7, &info(1));
    assert!(net.route_raft_rpc(7, 1));
    net.isolate_node(7);
    assert!(!net.route_raft_rpc(7, 1));
    net.isolate_node(1);
    assert!(!net.route_raft_rpc(7, 1));
    net.restore_node(7);
    assert!(!net.route_raft_rpc(7, 1));
    net.restore_node(1);
    assert!(net.route_raft_rpc(7, 1));
    assert!(!net.route_raft_rpc(8, 1));
}

#[test]
fn registering_restores_isolated_node() {
    let mut net = cluster_net();
    net.isolate_node(7);
    net.register_node(7, &info(1));
    assert!(net.route_raft_rpc(7, 1));
}

#[test]
fn disconnect_forgets_and_isolates() {
    let mut net = cluster_net();
    net.handshake(7, info(1));
    assert!(net.get_nodes().contains_key(&7));
    assert!(net.node_disconnect(7));
    assert!(!net.get_node(7));
    assert!(!net.get_nodes().contains_key(&7));
    assert!(!net.route_raft_rpc(7, 1));
    let mut app = Network::new(1, NetworkType::App, "d".to_string(), info(0));
    assert!(!app.node_disconnect(7));
}

#[test]
fn handshake_records_and_registers() {
    let mut net = cluster_net();
    let n = net.handshake(9, info(2)).unwrap();
    assert_eq!(n.id(), 9);
    assert_eq!(net.get_nodes()[&9], info(2));
    assert_eq!(net.node_address(9), (9, "127.0.0.1:8082".to_string()));
    assert_eq!(net.node_address(10), (10, String::new()));
}

#[test]
fn register_nodes_starts_each_new_peer() {
    let mut net = cluster_net();
    let started = net.register_nodes(&vec![(2, info(2)), (1, info(0)), (3, info(3)), (2, info(2))]);
    let ids: Vec<u64> = started.iter().map(|n| n.id()).collect();
    assert_eq!(ids, vec![2, 3]);
}

#[test]
fn cluster_state_and_discovery() {
    let mut net = cluster_net();
    net.on_started();
    net.peer_connected(4);
    assert!(net.should_fetch_nodes(NetworkState::Cluster));
    assert!(!net.should_fetch_nodes(NetworkState::SingleNode));
    let mut m = HashMap::new();
    m.insert(5u64, info(5));
    net.on_cluster_nodes(m);
    assert_eq!(net.discover_nodes(), (vec![1, 4], true));
    net.set_cluster_state(NetworkState::Cluster);
    assert_eq!(net.cluster_state(), NetworkState::Cluster);
    net.on_metrics(Some(4));
    assert_eq!(net.current_leader(), Some(4));
}

#[test]
fn distribute_needs_a_connection() {
    let mut net = cluster_net();
    assert_eq!(net.distribute_target_for(7), None);
    net.register_node(7, &info(1));
    assert_eq!(net.distribute_target_for(7), Some(7));
}

#[test]
fn node_requests_wait_for_their_answer() {
    let mut node = Node::new(2, 1, "127.0.0.1:8002".to_string(), NetworkType::Cluster, info(0));
    assert!(node.connect());
    assert!(!node.dispatch());
    assert_eq!(node.send_remote(), None);
    let c = node.on_connected();
    assert_eq!(c.peer_connected, 2);
    assert_eq!(c.join_id, 1);
    assert_eq!(c.join_info, info(0));
    assert!(c.heartbeat);
    assert!(!node.connect());
    assert!(node.dispatch());
    assert_eq!(node.send_remote(), Some(1));
    assert_eq!(node.send_remote(), Some(2));
    assert!(node.on_response(1));
    assert!(!node.on_response(1));
    assert!(!node.on_response(9));
    assert!(node.on_response(2));
    node.stopped();
    assert!(node.connect());
}

#[test]
fn app_node_sends_no_heartbeat() {
    let mut node = Node::new(2, 1, "x".to_string(), NetworkType::App, info(0));
    assert!(!node.on_connected().heartbeat);
}

#[test]
fn peer_session_times_out_after_ten_seconds() {
    let mut s = NodeSession::new(1000);
    assert_eq!(s.id(), None);
    assert!(!s.heartbeat(11000));
    assert!(s.heartbeat(11001));
    s.on_ping(11001);
    assert!(!s.heartbeat(12000));
    s.on_join(42);
    assert_eq!(s.id(), Some(42));
}

#[test]
fn isolating_twice_needs_one_restore() {
    let mut net = cluster_net();
    net.register_node(7, &info(1));
    net.isolate_node(7);
    net.isolate_node(7);
    assert!(!net.route_raft_rpc(1, 7));
    net.restore_node(7);
    assert!(net.route_raft_rpc(7, 1));
}

#[test]
fn empty_ring_places_no_key() {
    let net = cluster_net();
    let ring = Ring::new(10);
    assert_eq!(net.try_distribute_target(&ring, "room".to_string()), Err(()));
    assert_eq!(net.try_get_node_address(&ring, "room".to_string()), None);
}

#[test]
fn ring_owner_gets_messages_once_connected() {
    let mut net = cluster_net();
    let mut ring = Ring::new(10);
    Ring::add_node(&mut ring, 7);
    assert_eq!(net.try_distribute_target(&ring, "room".to_string()), Ok(None));
    net.register_node(7, &info(1));
    assert_eq!(net.distribute_target(&ring, "room".to_string()), Some(7));
    assert_eq!(net.try_distribute_target(&ring, "other".to_string()), Ok(Some(7)));
    net.handshake(7, info(1));
    assert_eq!(net.get_node_address(&ring, "room".to_string()), (7, "127.0.0.1:8081".to_string()));
}

#[test]
fn disconnected_twice_then_one_restore_lifts_the_cut() {
    let mut net = cluster_net();
    net.register_node(7, &info(1));
    assert!(net.node_disconnect(7));
    assert!(net.node_disconnect(7));
    net.restore_node(7);
    net.register_node(7, &info(1));
    assert!(net.route_raft_rpc(7, 1));
    assert!(net.route_raft_rpc(7, 2));
}

#[test]
fn registering_node_cut_off_twice_lifts_the_cut() {
    let mut net = cluster_net();
    net.node_disconnect(7);
    net.node_disconnect(7);
    assert!(net.register_node(7, &info(1)).is_some());
    assert!(net.route_raft_rpc(7, 1));
}

#[test]
fn started_network_connects_every_known_node_but_itself() {
    let mut net = cluster_net();
    net.configure(ConfigSchema {
        discovery_host: "disc:80".to_string(),
        nodes: vec![info(0), info(1), info(2)],
        join_strategy: JoinStrategy::Static,
    });
    net.on_started();
    let started = net.on_discovered(DiscoveryOutcome::Known);
    assert_eq!(started.len(), 2);
    let ids: Vec<u64> = vec![generate_node_id("127.0.0.1:8001"), generate_node_id("127.0.0.1:8002")];
    for id in ids.iter() {
        assert!(net.get_node(*id));
    }
    assert!(!net.get_node(generate_node_id("127.0.0.1:8000")));
    assert!(!net.discover_nodes().1);
}

#[test]
fn started_network_joins_fetched_cluster() {
    let mut net = cluster_net();
    let mut fetched = HashMap::new();
    fetched.insert(5, info(5));
    fetched.insert(1, info(0));
    let started = net.on_discovered(DiscoveryOutcome::Fetched(fetched));
    assert_eq!(started.len(), 1);
    assert!(net.get_node(5));
    assert!(!net.get_node(1));
    assert_eq!(net.get_nodes().len(), 2);
    assert!(net.discover_nodes().1);
}

#[test]
fn unreachable_discovery_registers_nothing() {
    let mut net = cluster_net();
    net.handshake(9, info(9));
    let mut other = cluster_net();
    other.configure(ConfigSchema {
        discovery_host: "disc:80".to_string(),
        nodes: vec![info(3)],
        join_strategy: JoinStrategy::Static,
    });
    assert!(other.on_discovered(DiscoveryOutcome::Unreachable).is_empty());
    assert!(!other.get_node(generate_node_id("127.0.0.1:8003")));
    assert!(net.get_node(9));
}

#[test]
fn cluster_state_reads_back_what_was_set() {
    let mut net = cluster_net();
    assert_eq!(net.cluster_state(), NetworkState::Initialized);
    net.set_cluster_state(NetworkState::SingleNode);
    net.set_cluster_state(NetworkState::Cluster);
    assert_eq!(net.cluster_state(), NetworkState::Cluster);
}
