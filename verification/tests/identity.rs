use raftor::hash_ring::Ring;
use raftor::config::{NetworkType, NodeInfo};
use raftor::network::Network;
use raftor::raftor::{
    client_request_route, handle_client_response, node_identity, startup_plan, ClientErrorKind,
    ClientResponseAction, ClientRoute, RING_REPLICAS,
};
use raftor::network::NetworkState;
use raftor::utils::{generate_node_id, node_id_from_digest};

#[test]
fn node_id_is_first_eight_hex_digits_of_sha256() {
    // sha256("127.0.0.1:8000") starts with "03f6d7ba"
    assert_eq!(generate_node_id("127.0.0.1:8000"), u64::from_be_bytes(*b"03f6d7ba"));
    assert_eq!(generate_node_id("127.0.0.1:8000"), 3473232121428402785);
    assert_eq!(generate_node_id("127.0.0.1:8001"), 7220731670040962359);
}

#[test]
fn node_id_is_deterministic_and_tells_addresses_apart() {
    assert_eq!(generate_node_id("10.0.0.1:9000"), generate_node_id("10.0.0.1:9000"));
    assert_ne!(generate_node_id("10.0.0.1:9000"), generate_node_id("10.0.0.2:9000"));
}

#[test]
fn node_id_from_digest_reads_big_endian() {
    assert_eq!(node_id_from_digest(b"00000001ffff"), u64::from_be_bytes(*b"00000001"));
    assert_eq!(node_id_from_digest(&[0, 0, 0, 0, 0, 0, 1, 2]), 258);
}

#[test]
fn empty_ring_has_no_owner() {
    let ring = Ring::new(RING_REPLICAS);
    let net = Network::new(1, NetworkType::App, "d".to_string(), addrs());
    assert_eq!(net.try_get_node_address(&ring, "room".to_string()), None);
}

fn addrs() -> NodeInfo {
    NodeInfo {
        cluster_addr: "127.0.0.1:8000".to_string(),
        app_addr: "127.0.0.1:9000".to_string(),
        public_addr: "127.0.0.1:8080".to_string(),
    }
}

#[test]
fn node_id_bytes_are_lower_hex_digits() {
    for addr in ["127.0.0.1:8000", "10.0.0.7:1", "node-a:4000"].iter() {
        for b in generate_node_id(addr).to_be_bytes().iter() {
            assert!(b.is_ascii_digit() || (b'a'..=b'f').contains(b));
        }
    }
}

#[test]
fn one_node_ring_places_every_key_on_it() {
    let mut ring = Ring::new(RING_REPLICAS);
    Ring::add_node(&mut ring, 42);
    let net = Network::new(1, NetworkType::App, "d".to_string(), addrs());
    for key in ["room", "alice", "", "another key"].iter() {
        assert_eq!(net.try_get_node_address(&ring, key.to_string()).map(|r| r.0), Some(42));
    }
}

#[test]
fn identity_of_node() {
    let (id, info) = node_identity("127.0.0.1:8000", "127.0.0.1:9000", "127.0.0.1:8080");
    assert_eq!(id, 3473232121428402785);
    assert_eq!(info.cluster_addr, "127.0.0.1:8000");
    assert_eq!(info.app_addr, "127.0.0.1:9000");
    assert_eq!(info.public_addr, "127.0.0.1:8080");
}

#[test]
fn client_requests_go_to_leader() {
    assert_eq!(client_request_route(5, 5, true), ClientRoute::Local);
    assert_eq!(client_request_route(5, 5, false), ClientRoute::Remote(5));
    assert_eq!(client_request_route(7, 5, true), ClientRoute::Remote(7));
}

#[test]
fn client_responses() {
    assert_eq!(handle_client_response(Ok(())), ClientResponseAction::Done);
    assert_eq!(handle_client_response(Err(ClientErrorKind::Internal)), ClientResponseAction::Resend);
    assert_eq!(
        handle_client_response(Err(ClientErrorKind::ForwardToLeader)),
        ClientResponseAction::Resend
    );
    assert_eq!(
        handle_client_response(Err(ClientErrorKind::Application)),
        ClientResponseAction::Report
    );
}

#[test]
fn startup_after_raft_init() {
    let p = startup_plan(true);
    assert_eq!(p.cluster_state, NetworkState::Cluster);
    assert!(p.announce_join);
    assert!(!startup_plan(false).announce_join);
}
