use raftor::hash_ring::Ring;
use raftor::server::{
    Connect, CreateRoom, Disconnect, GetMembers, Join, MembersAction, RecipientAction, RoomAction,
    SendRecipient, SendRoom, Server,
};

fn s(x: &str) -> String {
    x.to_string()
}

fn server_with_room(room: &str) -> Server {
    let mut srv = Server::new(1);
    assert!(srv.create_room_at(CreateRoom { room_id: s(room) }, 1).is_none());
    srv
}

fn members(srv: &Server, room: &str) -> Option<Vec<String>> {
    match srv.get_members(GetMembers { room_id: s(room) }) {
        MembersAction::Reply(v) => Some(v),
        MembersAction::Distribute(_) => None,
    }
}

#[test]
fn created_room_is_empty() {
    let srv = server_with_room("main");
    assert_eq!(members(&srv, "main"), Some(vec![]));
}

#[test]
fn room_owned_elsewhere_is_forwarded() {
    let mut srv = Server::new(1);
    let d = srv.create_room_at(CreateRoom { room_id: s("r") }, 2).expect("forwarded");
    assert_eq!(d.0, "r");
    assert_eq!(d.1.room_id, "r");
    assert_eq!(members(&srv, "r"), None);
}

#[test]
fn join_then_members_lists_user() {
    let mut srv = server_with_room("main");
    assert!(srv.join(Join { room_id: s("main"), uid: s("alice") }).is_none());
    assert!(srv.join(Join { room_id: s("main"), uid: s("bob") }).is_none());
    assert_eq!(members(&srv, "main"), Some(vec![s("alice"), s("bob")]));
}

#[test]
fn join_twice_is_join_once() {
    let mut srv = server_with_room("main");
    srv.join(Join { room_id: s("main"), uid: s("alice") });
    srv.join(Join { room_id: s("main"), uid: s("alice") });
    assert_eq!(members(&srv, "main"), Some(vec![s("alice")]));
}

#[test]
fn creating_existing_room_keeps_members() {
    let mut srv = server_with_room("main");
    srv.join(Join { room_id: s("main"), uid: s("alice") });
    assert!(srv.create_room_at(CreateRoom { room_id: s("main") }, 1).is_none());
    assert_eq!(members(&srv, "main"), Some(vec![s("alice")]));
}

#[test]
fn join_unknown_room_is_forwarded() {
    let mut srv = Server::new(1);
    let d = srv.join(Join { room_id: s("far"), uid: s("alice") }).expect("forwarded");
    assert_eq!(d.0, "far");
    assert_eq!(d.1.uid, "alice");
    assert_eq!(d.1.room_id, "far");
}

#[test]
fn members_of_unknown_room_are_asked_elsewhere() {
    let srv = Server::new(1);
    match srv.get_members(GetMembers { room_id: s("far") }) {
        MembersAction::Distribute(d) => {
            assert_eq!(d.0, "far");
            assert_eq!(d.1.room_id, "far");
        }
        MembersAction::Reply(_) => panic!("room is not hosted here"),
    }
}

#[test]
fn room_text_reaches_other_members_only() {
    let mut srv = server_with_room("main");
    for u in ["alice", "bob", "carol"] {
        srv.join(Join { room_id: s("main"), uid: s(u) });
    }
    match srv.send_room(SendRoom { room_id: s("main"), uid: s("bob"), content: s("hi") }) {
        RoomAction::Notify(v) => {
            let to: Vec<String> = v.iter().map(|m| m.recipient_id.clone()).collect();
            assert_eq!(to, vec![s("alice"), s("carol")]);
            assert!(v.iter().all(|m| m.uid == "bob" && m.content == "hi"));
        }
        RoomAction::Distribute(_) => panic!("room is hosted here"),
    }
}

#[test]
fn room_text_for_unknown_room_is_forwarded() {
    let srv = Server::new(1);
    match srv.send_room(SendRoom { room_id: s("far"), uid: s("bob"), content: s("hi") }) {
        RoomAction::Distribute(d) => {
            assert_eq!(d.0, "far");
            assert_eq!(d.1.content, "hi");
        }
        RoomAction::Notify(_) => panic!("room is not hosted here"),
    }
}

#[test]
fn text_to_connected_user_is_delivered() {
    let mut srv = Server::new(1);
    srv.connect(Connect(s("alice")));
    match srv.send_recipient(SendRecipient { recipient_id: s("alice"), uid: s("bob"), content: s("yo") }) {
        RecipientAction::Deliver { recipient_id, sender_id, content } => {
            assert_eq!(recipient_id, "alice");
            assert_eq!(sender_id, "bob");
            assert_eq!(content, "yo");
        }
        RecipientAction::Distribute(_) => panic!("alice is connected here"),
    }
}

#[test]
fn text_to_disconnected_user_is_forwarded() {
    let mut srv = Server::new(1);
    srv.connect(Connect(s("alice")));
    srv.disconnect(Disconnect(s("alice")));
    match srv.send_recipient(SendRecipient { recipient_id: s("alice"), uid: s("bob"), content: s("yo") }) {
        RecipientAction::Distribute(d) => {
            assert_eq!(d.0, "alice");
            assert_eq!(d.1.recipient_id, "alice");
            assert_eq!(d.1.uid, "bob");
        }
        RecipientAction::Deliver { .. } => panic!("alice left"),
    }
}

#[test]
fn rebalance_closes_sessions_owned_elsewhere() {
    let mut srv = Server::new(1);
    srv.connect(Connect(s("a")));
    srv.connect(Connect(s("b")));
    srv.connect(Connect(s("a")));
    srv.connect(Connect(s("c")));
    let moved = srv.rebalance_with_owners(&vec![2, 1, 3]);
    assert_eq!(moved, vec![s("a"), s("c")]);
}

#[test]
fn empty_ring_names_no_owner() {
    let mut srv = Server::new(1);
    let ring = Ring::new(10);
    match srv.try_create_room(&ring, CreateRoom { room_id: s("r") }) {
        Err(m) => assert_eq!(m.room_id, "r"),
        Ok(_) => panic!("the ring is empty"),
    }
    assert_eq!(members(&srv, "r"), None);
    assert!(srv.try_rebalance(&ring).is_none());
}

#[test]
fn single_node_ring_hosts_every_room_here() {
    let mut srv = Server::new(1);
    let mut ring = Ring::new(10);
    Ring::add_node(&mut ring, 1);
    assert!(srv.create_room(&ring, CreateRoom { room_id: s("a") }).is_none());
    assert!(srv.try_create_room(&ring, CreateRoom { room_id: s("b") }).expect("owned").is_none());
    assert_eq!(members(&srv, "a"), Some(vec![]));
    assert_eq!(members(&srv, "b"), Some(vec![]));
}

#[test]
fn room_owned_by_another_node_is_forwarded() {
    let mut srv = Server::new(1);
    let mut ring = Ring::new(10);
    Ring::add_node(&mut ring, 2);
    let d = srv.create_room(&ring, CreateRoom { room_id: s("a") }).expect("forwarded");
    assert_eq!(d.0, "a");
    assert_eq!(d.1.room_id, "a");
    assert_eq!(members(&srv, "a"), None);
}

#[test]
fn rebalance_against_ring_closes_foreign_sessions_once() {
    let mut srv = Server::new(1);
    srv.connect(Connect(s("alice")));
    srv.connect(Connect(s("bob")));
    srv.connect(Connect(s("alice")));
    let mut mine = Ring::new(10);
    Ring::add_node(&mut mine, 1);
    assert_eq!(srv.rebalance(&mine), Vec::<String>::new());
    let mut other = Ring::new(10);
    Ring::add_node(&mut other, 5);
    assert_eq!(srv.try_rebalance(&other), Some(vec![s("alice"), s("bob")]));
}
