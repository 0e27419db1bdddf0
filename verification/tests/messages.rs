use std::hash::{Hash, Hasher};
use std::time::Instant;
use fasthash::XXHasher;
use raftor::network::codec::{NodePayload, NodeRequest, NodeResponse};
use raftor::network::remote::{is_uninitialized_reply, MsgTypes, RemoteMessage};
use raftor::network::request::{hash, Request, RequestState};
use raftor::server::{CreateRoom, GetMembers, Join, SendRecipient, SendRoom};
use raftor::session::{HeartbeatAction, Session, SessionAction, TextMessage, WsEvent};

#[test]
fn remote_type_ids() {
    assert_eq!(<Join as RemoteMessage>::type_id(), "Join");
    assert_eq!(<SendRoom as RemoteMessage>::type_id(), "SendRoom");
    assert_eq!(<SendRecipient as RemoteMessage>::type_id(), "SendRecipient");
    assert_eq!(<CreateRoom as RemoteMessage>::type_id(), "CreateRoom");
    assert_eq!(<GetMembers as RemoteMessage>::type_id(), "GetMembers");
    assert_eq!(<Join as RemoteMessage>::msg_type(), MsgTypes::App);
}

#[test]
fn empty_reply_means_raft_not_ready() {
    assert!(is_uninitialized_reply(""));
    assert!(!is_uninitialized_reply("{}"));
}

#[test]
fn request_id_is_decimal_xxhash() {
    let mut h = XXHasher::default();
    "t0".hash(&mut h);
    let expected = h.finish().to_string();
    assert_eq!(hash("t0"), expected);
    assert_ne!(hash("t0"), "t0");
    assert!(hash("t1").chars().all(|c| c.is_ascii_digit()));
}

#[test]
fn request_life_cycle() {
    let now = Instant::now();
    let req = NodeRequest { id: "x".to_string(), payload: NodePayload::Ping };
    let r = Request::req_from(req, "t0", now);
    assert_eq!(r.id, hash("t0"));
    assert_eq!(r.start_time, now);
    assert_eq!(r.state, RequestState::Initialized);
    assert!(r.req.is_some());
    assert!(r.res.is_none());
    let r = r.res_from(NodeResponse { id: "x".to_string(), payload: NodePayload::Joined });
    assert_eq!(r.res.unwrap().payload, NodePayload::Joined);
    let plain = Request::new("t9", now);
    assert!(plain.req.is_none() && plain.end_time.is_none());
}

#[test]
fn session_heartbeat_times_out_after_ten_seconds() {
    let s = Session::new("alice", "main", 0);
    assert!(matches!(s.heartbeat(10000), HeartbeatAction::Ping));
    match s.heartbeat(10001) {
        HeartbeatAction::Disconnect(d) => assert_eq!(d.0, "alice"),
        HeartbeatAction::Ping => panic!("client timed out"),
    }
    assert_eq!(s.started().0, "alice");
    assert_eq!(s.stopping().0, "alice");
}

#[test]
fn session_ping_refreshes_and_pongs() {
    let mut s = Session::new("alice", "main", 0);
    match s.handle(WsEvent::Ping("p".to_string()), 9000) {
        SessionAction::Pong(p) => assert_eq!(p, "p"),
        _ => panic!("ping is answered"),
    }
    assert!(matches!(s.heartbeat(15000), HeartbeatAction::Ping));
    assert!(matches!(s.handle(WsEvent::Pong, 16000), SessionAction::Nothing));
    assert!(matches!(s.heartbeat(26000), HeartbeatAction::Ping));
    assert!(matches!(s.handle(WsEvent::Close, 0), SessionAction::Stop));
    assert!(matches!(s.handle(WsEvent::Binary, 0), SessionAction::Unexpected));
    assert!(matches!(s.handle(WsEvent::Nop, 0), SessionAction::Nothing));
}

#[test]
fn session_texts_go_to_room_or_user() {
    let mut s = Session::new("alice", "main", 0);
    let t = TextMessage { recipient: "bob".to_string(), content: "hi".to_string(), room: None };
    match s.handle(WsEvent::Text(t), 1) {
        SessionAction::ToUser(m) => {
            assert_eq!(m.recipient_id, "bob");
            assert_eq!(m.uid, "alice");
            assert_eq!(m.content, "hi");
        }
        _ => panic!("text to a user"),
    }
    let t = TextMessage { recipient: "".to_string(), content: "all".to_string(), room: Some("main".to_string()) };
    match s.handle(WsEvent::Text(t), 1) {
        SessionAction::ToRoom(m) => {
            assert_eq!(m.room_id, "main");
            assert_eq!(m.uid, "alice");
            assert_eq!(m.content, "all");
        }
        _ => panic!("text to a room"),
    }
}

#[test]
fn remote_type_ids_are_distinct() {
    let ids = [
        <Join as RemoteMessage>::type_id(),
        <SendRoom as RemoteMessage>::type_id(),
        <SendRecipient as RemoteMessage>::type_id(),
        <CreateRoom as RemoteMessage>::type_id(),
        <GetMembers as RemoteMessage>::type_id(),
    ];
    for i in 0..ids.len() {
        for j in 0..ids.len() {
            assert_eq!(i == j, ids[i] == ids[j]);
        }
    }
}
