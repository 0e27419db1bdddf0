//! The chat server of a node: the rooms it hosts and the users connected to
//! it, and what it does with each message it receives.
//!
//! Each handler is a step from the server's state and a message to its next
//! state and to what must be sent on; the caller performs the sending.

use vstd::prelude::*;
use crate::config::NodeId;
use crate::hash_ring::{lemma_ring_owner, ring_get_node, ring_nodes, ring_owner, NodeRing};
use crate::network::{DistributeAndWait, DistributeMessage};

verus! {

/// A user joins a room.
#[derive(Debug)]
pub struct Join {
    pub room_id: String,
    pub uid: String,
}

/// A text for one user.
#[derive(Debug)]
pub struct SendRecipient {
    pub recipient_id: String,
    pub uid: String,
    pub content: String,
}

/// A text for every other member of a room.
#[derive(Debug)]
pub struct SendRoom {
    pub room_id: String,
    pub uid: String,
    pub content: String,
}

/// A room is to be created.
#[derive(Debug)]
pub struct CreateRoom {
    pub room_id: String,
}

/// The members of a room are asked for.
#[derive(Debug)]
pub struct GetMembers {
    pub room_id: String,
}

/// A user's websocket session has connected to this node.
#[derive(Debug)]
pub struct Connect(pub String);

/// A user's websocket session has gone away.
#[derive(Debug)]
pub struct Disconnect(pub String);

/// Tells a session to close.
#[derive(Debug)]
pub struct DisconnectSession;

/// The ring has changed: sessions that now belong elsewhere are to close.
#[derive(Debug)]
pub struct Rebalance;

/// A room hosted on this node and its members, in the order they joined.
pub struct Room {
    pub id: String,
    pub members: Vec<String>,
}

/// What to do with a text for one user.
pub enum RecipientAction {
    /// The user is connected here: hand the text to its session.
    Deliver { recipient_id: String, sender_id: String, content: String },
    /// The user is not connected here: send the message on.
    Distribute(DistributeMessage<SendRecipient>),
}

/// What to do with a text for a room.
pub enum RoomAction {
    /// The room is hosted here: one message for each other member.
    Notify(Vec<SendRecipient>),
    /// The room is not hosted here: send the message on.
    Distribute(DistributeMessage<SendRoom>),
}

/// The answer to a request for the members of a room.
pub enum MembersAction {
    /// The room is hosted here: its members.
    Reply(Vec<String>),
    /// The room is not hosted here: ask the node that owns it.
    Distribute(DistributeAndWait<GetMembers>),
}

/// The chat state of one node.
pub struct Server {
    rooms: Vec<Room>,
    sessions: Vec<String>,
    count: u64,
    node_id: NodeId,
}

/// The abstract state of a chat server: each hosted room with its members in
/// the order they joined, the users connected here in the order they came,
/// and the node's id.
pub struct ChatView {
    pub rooms: Map<Seq<char>, Seq<Seq<char>>>,
    pub sessions: Seq<Seq<char>>,
    pub node_id: NodeId,
}

impl ChatView {
    /// No user is connected twice, and no room lists a member twice.
    pub open spec fn wf(self) -> bool {
        &&& self.sessions.no_duplicates()
        &&& forall|r: Seq<char>| #[trigger] self.rooms.contains_key(r) ==> self.rooms[r].no_duplicates()
    }
}

/// The characters of each string.
pub open spec fn strings_view(v: Seq<String>) -> Seq<Seq<char>> {
    v.map_values(|s: String| s@)
}

impl Room {
    /// The members of the room.
    pub open spec fn members_view(self) -> Seq<Seq<char>> {
        strings_view(self.members@)
    }
}

/// Whether room `i` of `rooms` has the id `id`.
pub open spec fn room_at(rooms: Seq<Room>, i: int, id: Seq<char>) -> bool {
    0 <= i < rooms.len() && rooms[i].id@ == id
}

/// No two rooms share an id.
pub open spec fn room_ids_unique(rooms: Seq<Room>) -> bool {
    forall|i: int, j: int|
        0 <= i < rooms.len() && 0 <= j < rooms.len() && #[trigger] rooms[i].id@ == #[trigger] rooms[j].id@
            ==> i == j
}

/// Each room id with the members of its room.
pub open spec fn rooms_map(rooms: Seq<Room>) -> Map<Seq<char>, Seq<Seq<char>>> {
    Map::new(
        |k: Seq<char>| exists|i: int| room_at(rooms, i, k),
        |k: Seq<char>| rooms[choose|i: int| room_at(rooms, i, k)].members_view(),
    )
}

proof fn lemma_rooms_map_at(rooms: Seq<Room>, i: int)
    requires
        room_ids_unique(rooms),
        0 <= i < rooms.len(),
    ensures
        rooms_map(rooms).contains_key(rooms[i].id@),
        rooms_map(rooms)[rooms[i].id@] == rooms[i].members_view(),
{
    let k = rooms[i].id@;
    assert(room_at(rooms, i, k));
    let j = choose|j: int| room_at(rooms, j, k);
    assert(rooms[j].id@ == rooms[i].id@);
}

/// Changing the members of room `i` changes only the entry of its id.
proof fn lemma_rooms_map_update(rooms: Seq<Room>, i: int, room: Room)
    requires
        room_ids_unique(rooms),
        0 <= i < rooms.len(),
        room.id@ == rooms[i].id@,
    ensures
        room_ids_unique(rooms.update(i, room)),
        rooms_map(rooms.update(i, room)) == rooms_map(rooms).insert(room.id@, room.members_view()),
{
    let r2 = rooms.update(i, room);
    assert forall|a: int, b: int|
        0 <= a < r2.len() && 0 <= b < r2.len() && #[trigger] r2[a].id@ == #[trigger] r2[b].id@
        implies a == b by {
        assert(r2[a].id@ == rooms[a].id@);
        assert(r2[b].id@ == rooms[b].id@);
    }
    lemma_rooms_map_at(r2, i);
    assert forall|k: Seq<char>| #[trigger] rooms_map(r2).contains_key(k) == rooms_map(rooms).insert(
        room.id@,
        room.members_view(),
    ).contains_key(k) by {
        if exists|a: int| room_at(r2, a, k) {
            let a = choose|a: int| room_at(r2, a, k);
            assert(room_at(rooms, a, k));
        }
        if exists|a: int| room_at(rooms, a, k) {
            let a = choose|a: int| room_at(rooms, a, k);
            assert(room_at(r2, a, k));
        }
    }
    assert forall|k: Seq<char>| #[trigger] rooms_map(r2).contains_key(k) implies rooms_map(r2)[k]
        == rooms_map(rooms).insert(room.id@, room.members_view())[k] by {
        let a = choose|a: int| room_at(r2, a, k);
        lemma_rooms_map_at(r2, a);
        if k != room.id@ {
            assert(a != i);
            assert(room_at(rooms, a, k));
            lemma_rooms_map_at(rooms, a);
        }
    }
    assert(rooms_map(r2) =~= rooms_map(rooms).insert(room.id@, room.members_view()));
}

/// Adding a room with a fresh id adds one entry.
proof fn lemma_rooms_map_push(rooms: Seq<Room>, room: Room)
    requires
        room_ids_unique(rooms),
        !rooms_map(rooms).contains_key(room.id@),
    ensures
        room_ids_unique(rooms.push(room)),
        rooms_map(rooms.push(room)) == rooms_map(rooms).insert(room.id@, room.members_view()),
{
    let r2 = rooms.push(room);
    let n = rooms.len() as int;
    assert forall|a: int, b: int|
        0 <= a < r2.len() && 0 <= b < r2.len() && #[trigger] r2[a].id@ == #[trigger] r2[b].id@
        implies a == b by {
        if a < n && b == n {
            assert(room_at(rooms, a, room.id@));
        } else if a == n && b < n {
            assert(room_at(rooms, b, room.id@));
        }
    }
    lemma_rooms_map_at(r2, n);
    assert forall|k: Seq<char>| #[trigger] rooms_map(r2).contains_key(k) == rooms_map(rooms).insert(
        room.id@,
        room.members_view(),
    ).contains_key(k) by {
        if exists|a: int| room_at(r2, a, k) {
            let a = choose|a: int| room_at(r2, a, k);
            if a < n {
                assert(room_at(rooms, a, k));
            }
        }
        if exists|a: int| room_at(rooms, a, k) {
            let a = choose|a: int| room_at(rooms, a, k);
            assert(room_at(r2, a, k));
        }
    }
    assert forall|k: Seq<char>| #[trigger] rooms_map(r2).contains_key(k) implies rooms_map(r2)[k]
        == rooms_map(rooms).insert(room.id@, room.members_view())[k] by {
        let a = choose|a: int| room_at(r2, a, k);
        lemma_rooms_map_at(r2, a);
        if k != room.id@ {
            assert(a != n);
            assert(room_at(rooms, a, k));
            lemma_rooms_map_at(rooms, a);
        }
    }
    assert(rooms_map(r2) =~= rooms_map(rooms).insert(room.id@, room.members_view()));
}

/// No room's member list names a user twice.
pub open spec fn members_unique(rooms: Seq<Room>) -> bool {
    forall|i: int| 0 <= i < rooms.len() ==> (#[trigger] rooms[i]).members_view().no_duplicates()
}

/// The test that keeps every user other than `uid`.
pub open spec fn is_not(uid: Seq<char>) -> spec_fn(Seq<char>) -> bool {
    |s: Seq<char>| s != uid
}

/// A user's session connects: it is recorded once.
pub open spec fn connect_step(v: ChatView, uid: Seq<char>) -> ChatView {
    ChatView {
        sessions: if v.sessions.contains(uid) {
            v.sessions
        } else {
            v.sessions.push(uid)
        },
        ..v
    }
}

/// A user's session goes away.
pub open spec fn disconnect_step(v: ChatView, uid: Seq<char>) -> ChatView {
    ChatView { sessions: v.sessions.filter(is_not(uid)), ..v }
}

/// A user joins a room: when the room is hosted here the user becomes a
/// member (once); otherwise nothing changes here.
pub open spec fn join_step(v: ChatView, room: Seq<char>, uid: Seq<char>) -> ChatView {
    if v.rooms.contains_key(room) {
        let m = v.rooms[room];
        ChatView {
            rooms: v.rooms.insert(
                room,
                if m.contains(uid) {
                    m
                } else {
                    m.push(uid)
                },
            ),
            ..v
        }
    } else {
        v
    }
}

/// A room is created when this node owns it on the ring and does not host
/// it yet, with no members.
pub open spec fn create_room_step(v: ChatView, room: Seq<char>, owner: NodeId) -> ChatView {
    if owner == v.node_id && !v.rooms.contains_key(room) {
        ChatView { rooms: v.rooms.insert(room, Seq::empty()), ..v }
    } else {
        v
    }
}

/// The members of a room hosted here, or `None` when it is hosted elsewhere.
pub open spec fn members_reply(v: ChatView, room: Seq<char>) -> Option<Seq<Seq<char>>> {
    if v.rooms.contains_key(room) {
        Some(v.rooms[room])
    } else {
        None
    }
}

/// Who gets a text that `sender` sends to a room hosted here: every other
/// member, in the order they joined.
pub open spec fn room_recipients(v: ChatView, room: Seq<char>, sender: Seq<char>) -> Seq<Seq<char>> {
    v.rooms[room].filter(is_not(sender))
}

/// The sessions among the first `k` whose owner on the ring (`owners[i]` for
/// session `i`) is not `node_id`, in order.
pub open spec fn sessions_elsewhere(
    sessions: Seq<Seq<char>>,
    owners: Seq<NodeId>,
    node_id: NodeId,
    k: int,
) -> Seq<Seq<char>>
    decreases k,
{
    if k <= 0 {
        Seq::empty()
    } else {
        let prev = sessions_elsewhere(sessions, owners, node_id, k - 1);
        if owners[k - 1] != node_id {
            prev.push(sessions[k - 1])
        } else {
            prev
        }
    }
}

impl View for Server {
    type V = ChatView;

    closed spec fn view(&self) -> ChatView {
        ChatView {
            rooms: rooms_map(self.rooms@),
            sessions: strings_view(self.sessions@),
            node_id: self.node_id,
        }
    }
}

/// Whether `v` holds `s`, compared by characters.
fn contains_string(v: &Vec<String>, s: &String) -> (b: bool)
    ensures
        b == strings_view(v@).contains(s@),
{
    let mut i: usize = 0;
    while i < v.len()
        invariant
            i <= v@.len(),
            forall|j: int| 0 <= j < i ==> v@[j]@ != s@,
        decreases v@.len() - i,
    {
        if v[i] == *s {
            assert(strings_view(v@)[i as int] == s@);
            return true;
        }
        i = i + 1;
    }
    proof {
        if strings_view(v@).contains(s@) {
            let j = choose|j: int| 0 <= j < strings_view(v@).len() && strings_view(v@)[j] == s@;
            assert(v@[j]@ == s@);
        }
    }
    false
}

/// A copy of `v`.
fn copy_strings(v: &Vec<String>) -> (r: Vec<String>)
    ensures
        r@ == v@,
{
    let mut r: Vec<String> = Vec::new();
    let mut i: usize = 0;
    while i < v.len()
        invariant
            i <= v@.len(),
            r@ == v@.subrange(0, i as int),
        decreases v@.len() - i,
    {
        r.push(v[i].clone());
        i = i + 1;
        assert(r@ =~= v@.subrange(0, i as int));
    }
    assert(v@.subrange(0, v@.len() as int) =~= v@);
    r
}

impl Server {
    /// The server's invariant: room ids are unique, and neither a room's
    /// members nor the connected users repeat.
    pub closed spec fn wf(&self) -> bool {
        &&& room_ids_unique(self.rooms@)
        &&& members_unique(self.rooms@)
        &&& strings_view(self.sessions@).no_duplicates()
    }

    /// The invariant, read on the abstract state.
    proof fn lemma_view_wf(&self)
        requires
            self.wf(),
        ensures
            self@.wf(),
    {
        assert forall|r: Seq<char>| #[trigger] self@.rooms.contains_key(r) implies self@.rooms[r].no_duplicates() by {
            let i = choose|i: int| room_at(self.rooms@, i, r);
            lemma_rooms_map_at(self.rooms@, i);
        }
    }

    /// A server for node `node_id` that hosts no room and has no user.
    pub fn new(node_id: NodeId) -> (s: Server)
        ensures
            s.wf(),
            s@.wf(),
            s@.rooms == Map::<Seq<char>, Seq<Seq<char>>>::empty(),
            s@.sessions == Seq::<Seq<char>>::empty(),
            s@.node_id == node_id,
    {
        let s = Server { rooms: Vec::new(), sessions: Vec::new(), count: 0, node_id };
        assert(s@.rooms =~= Map::<Seq<char>, Seq<Seq<char>>>::empty());
        assert(s@.sessions =~= Seq::<Seq<char>>::empty());
        s
    }

    /// Where the room `id` stands among the hosted rooms, if it is hosted.
    fn find_room(&self, id: &String) -> (r: Option<usize>)
        requires
            self.wf(),
        ensures
            match r {
                Some(i) => i < self.rooms@.len() && self.rooms@[i as int].id@ == id@,
                None => !self@.rooms.contains_key(id@),
            },
    {
        let mut i: usize = 0;
        while i < self.rooms.len()
            invariant
                i <= self.rooms@.len(),
                forall|j: int| 0 <= j < i ==> self.rooms@[j].id@ != id@,
            decreases self.rooms@.len() - i,
        {
            if self.rooms[i].id == *id {
                return Some(i);
            }
            i = i + 1;
        }
        proof {
            if self@.rooms.contains_key(id@) {
                let j = choose|j: int| room_at(self.rooms@, j, id@);
                assert(self.rooms@[j].id@ != id@);
            }
        }
        None
    }

    /// A user's session connects to this node.
    pub fn connect(&mut self, msg: Connect)
        requires
            old(self).wf(),
        ensures
            final(self).wf(),
            final(self)@.wf(),
            final(self)@ == connect_step(old(self)@, msg.0@),
            final(self)@.sessions.contains(msg.0@),
            old(self)@.sessions.is_prefix_of(final(self)@.sessions),
            forall|u: Seq<char>|
                u != msg.0@ ==> (#[trigger] final(self)@.sessions.contains(u) == old(self)@.sessions.contains(u)),
            final(self)@.rooms == old(self)@.rooms,
    {
        proof {
            lemma_connect_keeps_others(old(self)@, msg.0@);
        }
        if !contains_string(&self.sessions, &msg.0) {
            let ghost uid = msg.0@;
            self.sessions.push(msg.0);
            proof {
                assert(strings_view(self.sessions@) =~= strings_view(old(self).sessions@).push(uid));
            }
        }
        proof {
            self.lemma_view_wf();
        }
    }

    /// A user's session goes away.
    pub fn disconnect(&mut self, msg: Disconnect)
        requires
            old(self).wf(),
        ensures
            final(self).wf(),
            final(self)@.wf(),
            final(self)@ == disconnect_step(old(self)@, msg.0@),
            !final(self)@.sessions.contains(msg.0@),
            forall|u: Seq<char>|
                u != msg.0@ ==> (#[trigger] final(self)@.sessions.contains(u) == old(self)@.sessions.contains(u)),
            forall|k: int|
                0 <= k < old(self)@.sessions.len() && old(self)@.sessions[k] == msg.0@ ==> final(self)@.sessions
                    == old(self)@.sessions.remove(k),
            !old(self)@.sessions.contains(msg.0@) ==> final(self)@.sessions == old(self)@.sessions,
            final(self)@.rooms == old(self)@.rooms,
    {
        proof {
            old(self).lemma_view_wf();
            lemma_disconnect_removes_only(old(self)@, msg.0@);
        }
        let uid = msg.0;
        let ghost old_view = strings_view(self.sessions@);
        let mut kept: Vec<String> = Vec::new();
        let mut i: usize = 0;
        while i < self.sessions.len()
            invariant
                i <= self.sessions@.len(),
                old_view == strings_view(self.sessions@),
                old_view.no_duplicates(),
                strings_view(kept@) == old_view.take(i as int).filter(is_not(uid@)),
            decreases self.sessions@.len() - i,
        {
            proof {
                assert(old_view.take(i + 1) =~= old_view.take(i as int).push(old_view[i as int]));
                old_view.take(i as int).lemma_filter_push(old_view[i as int], is_not(uid@));
            }
            if self.sessions[i] != uid {
                let s = self.sessions[i].clone();
                kept.push(s);
                proof {
                    assert(strings_view(kept@) =~= strings_view(kept@).drop_last().push(
                        old_view[i as int],
                    ));
                    assert(strings_view(kept@).drop_last() =~= old_view.take(i as int).filter(
                        is_not(uid@),
                    ));
                }
            }
            i = i + 1;
        }
        proof {
            assert(old_view.take(old_view.len() as int) =~= old_view);
            lemma_filter_keeps_no_duplicates(old_view, is_not(uid@));
        }
        self.sessions = kept;
        proof {
            self.lemma_view_wf();
        }
    }

    /// A user joins a room. When the room is hosted here the user becomes a
    /// member (if not one already) and nothing is returned; otherwise the
    /// message is returned to be sent to the node that owns the room.
    pub fn join(&mut self, msg: Join) -> (res: Option<DistributeMessage<Join>>)
        requires
            old(self).wf(),
        ensures
            final(self).wf(),
            final(self)@.wf(),
            final(self)@ == join_step(old(self)@, msg.room_id@, msg.uid@),
            match res {
                None => old(self)@.rooms.contains_key(msg.room_id@),
                Some(d) => !old(self)@.rooms.contains_key(msg.room_id@) && d.0@ == msg.room_id@
                    && d.1.room_id@ == msg.room_id@ && d.1.uid@ == msg.uid@,
            },
    {
        let res = match self.find_room(&msg.room_id) {
            Some(i) => {
                proof {
                    lemma_rooms_map_at(self.rooms@, i as int);
                }
                if !contains_string(&self.rooms[i].members, &msg.uid) {
                    let ghost old_rooms = self.rooms@;
                    let ghost uid = msg.uid@;
                    self.rooms[i].members.push(msg.uid);
                    proof {
                        let room = self.rooms@[i as int];
                        assert(self.rooms@ == old_rooms.update(i as int, room));
                        assert(room.members_view() =~= old_rooms[i as int].members_view().push(uid));
                        lemma_rooms_map_update(old_rooms, i as int, room);
                        assert forall|j: int| 0 <= j < self.rooms@.len() implies (
                        #[trigger] self.rooms@[j]).members_view().no_duplicates() by {
                            if j != i {
                                assert(self.rooms@[j] == old_rooms[j]);
                            }
                        }
                    }
                } else {
                    proof {
                        let rm = old(self)@.rooms;
                        assert(rm.insert(msg.room_id@, rm[msg.room_id@]) =~= rm);
                    }
                }
                None
            },
            None => {
                let key = msg.room_id.clone();
                Some(DistributeMessage(key, msg))
            },
        };
        proof {
            self.lemma_view_wf();
        }
        res
    }

    /// A text for one user. When the user is connected here the text is to
    /// be handed to its session; otherwise the message is to be sent on.
    pub fn send_recipient(&self, msg: SendRecipient) -> (res: RecipientAction)
        requires
            self.wf(),
        ensures
            match res {
                RecipientAction::Deliver { recipient_id, sender_id, content } => self@.sessions.contains(
                    msg.recipient_id@,
                ) && recipient_id@ == msg.recipient_id@ && sender_id@ == msg.uid@ && content@
                    == msg.content@,
                RecipientAction::Distribute(d) => !self@.sessions.contains(msg.recipient_id@) && d.0@
                    == msg.recipient_id@ && d.1.recipient_id@ == msg.recipient_id@ && d.1.uid@
                    == msg.uid@ && d.1.content@ == msg.content@,
            },
    {
        if contains_string(&self.sessions, &msg.recipient_id) {
            RecipientAction::Deliver {
                recipient_id: msg.recipient_id,
                sender_id: msg.uid,
                content: msg.content,
            }
        } else {
            let key = msg.recipient_id.clone();
            RecipientAction::Distribute(DistributeMessage(key, msg))
        }
    }

    /// A text for a room. When the room is hosted here, one message goes to
    /// each member other than the sender, in the order they joined;
    /// otherwise the message is to be sent on.
    pub fn send_room(&self, msg: SendRoom) -> (res: RoomAction)
        requires
            self.wf(),
        ensures
            match res {
                RoomAction::Notify(v) => self@.rooms.contains_key(msg.room_id@) && notifications(
                    v@,
                    room_recipients(self@, msg.room_id@, msg.uid@),
                    msg.uid@,
                    msg.content@,
                ) && room_recipients(self@, msg.room_id@, msg.uid@).no_duplicates(),
                RoomAction::Distribute(d) => !self@.rooms.contains_key(msg.room_id@) && d.0@
                    == msg.room_id@ && d.1.room_id@ == msg.room_id@ && d.1.uid@ == msg.uid@
                    && d.1.content@ == msg.content@,
            },
    {
        match self.find_room(&msg.room_id) {
            Some(i) => {
                proof {
                    lemma_rooms_map_at(self.rooms@, i as int);
                }
                let members = &self.rooms[i].members;
                let ghost mv = strings_view(members@);
                let mut out: Vec<SendRecipient> = Vec::new();
                let mut j: usize = 0;
                while j < members.len()
                    invariant
                        j <= members@.len(),
                        mv == strings_view(members@),
                        notifications(out@, mv.take(j as int).filter(is_not(msg.uid@)), msg.uid@, msg.content@),
                    decreases members@.len() - j,
                {
                    proof {
                        assert(mv.take(j + 1) =~= mv.take(j as int).push(mv[j as int]));
                        mv.take(j as int).lemma_filter_push(mv[j as int], is_not(msg.uid@));
                    }
                    if members[j] != msg.uid {
                        out.push(
                            SendRecipient {
                                recipient_id: members[j].clone(),
                                uid: msg.uid.clone(),
                                content: msg.content.clone(),
                            },
                        );
                    }
                    j = j + 1;
                }
                proof {
                    assert(mv.take(mv.len() as int) =~= mv);
                    self.lemma_view_wf();
                    lemma_filter_keeps_no_duplicates(mv, is_not(msg.uid@));
                }
                RoomAction::Notify(out)
            },
            None => {
                let key = msg.room_id.clone();
                RoomAction::Distribute(DistributeMessage(key, msg))
            },
        }
    }

    /// A room is to be created, and the ring places it on `owner`. When that
    /// is another node the message is returned to be sent there; otherwise
    /// the room is created with no members unless it is hosted already.
    pub fn create_room_at(&mut self, msg: CreateRoom, owner: NodeId) -> (res: Option<
        DistributeMessage<CreateRoom>,
    >)
        requires
            old(self).wf(),
        ensures
            final(self).wf(),
            final(self)@.wf(),
            final(self)@ == create_room_step(old(self)@, msg.room_id@, owner),
            res is Some <==> owner != old(self)@.node_id,
            res matches Some(d) ==> d.0@ == msg.room_id@ && d.1.room_id@ == msg.room_id@,
    {
        proof {
            self.lemma_view_wf();
        }
        if owner != self.node_id {
            let key = msg.room_id.clone();
            return Some(DistributeMessage(key, msg));
        }
        let res = match self.find_room(&msg.room_id) {
            Some(i) => {
                proof {
                    lemma_rooms_map_at(self.rooms@, i as int);
                }
                None
            },
            None => {
                let room = Room { id: msg.room_id, members: Vec::new() };
                proof {
                    assert(room.members_view() =~= Seq::<Seq<char>>::empty());
                    lemma_rooms_map_push(self.rooms@, room);
                }
                self.rooms.push(room);
                None
            },
        };
        proof {
            self.lemma_view_wf();
        }
        res
    }

    /// A room is to be created. The owner of the room on `ring` decides, as
    /// in `create_room_at`; the ring must hold a node.
    pub fn create_room(&mut self, ring: &NodeRing, msg: CreateRoom) -> (res: Option<
        DistributeMessage<CreateRoom>,
    >)
        requires
            old(self).wf(),
            !ring_nodes(*ring).is_empty(),
        ensures
            final(self).wf(),
            final(self)@.wf(),
            ring_owner(*ring, msg.room_id@) matches Some(owner) && final(self)@ == create_room_step(
                old(self)@,
                msg.room_id@,
                owner,
            ) && (res is Some <==> owner != old(self)@.node_id),
            res matches Some(d) ==> d.0@ == msg.room_id@ && d.1.room_id@ == msg.room_id@,
    {
        proof {
            lemma_ring_owner(*ring, msg.room_id@);
        }
        let owner = match ring_get_node(ring, msg.room_id.clone()) {
            Some(o) => o,
            None => {
                proof {
                    assert(false);
                }
                0
            },
        };
        self.create_room_at(msg, owner)
    }

    /// `create_room` when the ring holds a node; when it holds none (and so
    /// names no owner) the message is handed back in `Err` and nothing
    /// changes.
    pub fn try_create_room(&mut self, ring: &NodeRing, msg: CreateRoom) -> (res: Result<
        Option<DistributeMessage<CreateRoom>>,
        CreateRoom,
    >)
        requires
            old(self).wf(),
        ensures
            final(self).wf(),
            final(self)@.wf(),
            match ring_owner(*ring, msg.room_id@) {
                None => res matches Err(m) && final(self)@ == old(self)@ && m.room_id@ == msg.room_id@,
                Some(owner) => res matches Ok(r) && final(self)@ == create_room_step(
                    old(self)@,
                    msg.room_id@,
                    owner,
                ) && (r is Some <==> owner != old(self)@.node_id) && (r matches Some(d) ==> d.0@
                    == msg.room_id@ && d.1.room_id@ == msg.room_id@),
            },
    {
        proof {
            lemma_ring_owner(*ring, msg.room_id@);
        }
        if ring_get_node(ring, msg.room_id.clone()).is_none() {
            proof {
                self.lemma_view_wf();
            }
            return Err(msg);
        }
        Ok(self.create_room(ring, msg))
    }

    /// The members of a room: listed when it is hosted here, in the order they
    /// joined; otherwise the request is to be sent to the node that owns it.
    pub fn get_members(&self, msg: GetMembers) -> (res: MembersAction)
        requires
            self.wf(),
        ensures
            match res {
                MembersAction::Reply(v) => members_reply(self@, msg.room_id@) == Some(
                    strings_view(v@),
                ) && strings_view(v@).no_duplicates(),
                MembersAction::Distribute(d) => members_reply(self@, msg.room_id@) is None && d.0@
                    == msg.room_id@ && d.1.room_id@ == msg.room_id@,
            },
    {
        match self.find_room(&msg.room_id) {
            Some(i) => {
                proof {
                    lemma_rooms_map_at(self.rooms@, i as int);
                }
                proof {
                    self.lemma_view_wf();
                }
                MembersAction::Reply(copy_strings(&self.rooms[i].members))
            },
            None => {
                let key = msg.room_id.clone();
                MembersAction::Distribute(DistributeAndWait(key, msg))
            },
        }
    }

    /// The users connected here whose owner on the ring is another node, given
    /// the owner `owners[i]` of the `i`-th connected user; their sessions are
    /// to close.
    pub fn rebalance_with_owners(&self, owners: &Vec<NodeId>) -> (res: Vec<String>)
        requires
            self.wf(),
            owners@.len() == self@.sessions.len(),
        ensures
            strings_view(res@) == sessions_elsewhere(
                self@.sessions,
                owners@,
                self@.node_id,
                self@.sessions.len() as int,
            ),
    {
        let ghost sv = strings_view(self.sessions@);
        let mut out: Vec<String> = Vec::new();
        let mut i: usize = 0;
        while i < self.sessions.len()
            invariant
                i <= self.sessions@.len(),
                owners@.len() == self.sessions@.len(),
                sv == strings_view(self.sessions@),
                strings_view(out@) == sessions_elsewhere(sv, owners@, self.node_id, i as int),
            decreases self.sessions@.len() - i,
        {
            if owners[i] != self.node_id {
                out.push(self.sessions[i].clone());
                assert(strings_view(out@) =~= sessions_elsewhere(sv, owners@, self.node_id, i as int).push(
                    sv[i as int],
                ));
            }
            i = i + 1;
        }
        out
    }

    /// The users connected here whom `ring` now places on another node;
    /// their sessions are to close. Each is named once. The ring must hold
    /// a node.
    pub fn rebalance(&self, ring: &NodeRing) -> (res: Vec<String>)
        requires
            self.wf(),
            !ring_nodes(*ring).is_empty(),
        ensures
            exists|owners: Seq<NodeId>|
                owners.len() == self@.sessions.len() && (forall|i: int|
                    0 <= i < owners.len() ==> ring_owner(*ring, self@.sessions[i]) == Some(
                        #[trigger] owners[i],
                    )) && strings_view(res@) == sessions_elsewhere(
                    self@.sessions,
                    owners,
                    self@.node_id,
                    self@.sessions.len() as int,
                ),
            strings_view(res@).no_duplicates(),
    {
        let mut owners: Vec<NodeId> = Vec::new();
        let mut i: usize = 0;
        while i < self.sessions.len()
            invariant
                i <= self.sessions@.len(),
                owners@.len() == i,
                !ring_nodes(*ring).is_empty(),
                forall|j: int|
                    0 <= j < i ==> ring_owner(*ring, self@.sessions[j]) == Some(#[trigger] owners@[j]),
            decreases self.sessions@.len() - i,
        {
            let u = self.sessions[i].clone();
            proof {
                lemma_ring_owner(*ring, u@);
                assert(self@.sessions[i as int] == u@);
            }
            let o = match ring_get_node(ring, u) {
                Some(o) => o,
                None => {
                    proof {
                        assert(false);
                    }
                    0
                },
            };
            owners.push(o);
            i = i + 1;
        }
        let res = self.rebalance_with_owners(&owners);
        proof {
            lemma_sessions_elsewhere_no_duplicates(
                self@.sessions,
                owners@,
                self@.node_id,
                self@.sessions.len() as int,
            );
        }
        res
    }
}

impl Server {
    /// `rebalance` when the ring holds a node; `None` when it holds none.
    pub fn try_rebalance(&self, ring: &NodeRing) -> (res: Option<Vec<String>>)
        requires
            self.wf(),
        ensures
            res is None <==> ring_nodes(*ring).is_empty(),
            res matches Some(v) ==> exists|owners: Seq<NodeId>|
                owners.len() == self@.sessions.len() && (forall|i: int|
                    0 <= i < owners.len() ==> ring_owner(*ring, self@.sessions[i]) == Some(
                        #[trigger] owners[i],
                    )) && strings_view(v@) == sessions_elsewhere(
                    self@.sessions,
                    owners,
                    self@.node_id,
                    self@.sessions.len() as int,
                ),
            res matches Some(v) ==> strings_view(v@).no_duplicates(),
    {
        proof {
            lemma_ring_owner(*ring, Seq::<char>::empty());
        }
        if ring_get_node(ring, String::new()).is_none() {
            return None;
        }
        Some(self.rebalance(ring))
    }
}

/// `v` holds one message for each of `recipients`, in order, each from
/// `sender` with `content`.
pub open spec fn notifications(
    v: Seq<SendRecipient>,
    recipients: Seq<Seq<char>>,
    sender: Seq<char>,
    content: Seq<char>,
) -> bool {
    &&& v.len() == recipients.len()
    &&& forall|i: int|
        0 <= i < v.len() ==> (#[trigger] v[i]).recipient_id@ == recipients[i] && v[i].uid@ == sender
            && v[i].content@ == content
}

/// Filtering a sequence without repeats leaves a sequence without repeats.
proof fn lemma_filter_keeps_no_duplicates(s: Seq<Seq<char>>, p: spec_fn(Seq<char>) -> bool)
    requires
        s.no_duplicates(),
    ensures
        s.filter(p).no_duplicates(),
    decreases s.len(),
{
    reveal(Seq::filter);
    if s.len() > 0 {
        lemma_filter_keeps_no_duplicates(s.drop_last(), p);
        let rest = s.drop_last().filter(p);
        if p(s.last()) {
            if rest.contains(s.last()) {
                s.drop_last().lemma_filter_contains_rev(p, s.last());
                let k = choose|k: int| 0 <= k < s.drop_last().len() && s.drop_last()[k] == s.last();
                assert(s[k] == s[s.len() - 1]);
            }
            assert(s.filter(p) == rest.push(s.last()));
        }
    }
}

} // verus!

verus! {

/// A user who joins a room hosted here is then among the members that the
/// room's listing returns, after the members it had before, which stay.
pub proof fn lemma_join_then_members(v: ChatView, room: Seq<char>, uid: Seq<char>)
    requires
        v.rooms.contains_key(room),
    ensures
        members_reply(join_step(v, room, uid), room) matches Some(m) && m.contains(uid)
            && v.rooms[room].is_prefix_of(m),
{
    let m0 = v.rooms[room];
    if !m0.contains(uid) {
        assert(m0.push(uid)[m0.len() as int] == uid);
    }
    let m = join_step(v, room, uid).rooms[room];
    assert(m0.is_prefix_of(m));
}

/// Joining a room twice has the effect of joining it once.
pub proof fn lemma_join_idempotent(v: ChatView, room: Seq<char>, uid: Seq<char>)
    ensures
        join_step(join_step(v, room, uid), room, uid) == join_step(v, room, uid),
{
    let v1 = join_step(v, room, uid);
    if v.rooms.contains_key(room) {
        let m0 = v.rooms[room];
        if !m0.contains(uid) {
            assert(m0.push(uid)[m0.len() as int] == uid);
        }
        assert(v1.rooms.insert(room, v1.rooms[room]) =~= v1.rooms);
    }
}

/// A join changes only the room joined and nothing when the room is hosted
/// elsewhere; the connected users never change.
pub proof fn lemma_join_touches_one_room(v: ChatView, room: Seq<char>, uid: Seq<char>, other: Seq<char>)
    requires
        other != room,
    ensures
        join_step(v, room, uid).rooms.contains_key(other) == v.rooms.contains_key(other),
        v.rooms.contains_key(other) ==> join_step(v, room, uid).rooms[other] == v.rooms[other],
        join_step(v, room, uid).rooms.dom() == v.rooms.dom(),
        join_step(v, room, uid).sessions == v.sessions,
{
    if v.rooms.contains_key(room) {
        assert(join_step(v, room, uid).rooms.dom() =~= v.rooms.dom());
    }
}

/// Creating a room that this node owns leaves it hosted here; a room created
/// anew has no members, and creating one that exists changes nothing.
pub proof fn lemma_create_room_hosts(v: ChatView, room: Seq<char>)
    ensures
        create_room_step(v, room, v.node_id).rooms.contains_key(room),
        !v.rooms.contains_key(room) ==> members_reply(create_room_step(v, room, v.node_id), room)
            == Some(Seq::<Seq<char>>::empty()),
        v.rooms.contains_key(room) ==> create_room_step(v, room, v.node_id) == v,
{
}

/// A room that the ring places on another node is not created here.
pub proof fn lemma_create_room_elsewhere(v: ChatView, room: Seq<char>, owner: NodeId)
    requires
        owner != v.node_id,
    ensures
        create_room_step(v, room, owner) == v,
{
}

/// A text sent to a room reaches exactly the members other than the sender:
/// never the sender, and no one outside the room.
pub proof fn lemma_room_recipients(v: ChatView, room: Seq<char>, sender: Seq<char>, u: Seq<char>)
    requires
        v.rooms.contains_key(room),
    ensures
        room_recipients(v, room, sender).contains(u) <==> (v.rooms[room].contains(u) && u != sender),
{
    let m = v.rooms[room];
    let p = is_not(sender);
    if m.contains(u) && u != sender {
        let i = choose|i: int| 0 <= i < m.len() && m[i] == u;
        m.lemma_filter_contains(p, i);
    }
    if room_recipients(v, room, sender).contains(u) {
        m.lemma_filter_contains_rev(p, u);
        let j = choose|j: int|
            0 <= j < m.filter(p).len() && m.filter(p)[j] == u;
        m.lemma_filter_pred(p, j);
    }
}

/// A connected user is recorded, a disconnected one is not, and a user who
/// connects and then disconnects leaves the record as it was.
pub proof fn lemma_connect_disconnect(v: ChatView, uid: Seq<char>)
    ensures
        connect_step(v, uid).sessions.contains(uid),
        !disconnect_step(v, uid).sessions.contains(uid),
        !v.sessions.contains(uid) ==> disconnect_step(connect_step(v, uid), uid) == v,
{
    let s = v.sessions;
    if !s.contains(uid) {
        assert(s.push(uid)[s.len() as int] == uid);
    }
    if disconnect_step(v, uid).sessions.contains(uid) {
        let j = choose|j: int|
            0 <= j < s.filter(is_not(uid)).len() && s.filter(is_not(uid))[j] == uid;
        s.lemma_filter_pred(is_not(uid), j);
    }
    if !s.contains(uid) {
        s.lemma_filter_push(uid, is_not(uid));
        lemma_filter_without(s, uid);
    }
}

/// Removing a value that a sequence does not hold leaves it as it was.
proof fn lemma_filter_without(s: Seq<Seq<char>>, uid: Seq<char>)
    requires
        !s.contains(uid),
    ensures
        s.filter(is_not(uid)) == s,
    decreases s.len(),
{
    reveal(Seq::filter);
    if s.len() > 0 {
        assert(!s.drop_last().contains(uid)) by {
            if s.drop_last().contains(uid) {
                let j = choose|j: int| 0 <= j < s.drop_last().len() && s.drop_last()[j] == uid;
                assert(s[j] == uid);
            }
        }
        lemma_filter_without(s.drop_last(), uid);
        assert(s.last() != uid) by {
            assert(s[s.len() - 1] == s.last());
        }
        assert(s.drop_last().push(s.last()) =~= s);
    }
}

/// Rebalancing closes exactly the sessions whose owner on the ring is
/// another node.
pub proof fn lemma_rebalance_exact(
    sessions: Seq<Seq<char>>,
    owners: Seq<NodeId>,
    node_id: NodeId,
    k: int,
    u: Seq<char>,
)
    requires
        0 <= k <= sessions.len(),
        owners.len() == sessions.len(),
    ensures
        sessions_elsewhere(sessions, owners, node_id, k).contains(u) <==> exists|i: int|
            0 <= i < k && sessions[i] == u && owners[i] != node_id,
    decreases k,
{
    if k > 0 {
        lemma_rebalance_exact(sessions, owners, node_id, k - 1, u);
        let prev = sessions_elsewhere(sessions, owners, node_id, k - 1);
        if owners[k - 1] != node_id {
            assert(prev.push(sessions[k - 1])[prev.len() as int] == sessions[k - 1]);
            let cur = prev.push(sessions[k - 1]);
            if cur.contains(u) && u != sessions[k - 1] {
                let j = choose|j: int| 0 <= j < cur.len() && cur[j] == u;
                assert(prev[j] == u);
            }
            if exists|i: int| 0 <= i < k - 1 && sessions[i] == u && owners[i] != node_id {
                let j = choose|j: int| 0 <= j < prev.len() && prev[j] == u;
                assert(prev.push(sessions[k - 1])[j] == u);
            }
        }
    }
}

/// Rebalancing names each user at most once.
pub proof fn lemma_sessions_elsewhere_no_duplicates(
    sessions: Seq<Seq<char>>,
    owners: Seq<NodeId>,
    node_id: NodeId,
    k: int,
)
    requires
        0 <= k <= sessions.len(),
        owners.len() == sessions.len(),
        sessions.no_duplicates(),
    ensures
        sessions_elsewhere(sessions, owners, node_id, k).no_duplicates(),
    decreases k,
{
    if k > 0 {
        lemma_sessions_elsewhere_no_duplicates(sessions, owners, node_id, k - 1);
        let prev = sessions_elsewhere(sessions, owners, node_id, k - 1);
        if owners[k - 1] != node_id {
            let u = sessions[k - 1];
            lemma_rebalance_exact(sessions, owners, node_id, k - 1, u);
            if prev.contains(u) {
                let i = choose|i: int| 0 <= i < k - 1 && sessions[i] == u && owners[i] != node_id;
                assert(sessions[i] == sessions[k - 1]);
            }
            let cur = prev.push(u);
            assert forall|a: int, b: int| 0 <= a < cur.len() && 0 <= b < cur.len() && a != b implies cur[a]
                != cur[b] by {
                if a == prev.len() {
                    assert(prev[b] == cur[b]);
                } else if b == prev.len() {
                    assert(prev[a] == cur[a]);
                }
            }
        }
    }
}

/// A well-formed server connects no user twice, and no room it hosts lists a
/// member twice.
pub proof fn lemma_server_view_wf(s: Server)
    requires
        s.wf(),
    ensures
        s@.wf(),
{
    s.lemma_view_wf();
}

/// Connecting a user records it, after everyone already connected, and
/// changes nothing for any other user.
pub proof fn lemma_connect_keeps_others(v: ChatView, uid: Seq<char>)
    ensures
        connect_step(v, uid).sessions.contains(uid),
        v.sessions.is_prefix_of(connect_step(v, uid).sessions),
        forall|u: Seq<char>|
            u != uid ==> (#[trigger] connect_step(v, uid).sessions.contains(u) == v.sessions.contains(u)),
        connect_step(v, uid).rooms == v.rooms,
        connect_step(v, uid).node_id == v.node_id,
{
    let s = v.sessions;
    if !s.contains(uid) {
        let t = s.push(uid);
        assert(t[s.len() as int] == uid);
        assert forall|u: Seq<char>| u != uid implies (#[trigger] t.contains(u) == s.contains(u)) by {
            if t.contains(u) {
                let j = choose|j: int| 0 <= j < t.len() && t[j] == u;
                assert(s[j] == u);
            }
            if s.contains(u) {
                let j = choose|j: int| 0 <= j < s.len() && s[j] == u;
                assert(t[j] == u);
            }
        }
    }
}

/// Disconnecting a user removes that user and no one else: every other
/// user stays connected or not as before, in the same order; on a list
/// without repeats exactly the one entry of the user goes, and nothing
/// changes when the user was not connected.
pub proof fn lemma_disconnect_removes_only(v: ChatView, uid: Seq<char>)
    requires
        v.sessions.no_duplicates(),
    ensures
        !disconnect_step(v, uid).sessions.contains(uid),
        forall|u: Seq<char>|
            u != uid ==> (#[trigger] disconnect_step(v, uid).sessions.contains(u) == v.sessions.contains(u)),
        forall|k: int|
            0 <= k < v.sessions.len() && v.sessions[k] == uid ==> disconnect_step(v, uid).sessions
                == v.sessions.remove(k),
        !v.sessions.contains(uid) ==> disconnect_step(v, uid).sessions == v.sessions,
        disconnect_step(v, uid).rooms == v.rooms,
        disconnect_step(v, uid).node_id == v.node_id,
{
    let s = v.sessions;
    let p = is_not(uid);
    let r = s.filter(p);
    if r.contains(uid) {
        let j = choose|j: int| 0 <= j < r.len() && r[j] == uid;
        s.lemma_filter_pred(p, j);
    }
    assert forall|u: Seq<char>| u != uid implies (#[trigger] r.contains(u) == s.contains(u)) by {
        if s.contains(u) {
            let i = choose|i: int| 0 <= i < s.len() && s[i] == u;
            s.lemma_filter_contains(p, i);
        }
        if r.contains(u) {
            s.lemma_filter_contains_rev(p, u);
        }
    }
    assert forall|k: int| 0 <= k < s.len() && s[k] == uid implies r == s.remove(k) by {
        lemma_filter_is_remove(s, uid, k);
    }
    if !s.contains(uid) {
        lemma_filter_without(s, uid);
    }
}

/// On a sequence without repeats that holds `x` at `k`, keeping every value
/// other than `x` is removing place `k`.
proof fn lemma_filter_is_remove(s: Seq<Seq<char>>, x: Seq<char>, k: int)
    requires
        s.no_duplicates(),
        0 <= k < s.len(),
        s[k] == x,
    ensures
        s.filter(is_not(x)) == s.remove(k),
{
    let p = is_not(x);
    let a = s.take(k);
    let b = s.skip(k + 1);
    let one = seq![x];
    assert(s =~= a + one + b);
    assert(!a.contains(x)) by {
        if a.contains(x) {
            let j = choose|j: int| 0 <= j < a.len() && a[j] == x;
            assert(s[j] == s[k]);
        }
    }
    assert(!b.contains(x)) by {
        if b.contains(x) {
            let j = choose|j: int| 0 <= j < b.len() && b[j] == x;
            assert(s[k + 1 + j] == s[k]);
        }
    }
    lemma_filter_without(a, x);
    lemma_filter_without(b, x);
    Seq::<Seq<char>>::empty().lemma_filter_push(x, p);
    assert(Seq::<Seq<char>>::empty().push(x) =~= one);
    assert(Seq::<Seq<char>>::empty().filter(p) =~= Seq::<Seq<char>>::empty()) by {
        reveal(Seq::filter);
    }
    Seq::filter_distributes_over_add(a + one, b, p);
    Seq::filter_distributes_over_add(a, one, p);
    assert(a + Seq::<Seq<char>>::empty() =~= a);
    assert(s.remove(k) =~= a + b);
}

} // verus!
