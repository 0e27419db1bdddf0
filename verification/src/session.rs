//! A user's websocket session: heartbeats and what the user's messages
//! become.

use vstd::prelude::*;
use crate::server::{Connect, Disconnect, SendRecipient, SendRoom};

verus! {

/// How often, in milliseconds, a session checks on its client.
pub const HEARTBEAT_INTERVAL_MS: u64 = 5000;

/// How long, in milliseconds, a client may stay silent before its session
/// closes.
pub const CLIENT_TIMEOUT_MS: u64 = 10000;

/// A user's session: its id, the room it was opened for and when the client
/// was last heard of, in milliseconds of the caller's monotonic clock.
pub struct Session {
    id: String,
    uid: Option<String>,
    room: String,
    hb: u64,
}

/// A text to write to the user's websocket.
pub struct Message(pub String);

/// A text that the user sends: to a room when `room` is given, else to the
/// user `recipient`.
pub struct TextMessage {
    pub recipient: String,
    pub content: String,
    pub room: Option<String>,
}

/// What arrives on the websocket; a text arrives already parsed.
pub enum WsEvent {
    Ping(String),
    Pong,
    Text(TextMessage),
    Binary,
    Close,
    Nop,
}

/// What a session does with an event.
pub enum SessionAction {
    /// Answer a ping with this payload.
    Pong(String),
    /// Hand a text to the chat server, for a room.
    ToRoom(SendRoom),
    /// Hand a text to the chat server, for one user.
    ToUser(SendRecipient),
    /// The client sent binary data, which is not expected.
    Unexpected,
    /// Close the session.
    Stop,
    /// Nothing to do.
    Nothing,
}

/// What the heartbeat timer leads to.
pub enum HeartbeatAction {
    /// The client timed out: tell the server and close the session.
    Disconnect(Disconnect),
    /// Ping the client.
    Ping,
}

/// Whether a client last heard of at `hb` has been silent too long at `now`.
pub open spec fn client_timed_out(hb: u64, now: u64) -> bool {
    now > hb && now - hb > CLIENT_TIMEOUT_MS
}

impl Session {
    /// The session's id.
    pub closed spec fn id_view(&self) -> Seq<char> {
        self.id@
    }

    /// The room the session was opened for.
    pub closed spec fn room_view(&self) -> Seq<char> {
        self.room@
    }

    /// When the client was last heard of.
    pub closed spec fn last_heard(&self) -> u64 {
        self.hb
    }

    /// A session with id `id` for room `room`, opened at `now`.
    pub fn new(id: &str, room: &str, now: u64) -> (s: Session)
        ensures
            s.id_view() == id@,
            s.room_view() == room@,
            s.last_heard() == now,
    {
        Session { id: id.to_owned(), uid: None, room: room.to_owned(), hb: now }
    }

    /// The session started: the server is to record it.
    pub fn started(&self) -> (c: Connect)
        ensures
            c.0@ == self.id_view(),
    {
        Connect(self.id.clone())
    }

    /// The session is stopping: the server is to forget it.
    pub fn stopping(&self) -> (d: Disconnect)
        ensures
            d.0@ == self.id_view(),
    {
        Disconnect(self.id.clone())
    }

    /// The heartbeat timer fired at `now`: a client silent for more than
    /// `CLIENT_TIMEOUT_MS` is disconnected, any other is pinged.
    pub fn heartbeat(&self, now: u64) -> (a: HeartbeatAction)
        ensures
            match a {
                HeartbeatAction::Disconnect(d) => client_timed_out(self.last_heard(), now) && d.0@
                    == self.id_view(),
                HeartbeatAction::Ping => !client_timed_out(self.last_heard(), now),
            },
    {
        if now > self.hb && now - self.hb > CLIENT_TIMEOUT_MS {
            HeartbeatAction::Disconnect(Disconnect(self.id.clone()))
        } else {
            HeartbeatAction::Ping
        }
    }

    /// An event arrived on the websocket at `now`. Pings and pongs count as
    /// signs of life, and a ping is answered; a text goes to the chat server,
    /// from this session, to its room when it names one and else to its
    /// recipient; a close stops the session.
    pub fn handle(&mut self, ev: WsEvent, now: u64) -> (a: SessionAction)
        ensures
            final(self).id_view() == old(self).id_view(),
            final(self).room_view() == old(self).room_view(),
            match ev {
                WsEvent::Ping(p) => final(self).last_heard() == now && a == SessionAction::Pong(p),
                WsEvent::Pong => final(self).last_heard() == now && a is Nothing,
                WsEvent::Text(t) => final(self).last_heard() == old(self).last_heard() && match t.room {
                    Some(r) => a matches SessionAction::ToRoom(m) && m.room_id@ == r@ && m.uid@
                        == old(self).id_view() && m.content@ == t.content@,
                    None => a matches SessionAction::ToUser(m) && m.recipient_id@ == t.recipient@
                        && m.uid@ == old(self).id_view() && m.content@ == t.content@,
                },
                WsEvent::Binary => final(self).last_heard() == old(self).last_heard() && a is Unexpected,
                WsEvent::Close => final(self).last_heard() == old(self).last_heard() && a is Stop,
                WsEvent::Nop => final(self).last_heard() == old(self).last_heard() && a is Nothing,
            },
    {
        match ev {
            WsEvent::Ping(p) => {
                self.hb = now;
                SessionAction::Pong(p)
            },
            WsEvent::Pong => {
                self.hb = now;
                SessionAction::Nothing
            },
            WsEvent::Text(t) => match t.room {
                Some(r) => SessionAction::ToRoom(
                    SendRoom { room_id: r, uid: self.id.clone(), content: t.content },
                ),
                None => SessionAction::ToUser(
                    SendRecipient { recipient_id: t.recipient, uid: self.id.clone(), content: t.content },
                ),
            },
            WsEvent::Binary => SessionAction::Unexpected,
            WsEvent::Close => SessionAction::Stop,
            WsEvent::Nop => SessionAction::Nothing,
        }
    }
}

} // verus!
