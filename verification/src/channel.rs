//! A chat channel: the users subscribed to it.

use vstd::prelude::*;
use crate::config::NodeId;
use crate::hash_ring::NodeRing;
use crate::server::strings_view;

verus! {

/// A channel hosted on node `node_id`, with the users subscribed to it.
pub struct Channel {
    sessions: Vec<String>,
    ring: NodeRing,
    node_id: NodeId,
}

/// A text published to a channel.
pub struct Publish {
    pub sender_id: String,
    pub content: String,
}

/// The members of a channel are asked for.
pub struct GetMembers;

impl Channel {
    /// The users subscribed to the channel.
    pub closed spec fn members_view(&self) -> Seq<Seq<char>> {
        strings_view(self.sessions@)
    }

    /// The node hosting the channel.
    pub closed spec fn node_view(&self) -> NodeId {
        self.node_id
    }

    /// A channel on node `node_id` with no subscriber.
    pub fn new(ring: NodeRing, node_id: NodeId) -> (c: Channel)
        ensures
            c.members_view() == Seq::<Seq<char>>::empty(),
            c.node_view() == node_id,
    {
        let c = Channel { sessions: Vec::new(), ring, node_id };
        assert(c.members_view() =~= Seq::<Seq<char>>::empty());
        c
    }

    /// The users subscribed to the channel.
    pub fn get_members(&self, _msg: GetMembers) -> (r: Vec<String>)
        ensures
            strings_view(r@) == self.members_view(),
    {
        let mut r: Vec<String> = Vec::new();
        let mut i: usize = 0;
        while i < self.sessions.len()
            invariant
                i <= self.sessions@.len(),
                r@ == self.sessions@.subrange(0, i as int),
            decreases self.sessions@.len() - i,
        {
            r.push(self.sessions[i].clone());
            i = i + 1;
            assert(r@ =~= self.sessions@.subrange(0, i as int));
        }
        assert(self.sessions@.subrange(0, self.sessions@.len() as int) =~= self.sessions@);
        r
    }
}

} // verus!
