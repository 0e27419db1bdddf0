//! Messages that travel between nodes, and how they are told apart.

use vstd::prelude::*;
use crate::server::{CreateRoom, GetMembers, Join, SendRecipient, SendRoom};

verus! {

/// Which layer a remote message belongs to.
#[derive(Clone, Copy, Debug, PartialEq, Eq, Structural)]
pub enum MsgTypes {
    App,
    Raft,
}

/// A message that can be sent to another node: it carries the name under
/// which the receiving node finds its handler.
pub trait RemoteMessage {
    fn type_id() -> &'static str;

    fn msg_type() -> MsgTypes;
}

impl RemoteMessage for Join {
    fn type_id() -> (r: &'static str)
        ensures
            r@ == "Join"@,
    {
        "Join"
    }

    fn msg_type() -> (r: MsgTypes)
        ensures
            r == MsgTypes::App,
    {
        MsgTypes::App
    }
}

impl RemoteMessage for SendRoom {
    fn type_id() -> (r: &'static str)
        ensures
            r@ == "SendRoom"@,
    {
        "SendRoom"
    }

    fn msg_type() -> (r: MsgTypes)
        ensures
            r == MsgTypes::App,
    {
        MsgTypes::App
    }
}

impl RemoteMessage for SendRecipient {
    fn type_id() -> (r: &'static str)
        ensures
            r@ == "SendRecipient"@,
    {
        "SendRecipient"
    }

    fn msg_type() -> (r: MsgTypes)
        ensures
            r == MsgTypes::App,
    {
        MsgTypes::App
    }
}

impl RemoteMessage for CreateRoom {
    fn type_id() -> (r: &'static str)
        ensures
            r@ == "CreateRoom"@,
    {
        "CreateRoom"
    }

    fn msg_type() -> (r: MsgTypes)
        ensures
            r == MsgTypes::App,
    {
        MsgTypes::App
    }
}

impl RemoteMessage for GetMembers {
    fn type_id() -> (r: &'static str)
        ensures
            r@ == "GetMembers"@,
    {
        "GetMembers"
    }

    fn msg_type() -> (r: MsgTypes)
        ensures
            r == MsgTypes::App,
    {
        MsgTypes::App
    }
}

/// Whether the answer to a remote request is the empty string, which a node
/// sends when its raft is not initialized yet; such an answer is an error,
/// any other is the serialized result.
pub fn is_uninitialized_reply(msg: &str) -> (r: bool)
    ensures
        r == (msg@.len() == 0),
{
    msg.is_empty()
}

/// The application messages are told apart by their names: no two share one,
/// so the receiving node finds the right handler for each.
pub proof fn lemma_app_type_ids_distinct()
    ensures
        ({
            let ids = seq!["Join"@, "SendRoom"@, "SendRecipient"@, "CreateRoom"@, "GetMembers"@];
            ids.no_duplicates()
        }),
{
    reveal_strlit("Join");
    reveal_strlit("SendRoom");
    reveal_strlit("SendRecipient");
    reveal_strlit("CreateRoom");
    reveal_strlit("GetMembers");
    let ids = seq!["Join"@, "SendRoom"@, "SendRecipient"@, "CreateRoom"@, "GetMembers"@];
    assert(ids[0].len() != ids[1].len());
    assert(ids[0].len() != ids[2].len());
    assert(ids[0][0] != ids[3][0]);
    assert(ids[0][0] != ids[4][0]);
    assert(ids[1].len() != ids[2].len());
    assert(ids[1][0] != ids[3][0]);
    assert(ids[1][0] != ids[4][0]);
    assert(ids[2][0] != ids[3][0]);
    assert(ids[2][0] != ids[4][0]);
    assert(ids[3][0] != ids[4][0]);
}

} // verus!
