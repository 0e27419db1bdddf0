//! Requests between nodes and their life cycle.

use vstd::prelude::*;
use std::hash::{Hash, Hasher};
use std::time::Instant;
use fasthash::XXHasher;
use crate::network::codec::{NodeRequest, NodeResponse};

verus! {

/// A point in time of std's monotonic clock.
#[verifier::external_type_specification]
#[verifier::external_body]
pub struct ExInstant(Instant);

/// Where a request stands.
#[derive(Clone, Copy, Debug, PartialEq, Eq, Structural)]
pub enum RequestState {
    Initialized,
    Pending,
    Completed,
    Canceled,
    Timedout,
}

/// A request to another node: its id, when it started and ended, where it
/// stands, and what was sent and received.
pub struct Request {
    pub id: String,
    pub start_time: Instant,
    pub end_time: Option<Instant>,
    pub state: RequestState,
    pub req: Option<NodeRequest>,
    pub res: Option<NodeResponse>,
}

/// The 64-bit xxHash (fasthash's `XXHasher`, unseeded) of the string `t` fed
/// through std's `Hash` for `str`.
pub uninterp spec fn xxhash_of(t: Seq<char>) -> u64;

/// Hashes `t` with fasthash's `XXHasher`: a default hasher, `Hash::hash` of
/// the string, `finish`. The result is named, not described.
#[verifier::external_body]
fn xx_hash_str(t: &str) -> (h: u64)
    ensures
        h == xxhash_of(t@),
{
    let mut s: XXHasher = Default::default();
    t.hash(&mut s);
    s.finish()
}

/// The decimal digit `d`.
pub open spec fn digit_char(d: nat) -> char {
    ((48 + d) as u8) as char
}

/// The decimal representation of `n`, without leading zeros.
pub open spec fn decimal(n: nat) -> Seq<char>
    decreases n,
{
    if n < 10 {
        seq![digit_char(n)]
    } else {
        decimal(n / 10).push(digit_char(n % 10))
    }
}

/// `ToString::to_string` of std for `u64`: the decimal digits of `n`, as
/// its `Display` writes them.
#[verifier::external_body]
fn u64_to_string(n: u64) -> (s: String)
    ensures
        s@ == decimal(n as nat),
{
    n.to_string()
}

/// The id of a request made at the moment described by `time`: the decimal
/// digits of the xxHash of `time`.
pub fn hash(time: &str) -> (id: String)
    ensures
        id@ == decimal(xxhash_of(time@) as nat),
{
    u64_to_string(xx_hash_str(time))
}

impl Request {
    /// A request made at `start_time` (described by `time`), with its id
    /// derived from `time`, not yet sent.
    pub fn new(time: &str, start_time: Instant) -> (r: Request)
        ensures
            r.id@ == decimal(xxhash_of(time@) as nat),
            r.start_time == start_time,
            r.end_time is None,
            r.state == RequestState::Initialized,
            r.req is None,
            r.res is None,
    {
        Request {
            id: hash(time),
            start_time,
            end_time: None,
            state: RequestState::Initialized,
            req: None,
            res: None,
        }
    }

    /// A new request (see `new`) that carries `request`.
    pub fn req_from(request: NodeRequest, time: &str, start_time: Instant) -> (r: Request)
        ensures
            r.id@ == decimal(xxhash_of(time@) as nat),
            r.start_time == start_time,
            r.end_time is None,
            r.state == RequestState::Initialized,
            r.req == Some(request),
            r.res is None,
    {
        let mut req = Request::new(time, start_time);
        req.req = Some(request);
        req
    }

    /// The request with `response` recorded as its answer.
    pub fn res_from(self, response: NodeResponse) -> (r: Request)
        ensures
            r == (Request { res: Some(response), ..self }),
    {
        let mut r = self;
        r.res = Some(response);
        r
    }
}

} // verus!
