//! Length-prefixed framing of the messages that nodes exchange.
//!
//! On the wire every message is a frame: a big-endian 16-bit length followed
//! by that many bytes of payload (a JSON document, which the caller parses).

use vstd::prelude::*;
use bytes::BytesMut;
use byteorder::{BigEndian, ByteOrder};
use crate::config::NodeId;

verus! {

/// A request sent from one node to another.
pub struct NodeRequest {
    pub id: String,
    pub payload: NodePayload,
}

/// A response sent back to the node that made a request.
pub struct NodeResponse {
    pub id: String,
    pub payload: NodePayload,
}

/// What a request or response carries.
#[derive(Clone, Copy, Debug, PartialEq, Eq, Structural)]
pub enum NodePayload {
    Ping,
    Join(NodeId),
    AppendEntriesRequest,
    InstallSnapshotRequest,
    VoteRequest,
    Joined,
    VoteResponse,
    AppendEntriesResponse,
    InstallSnapshotResponse,
}

/// The growable byte buffer of the `bytes` crate, in which frames arrive and
/// are written.
#[verifier::external_type_specification]
#[verifier::external_body]
pub struct ExBytesMut(BytesMut);

/// The bytes that a `BytesMut` holds, in order.
pub uninterp spec fn bytes_contents(b: BytesMut) -> Seq<u8>;

/// `BytesMut::len`: the number of bytes held.
#[verifier::external_body]
fn bytes_len(b: &BytesMut) -> (n: usize)
    ensures
        n == bytes_contents(*b).len(),
{
    b.len()
}

/// `BytesMut::as_ref`: the bytes held, as a slice.
#[verifier::external_body]
fn bytes_as_slice(b: &BytesMut) -> (s: &[u8])
    ensures
        s@ == bytes_contents(*b),
{
    b.as_ref()
}

/// `BytesMut::split_to`: the buffer keeps the bytes from `at` on and the
/// first `at` bytes are returned. The crate panics when `at` exceeds the
/// length.
#[verifier::external_body]
fn bytes_split_to(b: &mut BytesMut, at: usize) -> (front: BytesMut)
    requires
        at <= bytes_contents(*old(b)).len(),
    ensures
        bytes_contents(front) == bytes_contents(*old(b)).subrange(0, at as int),
        bytes_contents(*final(b)) == bytes_contents(*old(b)).subrange(
            at as int,
            bytes_contents(*old(b)).len() as int,
        ),
{
    b.split_to(at)
}

/// `BytesMut::extend_from_slice`: appends `data`, growing the buffer first.
/// The contract leaves out the lengths at which growing the allocation
/// overflows; it does not speak of capacity at all.
#[verifier::external_body]
fn bytes_extend_from_slice(b: &mut BytesMut, data: &[u8])
    requires
        bytes_contents(*old(b)).len() + data@.len() <= isize::MAX,
    ensures
        bytes_contents(*final(b)) == bytes_contents(*old(b)) + data@,
{
    b.extend_from_slice(data)
}

/// `BigEndian::read_u16` of `byteorder`: the first two bytes of `buf` read as
/// a big-endian number. The crate panics on fewer than two bytes.
#[verifier::external_body]
fn be_read_u16(buf: &[u8]) -> (n: u16)
    requires
        buf@.len() >= 2,
    ensures
        n == buf@[0] as int * 256 + buf@[1] as int,
{
    BigEndian::read_u16(buf)
}

/// `BigEndian::write_u16` of `byteorder`: `n` as two big-endian bytes.
#[verifier::external_body]
fn be_write_u16(n: u16) -> (b: Vec<u8>)
    ensures
        b@ == seq![(n / 256) as u8, (n % 256) as u8],
{
    let mut buf = [0u8; 2];
    BigEndian::write_u16(&mut buf, n);
    buf.to_vec()
}

/// The largest payload whose length fits in the 16-bit frame header.
pub const MAX_FRAME_PAYLOAD: usize = 65535;

/// The length that the header of a frame announces.
pub open spec fn announced_len(s: Seq<u8>) -> nat
    recommends
        s.len() >= 2,
{
    (s[0] as nat) * 256 + (s[1] as nat)
}

/// What decoding does to a buffer `s`: `None` while no complete frame is at
/// its front, else the payload of the first frame and the bytes after it.
pub open spec fn decode_spec(s: Seq<u8>) -> Option<(Seq<u8>, Seq<u8>)> {
    if s.len() < 2 {
        None
    } else if s.len() >= announced_len(s) + 2 {
        let end = announced_len(s) + 2;
        Some((s.subrange(2, end as int), s.subrange(end as int, s.len() as int)))
    } else {
        None
    }
}

/// The two header bytes that encoding writes for a payload of `len` bytes:
/// the length taken modulo 2^16, big-endian.
pub open spec fn header_spec(len: nat) -> Seq<u8> {
    let n = len % 65536;
    seq![(n / 256) as u8, (n % 256) as u8]
}

/// The frame that encoding appends for `payload`.
pub open spec fn frame_spec(payload: Seq<u8>) -> Seq<u8> {
    header_spec(payload.len()) + payload
}

/// Takes the first complete frame off the front of `src` and returns its
/// payload; returns `None`, leaving `src` as it was, while the buffer does not
/// yet hold a whole frame.
pub fn decode_frame(src: &mut BytesMut) -> (res: Option<BytesMut>)
    ensures
        match decode_spec(bytes_contents(*old(src))) {
            None => res is None && bytes_contents(*final(src)) == bytes_contents(*old(src)),
            Some((payload, rest)) => res is Some && bytes_contents(res->0) == payload
                && bytes_contents(*final(src)) == rest,
        },
{
    let len = bytes_len(src);
    if len < 2 {
        return None;
    }
    let size = be_read_u16(bytes_as_slice(src)) as usize;
    if len >= size + 2 {
        let ghost s0 = bytes_contents(*src);
        let _header = bytes_split_to(src, 2);
        let buf = bytes_split_to(src, size);
        proof {
            assert(bytes_contents(buf) =~= s0.subrange(2, size + 2));
            assert(bytes_contents(*src) =~= s0.subrange(size + 2, s0.len() as int));
        }
        Some(buf)
    } else {
        None
    }
}

/// Appends to `dst` the frame of `msg`: a two-byte big-endian header holding
/// the length of `msg` modulo 2^16, then the bytes of `msg`. A payload longer
/// than `MAX_FRAME_PAYLOAD` bytes gets a header that announces a shorter
/// length, as the truncating cast of the header makes it.
pub fn encode_frame(msg: &[u8], dst: &mut BytesMut)
    requires
        bytes_contents(*old(dst)).len() + msg@.len() + 2 <= isize::MAX,
    ensures
        bytes_contents(*final(dst)) == bytes_contents(*old(dst)) + frame_spec(msg@),
{
    let n: u16 = (msg.len() % 65536) as u16;
    let header = be_write_u16(n);
    bytes_extend_from_slice(dst, header.as_slice());
    bytes_extend_from_slice(dst, msg);
    proof {
        assert(header@ =~= header_spec(msg@.len()));
    }
    assert(bytes_contents(*dst) =~= bytes_contents(*old(dst)) + frame_spec(msg@));
}

/// Appends the frame of `msg` to `dst` (see `encode_frame`) when the
/// buffer can hold it, that is when its length and the frame's together stay
/// within `isize::MAX`, and answers whether it did; otherwise `dst` is left
/// as it was.
pub fn try_encode_frame(msg: &[u8], dst: &mut BytesMut) -> (written: bool)
    ensures
        written == (bytes_contents(*old(dst)).len() + msg@.len() + 2 <= isize::MAX),
        written ==> bytes_contents(*final(dst)) == bytes_contents(*old(dst)) + frame_spec(msg@),
        !written ==> bytes_contents(*final(dst)) == bytes_contents(*old(dst)),
{
    let have = bytes_len(dst);
    let room: usize = isize::MAX as usize;
    if have > room - 2 || msg.len() > room - 2 - have {
        return false;
    }
    encode_frame(msg, dst);
    true
}

/// A frame announces exactly the length of its payload, so long as that
/// length fits in the 16-bit header.
pub proof fn lemma_frame_announces_len(payload: Seq<u8>)
    requires
        payload.len() <= MAX_FRAME_PAYLOAD,
    ensures
        frame_spec(payload).len() == payload.len() + 2,
        announced_len(frame_spec(payload)) == payload.len(),
{
    let n = payload.len();
    let f = frame_spec(payload);
    assert(f[0] == (n / 256) as u8);
    assert(f[1] == (n % 256) as u8);
    assert((n / 256) < 256) by (nonlinear_arith)
        requires
            n <= 65535,
    ;
    assert((n / 256) * 256 + n % 256 == n) by (nonlinear_arith);
}

/// Decoding what encoding wrote gives back the payload and leaves whatever
/// followed the frame: for every payload of at most `MAX_FRAME_PAYLOAD` bytes
/// and every continuation `rest` of the stream.
pub proof fn lemma_decode_encode(payload: Seq<u8>, rest: Seq<u8>)
    requires
        payload.len() <= MAX_FRAME_PAYLOAD,
    ensures
        decode_spec(frame_spec(payload) + rest) == Some((payload, rest)),
{
    lemma_frame_announces_len(payload);
    let s = frame_spec(payload) + rest;
    let f = frame_spec(payload);
    assert(s[0] == f[0] && s[1] == f[1]);
    assert(announced_len(s) == payload.len());
    assert(s.subrange(2, payload.len() + 2int) =~= payload);
    assert(s.subrange(payload.len() + 2int, s.len() as int) =~= rest);
}

/// The frames of `payloads`, one after another.
pub open spec fn frames_spec(payloads: Seq<Seq<u8>>) -> Seq<u8>
    decreases payloads.len(),
{
    if payloads.len() == 0 {
        Seq::empty()
    } else {
        frame_spec(payloads[0]) + frames_spec(payloads.drop_first())
    }
}

/// A stream of frames is read back in order: decoding a stream that holds
/// the frames of `payloads` (each of at most `MAX_FRAME_PAYLOAD` bytes),
/// followed by anything, gives the first payload and leaves the frames of the
/// others, followed by the same bytes.
pub proof fn lemma_decode_stream(payloads: Seq<Seq<u8>>, rest: Seq<u8>)
    requires
        payloads.len() > 0,
        forall|i: int| 0 <= i < payloads.len() ==> (#[trigger] payloads[i]).len() <= MAX_FRAME_PAYLOAD,
    ensures
        decode_spec(frames_spec(payloads) + rest) == Some(
            (payloads[0], frames_spec(payloads.drop_first()) + rest),
        ),
{
    let tail = frames_spec(payloads.drop_first()) + rest;
    assert(frames_spec(payloads) + rest =~= frame_spec(payloads[0]) + tail);
    lemma_decode_encode(payloads[0], tail);
}

/// A stream that holds only part of a frame decodes to nothing: the decoder
/// waits for the rest rather than returning a shortened payload.
pub proof fn lemma_partial_frame_waits(payload: Seq<u8>, k: int)
    requires
        payload.len() <= MAX_FRAME_PAYLOAD,
        0 <= k < frame_spec(payload).len(),
    ensures
        decode_spec(frame_spec(payload).subrange(0, k)) is None,
{
    lemma_frame_announces_len(payload);
    let f = frame_spec(payload);
    let s = f.subrange(0, k);
    if s.len() >= 2 {
        assert(s[0] == f[0] && s[1] == f[1]);
    }
}

/// What the decoder takes off a stream is a whole frame: re-encoding the
/// returned payload in front of the returned rest gives the stream back.
pub proof fn lemma_encode_decode(s: Seq<u8>)
    requires
        decode_spec(s) is Some,
    ensures
        decode_spec(s) matches Some((p, r)) ==> frame_spec(p) + r == s,
{
    let (p, r) = decode_spec(s)->0;
    let n = announced_len(s);
    assert(p.len() == n);
    assert(n <= 65535) by (nonlinear_arith)
        requires
            n == (s[0] as nat) * 256 + (s[1] as nat),
            s[0] < 256,
            s[1] < 256,
    ;
    assert(n / 256 == s[0] as nat && n % 256 == s[1] as nat) by (nonlinear_arith)
        requires
            n == (s[0] as nat) * 256 + (s[1] as nat),
            s[1] < 256,
    ;
    assert(frame_spec(p) + r =~= s);
}

/// The codec of the serving side of a node connection: it reads requests and
/// writes responses.
pub struct NodeCodec;

/// The codec of the connecting side of a node connection: it reads responses
/// and writes requests.
pub struct ClientNodeCodec;

impl NodeCodec {
    /// Takes the next request frame off `src`; see `decode_frame`.
    pub fn decode(&mut self, src: &mut BytesMut) -> (res: Option<BytesMut>)
        ensures
            match decode_spec(bytes_contents(*old(src))) {
                None => res is None && bytes_contents(*final(src)) == bytes_contents(*old(src)),
                Some((payload, rest)) => res is Some && bytes_contents(res->0) == payload
                    && bytes_contents(*final(src)) == rest,
            },
    {
        decode_frame(src)
    }

    /// Writes the response `msg` as a frame; see `encode_frame`.
    pub fn encode(&mut self, msg: &[u8], dst: &mut BytesMut)
        requires
            bytes_contents(*old(dst)).len() + msg@.len() + 2 <= isize::MAX,
        ensures
            bytes_contents(*final(dst)) == bytes_contents(*old(dst)) + frame_spec(msg@),
    {
        encode_frame(msg, dst)
    }

    /// Writes `msg` as a frame when the buffer can hold it; see
    /// `try_encode_frame`.
    pub fn try_encode(&mut self, msg: &[u8], dst: &mut BytesMut) -> (written: bool)
        ensures
            written == (bytes_contents(*old(dst)).len() + msg@.len() + 2 <= isize::MAX),
            written ==> bytes_contents(*final(dst)) == bytes_contents(*old(dst)) + frame_spec(msg@),
            !written ==> bytes_contents(*final(dst)) == bytes_contents(*old(dst)),
    {
        try_encode_frame(msg, dst)
    }
}

impl ClientNodeCodec {
    /// Takes the next response frame off `src`; see `decode_frame`.
    pub fn decode(&mut self, src: &mut BytesMut) -> (res: Option<BytesMut>)
        ensures
            match decode_spec(bytes_contents(*old(src))) {
                None => res is None && bytes_contents(*final(src)) == bytes_contents(*old(src)),
                Some((payload, rest)) => res is Some && bytes_contents(res->0) == payload
                    && bytes_contents(*final(src)) == rest,
            },
    {
        decode_frame(src)
    }

    /// Writes the request `msg` as a frame; see `encode_frame`.
    pub fn encode(&mut self, msg: &[u8], dst: &mut BytesMut)
        requires
            bytes_contents(*old(dst)).len() + msg@.len() + 2 <= isize::MAX,
        ensures
            bytes_contents(*final(dst)) == bytes_contents(*old(dst)) + frame_spec(msg@),
    {
        encode_frame(msg, dst)
    }

    /// Writes `msg` as a frame when the buffer can hold it; see
    /// `try_encode_frame`.
    pub fn try_encode(&mut self, msg: &[u8], dst: &mut BytesMut) -> (written: bool)
        ensures
            written == (bytes_contents(*old(dst)).len() + msg@.len() + 2 <= isize::MAX),
            written ==> bytes_contents(*final(dst)) == bytes_contents(*old(dst)) + frame_spec(msg@),
            !written ==> bytes_contents(*final(dst)) == bytes_contents(*old(dst)),
    {
        try_encode_frame(msg, dst)
    }
}

} // verus!
