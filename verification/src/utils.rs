//! Node identities.

use vstd::prelude::*;
use crypto::digest::Digest;
use crypto::sha2::Sha256;
use crate::config::NodeId;

verus! {

/// The lower-case hexadecimal SHA-256 digest of the UTF-8 bytes of `input`,
/// as ASCII bytes.
pub uninterp spec fn sha256_hex(input: Seq<char>) -> Seq<u8>;

/// Whether `b` is one of the ASCII digits `0`-`9` or letters `a`-`f`.
pub open spec fn is_lower_hex_digit(b: u8) -> bool {
    (48 <= b <= 57) || (97 <= b <= 102)
}

/// SHA-256 of `rust-crypto`: `Sha256::new`, `input_str` of `input`, then
/// `result_str`, whose string is returned as its bytes. The contract names
/// the digest and states what the crate's `result_str` shows of its form: 32
/// digest bytes written as 64 lower-case hexadecimal digits.
#[verifier::external_body]
fn sha256_hex_digest(input: &str) -> (hex: Vec<u8>)
    ensures
        hex@ == sha256_hex(input@),
        hex@.len() == 64,
        forall|i: int| 0 <= i < 64 ==> is_lower_hex_digit(#[trigger] hex@[i]),
{
    let mut hasher = Sha256::new();
    hasher.input_str(input);
    hasher.result_str().into_bytes()
}

/// The number that the bytes `s` spell in big-endian order.
pub open spec fn be_value(s: Seq<u8>) -> nat
    decreases s.len(),
{
    if s.len() == 0 {
        0
    } else {
        be_value(s.drop_last()) * 256 + s.last() as nat
    }
}

/// 256 to the power `n`.
pub open spec fn pow256(n: nat) -> nat
    decreases n,
{
    if n == 0 {
        1
    } else {
        256 * pow256((n - 1) as nat)
    }
}

/// A big-endian number of `n` bytes is below 256^n.
proof fn lemma_be_value_bound(s: Seq<u8>)
    ensures
        be_value(s) < pow256(s.len()),
    decreases s.len(),
{
    if s.len() > 0 {
        lemma_be_value_bound(s.drop_last());
        let a = be_value(s.drop_last());
        let p = pow256((s.len() - 1) as nat);
        let b = s.last() as nat;
        assert(a * 256 + b < 256 * p) by (nonlinear_arith)
            requires
                a < p,
                b < 256,
        ;
    }
}

/// The node id that the first eight bytes of a hexadecimal digest spell as
/// a big-endian 64-bit number.
pub open spec fn node_id_of_digest(hex: Seq<u8>) -> NodeId {
    be_value(hex.take(8)) as NodeId
}

/// The node id of the node whose cluster address is `addr`.
pub open spec fn node_id_of(addr: Seq<char>) -> NodeId {
    node_id_of_digest(sha256_hex(addr))
}

/// Reads the first eight bytes of `hex` (the ASCII digits of a digest) as a
/// big-endian 64-bit number.
pub fn node_id_from_digest(hex: &[u8]) -> (id: NodeId)
    requires
        hex@.len() >= 8,
    ensures
        id == be_value(hex@.take(8)),
        id == node_id_of_digest(hex@),
{
    let mut id: u64 = 0;
    let mut i: usize = 0;
    while i < 8
        invariant
            i <= 8,
            hex@.len() >= 8,
            id == be_value(hex@.take(i as int)),
        decreases 8 - i,
    {
        proof {
            lemma_be_value_bound(hex@.take(i as int));
            assert(pow256(i as nat) <= pow256(7)) by {
                lemma_pow256_mono(i as nat, 7);
            }
            assert(pow256(7) == 0x100000000000000) by {
                reveal_with_fuel(pow256, 8);
            }
            assert(hex@.take(i + 1).drop_last() =~= hex@.take(i as int));
        }
        id = id * 256 + hex[i] as u64;
        i = i + 1;
    }
    proof {
        lemma_be_value_bound(hex@.take(8));
        assert(pow256(8) == 0x10000000000000000) by {
            reveal_with_fuel(pow256, 9);
        }
    }
    id
}

proof fn lemma_pow256_mono(a: nat, b: nat)
    requires
        a <= b,
    ensures
        pow256(a) <= pow256(b),
    decreases b,
{
    if a < b {
        lemma_pow256_mono(a, (b - 1) as nat);
    }
}

/// Generates the id of a node from its cluster address: the first eight
/// hexadecimal digits of the SHA-256 digest of the address, read as a
/// big-endian 64-bit number. Those eight bytes are lower-case hexadecimal
/// digits.
pub fn generate_node_id(node_address: &str) -> (id: NodeId)
    ensures
        id == node_id_of(node_address@),
        id == be_value(sha256_hex(node_address@).take(8)),
        sha256_hex(node_address@).len() == 64,
        forall|i: int| 0 <= i < 8 ==> is_lower_hex_digit(#[trigger] sha256_hex(node_address@)[i]),
{
    let hex = sha256_hex_digest(node_address);
    node_id_from_digest(hex.as_slice())
}

} // verus!
