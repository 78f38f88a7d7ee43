//! SHA-256 over concatenated byte strings, and the domain-separation tags.

use sha2::{Digest, Sha256};
use vstd::prelude::*;

verus! {

/// 32-byte hash, the universal currency of this crate.
pub type Hash = [u8; 32];

/// Tag prefixed to the attestation binding: the ASCII bytes of `pqtl:attest:report-v1`.
pub const DOMAIN_REPORT: [u8; 21] = [
    0x70, 0x71, 0x74, 0x6c, 0x3a, 0x61, 0x74, 0x74, 0x65, 0x73,
    0x74, 0x3a, 0x72, 0x65, 0x70, 0x6f, 0x72, 0x74, 0x2d, 0x76,
    0x31,
];

/// Tag prefixed to the bytes a signed tree head commits to: ASCII `pqtl:sth-v1`.
pub const DOMAIN_STH: [u8; 11] = [
    0x70, 0x71, 0x74, 0x6c, 0x3a, 0x73, 0x74, 0x68, 0x2d, 0x76,
    0x31,
];

/// Tag prefixed to a leaf before hashing (RFC 6962 leaf prefix).
pub const DOMAIN_LEAF: [u8; 1] = [0x00];

/// Tag prefixed to two children before hashing (RFC 6962 node prefix).
pub const DOMAIN_NODE: [u8; 1] = [0x01];

/// What the root of an empty log is the hash of: ASCII `pqtl:empty-tree`.
pub const EMPTY_TREE_TAG: [u8; 15] = [
    0x70, 0x71, 0x74, 0x6c, 0x3a, 0x65, 0x6d, 0x70, 0x74, 0x79,
    0x2d, 0x74, 0x72, 0x65, 0x65,
];

/// Tag prefixed to the seed of a placeholder signer's key: ASCII `pqtl:placeholder-seed`.
pub const DOMAIN_SEED: [u8; 21] = [
    0x70, 0x71, 0x74, 0x6c, 0x3a, 0x70, 0x6c, 0x61, 0x63, 0x65,
    0x68, 0x6f, 0x6c, 0x64, 0x65, 0x72, 0x2d, 0x73, 0x65, 0x65,
    0x64,
];

/// Tag prefixed to a placeholder signature's input: ASCII `pqtl:placeholder-sig`.
pub const DOMAIN_SIG: [u8; 20] = [
    0x70, 0x71, 0x74, 0x6c, 0x3a, 0x70, 0x6c, 0x61, 0x63, 0x65,
    0x68, 0x6f, 0x6c, 0x64, 0x65, 0x72, 0x2d, 0x73, 0x69, 0x67,
];

/// Tag prefixed to a loader build's label and bytes: ASCII `loader-build:`.
pub const DOMAIN_BUILD: [u8; 13] = [
    0x6c, 0x6f, 0x61, 0x64, 0x65, 0x72, 0x2d, 0x62, 0x75, 0x69,
    0x6c, 0x64, 0x3a,
];

/// The SHA-256 digest (FIPS 180-4) of a byte string.
pub uninterp spec fn spec_sha256(data: Seq<u8>) -> Seq<u8>;

/// Calls `sha2::Sha256::digest` (the one-shot `Digest::digest`) on `data`.
/// Claims that the 32 bytes returned are the SHA-256 digest of exactly `data`.
#[verifier::external_body]
fn sha256_digest(data: &[u8]) -> (h: Hash)
    ensures
        h@ == spec_sha256(data@),
{
    let d = Sha256::digest(data);
    let mut out = [0u8; 32];
    out.copy_from_slice(&d);
    out
}

/// The concatenation of a sequence of byte strings, in order.
pub open spec fn join_parts(parts: Seq<Seq<u8>>) -> Seq<u8>
    decreases parts.len(),
{
    if parts.len() == 0 {
        Seq::empty()
    } else {
        join_parts(parts.drop_last()) + parts.last()
    }
}

/// The byte strings behind a slice of byte slices.
pub open spec fn parts_view(parts: Seq<&[u8]>) -> Seq<Seq<u8>> {
    parts.map_values(|p: &[u8]| p@)
}

/// One byte string joined by `join_parts` is itself.
pub proof fn lemma_join_one(a: Seq<u8>)
    ensures
        join_parts(seq![a]) == a,
{
    assert(seq![a].drop_last() =~= Seq::<Seq<u8>>::empty());
    assert(join_parts(Seq::<Seq<u8>>::empty()) =~= Seq::<u8>::empty());
    assert(seq![a].last() == a);
    assert(join_parts(seq![a]) =~= a);
}

/// Two byte strings joined by `join_parts` are their concatenation.
pub proof fn lemma_join_two(a: Seq<u8>, b: Seq<u8>)
    ensures
        join_parts(seq![a, b]) == a + b,
{
    lemma_join_one(a);
    assert(seq![a, b].drop_last() =~= seq![a]);
}

/// Three byte strings joined by `join_parts` are their concatenation.
pub proof fn lemma_join_three(a: Seq<u8>, b: Seq<u8>, c: Seq<u8>)
    ensures
        join_parts(seq![a, b, c]) == a + b + c,
{
    lemma_join_two(a, b);
    assert(seq![a, b, c].drop_last() =~= seq![a, b]);
}

/// Four byte strings joined by `join_parts` are their concatenation.
pub proof fn lemma_join_four(a: Seq<u8>, b: Seq<u8>, c: Seq<u8>, d: Seq<u8>)
    ensures
        join_parts(seq![a, b, c, d]) == a + b + c + d,
{
    lemma_join_three(a, b, c);
    assert(seq![a, b, c, d].drop_last() =~= seq![a, b, c]);
}

/// SHA-256 over the concatenation of `parts`.
pub fn sha256(parts: &[&[u8]]) -> (h: Hash)
    ensures
        h@ == spec_sha256(join_parts(parts_view(parts@))),
{
    let mut data: Vec<u8> = Vec::new();
    let mut i: usize = 0;
    while i < parts.len()
        invariant
            i <= parts.len(),
            data@ == join_parts(parts_view(parts@.take(i as int))),
        decreases parts.len() - i,
    {
        let p: &[u8] = parts[i];
        data.extend_from_slice(p);
        proof {
            let pre = parts_view(parts@.take(i as int));
            let post = parts_view(parts@.take(i as int + 1));
            assert(post.drop_last() =~= pre);
            assert(post.last() == p@);
        }
        i = i + 1;
        assert(data@ =~= join_parts(parts_view(parts@.take(i as int))));
    }
    assert(parts@.take(parts.len() as int) =~= parts@);
    sha256_digest(data.as_slice())
}

} // verus!
