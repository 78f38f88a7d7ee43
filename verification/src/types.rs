//! The objects a session receipt is made of, and the two byte strings that
//! bind them: the attestation binding and the signed-tree-head message.

use crate::hash::{
    sha256,
    spec_sha256,
    lemma_join_three,
    lemma_join_four,
    parts_view,
    DOMAIN_BUILD,
    DOMAIN_REPORT,
    DOMAIN_STH,
};
use vstd::prelude::*;
use vstd::string::StringSliceAdditionalSpecFns;

verus! {

/// Hash of a loader build: what gets attested and logged.
#[derive(Clone, Debug, PartialEq, Eq)]
pub struct Measurement(pub [u8; 32]);

/// Per-session freshness value chosen by the client (anti-replay).
#[derive(Clone, Debug, PartialEq, Eq)]
pub struct Nonce(pub [u8; 32]);

/// The client's KEM public key (opaque bytes).
#[derive(Clone, Debug, PartialEq, Eq)]
pub struct KemPublicKey(pub Vec<u8>);

/// A hardware attestation quote. `report_data` binds the session:
/// `report_data = H(DOMAIN_REPORT ‖ nonce ‖ kem_pubkey ‖ measurement)`.
#[derive(Clone, Debug)]
pub struct Quote {
    pub measurement: Measurement,
    pub report_data: [u8; 32],
}

/// Signed Tree Head: the log operator's commitment to its history at a size.
#[derive(Clone, Debug)]
pub struct SignedTreeHead {
    pub tree_size: u64,
    pub root: [u8; 32],
    pub signature: Vec<u8>,
}

/// A Merkle inclusion proof (RFC 6962 audit path, leaf-to-root order).
#[derive(Clone, Debug)]
pub struct InclusionProof {
    pub leaf_index: u64,
    pub tree_size: u64,
    pub audit_path: Vec<[u8; 32]>,
}

/// The client-facing session receipt.
#[derive(Clone, Debug)]
pub struct Receipt {
    pub quote: Quote,
    pub nonce: Nonce,
    pub kem_pubkey: KemPublicKey,
    pub inclusion: InclusionProof,
    pub sth: SignedTreeHead,
}

/// The attestation binding of a session: the hash of the report tag, the
/// nonce, the KEM public key and the measurement, in that order.
pub open spec fn spec_report_data(nonce: Seq<u8>, kem: Seq<u8>, m: Seq<u8>) -> Seq<u8> {
    spec_sha256(DOMAIN_REPORT@ + nonce + kem + m)
}

/// The eight bytes of `x`, most significant first.
pub open spec fn u64_be_bytes(x: u64) -> Seq<u8> {
    seq![
        (x >> 56u64) as u8, (x >> 48u64) as u8, (x >> 40u64) as u8, (x >> 32u64) as u8,
        (x >> 24u64) as u8, (x >> 16u64) as u8, (x >> 8u64) as u8, x as u8,
    ]
}

/// The message a signed tree head signs: the tag, the size in big-endian, the root.
pub open spec fn spec_sth_message(tree_size: u64, root: Seq<u8>) -> Seq<u8> {
    DOMAIN_STH@ + u64_be_bytes(tree_size) + root
}

/// `report_data = H(DOMAIN ‖ nonce ‖ kem_pubkey ‖ measurement)`.
pub fn compute_report_data(nonce: &Nonce, kem: &KemPublicKey, m: &Measurement) -> (r: [u8; 32])
    ensures
        r@ == spec_report_data(nonce.0@, kem.0@, m.0@),
        r@ == spec_sha256(DOMAIN_REPORT@ + nonce.0@ + kem.0@ + m.0@),
{
    let parts: [&[u8]; 4] = [&DOMAIN_REPORT, &nonce.0, kem.0.as_slice(), &m.0];
    proof {
        assert(parts_view(parts@) =~= seq![DOMAIN_REPORT@, nonce.0@, kem.0@, m.0@]);
        lemma_join_four(DOMAIN_REPORT@, nonce.0@, kem.0@, m.0@);
    }
    sha256(&parts)
}

/// The big-endian bytes of a `u64`.
fn u64_to_be_bytes(x: u64) -> (b: [u8; 8])
    ensures
        b@ == u64_be_bytes(x),
{
    let b: [u8; 8] = [
        (x >> 56u64) as u8, (x >> 48u64) as u8, (x >> 40u64) as u8, (x >> 32u64) as u8,
        (x >> 24u64) as u8, (x >> 16u64) as u8, (x >> 8u64) as u8, x as u8,
    ];
    assert(b@ =~= u64_be_bytes(x));
    b
}

/// Canonical bytes a signed tree head commits to.
pub fn sth_signing_bytes(tree_size: u64, root: &[u8; 32]) -> (v: Vec<u8>)
    ensures
        v@ == spec_sth_message(tree_size, root@),
{
    let mut v: Vec<u8> = Vec::with_capacity(11 + 8 + 32);
    v.extend_from_slice(&DOMAIN_STH);
    let be = u64_to_be_bytes(tree_size);
    v.extend_from_slice(&be);
    v.extend_from_slice(root);
    assert(v@ =~= spec_sth_message(tree_size, root@));
    v
}

/// The measurement of a loader build: `H("loader-build:" ‖ label ‖ build)`.
pub fn measurement_of(label: &str, build: &[u8]) -> (m: Measurement)
    ensures
        m.0@ == spec_sha256(DOMAIN_BUILD@ + label.spec_bytes() + build@),
{
    let parts: [&[u8]; 3] = [&DOMAIN_BUILD, label.as_bytes(), build];
    proof {
        assert(parts_view(parts@) =~= seq![DOMAIN_BUILD@, label.spec_bytes(), build@]);
        lemma_join_three(DOMAIN_BUILD@, label.spec_bytes(), build@);
    }
    Measurement(sha256(&parts))
}

/// The number of bytes a receipt takes on the wire: the measurement, the
/// report data and the nonce (32 each), the KEM key, the two indices of the
/// inclusion proof (8 each) and its path (32 per hash), and the tree head's
/// size (8), root (32) and signature.
pub open spec fn spec_wire_size(r: Receipt) -> nat {
    32 + 32 + 32 + r.kem_pubkey.0@.len() + 16 + r.inclusion.audit_path@.len() * 32 + 8 + 32
        + r.sth.signature@.len()
}

/// The size of a receipt on the wire, in bytes.
pub fn receipt_wire_bytes(r: &Receipt) -> (n: usize)
    requires
        spec_wire_size(*r) <= usize::MAX,
    ensures
        n == spec_wire_size(*r),
{
    32 + 32 + 32 + r.kem_pubkey.0.len() + 16 + r.inclusion.audit_path.len() * 32 + 8 + 32
        + r.sth.signature.len()
}

} // verus!
