//! Properties of the library as a whole, stated over the models that the
//! functions' contracts use.

use crate::boundary::{placeholder_tag, Anchor, LocalAnchor, PlaceholderSigner, SthSigner};
use crate::hash::{spec_sha256, DOMAIN_LEAF, DOMAIN_NODE, DOMAIN_REPORT, DOMAIN_SIG};
use crate::keyserver::spec_issued;
use crate::log::{lemma_first_index, spec_first_index};
use crate::tree::{
    lemma_path_recomputes_root,
    lemma_split,
    spec_leaf_hash,
    spec_mth,
    spec_node_hash,
    spec_path,
    spec_proves_inclusion,
    spec_root_from_path,
    spec_split,
    split_exp,
    hashes,
};
use crate::types::{
    spec_report_data,
    spec_sth_message,
    spec_wire_size,
    u64_be_bytes,
    Nonce,
    Receipt,
    SignedTreeHead,
};
use crate::verify::{spec_receipt_verdict, VerifyError};
use vstd::arithmetic::power2::{
    pow2,
    lemma_pow2_pos,
    lemma_pow2_strictly_increases,
    lemma_pow2_unfold,
};
use vstd::prelude::*;

verus! {

/// Completeness of inclusion proofs: for a log of any size, the audit path of
/// any leaf proves that leaf's measurement under the log's root, and under no
/// other root.
pub proof fn law_inclusion_proof_verifies(log: Seq<Seq<u8>>, i: nat, m: Seq<u8>)
    requires
        i < log.len(),
        log[i as int] == spec_leaf_hash(m),
    ensures
        spec_proves_inclusion(spec_leaf_hash(m), i, log.len(), spec_path(i, log), spec_mth(log)),
        forall|root: Seq<u8>|
            #[trigger] spec_proves_inclusion(spec_leaf_hash(m), i, log.len(), spec_path(i, log), root)
                <==> root == spec_mth(log),
{
    lemma_path_recomputes_root(i, log);
}

/// A receipt for a logged build, built honestly (the quote attests the build
/// and binds the session, the inclusion proof is the audit path of a leaf
/// logging the build, the tree head is the log's) is never refused for its
/// binding or its inclusion proof: it is accepted exactly when the tree
/// head's signature verifies and its root is anchored.
pub proof fn law_honest_receipt_verdict(
    r: Receipt,
    log: Seq<Seq<u8>>,
    nonce: Nonce,
    signature_ok: bool,
    anchored: bool,
)
    requires
        r.nonce.0@ == nonce.0@,
        r.quote.report_data@ == spec_report_data(
            nonce.0@,
            r.kem_pubkey.0@,
            r.quote.measurement.0@,
        ),
        r.inclusion.leaf_index < log.len(),
        log[r.inclusion.leaf_index as int] == spec_leaf_hash(r.quote.measurement.0@),
        r.inclusion.tree_size == log.len(),
        hashes(r.inclusion.audit_path@) == spec_path(r.inclusion.leaf_index as nat, log),
        r.sth.root@ == spec_mth(log),
    ensures
        spec_receipt_verdict(r, nonce, signature_ok, anchored) == (if !signature_ok {
            Err(VerifyError::SthSignatureInvalid)
        } else if !anchored {
            Err(VerifyError::NotAnchored)
        } else {
            Ok(())
        }),
{
    law_inclusion_proof_verifies(log, r.inclusion.leaf_index as nat, r.quote.measurement.0@);
}

/// A receipt issued by an honest keyserver is never refused for its binding
/// or its inclusion proof: it is accepted exactly when the tree head's
/// signature verifies and its root is anchored.
pub proof fn law_issued_receipt_verdict(
    r: Receipt,
    log: Seq<Seq<u8>>,
    nonce: Nonce,
    kem: Seq<u8>,
    m: Seq<u8>,
    signature_ok: bool,
    anchored: bool,
)
    requires
        spec_issued(r, log, nonce.0@, kem, m),
    ensures
        spec_receipt_verdict(r, nonce, signature_ok, anchored) == (if !signature_ok {
            Err(VerifyError::SthSignatureInvalid)
        } else if !anchored {
            Err(VerifyError::NotAnchored)
        } else {
            Ok(())
        }),
{
    let lh = spec_leaf_hash(m);
    lemma_first_index(log, lh);
    law_honest_receipt_verdict(r, log, nonce, signature_ok, anchored);
}

/// Appending never moves where an already logged hash is first found, and a
/// new hash is found at the position it was appended to.
pub proof fn law_append_keeps_first_index(log: Seq<Seq<u8>>, appended: Seq<u8>, h: Seq<u8>)
    ensures
        spec_first_index(log.push(appended), h) == (match spec_first_index(log, h) {
            Some(j) => Some(j),
            None => if appended == h {
                Some(log.len())
            } else {
                None
            },
        }),
{
    assert(log.push(appended).drop_last() =~= log);
}

/// The bytes a tree head signs are canonical: they determine the tree size
/// and the root.
pub proof fn law_sth_message_determines_head(s1: u64, r1: Seq<u8>, s2: u64, r2: Seq<u8>)
    requires
        spec_sth_message(s1, r1) == spec_sth_message(s2, r2),
    ensures
        s1 == s2,
        r1 == r2,
{
    let a = spec_sth_message(s1, r1);
    let b = spec_sth_message(s2, r2);
    assert(crate::hash::DOMAIN_STH@.len() == 11);
    assert(u64_be_bytes(s1) =~= a.subrange(11, 19));
    assert(u64_be_bytes(s2) =~= b.subrange(11, 19));
    assert(r1 =~= a.subrange(19, a.len() as int));
    assert(r2 =~= b.subrange(19, b.len() as int));
    let x = u64_be_bytes(s1);
    let y = u64_be_bytes(s2);
    assert(x[0] == y[0] && x[1] == y[1] && x[2] == y[2] && x[3] == y[3] && x[4] == y[4] && x[5]
        == y[5] && x[6] == y[6] && x[7] == y[7]);
    assert(((s1 >> 56u64) as u8) == ((s2 >> 56u64) as u8) && ((s1 >> 48u64) as u8) == ((s2
        >> 48u64) as u8) && ((s1 >> 40u64) as u8) == ((s2 >> 40u64) as u8) && ((s1 >> 32u64)
        as u8) == ((s2 >> 32u64) as u8) && ((s1 >> 24u64) as u8) == ((s2 >> 24u64) as u8) && ((
    s1 >> 16u64) as u8) == ((s2 >> 16u64) as u8) && ((s1 >> 8u64) as u8) == ((s2 >> 8u64) as u8)
        && (s1 as u8) == (s2 as u8) ==> s1 == s2) by (bit_vector);
}

/// Domain separation: the bytes hashed for a leaf are never the bytes
/// hashed for an inner node, whatever the measurement and the children.
pub proof fn law_leaf_and_node_inputs_differ(m: Seq<u8>, l: Seq<u8>, r: Seq<u8>)
    ensures
        DOMAIN_LEAF@ + m != DOMAIN_NODE@ + l + r,
{
    assert(DOMAIN_LEAF@[0] == 0u8);
    assert(DOMAIN_NODE@[0] == 1u8);
    assert((DOMAIN_LEAF@ + m)[0] == 0u8);
    assert((DOMAIN_NODE@ + l + r)[0] == 1u8);
}

/// Whether inner-node hashing never maps two different pairs of children to
/// the same hash (what the collision resistance of SHA-256 stands for here).
pub open spec fn node_hash_collision_free() -> bool {
    forall|a: Seq<u8>, b: Seq<u8>, c: Seq<u8>, d: Seq<u8>|
        #[trigger] spec_node_hash(a, b) == #[trigger] spec_node_hash(c, d) ==> a == c && b == d
}

/// An audit path binds its leaf: when node hashing is collision free, one
/// path proves one root for at most one leaf hash at a given position.
pub proof fn law_path_binds_leaf(
    i: nat,
    n: nat,
    leaf1: Seq<u8>,
    leaf2: Seq<u8>,
    path: Seq<Seq<u8>>,
    root: Seq<u8>,
)
    requires
        node_hash_collision_free(),
        spec_root_from_path(i, n, leaf1, path) == Some(root),
        spec_root_from_path(i, n, leaf2, path) == Some(root),
    ensures
        leaf1 == leaf2,
    decreases n,
{
    if n > 1 {
        lemma_split(n);
        let k = spec_split(n);
        let rest = path.drop_last();
        let sib = path.last();
        if i < k {
            let r1 = spec_root_from_path(i, k, leaf1, rest).unwrap();
            let r2 = spec_root_from_path(i, k, leaf2, rest).unwrap();
            assert(spec_node_hash(r1, sib) == spec_node_hash(r2, sib));
            law_path_binds_leaf(i, k, leaf1, leaf2, rest, r1);
        } else {
            let m = (n - k) as nat;
            let j = (i - k) as nat;
            let r1 = spec_root_from_path(j, m, leaf1, rest).unwrap();
            let r2 = spec_root_from_path(j, m, leaf2, rest).unwrap();
            assert(spec_node_hash(sib, r1) == spec_node_hash(sib, r2));
            law_path_binds_leaf(j, m, leaf1, leaf2, rest, r1);
        }
    }
}

/// Whether leaf hashing never maps two different measurements to the same hash.
pub open spec fn leaf_hash_collision_free() -> bool {
    forall|a: Seq<u8>, b: Seq<u8>| #[trigger] spec_leaf_hash(a) == #[trigger] spec_leaf_hash(b) ==> a == b
}

/// Two audit paths that prove one root for the same position of a tree of
/// the same size prove the same leaf hash, when node hashing is collision free.
pub proof fn law_paths_bind_leaf(
    i: nat,
    n: nat,
    leaf1: Seq<u8>,
    leaf2: Seq<u8>,
    path1: Seq<Seq<u8>>,
    path2: Seq<Seq<u8>>,
    root: Seq<u8>,
)
    requires
        node_hash_collision_free(),
        spec_root_from_path(i, n, leaf1, path1) == Some(root),
        spec_root_from_path(i, n, leaf2, path2) == Some(root),
    ensures
        leaf1 == leaf2,
    decreases n,
{
    if n > 1 {
        lemma_split(n);
        let k = spec_split(n);
        let rest1 = path1.drop_last();
        let rest2 = path2.drop_last();
        if i < k {
            let r1 = spec_root_from_path(i, k, leaf1, rest1).unwrap();
            let r2 = spec_root_from_path(i, k, leaf2, rest2).unwrap();
            assert(spec_node_hash(r1, path1.last()) == spec_node_hash(r2, path2.last()));
            law_paths_bind_leaf(i, k, leaf1, leaf2, rest1, rest2, r1);
        } else {
            let m = (n - k) as nat;
            let j = (i - k) as nat;
            let r1 = spec_root_from_path(j, m, leaf1, rest1).unwrap();
            let r2 = spec_root_from_path(j, m, leaf2, rest2).unwrap();
            assert(spec_node_hash(path1.last(), r1) == spec_node_hash(path2.last(), r2));
            law_paths_bind_leaf(j, m, leaf1, leaf2, rest1, rest2, r1);
        }
    }
}

/// Non-equivocation: one root cannot vouch for two different measurements at
/// the same position of a tree of the same size, whatever the two audit paths,
/// when leaf and node hashing are collision free.
pub proof fn law_inclusion_binds_measurement(
    a: Seq<u8>,
    b: Seq<u8>,
    index: nat,
    size: nat,
    path_a: Seq<Seq<u8>>,
    path_b: Seq<Seq<u8>>,
    root: Seq<u8>,
)
    requires
        leaf_hash_collision_free(),
        node_hash_collision_free(),
        spec_proves_inclusion(spec_leaf_hash(a), index, size, path_a, root),
        spec_proves_inclusion(spec_leaf_hash(b), index, size, path_b, root),
    ensures
        a == b,
{
    law_paths_bind_leaf(index, size, spec_leaf_hash(a), spec_leaf_hash(b), path_a, path_b, root);
}

/// RFC 6962 splits at the largest power of two below the size: a list whose
/// first part has `2^j` leaves and whose second part has between 1 and `2^j`
/// hashes to the node of the two parts' tree hashes.
pub proof fn law_mth_splits_at_power_of_two(d1: Seq<Seq<u8>>, d2: Seq<Seq<u8>>, j: nat)
    requires
        d1.len() == pow2(j),
        1 <= d2.len() <= d1.len(),
    ensures
        spec_mth(d1 + d2) == spec_node_hash(spec_mth(d1), spec_mth(d2)),
{
    let d = d1 + d2;
    let n = d.len();
    lemma_pow2_pos(j);
    lemma_split(n);
    let e = split_exp(n);
    lemma_pow2_unfold(j + 1);
    assert(pow2(j) < n <= pow2(j + 1));
    if e + 1 < j {
        lemma_pow2_strictly_increases(e + 1, j);
    } else if e > j + 1 {
        lemma_pow2_strictly_increases(j + 1, e);
    }
    assert(e == j);
    assert(d.take(pow2(j) as int) =~= d1);
    assert(d.skip(pow2(j) as int) =~= d2);
}

/// The log after appending each of `ms` in turn to a log holding `log`.
pub open spec fn spec_appended(log: Seq<Seq<u8>>, ms: Seq<Seq<u8>>) -> Seq<Seq<u8>>
    decreases ms.len(),
{
    if ms.len() == 0 {
        log
    } else {
        spec_appended(log, ms.drop_last()).push(spec_leaf_hash(ms.last()))
    }
}

/// Only appending changes a log, each append by one leaf: after appending
/// `ms` in turn to a new log, it holds their leaf hashes in order, so its
/// length (what `len` returns) is the number of appends.
pub proof fn law_len_counts_appends(ms: Seq<Seq<u8>>)
    ensures
        spec_appended(Seq::empty(), ms) == ms.map_values(|m: Seq<u8>| spec_leaf_hash(m)),
        spec_appended(Seq::empty(), ms).len() == ms.len(),
    decreases ms.len(),
{
    if ms.len() > 0 {
        law_len_counts_appends(ms.drop_last());
        assert(ms.map_values(|m: Seq<u8>| spec_leaf_hash(m)) =~= ms.drop_last().map_values(
            |m: Seq<u8>| spec_leaf_hash(m),
        ).push(spec_leaf_hash(ms.last())));
    } else {
        assert(ms.map_values(|m: Seq<u8>| spec_leaf_hash(m)) =~= Seq::<Seq<u8>>::empty());
    }
}

/// Whether SHA-256 never maps two different byte strings to the same digest
/// (what its collision resistance stands for here).
pub open spec fn sha256_collision_free() -> bool {
    forall|a: Seq<u8>, b: Seq<u8>| #[trigger] spec_sha256(a) == #[trigger] spec_sha256(b) ==> a == b
}

/// The placeholder signature covers the whole message: when SHA-256 does not
/// collide, a signature that a placeholder signer accepts for two messages
/// was made for one message, so a tree head's signature verifies for no
/// other tree head.
pub proof fn law_placeholder_signature_binds_message(
    s: PlaceholderSigner,
    m1: Seq<u8>,
    m2: Seq<u8>,
    sig: Seq<u8>,
)
    requires
        sha256_collision_free(),
        s.spec_verify(m1, sig),
        s.spec_verify(m2, sig),
    ensures
        m1 == m2,
{
    let a = DOMAIN_SIG@ + s.key() + m1;
    let b = DOMAIN_SIG@ + s.key() + m2;
    assert(spec_sha256(a) == spec_sha256(b));
    assert(a == b);
    let p = DOMAIN_SIG@.len() + s.key().len();
    assert(m1 =~= a.subrange(p as int, a.len() as int));
    assert(m2 =~= b.subrange(p as int, b.len() as int));
}

/// The placeholder signature of `msg` is the SHA-256 digest of the signature
/// tag, the key and all of `msg`, for messages of every length.
pub proof fn law_placeholder_tag_is_digest_of_whole_message(key: Seq<u8>, msg: Seq<u8>)
    ensures
        placeholder_tag(key, msg) == spec_sha256(DOMAIN_SIG@ + key + msg),
{
}

/// The attestation binding covers the whole session: when SHA-256 does not
/// collide, two sessions (32-byte nonces and measurements, KEM keys of any
/// length) with the same report data have the same nonce, the same KEM key
/// and the same measurement.
pub proof fn law_report_data_binds_session(
    n1: Seq<u8>,
    k1: Seq<u8>,
    m1: Seq<u8>,
    n2: Seq<u8>,
    k2: Seq<u8>,
    m2: Seq<u8>,
)
    requires
        sha256_collision_free(),
        n1.len() == 32,
        n2.len() == 32,
        m1.len() == 32,
        m2.len() == 32,
        spec_report_data(n1, k1, m1) == spec_report_data(n2, k2, m2),
    ensures
        n1 == n2,
        k1 == k2,
        m1 == m2,
{
    let a = DOMAIN_REPORT@ + n1 + k1 + m1;
    let b = DOMAIN_REPORT@ + n2 + k2 + m2;
    assert(spec_sha256(a) == spec_sha256(b));
    assert(a == b);
    let t: int = DOMAIN_REPORT@.len() as int;
    assert(a.len() == b.len());
    assert(k1.len() == k2.len());
    assert(n1 =~= a.subrange(t, t + 32));
    assert(n2 =~= b.subrange(t, t + 32));
    assert(k1 =~= a.subrange(t + 32, t + 32 + k1.len()));
    assert(k2 =~= b.subrange(t + 32, t + 32 + k2.len()));
    assert(m1 =~= a.subrange(a.len() - 32, a.len() as int));
    assert(m2 =~= b.subrange(b.len() - 32, b.len() as int));
}

/// An accepted receipt carries the client's own nonce, and its report data
/// is the SHA-256 digest of the report tag, that nonce, the receipt's whole
/// KEM key and the attested measurement; its measurement is proved in the
/// signed root.
pub proof fn law_accepted_receipt_binds_session(
    r: Receipt,
    expected_nonce: Nonce,
    signature_ok: bool,
    anchored: bool,
)
    requires
        spec_receipt_verdict(r, expected_nonce, signature_ok, anchored) is Ok,
    ensures
        r.nonce.0@ == expected_nonce.0@,
        r.quote.report_data@ == spec_sha256(
            DOMAIN_REPORT@ + expected_nonce.0@ + r.kem_pubkey.0@ + r.quote.measurement.0@,
        ),
        signature_ok,
        anchored,
        spec_proves_inclusion(
            spec_leaf_hash(r.quote.measurement.0@),
            r.inclusion.leaf_index as nat,
            r.inclusion.tree_size as nat,
            hashes(r.inclusion.audit_path@),
            r.sth.root@,
        ),
{
}

/// A receipt that does not carry the client's nonce is refused for its
/// binding, whatever the rest of it says.
pub proof fn law_foreign_nonce_is_refused(
    r: Receipt,
    expected_nonce: Nonce,
    signature_ok: bool,
    anchored: bool,
)
    requires
        r.nonce.0@ != expected_nonce.0@,
    ensures
        spec_receipt_verdict(r, expected_nonce, signature_ok, anchored) == Err::<(), VerifyError>(
            VerifyError::BindingMismatch,
        ),
{
}

/// The roots of an anchor that was made empty and then given the roots of
/// `roots` in turn.
pub open spec fn spec_anchored_roots(roots: Seq<Seq<u8>>) -> Set<Seq<u8>>
    decreases roots.len(),
{
    if roots.len() == 0 {
        Set::empty()
    } else {
        spec_anchored_roots(roots.drop_last()).insert(roots.last())
    }
}

/// A local anchor counts a tree head as anchored exactly when its root was
/// anchored before: for an anchor made empty and then given the roots of
/// `roots` in turn, a tree head is anchored exactly when `roots` holds its
/// root, whatever its size and signature.
pub proof fn law_local_anchor_holds_exactly_its_roots(
    a: LocalAnchor,
    roots: Seq<Seq<u8>>,
    sth: SignedTreeHead,
)
    requires
        a@ == spec_anchored_roots(roots),
    ensures
        a.spec_is_anchored(sth) <==> roots.contains(sth.root@),
{
    lemma_anchored_roots_contains(roots, sth.root@);
}

proof fn lemma_anchored_roots_contains(roots: Seq<Seq<u8>>, x: Seq<u8>)
    ensures
        spec_anchored_roots(roots).contains(x) <==> roots.contains(x),
    decreases roots.len(),
{
    if roots.len() > 0 {
        let rest = roots.drop_last();
        lemma_anchored_roots_contains(rest, x);
        if rest.contains(x) {
            let i = choose|i: int| 0 <= i < rest.len() && rest[i] == x;
            assert(roots[i] == x);
        }
        if roots.contains(x) && x != roots.last() {
            let i = choose|i: int| 0 <= i < roots.len() && roots[i] == x;
            assert(rest[i] == x);
        }
        assert(roots[roots.len() - 1] == roots.last());
    }
}

/// The wire size of a receipt is the sum of its fields' byte lengths: with
/// no KEM key, no audit path and no signature it is 152 bytes (measurement,
/// report data, nonce and root of 32 bytes, two indices and a size of 8), and
/// between two receipts it differs by one byte per KEM-key byte, 32 bytes per
/// audit-path hash and one byte per signature byte.
pub proof fn law_wire_size_counts_bytes(r1: Receipt, r2: Receipt)
    ensures
        (r1.kem_pubkey.0@.len() == 0 && r1.inclusion.audit_path@.len() == 0
            && r1.sth.signature@.len() == 0) ==> spec_wire_size(r1) == 152,
        spec_wire_size(r2) - spec_wire_size(r1) == (r2.kem_pubkey.0@.len() - r1.kem_pubkey.0@.len())
            + 32 * (r2.inclusion.audit_path@.len() - r1.inclusion.audit_path@.len()) + (
        r2.sth.signature@.len() - r1.sth.signature@.len()),
{
}

} // verus!
