//! The client-side receipt check: given a session receipt, decide whether
//! the session ran on a publicly logged build.

use crate::boundary::{Anchor, LocalAnchor, SthSigner};
use crate::log::{hash_eq, proof_shifts_in_range, verify_inclusion};
use crate::hash::{spec_sha256, DOMAIN_REPORT};
use crate::tree::{hashes, spec_leaf_hash, spec_proves_inclusion};
use crate::types::{
    compute_report_data,
    sth_signing_bytes,
    spec_report_data,
    spec_sth_message,
    Nonce,
    Receipt,
    SignedTreeHead,
};
use vstd::prelude::*;

verus! {

/// Why a receipt is refused.
#[derive(Debug, PartialEq, Eq, Structural)]
pub enum VerifyError {
    /// report_data does not bind our nonce, the KEM key and the measurement.
    BindingMismatch,
    /// The signed tree head's signature does not verify.
    SthSignatureInvalid,
    /// The attested measurement is not proven to be in the signed root.
    InclusionInvalid,
    /// The signed root was never witnessed/anchored (possible split-view).
    NotAnchored,
}

/// Whether the receipt carries our nonce and its quote binds that nonce, the
/// receipt's KEM key and the attested measurement.
pub open spec fn spec_binding_ok(r: Receipt, expected_nonce: Nonce) -> bool {
    &&& r.nonce.0@ == expected_nonce.0@
    &&& r.quote.report_data@ == spec_report_data(
        expected_nonce.0@,
        r.kem_pubkey.0@,
        r.quote.measurement.0@,
    )
}

/// Whether the receipt's inclusion proof shows the attested measurement in
/// the signed root.
pub open spec fn spec_inclusion_ok(r: Receipt) -> bool {
    spec_proves_inclusion(
        spec_leaf_hash(r.quote.measurement.0@),
        r.inclusion.leaf_index as nat,
        r.inclusion.tree_size as nat,
        hashes(r.inclusion.audit_path@),
        r.sth.root@,
    )
}

/// The verdict on a receipt, given whether the signer accepts the tree head's
/// signature and whether the anchor has seen the tree head: the first failing
/// check, in the order binding, signature, inclusion, anchor.
pub open spec fn spec_receipt_verdict(
    r: Receipt,
    expected_nonce: Nonce,
    signature_ok: bool,
    anchored: bool,
) -> Result<(), VerifyError> {
    if !spec_binding_ok(r, expected_nonce) {
        Err(VerifyError::BindingMismatch)
    } else if !signature_ok {
        Err(VerifyError::SthSignatureInvalid)
    } else if !spec_inclusion_ok(r) {
        Err(VerifyError::InclusionInvalid)
    } else if !anchored {
        Err(VerifyError::NotAnchored)
    } else {
        Ok(())
    }
}

/// The full client check. Order matters: cheapest / most-specific first.
pub fn verify_receipt<S: SthSigner + ?Sized, A: Anchor + ?Sized>(
    r: &Receipt,
    expected_nonce: &Nonce,
    signer: &S,
    anchor: &A,
) -> (res: Result<(), VerifyError>)
    requires
        spec_binding_ok(*r, *expected_nonce) && signer.spec_verify(
            spec_sth_message(r.sth.tree_size, r.sth.root@),
            r.sth.signature@,
        ) ==> proof_shifts_in_range(r.inclusion),
    ensures
        res == spec_receipt_verdict(
            *r,
            *expected_nonce,
            signer.spec_verify(spec_sth_message(r.sth.tree_size, r.sth.root@), r.sth.signature@),
            anchor.spec_is_anchored(r.sth),
        ),
        res is Ok ==> r.nonce.0@ == expected_nonce.0@,
        res is Ok ==> r.quote.report_data@ == spec_sha256(
            DOMAIN_REPORT@ + expected_nonce.0@ + r.kem_pubkey.0@ + r.quote.measurement.0@,
        ),
        r.nonce.0@ != expected_nonce.0@ ==> res == Err::<(), VerifyError>(
            VerifyError::BindingMismatch,
        ),
{
    // 1. Binding: the quote must commit to OUR nonce, this KEM key, this measurement.
    let expected = compute_report_data(expected_nonce, &r.kem_pubkey, &r.quote.measurement);
    if !hash_eq(&r.nonce.0, &expected_nonce.0) || !hash_eq(&r.quote.report_data, &expected) {
        return Err(VerifyError::BindingMismatch);
    }
    // 2. The log operator really signed this (size, root).
    let bytes = sth_signing_bytes(r.sth.tree_size, &r.sth.root);
    if !signer.verify(bytes.as_slice(), r.sth.signature.as_slice()) {
        return Err(VerifyError::SthSignatureInvalid);
    }
    // 3. The attested measurement is included in that signed root.
    if !verify_inclusion(&r.quote.measurement, &r.inclusion, &r.sth.root) {
        return Err(VerifyError::InclusionInvalid);
    }
    // 4. Non-equivocation: the signed root is one the witnesses/anchor saw.
    if !anchor.is_anchored(&r.sth) {
        return Err(VerifyError::NotAnchored);
    }
    Ok(())
}

/// The client check against a root obtained out of band (from a witness,
/// gossip or an on-chain anchor): the receipt's tree head counts as anchored
/// exactly when its root is that root, which defeats a split view.
pub fn verify_receipt_against_root<S: SthSigner + ?Sized>(
    r: &Receipt,
    expected_nonce: &Nonce,
    signer: &S,
    trusted_root: &[u8; 32],
) -> (res: Result<(), VerifyError>)
    requires
        spec_binding_ok(*r, *expected_nonce) && signer.spec_verify(
            spec_sth_message(r.sth.tree_size, r.sth.root@),
            r.sth.signature@,
        ) ==> proof_shifts_in_range(r.inclusion),
    ensures
        res == spec_receipt_verdict(
            *r,
            *expected_nonce,
            signer.spec_verify(spec_sth_message(r.sth.tree_size, r.sth.root@), r.sth.signature@),
            r.sth.root@ == trusted_root@,
        ),
        res is Ok ==> r.nonce.0@ == expected_nonce.0@ && r.sth.root@ == trusted_root@,
        r.nonce.0@ != expected_nonce.0@ ==> res == Err::<(), VerifyError>(
            VerifyError::BindingMismatch,
        ),
{
    let mut anchor = LocalAnchor::default();
    anchor.anchor(&SignedTreeHead { tree_size: 0, root: *trusted_root, signature: Vec::new() });
    proof {
        assert(anchor@ =~= Set::<Seq<u8>>::empty().insert(trusted_root@));
    }
    verify_receipt(r, expected_nonce, signer, &anchor)
}

} // verus!
