//! The keyserver's release policy: a client-verifiable receipt is issued only
//! for a measurement that is in the public log.

use crate::boundary::{QuoteProvider, SthSigner};
use crate::log::{spec_first_index, TransparencyLog};
use crate::tree::{hashes, spec_leaf_hash, spec_mth, spec_path};
use crate::types::{spec_report_data, spec_sth_message, KemPublicKey, Measurement, Nonce, Receipt};
use vstd::prelude::*;
use vstd::slice::slice_to_vec;

verus! {

/// A receipt as an honest keyserver issues it from a log whose leaf hashes
/// are `log`, for the session (`nonce`, `kem`) and the measurement `m`: the
/// quote attests `m` and binds the session, the inclusion proof is the audit
/// path of the first leaf logging `m`, and the tree head is the log's.
pub open spec fn spec_issued(
    r: Receipt,
    log: Seq<Seq<u8>>,
    nonce: Seq<u8>,
    kem: Seq<u8>,
    m: Seq<u8>,
) -> bool {
    &&& r.quote.measurement.0@ == m
    &&& r.quote.report_data@ == spec_report_data(nonce, kem, m)
    &&& r.nonce.0@ == nonce
    &&& r.kem_pubkey.0@ == kem
    &&& spec_first_index(log, spec_leaf_hash(m)) == Some(r.inclusion.leaf_index as nat)
    &&& r.inclusion.tree_size == log.len()
    &&& hashes(r.inclusion.audit_path@) == spec_path(r.inclusion.leaf_index as nat, log)
    &&& r.sth.tree_size == log.len()
    &&& r.sth.root@ == spec_mth(log)
}

/// Keyserver release policy: issue a client-verifiable receipt only if the
/// attested measurement is in the public log; `None` means release refused.
pub fn keyserver_issue<S: SthSigner + ?Sized, Q: QuoteProvider + ?Sized>(
    log: &TransparencyLog,
    signer: &S,
    qp: &Q,
    nonce: &Nonce,
    kem: &KemPublicKey,
    measurement: &Measurement,
) -> (issued: Option<Receipt>)
    ensures
        issued is Some <==> spec_first_index(log@, spec_leaf_hash(measurement.0@)) is Some,
        issued matches Some(r) ==> {
            &&& spec_issued(r, log@, nonce.0@, kem.0@, measurement.0@)
            &&& signer.spec_verify(spec_sth_message(r.sth.tree_size, r.sth.root@), r.sth.signature@)
            &&& exists|msg: &[u8]|
                msg@ == spec_sth_message(r.sth.tree_size, r.sth.root@) && call_ensures(
                    S::sign,
                    (signer, msg),
                    r.sth.signature,
                )
        },
{
    let idx = log.find(measurement)?;  // policy gate: must be publicly logged
    proof {
        crate::log::lemma_first_index(log@, spec_leaf_hash(measurement.0@));
    }
    let receipt = Receipt {
        quote: qp.quote(nonce, kem, measurement),
        nonce: Nonce(nonce.0),
        kem_pubkey: KemPublicKey(slice_to_vec(kem.0.as_slice())),
        inclusion: log.inclusion_proof(idx)?,
        sth: log.signed_tree_head(signer),
    };
    Some(receipt)
}

} // verus!
