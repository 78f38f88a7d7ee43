//! The trust boundaries of the system, each a trait: who produces quotes, who
//! signs tree heads, and who makes a root non-equivocal; and the in-process
//! implementations of each.

use crate::hash::{sha256, spec_sha256, DOMAIN_REPORT, DOMAIN_SEED, DOMAIN_SIG};
use crate::tree::hashes;
use crate::types::{
    compute_report_data,
    spec_report_data,
    KemPublicKey,
    Measurement,
    Nonce,
    Quote,
    SignedTreeHead,
};
use vstd::prelude::*;
use vstd::slice::slice_to_vec;

verus! {

/// Produces an attestation quote for a session. A quote attests the given
/// measurement and binds the session through `report_data`.
pub trait QuoteProvider {
    fn quote(&self, nonce: &Nonce, kem_pubkey: &KemPublicKey, measurement: &Measurement) -> (q:
        Quote)
        ensures
            q.measurement.0@ == measurement.0@,
            q.report_data@ == spec_report_data(nonce.0@, kem_pubkey.0@, measurement.0@),
    ;
}

/// Signs and verifies signed tree heads. `spec_verify` says which signatures
/// this signer accepts for a message; what `sign` produces is accepted.
pub trait SthSigner {
    spec fn spec_verify(&self, msg: Seq<u8>, sig: Seq<u8>) -> bool;

    fn sign(&self, msg: &[u8]) -> (sig: Vec<u8>)
        ensures
            self.spec_verify(msg@, sig@),
    ;

    fn verify(&self, msg: &[u8], sig: &[u8]) -> (ok: bool)
        ensures
            ok == self.spec_verify(msg@, sig@),
    ;
}

/// Makes the log's history non-equivocal (anti split-view). `spec_is_anchored`
/// says which tree heads count as witnessed.
pub trait Anchor {
    spec fn spec_is_anchored(&self, sth: SignedTreeHead) -> bool;

    fn anchor(&mut self, sth: &SignedTreeHead);

    fn is_anchored(&self, sth: &SignedTreeHead) -> (r: bool)
        ensures
            r == self.spec_is_anchored(*sth),
    ;
}

/// Stand-in for a hardware quote: computes the binding honestly.
pub struct MockQuoteProvider;

impl QuoteProvider for MockQuoteProvider {
    fn quote(&self, nonce: &Nonce, kem_pubkey: &KemPublicKey, measurement: &Measurement) -> (q:
        Quote)
        ensures
            q.measurement == *measurement,
            q.report_data@ == spec_sha256(
                DOMAIN_REPORT@ + nonce.0@ + kem_pubkey.0@ + measurement.0@,
            ),
    {
        Quote {
            measurement: Measurement(measurement.0),
            report_data: compute_report_data(nonce, kem_pubkey, measurement),
        }
    }
}

/// Whether two byte strings are equal.
fn bytes_eq(a: &[u8], b: &[u8]) -> (eq: bool)
    ensures
        eq == (a@ == b@),
{
    if a.len() != b.len() {
        return false;
    }
    let mut i: usize = 0;
    while i < a.len()
        invariant
            a@.len() == b@.len(),
            i <= a@.len(),
            forall|j: int| 0 <= j < i ==> a@[j] == b@[j],
        decreases a.len() - i,
    {
        if a[i] != b[i] {
            return false;
        }
        i = i + 1;
    }
    assert(a@ =~= b@);
    true
}

/// The keyed tag the placeholder signer attaches to `msg`:
/// `H("pqtl:placeholder-sig" ‖ key ‖ msg)`.
pub open spec fn placeholder_tag(key: Seq<u8>, msg: Seq<u8>) -> Seq<u8> {
    spec_sha256(DOMAIN_SIG@ + key + msg)
}

/// Placeholder signer: `sig = H("pqtl:placeholder-sig" ‖ key ‖ msg)`. A keyed
/// tag standing in for a signature; it is symmetric (sign key == verify key).
pub struct PlaceholderSigner {
    key: [u8; 32],
}

impl PlaceholderSigner {
    /// The secret key of the signer.
    pub closed spec fn key(&self) -> Seq<u8> {
        self.key@
    }

    /// A signer whose key is `H("pqtl:placeholder-seed" ‖ seed)`.
    pub fn new(seed: &[u8]) -> (s: Self)
        ensures
            s.key() == spec_sha256(DOMAIN_SEED@ + seed@),
    {
        let parts: [&[u8]; 2] = [&DOMAIN_SEED, seed];
        proof {
            assert(crate::hash::parts_view(parts@) =~= seq![DOMAIN_SEED@, seed@]);
            crate::hash::lemma_join_two(DOMAIN_SEED@, seed@);
        }
        PlaceholderSigner { key: sha256(&parts) }
    }
}

impl SthSigner for PlaceholderSigner {
    open spec fn spec_verify(&self, msg: Seq<u8>, sig: Seq<u8>) -> bool {
        sig == placeholder_tag(self.key(), msg)
    }

    fn sign(&self, msg: &[u8]) -> (sig: Vec<u8>)
        ensures
            sig@ == placeholder_tag(self.key(), msg@),
            sig@ == spec_sha256(DOMAIN_SIG@ + self.key() + msg@),
            sig@.len() == 32,
    {
        let parts: [&[u8]; 3] = [&DOMAIN_SIG, &self.key, msg];
        proof {
            assert(crate::hash::parts_view(parts@) =~= seq![DOMAIN_SIG@, self.key@, msg@]);
            crate::hash::lemma_join_three(DOMAIN_SIG@, self.key@, msg@);
        }
        let h = sha256(&parts);
        slice_to_vec(&h)
    }

    fn verify(&self, msg: &[u8], sig: &[u8]) -> (ok: bool) {
        let expected = self.sign(msg);
        bytes_eq(expected.as_slice(), sig)
    }
}

/// In-memory anchor: the set of roots it has witnessed.
pub struct LocalAnchor {
    roots: Vec<[u8; 32]>,
}

impl View for LocalAnchor {
    type V = Set<Seq<u8>>;

    closed spec fn view(&self) -> Set<Seq<u8>> {
        hashes(self.roots@).to_set()
    }
}

impl LocalAnchor {
    /// Each root is held once.
    #[verifier::type_invariant]
    closed spec fn roots_distinct(&self) -> bool {
        hashes(self.roots@).no_duplicates()
    }
}

impl Default for LocalAnchor {
    fn default() -> (a: Self)
        ensures
            a@ == Set::<Seq<u8>>::empty(),
    {
        let a = LocalAnchor { roots: Vec::new() };
        assert(hashes(a.roots@) =~= Seq::<Seq<u8>>::empty());
        assert(a@ =~= Set::<Seq<u8>>::empty());
        a
    }
}

impl Anchor for LocalAnchor {
    open spec fn spec_is_anchored(&self, sth: SignedTreeHead) -> bool {
        self@.contains(sth.root@)
    }

    fn anchor(&mut self, sth: &SignedTreeHead)
        ensures
            final(self)@ == old(self)@.insert(sth.root@),
    {
        proof {
            use_type_invariant(&*self);
        }
        if !self.is_anchored(sth) {
            let ghost old_roots = hashes(self.roots@);
            let mut roots = Vec::new();
            std::mem::swap(&mut roots, &mut self.roots);
            roots.push(sth.root);
            proof {
                assert(hashes(roots@) =~= old_roots.push(sth.root@));
                assert(hashes(roots@).no_duplicates());
                old_roots.lemma_push_to_set_commute(sth.root@);
            }
            self.roots = roots;
        }
    }

    fn is_anchored(&self, sth: &SignedTreeHead) -> (r: bool)
        ensures
            r == self@.contains(sth.root@),
    {
        let mut i: usize = 0;
        while i < self.roots.len()
            invariant
                i <= self.roots@.len(),
                forall|j: int| 0 <= j < i ==> hashes(self.roots@)[j] != sth.root@,
            decreases self.roots.len() - i,
        {
            if bytes_eq(&self.roots[i], &sth.root) {
                assert(hashes(self.roots@)[i as int] == sth.root@);
                return true;
            }
            i = i + 1;
        }
        assert(!hashes(self.roots@).contains(sth.root@));
        false
    }
}

} // verus!
