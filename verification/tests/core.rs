use pqtl_core::hex_text::{hex32, hex_bytes, Hex32Error, HexError};
use pqtl_core::keyserver::keyserver_issue;
use pqtl_core::log::{inclusion_shifts_in_range, leaf_hash, node_hash, verify_inclusion, TransparencyLog};
use pqtl_core::verify::{verify_receipt, verify_receipt_against_root, VerifyError};
use pqtl_core::{
    compute_report_data, measurement_of, receipt_wire_bytes, sha256, sth_signing_bytes, Anchor,
    InclusionProof, KemPublicKey, LocalAnchor, Measurement, MockQuoteProvider, Nonce,
    PlaceholderSigner, QuoteProvider, Receipt, SignedTreeHead, SthSigner,
};
use sha2::{Digest, Sha256};

fn m(tag: &str) -> Measurement {
    Measurement(sha256(&[b"build", tag.as_bytes()]))
}

fn digest(data: &[u8]) -> [u8; 32] {
    let d = Sha256::digest(data);
    let mut out = [0u8; 32];
    out.copy_from_slice(&d);
    out
}

fn concat(parts: &[&[u8]]) -> Vec<u8> {
    let mut v = Vec::new();
    for p in parts {
        v.extend_from_slice(p);
    }
    v
}

#[test]
fn inclusion_proofs_validate_for_all_sizes() {
    for n in 1u64..=33 {
        let mut log = TransparencyLog::new();
        for i in 0..n {
            log.append(&m(&format!("leaf-{i}")));
        }
        let root = log.root();
        for i in 0..n {
            let proof = log.inclusion_proof(i).expect("proof exists");
            assert!(
                verify_inclusion(&m(&format!("leaf-{i}")), &proof, &root),
                "n={n} i={i} should verify"
            );
        }
    }
}

#[test]
fn wrong_leaf_fails_inclusion() {
    let mut log = TransparencyLog::new();
    log.append(&m("a"));
    log.append(&m("b"));
    let root = log.root();
    let proof = log.inclusion_proof(0).unwrap();
    assert!(!verify_inclusion(&m("b"), &proof, &root));
}

#[test]
fn full_receipt_roundtrip_and_attack() {
    let mut log = TransparencyLog::new();
    let signer = PlaceholderSigner::new(b"op");
    let qp = MockQuoteProvider;
    let mut anchor = LocalAnchor::default();

    let honest = m("honest");
    let idx = log.append(&honest);
    let sth = log.signed_tree_head(&signer);
    anchor.anchor(&sth);

    let nonce = Nonce(sha256(&[b"n1"]));
    let kem = KemPublicKey(b"pk".to_vec());

    let good = Receipt {
        quote: qp.quote(&nonce, &kem, &honest),
        nonce: nonce.clone(),
        kem_pubkey: kem.clone(),
        inclusion: log.inclusion_proof(idx).unwrap(),
        sth: log.signed_tree_head(&signer),
    };
    assert!(verify_receipt(&good, &nonce, &signer, &anchor).is_ok());

    // Ghost build, never logged: forge a receipt reusing the honest inclusion proof.
    let ghost = m("ghost");
    let forged = Receipt {
        quote: qp.quote(&nonce, &kem, &ghost),
        nonce: nonce.clone(),
        kem_pubkey: kem.clone(),
        inclusion: log.inclusion_proof(idx).unwrap(),
        sth: log.signed_tree_head(&signer),
    };
    assert_eq!(
        verify_receipt(&forged, &nonce, &signer, &anchor),
        Err(VerifyError::InclusionInvalid)
    );
}

#[test]
fn sha256_hashes_the_concatenation_of_parts() {
    let h = sha256(&[b"a", b"", b"bc"]);
    assert_eq!(
        h.to_vec(),
        vec![
            0xba, 0x78, 0x16, 0xbf, 0x8f, 0x01, 0xcf, 0xea, 0x41, 0x41, 0x40, 0xde, 0x5d, 0xae,
            0x22, 0x23, 0xb0, 0x03, 0x61, 0xa3, 0x96, 0x17, 0x7a, 0x9c, 0xb4, 0x10, 0xff, 0x61,
            0xf2, 0x00, 0x15, 0xad
        ]
    );
    assert_eq!(sha256(&[]), digest(b""));
}

#[test]
fn leaf_and_node_hashes_are_domain_separated() {
    let x = m("x");
    assert_eq!(leaf_hash(&x), digest(&concat(&[&[0u8], &x.0])));
    let l = [7u8; 32];
    let r = [9u8; 32];
    assert_eq!(node_hash(&l, &r), digest(&concat(&[&[1u8], &l, &r])));
    assert_ne!(node_hash(&l, &r), node_hash(&r, &l));
}

#[test]
fn roots_of_small_logs() {
    let mut log = TransparencyLog::new();
    assert!(log.is_empty());
    assert_eq!(log.root(), digest(b"pqtl:empty-tree"));
    let a = m("a");
    let b = m("b");
    let c = m("c");
    log.append(&a);
    assert_eq!(log.root(), leaf_hash(&a));
    log.append(&b);
    let ab = node_hash(&leaf_hash(&a), &leaf_hash(&b));
    assert_eq!(log.root(), ab);
    log.append(&c);
    assert_eq!(log.len(), 3);
    assert!(!log.is_empty());
    assert_eq!(log.root(), node_hash(&ab, &leaf_hash(&c)));
}

#[test]
fn audit_paths_of_a_three_leaf_log() {
    let mut log = TransparencyLog::new();
    let (a, b, c) = (m("a"), m("b"), m("c"));
    log.append(&a);
    log.append(&b);
    log.append(&c);
    let ab = node_hash(&leaf_hash(&a), &leaf_hash(&b));
    let p0 = log.inclusion_proof(0).unwrap();
    assert_eq!((p0.leaf_index, p0.tree_size), (0, 3));
    assert_eq!(p0.audit_path, vec![leaf_hash(&b), leaf_hash(&c)]);
    let p2 = log.inclusion_proof(2).unwrap();
    assert_eq!(p2.audit_path, vec![ab]);
    assert!(log.inclusion_proof(3).is_none());
    assert!(TransparencyLog::new().inclusion_proof(0).is_none());
}

#[test]
fn malformed_inclusion_proofs_are_rejected() {
    let mut log = TransparencyLog::new();
    for i in 0..5 {
        log.append(&m(&format!("e{i}")));
    }
    let root = log.root();
    let good = log.inclusion_proof(3).unwrap();
    assert!(verify_inclusion(&m("e3"), &good, &root));
    // index out of range
    let out = InclusionProof { leaf_index: 5, tree_size: 5, audit_path: good.audit_path.clone() };
    assert!(!verify_inclusion(&m("e3"), &out, &root));
    // path one hash too short, and one too long
    let mut short = good.clone();
    short.audit_path.pop();
    assert!(!verify_inclusion(&m("e3"), &short, &root));
    let mut long = good.clone();
    long.audit_path.push(root);
    assert!(!verify_inclusion(&m("e3"), &long, &root));
    // wrong root
    assert!(!verify_inclusion(&m("e3"), &good, &[0u8; 32]));
    // wrong claimed size: a tree of 4 has a different shape
    let resized = InclusionProof { tree_size: 4, ..good.clone() };
    assert!(!verify_inclusion(&m("e3"), &resized, &root));
}

#[test]
fn find_returns_the_first_occurrence() {
    let mut log = TransparencyLog::new();
    let a = m("a");
    let b = m("b");
    assert_eq!(log.find(&a), None);
    assert_eq!(log.append(&a), 0);
    assert_eq!(log.append(&b), 1);
    assert_eq!(log.append(&a), 2);
    assert_eq!(log.find(&a), Some(0));
    assert_eq!(log.find(&b), Some(1));
    assert_eq!(log.find(&m("c")), None);
    assert_eq!(log.append(&m("c")), 3);
    assert_eq!(log.find(&m("c")), Some(3));
}

#[test]
fn sth_signing_bytes_layout() {
    let root = [0xabu8; 32];
    let v = sth_signing_bytes(0x0102_0304_0506_0708, &root);
    let mut expected = b"pqtl:sth-v1".to_vec();
    expected.extend_from_slice(&[1, 2, 3, 4, 5, 6, 7, 8]);
    expected.extend_from_slice(&root);
    assert_eq!(v, expected);
    assert_ne!(sth_signing_bytes(1, &root), sth_signing_bytes(2, &root));
}

#[test]
fn report_data_binds_nonce_key_and_measurement() {
    let nonce = Nonce([3u8; 32]);
    let kem = KemPublicKey(b"pk".to_vec());
    let meas = m("x");
    let r = compute_report_data(&nonce, &kem, &meas);
    assert_eq!(r, digest(&concat(&[b"pqtl:attest:report-v1", &nonce.0, &kem.0, &meas.0])));
    let q = MockQuoteProvider.quote(&nonce, &kem, &meas);
    assert_eq!(q.measurement, meas);
    assert_eq!(q.report_data, r);
    assert_ne!(compute_report_data(&Nonce([4u8; 32]), &kem, &meas), r);
}

#[test]
fn placeholder_signer_signs_and_verifies() {
    let s = PlaceholderSigner::new(b"op");
    let key = digest(&concat(&[b"pqtl:placeholder-seed", b"op"]));
    let sig = s.sign(b"msg");
    assert_eq!(sig, digest(&concat(&[b"pqtl:placeholder-sig", &key, b"msg"])).to_vec());
    assert!(s.verify(b"msg", &sig));
    assert!(!s.verify(b"msh", &sig));
    let mut bad = sig.clone();
    bad[0] ^= 1;
    assert!(!s.verify(b"msg", &bad));
    assert!(!s.verify(b"msg", &sig[..31]));
    assert!(!PlaceholderSigner::new(b"other").verify(b"msg", &sig));
}

#[test]
fn local_anchor_records_roots() {
    let mut a = LocalAnchor::default();
    let sth = |root: [u8; 32], size: u64| SignedTreeHead { tree_size: size, root, signature: vec![] };
    assert!(!a.is_anchored(&sth([1u8; 32], 1)));
    a.anchor(&sth([1u8; 32], 1));
    a.anchor(&sth([1u8; 32], 1));
    assert!(a.is_anchored(&sth([1u8; 32], 7)));
    assert!(!a.is_anchored(&sth([2u8; 32], 1)));
    a.anchor(&sth([2u8; 32], 2));
    assert!(a.is_anchored(&sth([1u8; 32], 1)));
    assert!(a.is_anchored(&sth([2u8; 32], 2)));
}

fn honest_setup() -> (TransparencyLog, PlaceholderSigner, LocalAnchor, Nonce, KemPublicKey, Receipt)
{
    let mut log = TransparencyLog::new();
    log.append(&m("other"));
    log.append(&m("honest"));
    log.append(&m("later"));
    let signer = PlaceholderSigner::new(b"op");
    let mut anchor = LocalAnchor::default();
    anchor.anchor(&log.signed_tree_head(&signer));
    let nonce = Nonce(sha256(&[b"n1"]));
    let kem = KemPublicKey(b"pk".to_vec());
    let r = keyserver_issue(&log, &signer, &MockQuoteProvider, &nonce, &kem, &m("honest"))
        .expect("logged build is released");
    (log, signer, anchor, nonce, kem, r)
}

#[test]
fn keyserver_issues_only_for_logged_builds() {
    let (log, signer, anchor, nonce, kem, r) = honest_setup();
    assert_eq!(r.inclusion.leaf_index, 1);
    assert_eq!(r.inclusion.tree_size, 3);
    assert_eq!(r.sth.root, log.root());
    assert_eq!(verify_receipt(&r, &nonce, &signer, &anchor), Ok(()));
    assert!(keyserver_issue(&log, &signer, &MockQuoteProvider, &nonce, &kem, &m("ghost")).is_none());
}

#[test]
fn each_refusal_reason_is_reported() {
    let (_log, signer, anchor, nonce, _kem, r) = honest_setup();
    // wrong session nonce
    assert_eq!(
        verify_receipt(&r, &Nonce([0u8; 32]), &signer, &anchor),
        Err(VerifyError::BindingMismatch)
    );
    let mut rebound = r.clone();
    rebound.kem_pubkey = KemPublicKey(b"other-pk".to_vec());
    assert_eq!(verify_receipt(&rebound, &nonce, &signer, &anchor), Err(VerifyError::BindingMismatch));
    // tampered tree-head signature
    let mut tampered = r.clone();
    tampered.sth.signature[0] ^= 1;
    assert_eq!(
        verify_receipt(&tampered, &nonce, &signer, &anchor),
        Err(VerifyError::SthSignatureInvalid)
    );
    // a different operator key
    assert_eq!(
        verify_receipt(&r, &nonce, &PlaceholderSigner::new(b"evil"), &anchor),
        Err(VerifyError::SthSignatureInvalid)
    );
    // proof for another leaf
    let mut moved = r.clone();
    moved.inclusion.leaf_index = 0;
    assert_eq!(verify_receipt(&moved, &nonce, &signer, &anchor), Err(VerifyError::InclusionInvalid));
    // root never anchored (split view)
    assert_eq!(
        verify_receipt(&r, &nonce, &signer, &LocalAnchor::default()),
        Err(VerifyError::NotAnchored)
    );
}

#[test]
fn measurement_and_wire_size() {
    let meas = measurement_of("v1.0", b"<bytes>");
    assert_eq!(meas.0, digest(b"loader-build:v1.0<bytes>"));
    let (_log, _signer, _anchor, _nonce, _kem, r) = honest_setup();
    let expected = 32 + 32 + 32 + 2 + 16 + r.inclusion.audit_path.len() * 32 + 8 + 32 + 32;
    assert_eq!(receipt_wire_bytes(&r), expected);
    assert_eq!(r.inclusion.audit_path.len(), 2);
}

#[test]
fn hex_text_decodes_and_reports_errors() {
    assert_eq!(hex_bytes("00ff7A"), Ok(vec![0x00, 0xff, 0x7a]));
    assert_eq!(hex_bytes(""), Ok(vec![]));
    assert_eq!(hex_bytes("abc"), Err(HexError::OddLength));
    assert_eq!(hex_bytes("0g1z"), Err(HexError::InvalidHexCharacter { c: 'g', index: 1 }));
    let text = "000102030405060708090a0b0c0d0e0f101112131415161718191a1b1c1d1e1f";
    let mut expected = [0u8; 32];
    for (i, b) in expected.iter_mut().enumerate() {
        *b = i as u8;
    }
    assert_eq!(hex32(text), Ok(expected));
    assert_eq!(hex32("00"), Err(Hex32Error::NotThirtyTwoBytes));
    assert_eq!(hex32("0"), Err(Hex32Error::Hex(HexError::OddLength)));
    assert_eq!(hex32(" 0"), Err(Hex32Error::Hex(HexError::OddLength)));
    assert_eq!(hex32(&format!(" \t{text}\n\u{3000}")), Ok(expected));
    assert_eq!(
        hex32(" 0x"),
        Err(Hex32Error::Hex(HexError::InvalidHexCharacter { c: 'x', index: 1 }))
    );
}

#[test]
fn receipt_checked_against_an_out_of_band_root() {
    let (log, signer, _anchor, nonce, _kem, r) = honest_setup();
    assert_eq!(verify_receipt_against_root(&r, &nonce, &signer, &log.root()), Ok(()));
    assert_eq!(
        verify_receipt_against_root(&r, &nonce, &signer, &[0u8; 32]),
        Err(VerifyError::NotAnchored)
    );
}

#[test]
fn shift_range_of_inclusion_proofs() {
    let p = |leaf_index: u64, tree_size: u64| InclusionProof { leaf_index, tree_size, audit_path: vec![] };
    assert!(inclusion_shifts_in_range(&p(3, 5)));
    assert!(inclusion_shifts_in_range(&p(9, 5)));
    assert!(inclusion_shifts_in_range(&p(1 << 63, u64::MAX)));
    assert!(!inclusion_shifts_in_range(&p(0, u64::MAX)));
    assert!(inclusion_shifts_in_range(&p(0, 1 << 63)));
}

#[test]
fn trust_boundaries_as_trait_objects() {
    let (log, signer, anchor, nonce, kem, r) = honest_setup();
    let s: &dyn SthSigner = &signer;
    let a: &dyn Anchor = &anchor;
    let q: &dyn QuoteProvider = &MockQuoteProvider;
    assert_eq!(verify_receipt(&r, &nonce, s, a), Ok(()));
    let sth = log.signed_tree_head(s);
    assert!(s.verify(&sth_signing_bytes(sth.tree_size, &sth.root), &sth.signature));
    assert!(keyserver_issue(&log, s, q, &nonce, &kem, &m("honest")).is_some());
}

#[test]
fn tree_hash_splits_at_a_power_of_two() {
    let ms: Vec<Measurement> = (0..6).map(|i| m(&format!("p{i}"))).collect();
    let mut whole = TransparencyLog::new();
    let mut first = TransparencyLog::new();
    let mut second = TransparencyLog::new();
    for (i, x) in ms.iter().enumerate() {
        whole.append(x);
        if i < 4 {
            first.append(x);
        } else {
            second.append(x);
        }
    }
    assert_eq!(whole.root(), node_hash(&first.root(), &second.root()));
}

#[test]
fn len_counts_appends() {
    let mut log = TransparencyLog::new();
    let signer = PlaceholderSigner::new(b"op");
    for k in 0..10u64 {
        assert_eq!(log.len(), k);
        let _ = log.root();
        let _ = log.find(&m("dup"));
        let _ = log.inclusion_proof(0);
        let _ = log.signed_tree_head(&signer);
        assert_eq!(log.is_empty(), k == 0);
        log.append(&m("dup"));
    }
    assert_eq!(log.len(), 10);
    assert_eq!(signer.sign(b"x").len(), 32);
}
