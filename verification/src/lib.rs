//! A transparency layer for confidential inference: an append-only Merkle log
//! of loader-build measurements, signed tree heads, and the client-side check
//! of a session receipt.
//!
//! - `hash`: SHA-256 over concatenated parts, and the domain-separation tags.
//! - `types`: the receipt's objects and the bytes that bind them.
//! - `boundary`: the trust boundaries (quote provider, tree-head signer,
//!   anchor) and their in-process implementations.
//! - `tree`: the RFC 6962 tree as mathematics; `bits`: why the index-bit
//!   reconstruction of an audit path follows the tree's shape.
//! - `log`: the append-only log and the inclusion-proof verifier.
//! - `verify`: the client-side receipt check; `keyserver`: the release policy.
//! - `laws`: properties of the library as a whole.

pub mod bits;
pub mod boundary;
pub mod hash;
pub mod hex_text;
pub mod keyserver;
pub mod laws;
pub mod log;
pub mod tree;
pub mod types;
pub mod verify;

pub use crate::boundary::{
    Anchor, LocalAnchor, MockQuoteProvider, PlaceholderSigner, QuoteProvider, SthSigner,
};
pub use crate::hash::sha256;
pub use crate::types::{
    compute_report_data, measurement_of, receipt_wire_bytes, sth_signing_bytes, InclusionProof,
    KemPublicKey, Measurement, Nonce, Quote, Receipt, SignedTreeHead,
};
