# pqtl-core

A transparency layer for confidential inference: an append-only RFC 6962
Merkle log of loader-build measurements, signed tree heads, a keyserver release
policy, and the client-side check of a session receipt — written in Verus, with
each function's behaviour stated in its contract and proved.

- `src/` — the verified library. The RFC 6962 tree is modelled in `tree.rs`;
  `bits.rs` proves that the verifier's index-bit reconstruction follows the
  tree's shape; `log.rs` holds the log and the inclusion verifier, `verify.rs`
  the receipt check, `keyserver.rs` the release policy, and `laws.rs` the
  properties that span functions (inclusion proofs verify for every size and
  index, against the log's root and no other; with collision-free hashing one
  root vouches for one measurement per position; an honestly built receipt is
  refused only for its signature or its anchor; the tree hash splits at a
  power of two; the length counts the appends; appending keeps where logged
  builds are found; the signed bytes determine the tree head; leaf and node
  hashes are domain-separated).
- `tests/` — scenario tests.
- `app/` — the command-line demo, the JSON sample-receipt writer, the
  micro-benchmarks and the JSON receipt verifier.

SHA-256 comes from the `sha2` crate and hexadecimal decoding from `hex`; each
call stands behind a small wrapper whose contract says what the call returns.
