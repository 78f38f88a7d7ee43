//! Append-only Merkle log (RFC 6962 hashing, with leaf/node domain separation).
//!
//! The tree is rebuilt from the stored leaf hashes on each query (O(n) per
//! proof): correct but not incremental.

use crate::bits::{
    bit_at,
    border_len,
    lemma_popcount_u64,
    index_dirs,
    inner_len,
    lemma_index_dirs,
    lemma_leading_zeros_bitlen,
    popcount,
    shifts_in_range,
};
use crate::boundary::SthSigner;
use crate::hash::{
    lemma_join_one,
    lemma_join_three,
    lemma_join_two,
    parts_view,
    sha256,
    DOMAIN_LEAF,
    DOMAIN_NODE,
    EMPTY_TREE_TAG,
};
use crate::tree::{
    fold_path,
    hashes,
    lemma_root_from_path_is_fold,
    lemma_split,
    spec_leaf_hash,
    spec_mth,
    spec_node_hash,
    spec_path,
    spec_proves_inclusion,
    spec_split,
    split_exp,
    split_exp_from,
};
use crate::types::{sth_signing_bytes, spec_sth_message, InclusionProof, Measurement, SignedTreeHead};
use vstd::arithmetic::power2::{pow2, lemma_pow2_unfold, lemma2_to64};
use vstd::prelude::*;

verus! {

/// The hash of the leaf that logs `m`.
pub fn leaf_hash(m: &Measurement) -> (h: [u8; 32])
    ensures
        h@ == spec_leaf_hash(m.0@),
{
    let parts: [&[u8]; 2] = [&DOMAIN_LEAF, &m.0];
    proof {
        assert(parts_view(parts@) =~= seq![DOMAIN_LEAF@, m.0@]);
        lemma_join_two(DOMAIN_LEAF@, m.0@);
    }
    sha256(&parts)
}

/// The hash of the inner node with children `l` and `r`.
pub fn node_hash(l: &[u8; 32], r: &[u8; 32]) -> (h: [u8; 32])
    ensures
        h@ == spec_node_hash(l@, r@),
{
    let parts: [&[u8]; 3] = [&DOMAIN_NODE, l, r];
    proof {
        assert(parts_view(parts@) =~= seq![DOMAIN_NODE@, l@, r@]);
        lemma_join_three(DOMAIN_NODE@, l@, r@);
    }
    sha256(&parts)
}

/// Whether two hashes are equal.
pub(crate) fn hash_eq(a: &[u8; 32], b: &[u8; 32]) -> (eq: bool)
    ensures
        eq == (a@ == b@),
{
    let mut i: usize = 0;
    while i < 32
        invariant
            i <= 32,
            a@.len() == 32,
            b@.len() == 32,
            forall|j: int| 0 <= j < i ==> a@[j] == b@[j],
        decreases 32 - i,
    {
        if a[i] != b[i] {
            return false;
        }
        i = i + 1;
    }
    assert(a@ =~= b@);
    true
}

/// Largest power of two strictly less than `n` (requires `n >= 2`).
fn split(n: usize) -> (k: usize)
    requires
        n >= 2,
    ensures
        k == spec_split(n as nat),
{
    let mut k: usize = 1;
    let ghost mut e: nat = 0;
    proof {
        lemma2_to64();
    }
    while k < n - k
        invariant
            n >= 2,
            k == pow2(e),
            0 < k < n,
            split_exp_from(e, n as nat) == split_exp(n as nat),
        decreases n - k,
    {
        proof {
            lemma_pow2_unfold(e + 1);
        }
        k = k + k;
        proof {
            e = e + 1;
        }
    }
    proof {
        lemma_pow2_unfold(e + 1);
    }
    k
}

/// RFC 6962 Merkle Tree Hash over a slice of leaf hashes.
fn mth(d: &[[u8; 32]]) -> (h: [u8; 32])
    ensures
        h@ == spec_mth(hashes(d@)),
    decreases d.len(),
{
    let n = d.len();
    if n == 0 {
        let parts: [&[u8]; 1] = [&EMPTY_TREE_TAG];
        proof {
            assert(parts_view(parts@) =~= seq![EMPTY_TREE_TAG@]);
            lemma_join_one(EMPTY_TREE_TAG@);
        }
        sha256(&parts)
    } else if n == 1 {
        d[0]
    } else {
        let k = split(n);
        proof {
            lemma_split(n as nat);
            assert(hashes(d@).take(k as int) =~= hashes(d@.subrange(0, k as int)));
            assert(hashes(d@).skip(k as int) =~= hashes(d@.subrange(k as int, n as int)));
        }
        let l = mth(&d[0..k]);
        let r = mth(&d[k..n]);
        node_hash(&l, &r)
    }
}

/// RFC 6962 audit path for leaf `m` within `d` (leaf-to-root order).
fn path(m: usize, d: &[[u8; 32]]) -> (p: Vec<[u8; 32]>)
    requires
        m < d.len(),
    ensures
        hashes(p@) == spec_path(m as nat, hashes(d@)),
    decreases d.len(),
{
    let n = d.len();
    if n == 1 {
        let p: Vec<[u8; 32]> = Vec::new();
        assert(hashes(p@) =~= Seq::<Seq<u8>>::empty());
        return p;
    }
    let k = split(n);
    proof {
        lemma_split(n as nat);
        assert(hashes(d@).take(k as int) =~= hashes(d@.subrange(0, k as int)));
        assert(hashes(d@).skip(k as int) =~= hashes(d@.subrange(k as int, n as int)));
    }
    if m < k {
        let mut p = path(m, &d[0..k]);
        let sib = mth(&d[k..n]);
        let ghost before = hashes(p@);
        p.push(sib);
        assert(hashes(p@) =~= before.push(sib@));
        p
    } else {
        let mut p = path(m - k, &d[k..n]);
        let sib = mth(&d[0..k]);
        let ghost before = hashes(p@);
        p.push(sib);
        assert(hashes(p@) =~= before.push(sib@));
        p
    }
}

/// The position of the first occurrence of `h` in `s`, if any.
pub open spec fn spec_first_index(s: Seq<Seq<u8>>, h: Seq<u8>) -> Option<nat>
    decreases s.len(),
{
    if s.len() == 0 {
        None
    } else {
        match spec_first_index(s.drop_last(), h) {
            Some(j) => Some(j),
            None => if s.last() == h {
                Some((s.len() - 1) as nat)
            } else {
                None
            },
        }
    }
}

/// The first occurrence is an occurrence, and nothing before it matches;
/// with no occurrence, nothing matches.
pub proof fn lemma_first_index(s: Seq<Seq<u8>>, h: Seq<u8>)
    ensures
        match spec_first_index(s, h) {
            Some(j) => j < s.len() && s[j as int] == h && forall|x: int| 0 <= x < j ==> s[x] != h,
            None => forall|x: int| 0 <= x < s.len() ==> s[x] != h,
        },
    decreases s.len(),
{
    if s.len() > 0 {
        let t = s.drop_last();
        lemma_first_index(t, h);
        assert(forall|x: int| 0 <= x < t.len() ==> t[x] == s[x]);
    }
}

/// An append-only log of measurements, held as their leaf hashes.
pub struct TransparencyLog {
    leaves: Vec<[u8; 32]>,
}

impl View for TransparencyLog {
    type V = Seq<Seq<u8>>;

    /// The leaf hashes, in the order they were appended.
    closed spec fn view(&self) -> Seq<Seq<u8>> {
        hashes(self.leaves@)
    }
}

impl Default for TransparencyLog {
    fn default() -> (log: Self)
        ensures
            log@ == Seq::<Seq<u8>>::empty(),
    {
        let log = TransparencyLog { leaves: Vec::new() };
        assert(log@ =~= Seq::<Seq<u8>>::empty());
        log
    }
}

impl TransparencyLog {
    /// An empty log.
    pub fn new() -> (log: Self)
        ensures
            log@ == Seq::<Seq<u8>>::empty(),
    {
        Self::default()
    }

    /// The number of leaves.
    pub fn len(&self) -> (n: u64)
        ensures
            n == self@.len(),
    {
        self.leaves.len() as u64
    }

    /// Whether the log holds no leaf.
    pub fn is_empty(&self) -> (b: bool)
        ensures
            b == (self@.len() == 0),
    {
        self.leaves.len() == 0
    }

    /// Append a measurement; returns its leaf index.
    pub fn append(&mut self, m: &Measurement) -> (idx: u64)
        ensures
            idx == old(self)@.len(),
            final(self)@ == old(self)@.push(spec_leaf_hash(m.0@)),
    {
        let idx = self.leaves.len() as u64;
        let h = leaf_hash(m);
        let ghost before = self@;
        self.leaves.push(h);
        assert(self@ =~= before.push(h@));
        idx
    }

    /// Index of a measurement if present (first occurrence).
    pub fn find(&self, m: &Measurement) -> (r: Option<u64>)
        ensures
            match r {
                Some(i) => spec_first_index(self@, spec_leaf_hash(m.0@)) == Some(i as nat),
                None => spec_first_index(self@, spec_leaf_hash(m.0@)) is None,
            },
    {
        let lh = leaf_hash(m);
        let ghost target = lh@;
        let mut i: usize = 0;
        while i < self.leaves.len()
            invariant
                i <= self@.len(),
                self@.len() == self.leaves@.len(),
                target == spec_leaf_hash(m.0@),
                target == lh@,
                spec_first_index(self@.take(i as int), target) is None,
            decreases self.leaves.len() - i,
        {
            let ghost pre = self@.take(i as int);
            let ghost post = self@.take(i as int + 1);
            assert(post.drop_last() =~= pre);
            assert(post.last() == self.leaves@[i as int]@);
            assert(spec_first_index(post, target) == (if post.last() == target {
                Some(i as nat)
            } else {
                None
            }));
            if hash_eq(&self.leaves[i], &lh) {
                proof {
                    lemma_first_index_prefix(self@, target, i as int + 1, i as nat);
                }
                return Some(i as u64);
            }
            i = i + 1;
        }
        assert(self@.take(i as int) =~= self@);
        None
    }

    /// Current Merkle root.
    pub fn root(&self) -> (r: [u8; 32])
        ensures
            r@ == spec_mth(self@),
    {
        mth(self.leaves.as_slice())
    }

    /// Inclusion proof for the leaf at `index`, or `None` if out of range.
    pub fn inclusion_proof(&self, index: u64) -> (r: Option<InclusionProof>)
        ensures
            r is Some <==> index < self@.len(),
            r matches Some(p) ==> {
                &&& p.leaf_index == index
                &&& p.tree_size == self@.len()
                &&& hashes(p.audit_path@) == spec_path(index as nat, self@)
            },
    {
        let n = self.leaves.len();
        if index >= n as u64 {
            return None;
        }
        Some(
            InclusionProof {
                leaf_index: index,
                tree_size: n as u64,
                audit_path: path(index as usize, self.leaves.as_slice()),
            },
        )
    }

    /// Produce a signed tree head at the current size.
    pub fn signed_tree_head<S: SthSigner + ?Sized>(&self, signer: &S) -> (sth: SignedTreeHead)
        ensures
            sth.tree_size == self@.len(),
            sth.root@ == spec_mth(self@),
            signer.spec_verify(spec_sth_message(sth.tree_size, sth.root@), sth.signature@),
            exists|msg: &[u8]|
                msg@ == spec_sth_message(sth.tree_size, sth.root@) && call_ensures(
                    S::sign,
                    (signer, msg),
                    sth.signature,
                ),
    {
        let root = self.root();
        let size = self.len();
        let bytes = sth_signing_bytes(size, &root);
        let msg = bytes.as_slice();
        // Called through its function value, so that the contract can speak of
        // this very call of `sign`.
        let sign = S::sign;
        let signature = sign(signer, msg);
        SignedTreeHead { tree_size: size, root, signature }
    }
}

/// A first match within a prefix is the first match of the whole sequence.
proof fn lemma_first_index_prefix(s: Seq<Seq<u8>>, h: Seq<u8>, j: int, x: nat)
    requires
        0 <= j <= s.len(),
        spec_first_index(s.take(j), h) == Some(x),
    ensures
        spec_first_index(s, h) == Some(x),
    decreases s.len() - j,
{
    if j < s.len() {
        assert(s.take(j + 1).drop_last() =~= s.take(j));
        lemma_first_index_prefix(s, h, j + 1, x);
    } else {
        assert(s.take(j) =~= s);
    }
}

/// The number of ones in the binary representation of `x`.
fn u64_count_ones(x: u64) -> (c: u32)
    ensures
        c as nat == popcount(x as nat),
{
    let mut c: u32 = 0;
    let mut y: u64 = x;
    proof {
        lemma_popcount_u64(x);
    }
    while y != 0
        invariant
            c + popcount(y as nat) == popcount(x as nat),
            popcount(x as nat) <= 64,
        decreases y,
    {
        let low = y & 1;
        assert(low == y % 2 && (y >> 1u64) == y / 2) by (bit_vector)
            requires
                low == y & 1,
        ;
        c = c + (low as u32);
        y = y >> 1u64;
    }
    assert(popcount(0) == 0);
    c
}

/// Whether the index-bit reconstruction of this proof stays within `u64`
/// shifts: always when the index is out of range, and otherwise when the leaf
/// and the last leaf agree on the top bit.
pub open spec fn proof_shifts_in_range(p: InclusionProof) -> bool {
    p.leaf_index >= p.tree_size || shifts_in_range(p.leaf_index, p.tree_size)
}

/// Whether `verify_inclusion` may be given this proof: its index-bit
/// reconstruction then shifts a `u64` by less than 64.
pub fn inclusion_shifts_in_range(p: &InclusionProof) -> (b: bool)
    ensures
        b == proof_shifts_in_range(*p),
{
    p.leaf_index >= p.tree_size || !(p.leaf_index < 0x8000_0000_0000_0000u64 && p.tree_size
        > 0x8000_0000_0000_0000u64)
}

/// Verify an inclusion proof against `root` (RFC 6962 index-bit reconstruction).
pub fn verify_inclusion(leaf: &Measurement, inclusion: &InclusionProof, root: &[u8; 32]) -> (ok:
    bool)
    requires
        proof_shifts_in_range(*inclusion),
    ensures
        ok == spec_proves_inclusion(
            spec_leaf_hash(leaf.0@),
            inclusion.leaf_index as nat,
            inclusion.tree_size as nat,
            hashes(inclusion.audit_path@),
            root@,
        ),
{
    let index = inclusion.leaf_index;
    let size = inclusion.tree_size;
    if index >= size {
        return false;
    }
    let x = index ^ (size - 1);
    let lz = x.leading_zeros();
    let ghost path = hashes(inclusion.audit_path@);
    let ghost dirs = index_dirs(index, size);
    proof {
        lemma_leading_zeros_bitlen(x);
        lemma_index_dirs(index, size);
    }
    let inner = (64 - lz) as usize;
    assert(inner == inner_len(index, size));
    let border = u64_count_ones(index >> (inner as u64)) as usize;
    assert(border == border_len(index, size));
    proof {
        lemma_popcount_u64(index >> (inner as u64));
    }
    let res0 = leaf_hash(leaf);
    let ghost lh = res0@;
    proof {
        lemma_root_from_path_is_fold(index as nat, size as nat, lh, path);
    }
    if inclusion.audit_path.len() != inner + border {
        return false;
    }
    let mut res = res0;
    let mut i: usize = 0;
    while i < inner
        invariant
            inner == inner_len(index, size),
            inner < 64,
            i <= inner,
            inclusion.audit_path@.len() == dirs.len(),
            dirs == index_dirs(index, size),
            path == hashes(inclusion.audit_path@),
            res@ == fold_path(dirs.take(i as int), lh, path.take(i as int)),
        decreases inner - i,
    {
        let sib = &inclusion.audit_path[i];
        let ghost prev = res@;
        proof {
            let b = (index >> (i as u64)) & 1u64;
            assert(b == 0u64 || b == 1u64) by (bit_vector)
                requires
                    b == (index >> (i as u64)) & 1u64,
            ;
            assert(dirs[i as int] == bit_at(index, i as nat));
        }
        if (index >> (i as u64)) & 1u64 == 0u64 {
            res = node_hash(&res, sib);
        } else {
            res = node_hash(sib, &res);
        }
        proof {
            assert(dirs.take(i as int + 1).drop_last() =~= dirs.take(i as int));
            assert(path.take(i as int + 1).drop_last() =~= path.take(i as int));
            assert(dirs.take(i as int + 1).last() == dirs[i as int]);
            assert(path.take(i as int + 1).last() == path[i as int]);
        }
        i = i + 1;
    }
    while i < inclusion.audit_path.len()
        invariant
            inner <= i <= inclusion.audit_path@.len(),
            inclusion.audit_path@.len() == dirs.len(),
            inner == inner_len(index, size),
            dirs == index_dirs(index, size),
            path == hashes(inclusion.audit_path@),
            res@ == fold_path(dirs.take(i as int), lh, path.take(i as int)),
        decreases inclusion.audit_path.len() - i,
    {
        let sib = &inclusion.audit_path[i];
        res = node_hash(sib, &res);
        proof {
            assert(dirs.take(i as int + 1).drop_last() =~= dirs.take(i as int));
            assert(path.take(i as int + 1).drop_last() =~= path.take(i as int));
            assert(dirs.take(i as int + 1).last() == dirs[i as int]);
            assert(path.take(i as int + 1).last() == path[i as int]);
        }
        i = i + 1;
    }
    proof {
        assert(dirs.take(i as int) =~= dirs);
        assert(path.take(i as int) =~= path);
    }
    hash_eq(&res, root)
}

} // verus!
