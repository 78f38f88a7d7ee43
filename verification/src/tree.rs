//! The Merkle tree of RFC 6962 as mathematics: the tree hash of a list of
//! leaf hashes, the audit path of a leaf, and the root an audit path proves.
//! The executable log and verifier in `log` are proved against these.

use crate::hash::{spec_sha256, DOMAIN_LEAF, DOMAIN_NODE, EMPTY_TREE_TAG};
use vstd::arithmetic::power2::{pow2, lemma_pow2_strictly_increases, lemma_pow2_unfold, lemma2_to64};
use vstd::prelude::*;

verus! {

/// The hash of a leaf: the leaf tag followed by the measurement.
pub open spec fn spec_leaf_hash(m: Seq<u8>) -> Seq<u8> {
    spec_sha256(DOMAIN_LEAF@ + m)
}

/// The hash of an inner node: the node tag followed by both children.
pub open spec fn spec_node_hash(l: Seq<u8>, r: Seq<u8>) -> Seq<u8> {
    spec_sha256(DOMAIN_NODE@ + l + r)
}

/// The byte strings held by a list of 32-byte hashes.
pub open spec fn hashes(s: Seq<[u8; 32]>) -> Seq<Seq<u8>> {
    s.map_values(|h: [u8; 32]| h@)
}

/// The exponent of the largest power of two strictly below `n`, looked for
/// upward from `2^e`.
pub open spec fn split_exp_from(e: nat, n: nat) -> nat
    decreases n - pow2(e),
{
    if pow2(e + 1) < n {
        proof {
            lemma_pow2_strictly_increases(e, e + 1);
        }
        split_exp_from(e + 1, n)
    } else {
        e
    }
}

/// The exponent of the largest power of two strictly below `n`.
pub open spec fn split_exp(n: nat) -> nat {
    split_exp_from(0, n)
}

/// The largest power of two strictly below `n` (meaningful for `n >= 2`):
/// where RFC 6962 splits a list of `n` leaves.
pub open spec fn spec_split(n: nat) -> nat {
    pow2(split_exp(n))
}

proof fn lemma_split_exp_from(e: nat, n: nat)
    requires
        pow2(e) < n,
    ensures
        pow2(split_exp_from(e, n)) < n <= pow2(split_exp_from(e, n) + 1),
    decreases n - pow2(e),
{
    lemma_pow2_strictly_increases(e, e + 1);
    if pow2(e + 1) < n {
        lemma_split_exp_from(e + 1, n);
    }
}

/// For `n >= 2` the split point is a power of two `2^e` with `2^e < n <= 2^(e+1)`.
pub proof fn lemma_split(n: nat)
    requires
        n >= 2,
    ensures
        spec_split(n) == pow2(split_exp(n)),
        pow2(split_exp(n)) < n <= pow2(split_exp(n) + 1),
        pow2(split_exp(n) + 1) == 2 * pow2(split_exp(n)),
        0 < spec_split(n) < n,
        n - spec_split(n) <= spec_split(n),
{
    lemma2_to64();
    lemma_split_exp_from(0, n);
    lemma_pow2_unfold(split_exp(n) + 1);
}

/// A power of two `2^j` with `j >= 1` is split in two halves of `2^(j-1)`.
pub proof fn lemma_split_pow2(j: nat)
    requires
        j >= 1,
    ensures
        split_exp(pow2(j)) == j - 1,
        spec_split(pow2(j)) == pow2((j - 1) as nat),
{
    lemma2_to64();
    lemma_pow2_strictly_increases(0, j);
    lemma_split(pow2(j));
    let e = split_exp(pow2(j));
    if e + 1 < j {
        lemma_pow2_strictly_increases(e + 1, j);
    } else if e >= j {
        if e > j {
            lemma_pow2_strictly_increases(j, e);
        }
    }
}

/// The RFC 6962 Merkle Tree Hash of a list of leaf hashes; the empty list
/// hashes to the digest of the empty-tree tag.
pub open spec fn spec_mth(d: Seq<Seq<u8>>) -> Seq<u8>
    decreases d.len(),
{
    if d.len() == 0 {
        spec_sha256(EMPTY_TREE_TAG@)
    } else if d.len() == 1 {
        d[0]
    } else {
        proof {
            lemma_split(d.len());
        }
        let k = spec_split(d.len());
        spec_node_hash(spec_mth(d.take(k as int)), spec_mth(d.skip(k as int)))
    }
}

/// The RFC 6962 audit path of leaf `m` in the list `d`, leaf-to-root order.
pub open spec fn spec_path(m: nat, d: Seq<Seq<u8>>) -> Seq<Seq<u8>>
    decreases d.len(),
{
    if d.len() <= 1 {
        Seq::empty()
    } else {
        proof {
            lemma_split(d.len());
        }
        let k = spec_split(d.len());
        if m < k {
            spec_path(m, d.take(k as int)).push(spec_mth(d.skip(k as int)))
        } else {
            spec_path((m - k) as nat, d.skip(k as int)).push(spec_mth(d.take(k as int)))
        }
    }
}

/// The root that `path` proves for leaf `i` (hashing to `leaf`) of a tree of
/// `n` leaves, following the tree's shape from the root down; `None` when the
/// path does not have the length that shape requires.
pub open spec fn spec_root_from_path(i: nat, n: nat, leaf: Seq<u8>, path: Seq<Seq<u8>>) -> Option<
    Seq<u8>,
>
    decreases n,
{
    if n <= 1 {
        if path.len() == 0 {
            Some(leaf)
        } else {
            None
        }
    } else if path.len() == 0 {
        None
    } else {
        proof {
            lemma_split(n);
        }
        let k = spec_split(n);
        let sib = path.last();
        if i < k {
            match spec_root_from_path(i, k, leaf, path.drop_last()) {
                Some(r) => Some(spec_node_hash(r, sib)),
                None => None,
            }
        } else {
            match spec_root_from_path((i - k) as nat, (n - k) as nat, leaf, path.drop_last()) {
                Some(r) => Some(spec_node_hash(sib, r)),
                None => None,
            }
        }
    }
}

/// Whether `path` proves that `leaf` is the `index`-th of `size` leaves under `root`.
pub open spec fn spec_proves_inclusion(
    leaf: Seq<u8>,
    index: nat,
    size: nat,
    path: Seq<Seq<u8>>,
    root: Seq<u8>,
) -> bool {
    index < size && spec_root_from_path(index, size, leaf, path) == Some(root)
}

/// The audit path of a leaf recomputes the tree hash of the whole list.
pub proof fn lemma_path_recomputes_root(i: nat, d: Seq<Seq<u8>>)
    requires
        i < d.len(),
    ensures
        spec_root_from_path(i, d.len(), d[i as int], spec_path(i, d)) == Some(spec_mth(d)),
    decreases d.len(),
{
    if d.len() > 1 {
        lemma_split(d.len());
        let k = spec_split(d.len());
        let p = spec_path(i, d);
        if i < k {
            let l = d.take(k as int);
            lemma_path_recomputes_root(i, l);
            assert(l[i as int] == d[i as int]);
            assert(p.drop_last() =~= spec_path(i, l));
        } else {
            let r = d.skip(k as int);
            lemma_path_recomputes_root((i - k) as nat, r);
            assert(r[i - k] == d[i as int]);
            assert(p.drop_last() =~= spec_path((i - k) as nat, r));
        }
    }
}

/// For each level from the leaf up, whether the sibling of leaf `i` in a
/// tree of `n` leaves stands on the left.
pub open spec fn spec_dirs(i: nat, n: nat) -> Seq<bool>
    decreases n,
{
    if n <= 1 {
        Seq::empty()
    } else {
        proof {
            lemma_split(n);
        }
        let k = spec_split(n);
        if i < k {
            spec_dirs(i, k).push(false)
        } else {
            spec_dirs((i - k) as nat, (n - k) as nat).push(true)
        }
    }
}

/// Hashing `leaf` up along `path`, taking each sibling from the side `dirs` gives.
pub open spec fn fold_path(dirs: Seq<bool>, leaf: Seq<u8>, path: Seq<Seq<u8>>) -> Seq<u8>
    decreases path.len(),
{
    if path.len() == 0 || dirs.len() == 0 {
        leaf
    } else {
        let r = fold_path(dirs.drop_last(), leaf, path.drop_last());
        if dirs.last() {
            spec_node_hash(path.last(), r)
        } else {
            spec_node_hash(r, path.last())
        }
    }
}

/// The root a path proves is the fold of the path along the leaf's directions,
/// when the path has as many entries as there are levels above the leaf.
pub proof fn lemma_root_from_path_is_fold(i: nat, n: nat, leaf: Seq<u8>, path: Seq<Seq<u8>>)
    requires
        i < n,
    ensures
        spec_root_from_path(i, n, leaf, path) == (if path.len() == spec_dirs(i, n).len() {
            Some(fold_path(spec_dirs(i, n), leaf, path))
        } else {
            None::<Seq<u8>>
        }),
    decreases n,
{
    if n > 1 {
        lemma_split(n);
        let k = spec_split(n);
        if path.len() > 0 {
            if i < k {
                lemma_root_from_path_is_fold(i, k, leaf, path.drop_last());
                assert(spec_dirs(i, n).drop_last() =~= spec_dirs(i, k));
            } else {
                lemma_root_from_path_is_fold((i - k) as nat, (n - k) as nat, leaf, path.drop_last());
                assert(spec_dirs(i, n).drop_last() =~= spec_dirs((i - k) as nat, (n - k) as nat));
            }
        }
    }
}

} // verus!
