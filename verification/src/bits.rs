//! Why the index-bit reconstruction of an audit path follows the tree's shape:
//! for leaf `i` of `n`, the levels below the point where `i` and the last leaf
//! part take their side from the bits of `i` (the "inner" levels), and above
//! it every sibling stands on the left, one per set bit of the rest of `i`.

use crate::tree::{spec_dirs, spec_split, split_exp, lemma_split, lemma_split_pow2};
use vstd::arithmetic::power2::{
    pow2,
    lemma_pow2_pos,
    lemma_pow2_strictly_increases,
    lemma_pow2_unfold,
    lemma2_to64,
    lemma2_to64_rest,
};
use vstd::bits::{lemma_u64_shr_is_div, lemma_u64_shl_is_mul, lemma_u64_pow2_no_overflow};
use vstd::std_specs::bits::u64_leading_zeros;
use vstd::prelude::*;

verus! {

/// The number of binary digits of `x` (0 for 0).
pub open spec fn bitlen(x: nat) -> nat
    decreases x,
{
    if x == 0 {
        0
    } else {
        1 + bitlen(x / 2)
    }
}

/// The number of ones in the binary representation of `x`.
pub open spec fn popcount(x: nat) -> nat
    decreases x,
{
    if x == 0 {
        0
    } else {
        x % 2 + popcount(x / 2)
    }
}

/// Bit `t` of `x`.
pub open spec fn bit_at(x: u64, t: nat) -> bool {
    (x >> (t as u64)) & 1u64 == 1u64
}

/// The number of levels at which leaf `i` of `n` and the last leaf lie in
/// different subtrees: the bit length of `i xor (n - 1)`.
pub open spec fn inner_len(i: u64, n: u64) -> nat {
    bitlen((i ^ ((n - 1) as u64)) as nat)
}

/// The number of left siblings above the inner levels: the set bits of `i`
/// above them.
pub open spec fn border_len(i: u64, n: u64) -> nat {
    popcount((i >> (inner_len(i, n) as u64)) as nat)
}

/// The sides of the siblings as the index bits give them: bit `t` of `i` on
/// each inner level, then left on every border level.
pub open spec fn index_dirs(i: u64, n: u64) -> Seq<bool> {
    Seq::new(
        inner_len(i, n) + border_len(i, n),
        |t: int| if t < inner_len(i, n) { bit_at(i, t as nat) } else { true },
    )
}

/// Whether leaf `i` and the last leaf of `n` agree on the top bit of a `u64`,
/// which keeps every shift of the reconstruction below 64.
pub open spec fn shifts_in_range(i: u64, n: u64) -> bool {
    !(i < 0x8000_0000_0000_0000u64 && n > 0x8000_0000_0000_0000u64)
}

/// `64 - leading_zeros(x)` is the bit length of `x`.
pub proof fn lemma_leading_zeros_bitlen(x: u64)
    ensures
        64 - u64_leading_zeros(x) == bitlen(x as nat),
    decreases x,
{
    reveal(u64_leading_zeros);
    if x != 0 {
        lemma_leading_zeros_bitlen(x / 2);
    }
}

proof fn lemma_bitlen_in_range(x: nat, j: nat)
    requires
        pow2(j) <= x < pow2(j + 1),
    ensures
        bitlen(x) == j + 1,
    decreases j,
{
    lemma2_to64();
    lemma_pow2_unfold(j + 1);
    if j == 0 {
        assert(x == 1);
        assert(bitlen(0) == 0);
    } else {
        lemma_pow2_unfold(j);
        let p = pow2((j - 1) as nat);
        assert(p <= x / 2 < 2 * p) by (nonlinear_arith)
            requires
                2 * p <= x < 4 * p,
                p > 0,
        ;
        lemma_pow2_pos((j - 1) as nat);
        lemma_bitlen_in_range(x / 2, (j - 1) as nat);
    }
}

pub proof fn lemma_bitlen_below(x: nat, j: nat)
    requires
        x < pow2(j),
    ensures
        bitlen(x) <= j,
    decreases j,
{
    lemma2_to64();
    if j == 0 {
        assert(x == 0);
    } else if x > 0 {
        lemma_pow2_unfold(j);
        let p = pow2((j - 1) as nat);
        assert(x / 2 < p) by (nonlinear_arith)
            requires
                x < 2 * p,
        ;
        lemma_bitlen_below(x / 2, (j - 1) as nat);
    }
}

/// A number has at most as many ones as binary digits.
pub proof fn lemma_popcount_le_bitlen(x: nat)
    ensures
        popcount(x) <= bitlen(x),
    decreases x,
{
    if x > 0 {
        lemma_popcount_le_bitlen(x / 2);
    }
}

/// A `u64` has at most 64 ones.
pub proof fn lemma_popcount_u64(x: u64)
    ensures
        popcount(x as nat) <= 64,
{
    lemma2_to64_rest();
    lemma_popcount_le_bitlen(x as nat);
    lemma_bitlen_below(x as nat, 64);
}

proof fn lemma_popcount_add_pow2(a: nat, m: nat)
    requires
        a < pow2(m),
    ensures
        popcount(a + pow2(m)) == popcount(a) + 1,
    decreases m,
{
    lemma2_to64();
    if m == 0 {
        assert(a == 0);
        assert(popcount(0) == 0);
        assert(popcount(1) == 1nat % 2 + popcount(1nat / 2));
    } else {
        lemma_pow2_unfold(m);
        let p = pow2((m - 1) as nat);
        let b = a + pow2(m);
        assert(b % 2 == a % 2 && b / 2 == a / 2 + p && a / 2 < p) by (nonlinear_arith)
            requires
                b == a + 2 * p,
                a < 2 * p,
        ;
        lemma_popcount_add_pow2(a / 2, (m - 1) as nat);
        if a == 0 {
            assert(popcount(0) == 0);
            assert(popcount(a / 2) == 0);
        }
    }
}

/// Shifting by `e` divides by `2^e`, and `1 << e` is `2^e`.
proof fn lemma_shift_facts(x: u64, e: nat)
    requires
        e < 64,
    ensures
        x >> (e as u64) == x as nat / pow2(e),
        (1u64 << (e as u64)) == pow2(e),
        pow2(e) <= u64::MAX,
{
    lemma_u64_shr_is_div(x, e as u64);
    lemma_u64_pow2_no_overflow(e);
    lemma_u64_shl_is_mul(1u64, e as u64);
}

/// `x >> e` is 0 exactly below `2^e`, and 1 exactly on `[2^e, 2^(e+1))`.
proof fn lemma_shr_small(x: u64, e: nat)
    requires
        e < 64,
    ensures
        (x >> (e as u64) == 0) == (x < pow2(e)),
        (x >> (e as u64) == 1) == (pow2(e) <= x < 2 * pow2(e)),
{
    lemma_shift_facts(x, e);
    lemma_pow2_pos(e);
    let p = pow2(e);
    assert((x as nat / p == 0) == (x < p)) by (nonlinear_arith)
        requires
            p > 0,
    ;
    assert((x as nat / p == 1) == (p <= x < 2 * p)) by (nonlinear_arith)
        requires
            p > 0,
    ;
}

/// `2^e` fits in a `u64` only for `e < 64`.
proof fn lemma_exp_below_64(e: nat, n: u64)
    requires
        pow2(e) < n,
    ensures
        e < 64,
{
    if e >= 64 {
        lemma2_to64_rest();
        if e > 64 {
            lemma_pow2_strictly_increases(64, e);
        }
    }
}

/// Leaves of a perfect tree of `2^e` leaves take their sides from their bits.
proof fn lemma_perfect_dirs(i: u64, e: nat)
    requires
        e < 64,
        i < pow2(e),
    ensures
        spec_dirs(i as nat, pow2(e)) =~= Seq::new(e, |t: int| bit_at(i, t as nat)),
    decreases e,
{
    lemma2_to64();
    if e == 0 {
        assert(spec_dirs(i as nat, 1) =~= Seq::<bool>::empty());
    } else {
        let j = (e - 1) as nat;
        lemma_split_pow2(e);
        lemma_pow2_unfold(e);
        lemma_split(pow2(e));
        let h = pow2(j);
        lemma_shr_small(i, j);
        let ju = j as u64;
        if i < h {
            lemma_perfect_dirs(i, j);
            assert((i >> ju) == 0u64 ==> (i >> ju) & 1u64 == 0u64) by (bit_vector);
        } else {
            lemma_shift_facts(i, j);
            let ip = (i - h) as u64;
            lemma_perfect_dirs(ip, j);
            assert(ip == (i - (1u64 << ju)) as u64);
            assert(forall|t: u64|
                #![trigger (i >> t)]
                (i >> ju) == 1u64 && ju < 64 && t < ju && ip == (i - (1u64 << ju)) as u64 ==> (
                (i >> t) & 1u64) == ((ip >> t) & 1u64)) by (bit_vector);
            assert((i >> ju) == 1u64 ==> (i >> ju) & 1u64 == 1u64) by (bit_vector);
            assert forall|t: int| 0 <= t < j implies #[trigger] bit_at(i, t as nat) == bit_at(ip, t as nat) by {
                let tu = t as u64;
                assert((i >> tu) & 1u64 == (ip >> tu) & 1u64);
            }
        }
    }
}

/// The index-bit directions of leaf `i` of `n` are the tree's directions,
/// and the inner length stays below 64.
pub proof fn lemma_index_dirs(i: u64, n: u64)
    requires
        i < n,
        shifts_in_range(i, n),
    ensures
        inner_len(i, n) < 64,
        spec_dirs(i as nat, n as nat) == index_dirs(i, n),
    decreases n,
{
    lemma2_to64();
    if n == 1 {
        assert(i == 0);
        assert((0u64 ^ 0u64) == 0u64) by (bit_vector);
        assert(inner_len(i, n) == 0);
        assert((0u64 >> 0u64) == 0u64) by (bit_vector);
        assert(popcount(0) == 0);
        assert(spec_dirs(i as nat, n as nat) =~= index_dirs(i, n));
    } else {
        lemma_split(n as nat);
        let e = split_exp(n as nat);
        let k = spec_split(n as nat);
        lemma_exp_below_64(e, n);
        let eu = e as u64;
        lemma_shift_facts(i, e);
        let m = (n - 1) as u64;
        lemma_shr_small(m, e);
        assert(m >> eu == 1u64);
        if i < k {
            // The leaf lies in the perfect left subtree; it and the last leaf
            // part at the top level.
            if e == 63 {
                assert(pow2(63) == 0x8000_0000_0000_0000u64) by {
                    lemma2_to64_rest();
                }
                assert(false);
            }
            lemma_perfect_dirs(i, e);
            lemma_shr_small(i, e);
            assert(i >> eu == 0u64);
            let x = i ^ m;
            assert((i >> eu) == 0u64 && (m >> eu) == 1u64 && eu < 64 ==> ((i ^ m) >> eu) == 1u64)
                by (bit_vector);
            lemma_shr_small(x, e);
            lemma_pow2_unfold(e + 1);
            lemma_bitlen_in_range(x as nat, e);
            assert(inner_len(i, n) == e + 1);
            assert((i >> eu) == 0u64 && eu < 63 ==> (i >> ((eu + 1) as u64)) == 0u64) by (bit_vector);
            assert((i >> eu) == 0u64 ==> (i >> eu) & 1u64 == 0u64) by (bit_vector);
            assert(popcount(0) == 0);
            assert(border_len(i, n) == 0);
            assert(spec_dirs(i as nat, n as nat) =~= index_dirs(i, n));
        } else {
            // The leaf lies in the right subtree, which holds the last leaf too.
            let ip = (i - k) as u64;
            let np = (n - k) as u64;
            lemma_shr_small(i, e);
            assert(i >> eu == 1u64);
            assert(ip == (i - (1u64 << eu)) as u64);
            assert(((np - 1) as u64) == (m - (1u64 << eu)) as u64);
            if np > 0x8000_0000_0000_0000u64 {
                assert(pow2(64) == 2 * pow2(63)) by {
                    lemma_pow2_unfold(64);
                }
                lemma2_to64_rest();
                assert(false);
            }
            lemma_index_dirs(ip, np);
            let npm = (np - 1) as u64;
            assert((i >> eu) == 1u64 && (m >> eu) == 1u64 && eu < 64 ==> (i ^ m) == (((i - (1u64
                << eu)) as u64) ^ ((m - (1u64 << eu)) as u64))) by (bit_vector);
            assert(i ^ m == ip ^ npm);
            assert(inner_len(i, n) == inner_len(ip, np));
            let q = inner_len(i, n);
            // Both lie below 2^e, so their xor does too.
            lemma_shr_small(ip, e);
            lemma_shr_small(npm, e);
            assert((ip >> eu) == 0u64 && (npm >> eu) == 0u64 && eu < 64 ==> ((ip ^ npm) >> eu)
                == 0u64) by (bit_vector);
            lemma_shr_small(ip ^ npm, e);
            lemma_bitlen_below((ip ^ npm) as nat, e);
            assert(q <= e);
            let qu = q as u64;
            assert((i >> eu) == 1u64 && eu < 64 && qu <= eu && ip == (i - (1u64 << eu)) as u64 ==> (
            i >> qu) == (ip >> qu) + (1u64 << ((eu - qu) as u64)) && (ip >> qu) < (1u64 << ((eu
                - qu) as u64))) by (bit_vector);
            let d = (e - q) as nat;
            lemma_shift_facts(0, d);
            lemma_popcount_add_pow2((ip >> qu) as nat, d);
            assert(border_len(i, n) == border_len(ip, np) + 1);
            assert(forall|t: u64|
                #![trigger (i >> t)]
                (i >> eu) == 1u64 && eu < 64 && t < eu && ip == (i - (1u64 << eu)) as u64 ==> (
                (i >> t) & 1u64) == ((ip >> t) & 1u64)) by (bit_vector);
            assert forall|t: int| 0 <= t < q implies #[trigger] bit_at(i, t as nat) == bit_at(ip, t as nat) by {
                let tu = t as u64;
                assert((i >> tu) & 1u64 == (ip >> tu) & 1u64);
            }
            assert(spec_dirs(i as nat, n as nat) =~= index_dirs(i, n));
        }
    }
}

} // verus!
