//! Splitting a 64-bit hash into a register index and a rank.
use vstd::prelude::*;
use vstd::arithmetic::power2::{pow2, lemma_pow2_adds, lemma_pow2_pos, lemma_pow2_unfold, lemma2_to64,
    lemma_pow2_strictly_increases};
use vstd::bits::{lemma_u64_shr_is_div, lemma_u64_shl_is_mul, lemma_u64_pow2_no_overflow};
use vstd::std_specs::bits::u64_leading_zeros;

verus! {

/// Fewest index bits an estimator may use (16 registers).
pub const MIN_PRECISION_BITS: usize = 4;

/// Most index bits an estimator may use: 2^30 one-byte registers is the
/// largest array that fits the address space of every supported target.
pub const MAX_PRECISION_BITS: usize = 30;

/// Number of binary digits of `w` (zero has none).
pub open spec fn bit_len(w: nat) -> nat
    decreases w,
{
    if w == 0 {
        0
    } else {
        1 + bit_len(w / 2)
    }
}

/// Width of the part of the hash that is not used as the index.
pub open spec fn rest_width(b: nat) -> nat {
    (64 - b) as nat
}

/// The register that hash `x` is routed to: its top `b` bits.
pub open spec fn index_of(x: u64, b: nat) -> nat {
    x as nat / pow2(rest_width(b))
}

/// The remaining low `64 - b` bits of `x`.
pub open spec fn rest_of(x: u64, b: nat) -> nat {
    x as nat % pow2(rest_width(b))
}

/// Leading zeros of the remaining bits, counted within their field, plus one.
pub open spec fn rank_of(x: u64, b: nat) -> nat {
    (rest_width(b) - bit_len(rest_of(x, b)) + 1) as nat
}

/// The largest rank an estimator with `b` index bits can record.
pub open spec fn max_rank(b: nat) -> nat {
    (rest_width(b) + 1) as nat
}

pub proof fn lemma_bit_len_below(w: nat, k: nat)
    requires
        w < pow2(k),
    ensures
        bit_len(w) <= k,
    decreases k,
{
    if w > 0 {
        if k == 0 {
            lemma2_to64();
        } else {
            lemma_pow2_unfold(k);
            lemma_bit_len_below(w / 2, (k - 1) as nat);
        }
    }
}

proof fn lemma_leading_zeros_bit_len(w: u64)
    ensures
        u64_leading_zeros(w) == 64 - bit_len(w as nat),
    decreases w,
{
    reveal(u64_leading_zeros);
    if w != 0 {
        lemma_leading_zeros_bit_len(w / 2);
    }
}

/// Ranks lie in `[1, 65 - b]`, whatever the hash.
pub proof fn lemma_rank_bounds(x: u64, b: nat)
    requires
        1 <= b <= 64,
    ensures
        1 <= rank_of(x, b) <= max_rank(b),
        index_of(x, b) < pow2(b),
{
    lemma_pow2_pos(rest_width(b));
    lemma_bit_len_below(rest_of(x, b), rest_width(b));
    lemma_pow2_adds(rest_width(b), b);
    lemma2_to64();
    let p = pow2(rest_width(b));
    let q = pow2(b);
    assert(x as nat / p < q) by (nonlinear_arith)
        requires
            (x as nat) < p * q,
            p > 0,
    ;
}

/// Index of the register that hash `x` updates, for `b` index bits.
pub fn register_index(x: u64, b: usize) -> (j: usize)
    requires
        MIN_PRECISION_BITS <= b <= MAX_PRECISION_BITS,
    ensures
        j as nat == index_of(x, b as nat),
        (j as nat) < pow2(b as nat),
{
    let shift: u64 = 64 - b as u64;
    proof {
        lemma_u64_shr_is_div(x, shift);
        lemma_rank_bounds(x, b as nat);
        lemma_u64_pow2_no_overflow(b as nat);
        lemma2_to64();
        if b < 30 {
            lemma_pow2_strictly_increases(b as nat, 30);
        }
    }
    (x >> shift) as usize
}

/// Rank of hash `x` for `b` index bits: leading zeros of its low `64 - b`
/// bits, counted within that field, plus one.
pub fn rank(x: u64, b: usize) -> (r: u8)
    requires
        MIN_PRECISION_BITS <= b <= MAX_PRECISION_BITS,
    ensures
        r as nat == rank_of(x, b as nat),
        1 <= r <= max_rank(b as nat),
{
    let shift: u64 = 64 - b as u64;
    proof {
        lemma_u64_pow2_no_overflow(shift as nat);
        lemma_u64_shl_is_mul(1, shift);
        lemma_pow2_pos(shift as nat);
    }
    let rest: u64 = x % (1u64 << shift);
    let zeros: u32 = rest.leading_zeros();
    proof {
        lemma_leading_zeros_bit_len(rest);
        lemma_bit_len_below(rest as nat, shift as nat);
        lemma_rank_bounds(x, b as nat);
    }
    (zeros - b as u32 + 1) as u8
}

} // verus!
