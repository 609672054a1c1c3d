//! The harmonic-mean estimate, in exact arithmetic: the bias constant as a
//! ratio, the scaled sum of `2^-register`, and which range correction the
//! estimate falls under.
use vstd::prelude::*;
use vstd::arithmetic::power2::{pow2, lemma_pow2_adds, lemma_pow2_pos, lemma_pow2_unfold, lemma2_to64,
    lemma2_to64_rest, lemma_pow2_strictly_increases};
use crate::rank::{max_rank, MIN_PRECISION_BITS, MAX_PRECISION_BITS};
use crate::registers::empty_regs;

verus! {

/// Which correction the raw estimate `E` calls for.
#[derive(Clone, Copy, Debug, PartialEq, Eq, Structural)]
pub enum RangeRegime {
    /// `E <= 2.5 * m`: linear counting when some register is empty.
    Small,
    /// `2.5 * m < E <= 2^32 / 30`: `E` as it is.
    Intermediate,
    /// `E > 2^32 / 30`: the large-range correction.
    Large,
}

/// Numerator of the bias constant `alpha` for `m` registers: 0.673, 0.697
/// and 0.709 for 16, 32 and 64 registers, else `0.7213 / (1 + 1.079 / m)`,
/// which is `7213 m / (10000 m + 10790)`.
pub open spec fn alpha_num(m: nat) -> nat {
    if m == 16 {
        673
    } else if m == 32 {
        697
    } else if m == 64 {
        709
    } else {
        7213 * m
    }
}

/// Denominator of the bias constant `alpha` for `m` registers.
pub open spec fn alpha_den(m: nat) -> nat {
    if m == 16 || m == 32 || m == 64 {
        1000
    } else {
        10000 * m + 10790
    }
}

/// `Z * 2^k`, where `Z` is the sum of `2^-r` over the registers `r`.
pub open spec fn scaled_sum(regs: Seq<u8>, k: nat) -> nat
    decreases regs.len(),
{
    if regs.len() == 0 {
        0
    } else {
        scaled_sum(regs.drop_last(), k) + pow2((k - regs.last()) as nat)
    }
}

/// Number of registers still at zero.
pub open spec fn zero_count(regs: Seq<u8>) -> nat
    decreases regs.len(),
{
    if regs.len() == 0 {
        0
    } else {
        zero_count(regs.drop_last()) + if regs.last() == 0 {
            1nat
        } else {
            0nat
        }
    }
}

/// The raw estimate `E = alpha * m^2 / Z`, with `alpha = an / ad` and
/// `Z = s / 2^k`, is at most `p / q`.
pub open spec fn estimate_at_most(an: nat, ad: nat, m: nat, s: nat, k: nat, p: nat, q: nat) -> bool {
    an * m * m * pow2(k) * q <= p * ad * s
}

/// The correction for `2^b` registers, bias constant `an / ad` and scaled
/// sum `s` (see `scaled_sum`, with `k` the largest rank).
pub open spec fn regime_of(an: nat, ad: nat, b: nat, s: nat) -> RangeRegime {
    let m = pow2(b);
    let k = max_rank(b);
    if estimate_at_most(an, ad, m, s, k, 5 * m, 2) {
        RangeRegime::Small
    } else if estimate_at_most(an, ad, m, s, k, pow2(32), 30) {
        RangeRegime::Intermediate
    } else {
        RangeRegime::Large
    }
}

/// The bias constant for `m` registers, as numerator and denominator.
pub fn alpha_ratio(m: u64) -> (r: (u64, u64))
    requires
        16 <= m <= 0x4000_0000,
    ensures
        r.0 == alpha_num(m as nat),
        r.1 == alpha_den(m as nat),
{
    if m == 16 {
        (673, 1000)
    } else if m == 32 {
        (697, 1000)
    } else if m == 64 {
        (709, 1000)
    } else {
        (7213 * m, 10000 * m + 10790)
    }
}

/// Picks the range correction for an estimator with `b` index bits, bias
/// constant `alpha_n / alpha_d` and scaled sum `s`.
pub fn classify_estimate(alpha_n: u64, alpha_d: u64, b: usize, s: u128) -> (r: RangeRegime)
    requires
        MIN_PRECISION_BITS <= b <= MAX_PRECISION_BITS,
        alpha_n < 0x1000_0000_0000,
        alpha_d < 0x1000_0000_0000,
        s <= 0x2_0000_0000_0000_0000,
    ensures
        r == regime_of(alpha_n as nat, alpha_d as nat, b as nat, s as nat),
{
    let m: u128 = (1u64 << (b as u64)) as u128;
    let an = alpha_n as u128;
    let ad = alpha_d as u128;
    proof {
        lemma2_to64();
        lemma2_to64_rest();
        lemma_pow2_unfold(65);
        lemma_pow2_unfold(66);
        lemma_pow2_adds(b as nat, max_rank(b as nat));
        lemma_pow2_pos(b as nat);
        if b < 30 {
            lemma_pow2_strictly_increases(b as nat, 30);
        }
        vstd::bits::lemma_u64_pow2_no_overflow(b as nat);
        vstd::bits::lemma_u64_shl_is_mul(1, b as u64);
    }
    let ghost mm = m as nat;
    let ghost k = max_rank(b as nat);
    assert(mm * pow2(k) == pow2(65));
    assert(5 * ad * s <= 5 * 0x1000_0000_0000 * 0x2_0000_0000_0000_0000u128) by (nonlinear_arith)
        requires
            ad < 0x1000_0000_0000,
            s <= 0x2_0000_0000_0000_0000u128,
    ;
    assert(an * 0x4_0000_0000_0000_0000u128 <= 0x1000_0000_0000 * 0x4_0000_0000_0000_0000u128)
        by (nonlinear_arith)
        requires
            an < 0x1000_0000_0000,
    ;
    let small = an * 0x4_0000_0000_0000_0000u128 <= 5 * ad * s;
    proof {
        let lhs = an as nat * mm * mm * pow2(k) * 2;
        assert(lhs == (an as nat * pow2(66)) * mm) by (nonlinear_arith)
            requires
                mm * pow2(k) == pow2(65),
                pow2(66) == 2 * pow2(65),
                lhs == an as nat * mm * mm * pow2(k) * 2,
        ;
        let rhs = 5 * mm * (ad as nat) * (s as nat);
        assert(rhs == (5 * ad as nat * s as nat) * mm) by (nonlinear_arith)
            requires
                rhs == 5 * mm * (ad as nat) * (s as nat),
        ;
        assert(lhs <= rhs <==> an as nat * pow2(66) <= 5 * ad as nat * s as nat) by (nonlinear_arith)
            requires
                lhs == (an as nat * pow2(66)) * mm,
                rhs == (5 * ad as nat * s as nat) * mm,
                mm > 0,
        ;
    }
    if small {
        return RangeRegime::Small;
    }
    assert(m <= 0x4000_0000);
    assert(an * m <= 0x1000_0000_0000 * 0x4000_0000u128) by (nonlinear_arith)
        requires
            an < 0x1000_0000_0000,
            m <= 0x4000_0000,
    ;
    assert(ad * s <= 0x1000_0000_0000 * 0x2_0000_0000_0000_0000u128) by (nonlinear_arith)
        requires
            ad < 0x1000_0000_0000,
            s <= 0x2_0000_0000_0000_0000u128,
    ;
    let middle = an * m * 30 * 0x2_0000_0000u128 <= ad * s;
    proof {
        let lhs = an as nat * mm * mm * pow2(k) * 30;
        assert(lhs == an as nat * mm * 30 * pow2(65)) by (nonlinear_arith)
            requires
                mm * pow2(k) == pow2(65),
                lhs == an as nat * mm * mm * pow2(k) * 30,
        ;
        assert(pow2(65) == pow2(32) * 0x2_0000_0000) by {
            lemma_pow2_adds(32, 33);
        }
        assert(lhs <= pow2(32) * ad as nat * s as nat <==> an as nat * mm * 30 * 0x2_0000_0000 <= ad
            as nat * s as nat) by (nonlinear_arith)
            requires
                lhs == an as nat * mm * 30 * pow2(65),
                pow2(65) == pow2(32) * 0x2_0000_0000,
                pow2(32) > 0,
        ;
    }
    if middle {
        RangeRegime::Intermediate
    } else {
        RangeRegime::Large
    }
}

proof fn lemma_empty_sums(n: nat, k: nat)
    ensures
        scaled_sum(empty_regs(n), k) == n * pow2(k),
        zero_count(empty_regs(n)) == n,
    decreases n,
{
    if n > 0 {
        assert(empty_regs(n).drop_last() =~= empty_regs((n - 1) as nat));
        lemma_empty_sums((n - 1) as nat, k);
        assert(empty_regs(n).last() == 0u8);
        assert(((k - empty_regs(n).last()) as nat) == k);
        assert(n * pow2(k) == (n - 1) * pow2(k) + pow2(k)) by (nonlinear_arith)
            requires
                n > 0,
        ;
    }
}

/// An estimator that has recorded nothing has every register empty and
/// falls in the small range, where linear counting gives `m * ln(m / m)`,
/// that is zero.
pub proof fn lemma_empty_estimate_is_small(b: nat)
    requires
        MIN_PRECISION_BITS <= b <= MAX_PRECISION_BITS,
    ensures
        zero_count(empty_regs(pow2(b))) == pow2(b),
        regime_of(
            alpha_num(pow2(b)),
            alpha_den(pow2(b)),
            b,
            scaled_sum(empty_regs(pow2(b)), max_rank(b)),
        ) == RangeRegime::Small,
{
    let m = pow2(b);
    let k = max_rank(b);
    lemma_empty_sums(m, k);
    lemma_pow2_pos(b);
    lemma_pow2_pos(k);
    let an = alpha_num(m);
    let ad = alpha_den(m);
    assert(2 * an <= 5 * ad);
    let s = m * pow2(k);
    assert(an * m * m * pow2(k) * 2 <= 5 * m * ad * s) by (nonlinear_arith)
        requires
            2 * an <= 5 * ad,
            s == m * pow2(k),
            m > 0,
            pow2(k) > 0,
    ;
}

} // verus!
