//! The estimator: a fixed array of `2^b` registers fed with 64-bit hashes.
use vstd::prelude::*;
use vstd::arithmetic::power2::{pow2, lemma_pow2_pos, lemma_pow2_adds, lemma_pow2_strictly_increases,
    lemma2_to64, lemma2_to64_rest, lemma_pow2_unfold};
use crate::rank::{register_index, rank, max_rank,
    MIN_PRECISION_BITS, MAX_PRECISION_BITS};
use crate::registers::{regs_fit, empty_regs, insert_hash, insert_all, merge_regs, max_u8, lemma_insert_hash_fits,
    lemma_insert_same_hashes, lemma_merge_is_union};
use crate::estimate::{RangeRegime, alpha_num, alpha_den, scaled_sum, zero_count, regime_of,
    alpha_ratio, classify_estimate};

verus! {

/// What can go wrong when building or combining estimators.
#[derive(Clone, Copy, Debug, PartialEq, Eq, Structural)]
pub enum HllError {
    /// The configuration asks for fewer than 16 registers.
    InvalidConfiguration,
    /// The two estimators of a merge use different numbers of registers.
    ConfigurationMismatch,
}

/// The hash that `add` records for the characters `s`.
pub uninterp spec fn str_hash(s: Seq<char>) -> u64;

/// Relies on `<str as Hash>::hash` written into a fresh
/// `DefaultHasher::new()` and read out by `Hasher::finish`. Every hasher made
/// by `DefaultHasher::new` starts from the same fixed keys, so the result is
/// a function of the string.
#[verifier::external_body]
fn hash_str(s: &str) -> (r: u64)
    ensures
        r == str_hash(s@),
{
    let mut hasher = std::collections::hash_map::DefaultHasher::new();
    std::hash::Hash::hash(s, &mut hasher);
    std::hash::Hasher::finish(&hasher)
}

/// A HyperLogLog distinct-count estimator.
pub struct HyperLogLog {
    b: usize,
    registers: Vec<u8>,
}

impl HyperLogLog {
    /// The register values.
    pub closed spec fn regs(&self) -> Seq<u8> {
        self.registers@
    }

    /// Number of hash bits used as the register index.
    pub closed spec fn precision(&self) -> nat {
        self.b as nat
    }

    /// `2^b` registers, each at most the largest rank.
    pub open spec fn wf(&self) -> bool {
        regs_fit(self.regs(), self.precision())
    }

    /// An estimator with `2^precision_bits` registers, all zero; fails with
    /// `InvalidConfiguration` when that is fewer than 16 registers.
    pub fn new(precision_bits: usize) -> (r: Result<HyperLogLog, HllError>)
        requires
            precision_bits <= MAX_PRECISION_BITS,
        ensures
            precision_bits < MIN_PRECISION_BITS <==> r == Err::<HyperLogLog, HllError>(
                HllError::InvalidConfiguration,
            ),
            precision_bits >= MIN_PRECISION_BITS <==> r is Ok,
            r matches Ok(h) ==> h.wf() && h.precision() == precision_bits && h.regs() == empty_regs(
                pow2(precision_bits as nat),
            ),
    {
        proof {
            lemma2_to64();
            if precision_bits < 30 {
                lemma_pow2_strictly_increases(precision_bits as nat, 30);
            }
            if precision_bits < 4 {
                lemma_pow2_strictly_increases(precision_bits as nat, 4);
            }
            if precision_bits > 4 {
                lemma_pow2_strictly_increases(4, precision_bits as nat);
            }
            vstd::bits::lemma_u64_pow2_no_overflow(precision_bits as nat);
            vstd::bits::lemma_u64_shl_is_mul(1, precision_bits as u64);
        }
        let m: usize = (1u64 << precision_bits as u64) as usize;
        if m < 16 {
            return Err(HllError::InvalidConfiguration);
        }
        let mut registers: Vec<u8> = Vec::with_capacity(m);
        let mut i: usize = 0;
        while i < m
            invariant
                i <= m,
                registers@ == empty_regs(i as nat),
            decreases m - i,
        {
            registers.push(0);
            i += 1;
            assert(registers@ =~= empty_regs(i as nat));
        }
        Ok(HyperLogLog { b: precision_bits, registers })
    }

    /// Number of hash bits used as the register index.
    pub fn precision_bits(&self) -> (r: usize)
        requires
            self.wf(),
        ensures
            r == self.precision(),
            MIN_PRECISION_BITS <= r <= MAX_PRECISION_BITS,
    {
        self.b
    }

    /// Number of registers: always `2^precision_bits`.
    pub fn register_count(&self) -> (r: usize)
        requires
            self.wf(),
        ensures
            r == pow2(self.precision()),
    {
        self.registers.len()
    }

    /// The register values, in index order.
    pub fn registers(&self) -> (r: &[u8])
        ensures
            r@ == self.regs(),
    {
        self.registers.as_slice()
    }

    /// Records a 64-bit hash: its top `b` bits pick a register, which keeps
    /// the larger of its value and the rank of the remaining bits.
    pub fn add_hash(&mut self, x: u64)
        requires
            old(self).wf(),
        ensures
            final(self).wf(),
            final(self).precision() == old(self).precision(),
            final(self).regs() == insert_hash(old(self).regs(), old(self).precision(), x),
    {
        let j = register_index(x, self.b);
        let r = rank(x, self.b);
        proof {
            lemma_insert_hash_fits(self.regs(), self.precision(), x);
        }
        let cur = self.registers[j];
        if r > cur {
            self.registers.set(j, r);
        } else {
            self.registers.set(j, cur);
        }
        assert(self.regs() =~= insert_hash(old(self).regs(), old(self).precision(), x));
    }

    /// Records one value, through its hash.
    pub fn add(&mut self, data: &str)
        requires
            old(self).wf(),
        ensures
            final(self).wf(),
            final(self).precision() == old(self).precision(),
            final(self).regs() == insert_hash(old(self).regs(), old(self).precision(), str_hash(data@)),
    {
        let x = hash_str(data);
        self.add_hash(x);
    }

    /// Combines two estimators of one configuration into one that stands for
    /// the union of their streams: each register is the larger of the two.
    /// Fails with `ConfigurationMismatch` when the configurations differ.
    pub fn merge(self, other: HyperLogLog) -> (r: Result<HyperLogLog, HllError>)
        requires
            self.wf(),
            other.wf(),
        ensures
            self.precision() != other.precision() <==> r == Err::<HyperLogLog, HllError>(
                HllError::ConfigurationMismatch,
            ),
            self.precision() == other.precision() <==> r is Ok,
            r matches Ok(h) ==> h.wf() && h.precision() == self.precision() && h.regs() == merge_regs(
                self.regs(),
                other.regs(),
            ),
    {
        if self.b != other.b {
            return Err(HllError::ConfigurationMismatch);
        }
        let mut merged = self;
        let n = merged.registers.len();
        let mut i: usize = 0;
        while i < n
            invariant
                n == merged.registers@.len(),
                n == self.regs().len(),
                n == other.regs().len(),
                merged.b == self.b,
                i <= n,
                forall|j: int| 0 <= j < i ==> #[trigger] merged.registers@[j] == max_u8(self.regs()[j], other.regs()[j]),
                forall|j: int| i <= j < n ==> #[trigger] merged.registers@[j] == self.regs()[j],
            decreases n - i,
        {
            let a = merged.registers[i];
            let c = other.registers[i];
            if c > a {
                merged.registers.set(i, c);
            }
            i += 1;
        }
        assert(merged.regs() =~= merge_regs(self.regs(), other.regs()));
        Ok(merged)
    }

    /// Number of registers still at zero.
    pub fn empty_registers(&self) -> (r: usize)
        ensures
            r == zero_count(self.regs()),
            r <= self.regs().len(),
    {
        let mut count: usize = 0;
        let mut i: usize = 0;
        while i < self.registers.len()
            invariant
                i <= self.registers@.len(),
                count == zero_count(self.regs().subrange(0, i as int)),
                count <= i,
            decreases self.registers@.len() - i,
        {
            assert(self.regs().subrange(0, i + 1).drop_last() =~= self.regs().subrange(0, i as int));
            if self.registers[i] == 0 {
                count += 1;
            }
            i += 1;
        }
        assert(self.regs().subrange(0, i as int) =~= self.regs());
        count
    }

    /// The largest rank a register can hold, `65 - b`.
    pub fn max_rank(&self) -> (r: u8)
        requires
            self.wf(),
        ensures
            r == max_rank(self.precision()),
    {
        (65 - self.b) as u8
    }

    /// `Z * 2^k`, where `Z` is the sum of `2^-r` over the registers and `k`
    /// is the largest rank, so that each term is a whole number.
    pub fn scaled_harmonic_sum(&self) -> (s: u128)
        requires
            self.wf(),
        ensures
            s == scaled_sum(self.regs(), max_rank(self.precision())),
            s <= pow2(65),
    {
        let k: u8 = self.max_rank();
        let ghost kk = k as nat;
        let mut s: u128 = 0;
        let mut i: usize = 0;
        proof {
            lemma2_to64();
            lemma2_to64_rest();
            lemma_pow2_unfold(65);
            lemma_pow2_adds(self.precision(), kk);
            lemma_pow2_pos(kk);
        }
        while i < self.registers.len()
            invariant
                self.wf(),
                kk == max_rank(self.precision()),
                k == kk,
                i <= self.registers@.len(),
                self.registers@.len() * pow2(kk) == pow2(65),
                s == scaled_sum(self.regs().subrange(0, i as int), kk),
                s <= i * pow2(kk),
                pow2(65) == 0x2_0000_0000_0000_0000,
            decreases self.registers@.len() - i,
        {
            let r = self.registers[i];
            assert(r <= k);
            let sh: u8 = k - r;
            proof {
                vstd::bits::lemma_u64_pow2_no_overflow(sh as nat);
                vstd::bits::lemma_u64_shl_is_mul(1, sh as u64);
                if sh < k {
                    lemma_pow2_strictly_increases(sh as nat, kk);
                }
                assert(self.regs().subrange(0, i + 1).drop_last() =~= self.regs().subrange(0, i as int));
                assert((i + 1) * pow2(kk) <= self.registers@.len() * pow2(kk)) by (nonlinear_arith)
                    requires
                        i + 1 <= self.registers@.len(),
                ;
                assert((i + 1) * pow2(kk) == i * pow2(kk) + pow2(kk)) by (nonlinear_arith);
            }
            let t: u64 = 1u64 << (sh as u64);
            s = s + t as u128;
            i += 1;
        }
        assert(self.regs().subrange(0, i as int) =~= self.regs());
        s
    }

    /// The bias constant `alpha` for this register count, as numerator and
    /// denominator.
    pub fn alpha(&self) -> (r: (u64, u64))
        requires
            self.wf(),
        ensures
            r.0 == alpha_num(pow2(self.precision())),
            r.1 == alpha_den(pow2(self.precision())),
    {
        proof {
            lemma2_to64();
            if self.b < 30 {
                lemma_pow2_strictly_increases(self.precision(), 30);
            }
            if self.b > 4 {
                lemma_pow2_strictly_increases(4, self.precision());
            }
        }
        alpha_ratio(self.registers.len() as u64)
    }

    /// The range correction that the raw estimate `E = alpha * m^2 / Z`
    /// calls for, decided in exact arithmetic.
    pub fn range_regime(&self) -> (r: RangeRegime)
        requires
            self.wf(),
        ensures
            r == regime_of(
                alpha_num(pow2(self.precision())),
                alpha_den(pow2(self.precision())),
                self.precision(),
                scaled_sum(self.regs(), max_rank(self.precision())),
            ),
    {
        let (an, ad) = self.alpha();
        let s = self.scaled_harmonic_sum();
        proof {
            lemma2_to64();
            lemma2_to64_rest();
            lemma_pow2_unfold(65);
            if self.b < 30 {
                lemma_pow2_strictly_increases(self.precision(), 30);
            }
            assert(pow2(self.precision()) <= 0x4000_0000);
        }
        classify_estimate(an, ad, self.b, s)
    }
}

/// Registers after the values `ws` are added, first to last.
pub open spec fn insert_words(regs: Seq<u8>, b: nat, ws: Seq<Seq<char>>) -> Seq<u8> {
    insert_all(regs, b, ws.map_values(|w: Seq<char>| str_hash(w)))
}

/// Adding values depends only on which values occur: two sequences that
/// hold the same values, in any order and any number of times each, leave
/// the same registers.
pub proof fn lemma_words_order_and_repeats_irrelevant(
    regs: Seq<u8>,
    b: nat,
    ws: Seq<Seq<char>>,
    vs: Seq<Seq<char>>,
)
    requires
        regs_fit(regs, b),
        forall|w: Seq<char>| ws.contains(w) <==> vs.contains(w),
    ensures
        insert_words(regs, b, ws) == insert_words(regs, b, vs),
{
    let hw = ws.map_values(|w: Seq<char>| str_hash(w));
    let hv = vs.map_values(|w: Seq<char>| str_hash(w));
    assert forall|x: u64| hw.contains(x) implies hv.contains(x) by {
        let k = choose|k: int| 0 <= k < hw.len() && hw[k] == x;
        assert(vs.contains(ws[k]));
        let l = choose|l: int| 0 <= l < vs.len() && vs[l] == ws[k];
        assert(hv[l] == x);
    }
    assert forall|x: u64| hv.contains(x) implies hw.contains(x) by {
        let l = choose|l: int| 0 <= l < hv.len() && hv[l] == x;
        assert(ws.contains(vs[l]));
        let k = choose|k: int| 0 <= k < ws.len() && ws[k] == vs[l];
        assert(hw[k] == x);
    }
    lemma_insert_same_hashes(regs, b, hw, hv);
}

/// Merging estimators that were fed `ws` and `vs` gives the registers of
/// one estimator, started from the merge of their starting registers, fed
/// `ws` and then `vs`.
pub proof fn lemma_merge_words_is_union(
    r: Seq<u8>,
    s: Seq<u8>,
    b: nat,
    ws: Seq<Seq<char>>,
    vs: Seq<Seq<char>>,
)
    requires
        regs_fit(r, b),
        regs_fit(s, b),
    ensures
        merge_regs(insert_words(r, b, ws), insert_words(s, b, vs)) == insert_words(
            merge_regs(r, s),
            b,
            ws + vs,
        ),
{
    let f = |w: Seq<char>| str_hash(w);
    assert((ws + vs).map_values(f) =~= ws.map_values(f) + vs.map_values(f));
    lemma_merge_is_union(r, s, b, ws.map_values(f), vs.map_values(f));
}

} // verus!
