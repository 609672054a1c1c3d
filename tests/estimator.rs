use hyperloglog::{
    alpha_ratio, classify_estimate, rank, register_index, HllError, HyperLogLog, RangeRegime,
};
use std::hash::{Hash, Hasher};

const TWO_POW_32: f64 = 4294967296.0;

/// Index bits for a target error rate: `ceil(log2((1.04 / e)^2))`.
fn precision_for(error_rate: f64) -> usize {
    (1.04 / error_rate).powi(2).log2().ceil() as usize
}

/// The corrected estimate, from the exact quantities the library reports.
fn estimate(h: &HyperLogLog) -> usize {
    let (an, ad) = h.alpha();
    let alpha = an as f64 / ad as f64;
    let m = h.register_count() as f64;
    let z = h.scaled_harmonic_sum() as f64 / 2.0_f64.powi(h.max_rank() as i32);
    let e = alpha * m * m / z;
    let empty = h.empty_registers();
    let corrected = match h.range_regime() {
        RangeRegime::Small => {
            if empty > 0 {
                m * (m / empty as f64).ln()
            } else {
                e
            }
        }
        RangeRegime::Intermediate => e,
        RangeRegime::Large => -TWO_POW_32 * (1.0 - e / TWO_POW_32).ln(),
    };
    corrected as usize
}

fn theoretical_error(h: &HyperLogLog) -> f64 {
    1.04 / (h.register_count() as f64).sqrt()
}

fn fed(b: usize, words: &[String]) -> HyperLogLog {
    let mut h = HyperLogLog::new(b).unwrap();
    for w in words {
        h.add(w);
    }
    h
}

fn words(from: usize, to: usize) -> Vec<String> {
    (from..to).map(|i| format!("word{i}")).collect()
}

#[test]
fn register_count_is_power_of_precision() {
    for b in 4..=20usize {
        let h = HyperLogLog::new(b).unwrap();
        assert_eq!(h.precision_bits(), b);
        assert_eq!(h.register_count(), 1usize << b);
        assert_eq!(h.registers().len(), 1usize << b);
        assert!(h.registers().iter().all(|&r| r == 0));
    }
}

#[test]
fn default_error_rate_gives_fifteen_bits() {
    let b = precision_for(0.008);
    assert_eq!(b, 15);
    let h = HyperLogLog::new(b).unwrap();
    assert_eq!(h.register_count(), 32768);
}

#[test]
fn too_few_registers_is_invalid_configuration() {
    for b in 0..4usize {
        assert_eq!(HyperLogLog::new(b).err(), Some(HllError::InvalidConfiguration));
    }
    assert_eq!(precision_for(0.26), 4);
    assert_eq!(precision_for(0.3), 4);
    assert_eq!(precision_for(0.6), 2);
    assert_eq!(HyperLogLog::new(precision_for(0.6)).err(), Some(HllError::InvalidConfiguration));
    assert!(HyperLogLog::new(4).is_ok());
}

#[test]
fn repeated_add_is_idempotent() {
    let mut once = HyperLogLog::new(10).unwrap();
    once.add("hello");
    let mut many = HyperLogLog::new(10).unwrap();
    for _ in 0..7 {
        many.add("hello");
    }
    assert_eq!(once.registers(), many.registers());
    assert_eq!(estimate(&once), estimate(&many));
}

#[test]
fn add_order_does_not_matter() {
    let ws = words(0, 300);
    let mut rev = ws.clone();
    rev.reverse();
    let a = fed(12, &ws);
    let b = fed(12, &rev);
    assert_eq!(a.registers(), b.registers());
}

#[test]
fn empty_estimator_counts_zero() {
    for b in [4usize, 5, 6, 7, 15] {
        let h = HyperLogLog::new(b).unwrap();
        assert_eq!(h.empty_registers(), h.register_count());
        assert_eq!(h.range_regime(), RangeRegime::Small);
        assert_eq!(h.scaled_harmonic_sum(), 1u128 << 65);
        assert_eq!(estimate(&h), 0);
    }
}

#[test]
fn merge_equals_union() {
    let a = fed(12, &words(0, 500));
    let b = fed(12, &words(500, 1200));
    let union = fed(12, &words(0, 1200));
    let merged = a.merge(b).unwrap();
    assert_eq!(merged.registers(), union.registers());
    let est = estimate(&merged) as f64;
    let bound = 2.0 * theoretical_error(&merged) * 1200.0;
    assert!((est - 1200.0).abs() <= bound, "estimate {est}");
}

#[test]
fn merge_takes_pairwise_max() {
    let mut a = HyperLogLog::new(4).unwrap();
    let mut b = HyperLogLog::new(4).unwrap();
    a.add_hash(0x0000_0000_0000_0001); // register 0, rank 60
    b.add_hash(0x0800_0000_0000_0000); // register 0, rank 1
    b.add_hash(0x1000_0000_0000_0000); // register 1, rank 61
    let m = a.merge(b).unwrap();
    assert_eq!(m.registers()[0], 60);
    assert_eq!(m.registers()[1], 61);
    assert_eq!(m.empty_registers(), 14);
}

#[test]
fn merge_of_different_precision_is_rejected() {
    let a = HyperLogLog::new(10).unwrap();
    let b = HyperLogLog::new(11).unwrap();
    assert_eq!(a.merge(b).err(), Some(HllError::ConfigurationMismatch));
}

#[test]
fn error_depends_only_on_configuration() {
    let b = precision_for(0.008);
    let fresh = HyperLogLog::new(b).unwrap();
    let used = fed(b, &words(0, 2000));
    assert_eq!(theoretical_error(&fresh), theoretical_error(&used));
    assert!((theoretical_error(&fresh) - 1.04 / 32768f64.sqrt()).abs() < 1e-15);
}

#[test]
fn thousand_distinct_words_end_to_end() {
    let text: Vec<String> = words(0, 1000)
        .into_iter()
        .chain(words(0, 1000))
        .chain(words(100, 400))
        .collect();
    let actual = text.iter().collect::<std::collections::HashSet<_>>().len();
    assert_eq!(actual, 1000);
    let h = fed(precision_for(0.008), &text);
    let est = estimate(&h) as f64;
    let slack = theoretical_error(&h) * actual as f64 + 5.0;
    assert!((est - actual as f64).abs() <= slack, "estimate {est}");
}

#[test]
fn all_zero_low_bits_get_largest_rank() {
    for b in 4..=30usize {
        assert_eq!(rank(0, b), (65 - b) as u8);
        assert_eq!(register_index(0, b), 0);
        let top = 0xffff_ffff_ffff_ffffu64 << (64 - b);
        assert_eq!(rank(top, b), (65 - b) as u8);
        assert_eq!(register_index(top, b), (1usize << b) - 1);
        assert_eq!(rank(u64::MAX, b), 1);
    }
    let mut h = HyperLogLog::new(4).unwrap();
    h.add_hash(0xf000_0000_0000_0000);
    assert_eq!(h.registers()[15], 61);
    assert_eq!(h.max_rank(), 61);
}

#[test]
fn rank_counts_leading_zeros_within_field() {
    // b = 4: field of 60 bits; a one at bit 50 leaves 9 zeros above it.
    assert_eq!(rank(1u64 << 50, 4), 10);
    assert_eq!(register_index(1u64 << 50, 4), 0);
    assert_eq!(rank((5u64 << 60) | (1u64 << 59), 4), 1);
    assert_eq!(register_index((5u64 << 60) | (1u64 << 59), 4), 5);
    assert_eq!(rank(1, 10), 54);
}

#[test]
fn add_routes_by_std_hash() {
    let mut hasher = std::collections::hash_map::DefaultHasher::new();
    "hello".hash(&mut hasher);
    let x = hasher.finish();
    let mut h = HyperLogLog::new(8).unwrap();
    h.add("hello");
    let j = (x >> 56) as usize;
    assert_eq!(h.empty_registers(), 255);
    assert_eq!(h.registers()[j], rank(x, 8));
    assert_ne!(h.registers()[j], 0);
}

#[test]
fn bias_constants() {
    assert_eq!(alpha_ratio(16), (673, 1000));
    assert_eq!(alpha_ratio(32), (697, 1000));
    assert_eq!(alpha_ratio(64), (709, 1000));
    assert_eq!(alpha_ratio(128), (7213 * 128, 10000 * 128 + 10790));
    let (n, d) = alpha_ratio(1 << 15);
    let expected = 0.7213 / (1.0 + 1.079 / 32768.0);
    assert!((n as f64 / d as f64 - expected).abs() < 1e-12);
}

#[test]
fn small_range_boundary() {
    // alpha = 5/2, m = 16, Z = 2^65 / 2^61 = 16: E = 2.5 * 256 / 16 = 2.5 * m.
    let s = 1u128 << 65;
    assert_eq!(classify_estimate(5, 2, 4, s), RangeRegime::Small);
    assert_eq!(classify_estimate(5, 2, 4, s - 1), RangeRegime::Intermediate);
}

#[test]
fn large_range_boundary() {
    // alpha = 1/15, m = 16, Z = 2^38 / 2^61: E = 2^32 / 30.
    let s = 1u128 << 38;
    assert_eq!(classify_estimate(1, 15, 4, s), RangeRegime::Intermediate);
    assert_eq!(classify_estimate(1, 15, 4, s - 1), RangeRegime::Large);
}

#[test]
fn regime_of_filled_estimator() {
    let mut h = HyperLogLog::new(4).unwrap();
    for j in 0..16u64 {
        // every register at rank 30
        h.add_hash((j << 60) | (1u64 << 30));
    }
    assert_eq!(h.registers()[3], 30);
    assert_eq!(h.empty_registers(), 0);
    assert_eq!(h.scaled_harmonic_sum(), 16u128 << 31);
    // E = 0.673 * 256 * 2^30 / 16, far above 2^32 / 30.
    assert_eq!(h.range_regime(), RangeRegime::Large);
    let mut g = HyperLogLog::new(4).unwrap();
    for j in 0..16u64 {
        g.add_hash((j << 60) | (1u64 << 57)); // rank 3
    }
    // E = 0.673 * 256 / (16 / 8) = 86.1 > 40
    assert_eq!(g.range_regime(), RangeRegime::Intermediate);
    g.add_hash(1u64 << 59); // register 0 to rank 1: no change
    assert_eq!(g.registers()[0], 3);
}
