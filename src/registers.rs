//! The register array as a mathematical value, and the laws of recording
//! hashes into it and of merging two arrays.
use vstd::prelude::*;
use vstd::arithmetic::power2::{pow2, lemma_pow2_pos};
use crate::rank::{index_of, rank_of, max_rank, lemma_rank_bounds, MIN_PRECISION_BITS, MAX_PRECISION_BITS};

verus! {

pub open spec fn max_u8(a: u8, c: u8) -> u8 {
    if a >= c {
        a
    } else {
        c
    }
}

/// A register array that fits `b` index bits: `2^b` registers, each at
/// most the largest rank.
pub open spec fn regs_fit(regs: Seq<u8>, b: nat) -> bool {
    &&& MIN_PRECISION_BITS <= b <= MAX_PRECISION_BITS
    &&& regs.len() == pow2(b)
    &&& forall|i: int| 0 <= i < regs.len() ==> #[trigger] regs[i] <= max_rank(b)
}

/// `m` registers, all zero.
pub open spec fn empty_regs(m: nat) -> Seq<u8> {
    Seq::new(m, |i: int| 0u8)
}

/// Registers after hash `x` is recorded: its register keeps the larger of
/// its value and the hash's rank.
pub open spec fn insert_hash(regs: Seq<u8>, b: nat, x: u64) -> Seq<u8> {
    let j = index_of(x, b) as int;
    regs.update(j, max_u8(regs[j], rank_of(x, b) as u8))
}

/// Registers after the hashes `xs` are recorded, first to last.
pub open spec fn insert_all(regs: Seq<u8>, b: nat, xs: Seq<u64>) -> Seq<u8>
    decreases xs.len(),
{
    if xs.len() == 0 {
        regs
    } else {
        insert_hash(insert_all(regs, b, xs.drop_last()), b, xs.last())
    }
}

/// Pairwise maximum of two register arrays of one length.
pub open spec fn merge_regs(a: Seq<u8>, c: Seq<u8>) -> Seq<u8> {
    Seq::new(a.len(), |i: int| max_u8(a[i], c[i]))
}

pub proof fn lemma_insert_hash_fits(regs: Seq<u8>, b: nat, x: u64)
    requires
        regs_fit(regs, b),
    ensures
        regs_fit(insert_hash(regs, b, x), b),
{
    lemma_rank_bounds(x, b);
}

/// Register `i` after recording `xs` is at most `v` exactly when it was
/// before and every recorded hash routed to it has rank at most `v`.
pub proof fn lemma_insert_all_at_most(regs: Seq<u8>, b: nat, xs: Seq<u64>, i: int, v: nat)
    requires
        regs_fit(regs, b),
        0 <= i < regs.len(),
    ensures
        regs_fit(insert_all(regs, b, xs), b),
        insert_all(regs, b, xs)[i] <= v <==> (regs[i] <= v && forall|k: int|
            0 <= k < xs.len() && index_of(#[trigger] xs[k], b) == i ==> rank_of(xs[k], b) <= v),
    decreases xs.len(),
{
    if xs.len() > 0 {
        let init = xs.drop_last();
        lemma_insert_all_at_most(regs, b, init, i, v);
        lemma_insert_hash_fits(insert_all(regs, b, init), b, xs.last());
        lemma_rank_bounds(xs.last(), b);
        assert forall|k: int| 0 <= k < init.len() implies #[trigger] init[k] == xs[k] by {}
        if insert_all(regs, b, xs)[i] <= v {
            assert forall|k: int|
                0 <= k < xs.len() && index_of(#[trigger] xs[k], b) == i implies rank_of(
                xs[k],
                b,
            ) <= v by {
                if k < init.len() {
                    assert(init[k] == xs[k]);
                }
            }
        }
    }
}

proof fn lemma_equal_by_bounds(a: Seq<u8>, c: Seq<u8>, regs: Seq<u8>, b: nat, xs: Seq<u64>, ys: Seq<u64>)
    requires
        regs_fit(regs, b),
        a == insert_all(regs, b, xs),
        c == insert_all(regs, b, ys),
        forall|x: u64| xs.contains(x) <==> ys.contains(x),
    ensures
        a == c,
{
    lemma_pow2_pos(b);
    lemma_insert_all_at_most(regs, b, xs, 0, 0);
    lemma_insert_all_at_most(regs, b, ys, 0, 0);
    assert forall|i: int| 0 <= i < a.len() implies a[i] == c[i] by {
        lemma_insert_all_at_most(regs, b, xs, i, a[i] as nat);
        lemma_insert_all_at_most(regs, b, ys, i, a[i] as nat);
        lemma_insert_all_at_most(regs, b, xs, i, c[i] as nat);
        lemma_insert_all_at_most(regs, b, ys, i, c[i] as nat);
        assert forall|k: int| 0 <= k < ys.len() implies xs.contains(#[trigger] ys[k]) by {
            assert(ys.contains(ys[k]));
        }
        assert forall|k: int| 0 <= k < xs.len() implies ys.contains(#[trigger] xs[k]) by {
            assert(xs.contains(xs[k]));
        }
    }
    assert(a =~= c);
}

/// Recording hashes depends only on which hashes occur: two sequences that
/// hold the same hashes, in any order and with any repetitions, leave the
/// same registers.
pub proof fn lemma_insert_same_hashes(regs: Seq<u8>, b: nat, xs: Seq<u64>, ys: Seq<u64>)
    requires
        regs_fit(regs, b),
        forall|x: u64| xs.contains(x) <==> ys.contains(x),
    ensures
        insert_all(regs, b, xs) == insert_all(regs, b, ys),
{
    lemma_equal_by_bounds(insert_all(regs, b, xs), insert_all(regs, b, ys), regs, b, xs, ys);
}

/// Adding one hash `n >= 1` times leaves the same registers as adding it once.
pub proof fn lemma_add_idempotent(regs: Seq<u8>, b: nat, x: u64, n: nat)
    requires
        regs_fit(regs, b),
        n >= 1,
    ensures
        insert_all(regs, b, Seq::new(n, |i: int| x)) == insert_hash(regs, b, x),
{
    let xs = Seq::new(n, |i: int| x);
    let one = seq![x];
    assert forall|y: u64| xs.contains(y) <==> one.contains(y) by {
        if y == x {
            assert(xs[0] == x);
            assert(one[0] == x);
        }
    }
    lemma_insert_same_hashes(regs, b, xs, one);
    assert(one.drop_last() =~= Seq::<u64>::empty());
    assert(insert_all(regs, b, one.drop_last()) == regs);
    assert(one.last() == x);
}

/// Adding is order-independent: any reordering of the hashes leaves the
/// same registers.
pub proof fn lemma_add_commutative(regs: Seq<u8>, b: nat, xs: Seq<u64>, ys: Seq<u64>)
    requires
        regs_fit(regs, b),
        xs.to_multiset() == ys.to_multiset(),
    ensures
        insert_all(regs, b, xs) == insert_all(regs, b, ys),
{
    assert forall|y: u64| xs.contains(y) <==> ys.contains(y) by {
        xs.to_multiset_ensures();
        ys.to_multiset_ensures();
        assert(xs.contains(y) <==> xs.to_multiset().count(y) > 0);
        assert(ys.contains(y) <==> ys.to_multiset().count(y) > 0);
        assert(xs.to_multiset().count(y) == ys.to_multiset().count(y));
    }
    lemma_insert_same_hashes(regs, b, xs, ys);
}

pub proof fn lemma_merge_fits(a: Seq<u8>, c: Seq<u8>, b: nat)
    requires
        regs_fit(a, b),
        regs_fit(c, b),
    ensures
        regs_fit(merge_regs(a, c), b),
{
}

proof fn lemma_merge_at(r: Seq<u8>, s: Seq<u8>, b: nat, xs: Seq<u64>, ys: Seq<u64>, i: int, v: nat)
    requires
        regs_fit(r, b),
        regs_fit(s, b),
        0 <= i < r.len(),
    ensures
        merge_regs(insert_all(r, b, xs), insert_all(s, b, ys))[i] <= v <==> insert_all(
            merge_regs(r, s),
            b,
            xs + ys,
        )[i] <= v,
{
    let rs = merge_regs(r, s);
    let zs = xs + ys;
    lemma_merge_fits(r, s, b);
    lemma_insert_all_at_most(r, b, xs, i, v);
    lemma_insert_all_at_most(s, b, ys, i, v);
    lemma_insert_all_at_most(rs, b, zs, i, v);
    let lhs = merge_regs(insert_all(r, b, xs), insert_all(s, b, ys));
    let rhs = insert_all(rs, b, zs);
    if rhs[i] <= v {
        assert forall|k: int|
            0 <= k < xs.len() && index_of(#[trigger] xs[k], b) == i implies rank_of(xs[k], b) <= v by {
            assert(zs[k] == xs[k]);
        }
        assert forall|k: int|
            0 <= k < ys.len() && index_of(#[trigger] ys[k], b) == i implies rank_of(ys[k], b) <= v by {
            assert(zs[xs.len() + k] == ys[k]);
        }
    }
    if lhs[i] <= v {
        assert forall|k: int|
            0 <= k < zs.len() && index_of(#[trigger] zs[k], b) == i implies rank_of(zs[k], b) <= v by {
            if k < xs.len() {
                assert(zs[k] == xs[k]);
            } else {
                assert(zs[k] == ys[k - xs.len()]);
            }
        }
    }
}

/// Merging is recording the union of the streams: merging the registers
/// that two streams left gives the registers that one estimator, started
/// from the merge of the two starting arrays, leaves after both streams.
pub proof fn lemma_merge_is_union(r: Seq<u8>, s: Seq<u8>, b: nat, xs: Seq<u64>, ys: Seq<u64>)
    requires
        regs_fit(r, b),
        regs_fit(s, b),
    ensures
        merge_regs(insert_all(r, b, xs), insert_all(s, b, ys)) == insert_all(
            merge_regs(r, s),
            b,
            xs + ys,
        ),
{
    let rs = merge_regs(r, s);
    lemma_merge_fits(r, s, b);
    lemma_pow2_pos(b);
    lemma_insert_all_at_most(r, b, xs, 0, 0);
    lemma_insert_all_at_most(s, b, ys, 0, 0);
    lemma_insert_all_at_most(rs, b, xs + ys, 0, 0);
    let lhs = merge_regs(insert_all(r, b, xs), insert_all(s, b, ys));
    let rhs = insert_all(rs, b, xs + ys);
    assert forall|i: int| 0 <= i < lhs.len() implies lhs[i] == rhs[i] by {
        lemma_merge_at(r, s, b, xs, ys, i, lhs[i] as nat);
        lemma_merge_at(r, s, b, xs, ys, i, rhs[i] as nat);
    }
    assert(lhs =~= rhs);
}

} // verus!
