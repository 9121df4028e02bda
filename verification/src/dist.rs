//! The mathematical model of a sample distribution.
//!
//! A sample set is modelled as a sequence of values; its statistics are
//! defined over occurrence counts: `count_eq` (the histogram entry for one
//! value) and `count_le` (the cumulative count the percentile rule walks).
//! The partition lemmas at the bottom connect a walk over the distinct
//! values — what the aggregator executes — with folds over the sample
//! sequence itself — what the contracts state.

use vstd::prelude::*;

verus! {

/// How many samples hold exactly the value `v`: the histogram entry for `v`.
pub open spec fn count_eq(s: Seq<u64>, v: u64) -> nat
    decreases s.len(),
{
    if s.len() == 0 {
        0
    } else {
        count_eq(s.drop_last(), v) + (if s.last() == v {
            1nat
        } else {
            0nat
        })
    }
}

/// How many samples hold a value at most `v`: the cumulative count at `v`.
pub open spec fn count_le(s: Seq<u64>, v: u64) -> nat
    decreases s.len(),
{
    if s.len() == 0 {
        0
    } else {
        count_le(s.drop_last(), v) + (if s.last() <= v {
            1nat
        } else {
            0nat
        })
    }
}

/// The sum of `w` over the samples, in generation order.
pub open spec fn seq_weight(s: Seq<u64>, w: spec_fn(u64) -> int) -> int
    decreases s.len(),
{
    if s.len() == 0 {
        0
    } else {
        seq_weight(s.drop_last(), w) + w(s.last())
    }
}

/// The weight that counts each sample once.
pub open spec fn w_one() -> spec_fn(u64) -> int {
    (|v: u64| 1int)
}

/// The weight that sums the sample values.
pub open spec fn w_val() -> spec_fn(u64) -> int {
    (|v: u64| v as int)
}

/// The weight that sums squared deviations from `mean`.
pub open spec fn w_sqdev(mean: int) -> spec_fn(u64) -> int {
    (|v: u64| (v - mean) * (v - mean))
}

/// The sum of the sample values.
pub open spec fn sum_vals(s: Seq<u64>) -> int {
    seq_weight(s, w_val())
}

/// The sum of squared deviations of the samples from `mean`.
pub open spec fn sum_sq_dev(s: Seq<u64>, mean: int) -> int {
    seq_weight(s, w_sqdev(mean))
}

/// The partial sum of `w(keys[i]) * count_eq(s, keys[i])` over the first
/// `j` keys: what a walk over distinct values has accumulated after `j`
/// steps.
pub open spec fn weighted_count(s: Seq<u64>, keys: Seq<u64>, j: int, w: spec_fn(u64) -> int) -> int
    decreases j,
{
    if j <= 0 {
        0
    } else {
        weighted_count(s, keys, j - 1, w) + w(keys[j - 1]) * count_eq(s, keys[j - 1])
    }
}

/// The keys are strictly ascending.
pub open spec fn strictly_sorted(keys: Seq<u64>) -> bool {
    forall|i: int, j: int| 0 <= i < j < keys.len() ==> keys[i] < keys[j]
}

/// The keys are exactly the distinct values of `s`.
pub open spec fn covers(s: Seq<u64>, keys: Seq<u64>) -> bool {
    forall|v: u64| #[trigger] count_eq(s, v) > 0 <==> key_in_prefix(keys, keys.len() as int, v)
}

/// `m` is the least value occurring in `s`.
pub open spec fn is_min_of(s: Seq<u64>, m: u64) -> bool {
    &&& count_eq(s, m) > 0
    &&& forall|v: u64| #[trigger] count_eq(s, v) > 0 ==> m <= v
}

/// `m` is the greatest value occurring in `s`.
pub open spec fn is_max_of(s: Seq<u64>, m: u64) -> bool {
    &&& count_eq(s, m) > 0
    &&& forall|v: u64| #[trigger] count_eq(s, v) > 0 ==> v <= m
}

/// The integer-truncated cumulative threshold for percentile `pct` of
/// `count` samples.
pub open spec fn pct_threshold(count: nat, pct: nat) -> nat {
    count * pct / 100
}

/// `v` is the `pct`-th percentile of `s`: the smallest value at which the
/// cumulative count first reaches the threshold.
pub open spec fn is_percentile(s: Seq<u64>, pct: nat, v: u64) -> bool {
    &&& count_eq(s, v) > 0
    &&& count_le(s, v) >= pct_threshold(s.len(), pct)
    &&& forall|w: u64| w < v ==> count_le(s, w) < pct_threshold(s.len(), pct)
}

/// `r` is the integer square root of `n`.
pub open spec fn is_isqrt(n: int, r: int) -> bool {
    &&& 0 <= r
    &&& r * r <= n
    &&& (r + 1) * (r + 1) > n
}

/// Occurrence counts never exceed the number of samples.
pub proof fn lemma_count_bounds(s: Seq<u64>, v: u64)
    ensures
        count_eq(s, v) <= s.len(),
        count_le(s, v) <= s.len(),
        count_eq(s, v) <= count_le(s, v),
    decreases s.len(),
{
    if s.len() > 0 {
        lemma_count_bounds(s.drop_last(), v);
    }
}

/// Appending one sample bumps its own counts and no other.
pub proof fn lemma_count_push(s: Seq<u64>, x: u64, v: u64)
    ensures
        count_eq(s.push(x), v) == count_eq(s, v) + (if x == v {
            1int
        } else {
            0int
        }),
        count_le(s.push(x), v) == count_le(s, v) + (if x <= v {
            1int
        } else {
            0int
        }),
{
    assert(s.push(x).drop_last() =~= s);
}

/// The cumulative count grows with its bound.
pub proof fn lemma_count_le_monotone(s: Seq<u64>, v1: u64, v2: u64)
    requires
        v1 <= v2,
    ensures
        count_le(s, v1) <= count_le(s, v2),
    decreases s.len(),
{
    if s.len() > 0 {
        lemma_count_le_monotone(s.drop_last(), v1, v2);
    }
}

/// Dropping a sample can only lower a count.
pub proof fn lemma_count_eq_drop_last(s: Seq<u64>, v: u64)
    requires
        s.len() > 0,
    ensures
        count_eq(s.drop_last(), v) <= count_eq(s, v),
{
}

/// Below every occurring value the cumulative count is zero.
pub proof fn lemma_count_le_below_all(s: Seq<u64>, v: u64)
    requires
        forall|u: u64| u <= v ==> count_eq(s, u) == 0,
    ensures
        count_le(s, v) == 0,
    decreases s.len(),
{
    if s.len() > 0 {
        assert forall|u: u64| u <= v implies count_eq(s.drop_last(), u) == 0 by {
            lemma_count_eq_drop_last(s, u);
        }
        lemma_count_le_below_all(s.drop_last(), v);
        assert(count_eq(s, s.last()) > 0);
    }
}

/// Across a gap holding no values, the cumulative count does not move.
pub proof fn lemma_count_le_gap(s: Seq<u64>, a: u64, b: u64)
    requires
        a < b,
        forall|u: u64| a < u <= b ==> count_eq(s, u) == 0,
    ensures
        count_le(s, b) == count_le(s, a),
    decreases s.len(),
{
    if s.len() > 0 {
        assert forall|u: u64| a < u <= b implies count_eq(s.drop_last(), u) == 0 by {
            lemma_count_eq_drop_last(s, u);
        }
        lemma_count_le_gap(s.drop_last(), a, b);
        if a < s.last() <= b {
            assert(count_eq(s, s.last()) > 0);
        }
    }
}

/// Crossing one occurring value raises the cumulative count by exactly that
/// value's occurrence count, when nothing lies strictly between.
pub proof fn lemma_count_le_step(s: Seq<u64>, a: u64, b: u64)
    requires
        a < b,
        forall|u: u64| a < u < b ==> count_eq(s, u) == 0,
    ensures
        count_le(s, b) == count_le(s, a) + count_eq(s, b),
    decreases s.len(),
{
    if s.len() > 0 {
        assert forall|u: u64| a < u < b implies count_eq(s.drop_last(), u) == 0 by {
            lemma_count_eq_drop_last(s, u);
        }
        lemma_count_le_step(s.drop_last(), a, b);
        if a < s.last() < b {
            assert(count_eq(s, s.last()) > 0);
        }
    }
}

/// At the lowest occurring value the cumulative count is that value's own
/// occurrence count.
pub proof fn lemma_count_le_first(s: Seq<u64>, b: u64)
    requires
        forall|u: u64| u < b ==> count_eq(s, u) == 0,
    ensures
        count_le(s, b) == count_eq(s, b),
    decreases s.len(),
{
    if s.len() > 0 {
        assert forall|u: u64| u < b implies count_eq(s.drop_last(), u) == 0 by {
            lemma_count_eq_drop_last(s, u);
        }
        lemma_count_le_first(s.drop_last(), b);
        if s.last() < b {
            assert(count_eq(s, s.last()) > 0);
        }
    }
}

/// `x` stands among the first `j` keys.
pub open spec fn key_in_prefix(keys: Seq<u64>, j: int, x: u64) -> bool {
    exists|i: int| 0 <= i < j && i < keys.len() && keys[i] == x
}

/// No key repeats.
pub open spec fn distinct_keys(keys: Seq<u64>) -> bool {
    forall|i: int, j: int| 0 <= i < j < keys.len() ==> keys[i] != keys[j]
}

/// Hands out the index at which a key of the prefix stands.
pub proof fn key_index(keys: Seq<u64>, j: int, x: u64) -> (i: int)
    requires
        key_in_prefix(keys, j, x),
    ensures
        0 <= i < j,
        i < keys.len(),
        keys[i] == x,
{
    choose|i: int| 0 <= i < j && i < keys.len() && keys[i] == x
}

/// Ascending keys never repeat.
pub proof fn lemma_sorted_distinct(keys: Seq<u64>)
    requires
        strictly_sorted(keys),
    ensures
        distinct_keys(keys),
{
}

/// A walk over keys that never occur accumulates nothing.
pub proof fn lemma_weighted_count_zero(s: Seq<u64>, keys: Seq<u64>, j: int, w: spec_fn(u64) -> int)
    requires
        forall|i: int| 0 <= i < j && i < keys.len() ==> count_eq(s, keys[i]) == 0,
        j <= keys.len(),
    ensures
        weighted_count(s, keys, j, w) == 0,
    decreases j,
{
    if j > 0 {
        lemma_weighted_count_zero(s, keys, j - 1, w);
    }
}

/// Appending the sample `x` raises the walk's total by `w(x)` when some key
/// among the first `j` holds `x`, and not at all otherwise.
pub proof fn lemma_weighted_count_push(
    t: Seq<u64>,
    x: u64,
    keys: Seq<u64>,
    j: int,
    w: spec_fn(u64) -> int,
)
    requires
        distinct_keys(keys),
        j <= keys.len(),
    ensures
        weighted_count(t.push(x), keys, j, w) == weighted_count(t, keys, j, w) + (if key_in_prefix(
            keys,
            j,
            x,
        ) {
            w(x)
        } else {
            0int
        }),
    decreases j,
{
    if j > 0 {
        lemma_weighted_count_push(t, x, keys, j - 1, w);
        lemma_count_push(t, x, keys[j - 1]);
        let a = w(keys[j - 1]);
        let c = count_eq(t, keys[j - 1]) as int;
        if keys[j - 1] == x {
            assert(count_eq(t.push(x), keys[j - 1]) == c + 1);
            assert(a * (c + 1) == a * c + a) by (nonlinear_arith);
            assert(!key_in_prefix(keys, j - 1, x)) by {
                if key_in_prefix(keys, j - 1, x) {
                    let i = key_index(keys, j - 1, x);
                    assert(keys[i] != keys[j - 1]);
                }
            }
            assert(key_in_prefix(keys, j, x));
        } else {
            assert(count_eq(t.push(x), keys[j - 1]) == c);
            assert(key_in_prefix(keys, j, x) <==> key_in_prefix(keys, j - 1, x)) by {
                if key_in_prefix(keys, j, x) {
                    let i = key_index(keys, j, x);
                    assert(key_in_prefix(keys, j - 1, x));
                }
            }
        }
    }
}

/// The partition law: a full walk over distinct keys that cover the samples
/// accumulates exactly the fold of `w` over the samples themselves.
pub proof fn lemma_weighted_partition(s: Seq<u64>, keys: Seq<u64>, w: spec_fn(u64) -> int)
    requires
        distinct_keys(keys),
        forall|v: u64| #[trigger] count_eq(s, v) > 0 ==> key_in_prefix(keys, keys.len() as int, v),
    ensures
        weighted_count(s, keys, keys.len() as int, w) == seq_weight(s, w),
    decreases s.len(),
{
    if s.len() == 0 {
        lemma_weighted_count_zero(s, keys, keys.len() as int, w);
    } else {
        let t = s.drop_last();
        let x = s.last();
        assert forall|v: u64| #[trigger] count_eq(t, v) > 0 implies key_in_prefix(
            keys,
            keys.len() as int,
            v,
        ) by {
            lemma_count_eq_drop_last(s, v);
        }
        lemma_weighted_partition(t, keys, w);
        assert(t.push(x) =~= s);
        lemma_weighted_count_push(t, x, keys, keys.len() as int, w);
        assert(count_eq(s, x) > 0);
    }
}

/// Counting every sample once gives the sample count.
pub proof fn lemma_seq_weight_one(s: Seq<u64>)
    ensures
        seq_weight(s, w_one()) == s.len(),
    decreases s.len(),
{
    if s.len() > 0 {
        lemma_seq_weight_one(s.drop_last());
    }
}

/// A walk with nonnegative weights only grows.
pub proof fn lemma_weighted_count_monotone(
    s: Seq<u64>,
    keys: Seq<u64>,
    j1: int,
    j2: int,
    w: spec_fn(u64) -> int,
)
    requires
        0 <= j1 <= j2,
        forall|v: u64| #[trigger] w(v) >= 0,
    ensures
        weighted_count(s, keys, j1, w) <= weighted_count(s, keys, j2, w),
    decreases j2 - j1,
{
    if j1 < j2 {
        lemma_weighted_count_monotone(s, keys, j1, j2 - 1, w);
        assert(w(keys[j2 - 1]) * count_eq(s, keys[j2 - 1]) >= 0) by (nonlinear_arith)
            requires
                w(keys[j2 - 1]) >= 0,
        ;
    }
}

/// After `j + 1` steps of the walk over sorted covering keys, the
/// accumulated count is the cumulative count at the `j`-th key.
pub proof fn lemma_cum_counts(s: Seq<u64>, keys: Seq<u64>, j: int)
    requires
        strictly_sorted(keys),
        covers(s, keys),
        0 <= j < keys.len(),
    ensures
        weighted_count(s, keys, j + 1, w_one()) == count_le(s, keys[j]),
    decreases j,
{
    if j == 0 {
        assert forall|u: u64| u < keys[0] implies count_eq(s, u) == 0 by {
            if count_eq(s, u) > 0 {
                let i = key_index(keys, keys.len() as int, u);
                if i > 0 {
                    assert(keys[0] < keys[i]);
                }
            }
        }
        lemma_count_le_first(s, keys[0]);
        assert(w_one()(keys[0]) == 1);
        assert(weighted_count(s, keys, 0, w_one()) == 0);
        assert(weighted_count(s, keys, 1, w_one()) == 1 * count_eq(s, keys[0]));
    } else {
        lemma_cum_counts(s, keys, j - 1);
        assert forall|u: u64| keys[j - 1] < u < keys[j] implies count_eq(s, u) == 0 by {
            if count_eq(s, u) > 0 {
                let i = key_index(keys, keys.len() as int, u);
                if i <= j - 1 {
                    if i < j - 1 {
                        assert(keys[i] < keys[j - 1]);
                    }
                } else {
                    if i > j {
                        assert(keys[j] < keys[i]);
                    }
                }
            }
        }
        lemma_count_le_step(s, keys[j - 1], keys[j]);
        assert(w_one()(keys[j]) == 1);
        assert(weighted_count(s, keys, j + 1, w_one()) == weighted_count(s, keys, j, w_one()) + 1
            * count_eq(s, keys[j]));
    }
}

/// Every indexed sample's value occurs in the distribution.
pub proof fn lemma_count_positive(s: Seq<u64>, i: int)
    requires
        0 <= i < s.len(),
    ensures
        count_eq(s, s[i]) > 0,
    decreases s.len(),
{
    if i < s.len() - 1 {
        lemma_count_positive(s.drop_last(), i);
    }
}

/// A nonnegative weight folds to a nonnegative total.
pub proof fn lemma_seq_weight_nonneg(s: Seq<u64>, w: spec_fn(u64) -> int)
    requires
        forall|v: u64| #[trigger] w(v) >= 0,
    ensures
        seq_weight(s, w) >= 0,
    decreases s.len(),
{
    if s.len() > 0 {
        lemma_seq_weight_nonneg(s.drop_last(), w);
    }
}

/// Appending one sample adds its weight to the fold.
pub proof fn lemma_seq_weight_push(s: Seq<u64>, w: spec_fn(u64) -> int, x: u64)
    ensures
        seq_weight(s.push(x), w) == seq_weight(s, w) + w(x),
{
    assert(s.push(x).drop_last() =~= s);
}

/// Under a nonnegative weight, a prefix never folds to more than the whole.
pub proof fn lemma_seq_weight_take(s: Seq<u64>, w: spec_fn(u64) -> int, i: int)
    requires
        0 <= i <= s.len(),
        forall|v: u64| #[trigger] w(v) >= 0,
    ensures
        seq_weight(s.take(i), w) <= seq_weight(s, w),
    decreases s.len(),
{
    if i == s.len() {
        assert(s.take(i) =~= s);
    } else {
        assert(s.take(i) =~= s.drop_last().take(i));
        lemma_seq_weight_take(s.drop_last(), w, i);
    }
}

/// Each occurring value is at most the sum of all values.
pub proof fn lemma_value_le_sum(s: Seq<u64>, v: u64)
    requires
        count_eq(s, v) > 0,
    ensures
        0 <= v <= sum_vals(s),
    decreases s.len(),
{
    assert forall|u: u64| #[trigger] w_val()(u) >= 0 by {
        assert(w_val()(u) == u as int);
    }
    if s.len() > 0 {
        if s.last() == v {
            lemma_seq_weight_nonneg(s.drop_last(), w_val());
            assert(w_val()(v) == v as int);
        } else {
            lemma_value_le_sum(s.drop_last(), v);
            assert(w_val()(s.last()) == s.last() as int);
        }
    }
}

/// The percentile rule, established at the walk's crossing point: the first
/// sorted key whose cumulative count reaches the threshold is the
/// percentile.
pub proof fn lemma_percentile_at_crossing(s: Seq<u64>, keys: Seq<u64>, j: int, pct: nat)
    requires
        strictly_sorted(keys),
        covers(s, keys),
        0 <= j < keys.len(),
        pct_threshold(s.len(), pct) >= 1,
        count_le(s, keys[j]) >= pct_threshold(s.len(), pct),
        j > 0 ==> count_le(s, keys[j - 1]) < pct_threshold(s.len(), pct),
    ensures
        is_percentile(s, pct, keys[j]),
{
    let t = pct_threshold(s.len(), pct);
    assert(key_in_prefix(keys, keys.len() as int, keys[j]));
    assert(count_eq(s, keys[j]) > 0);
    assert forall|w: u64| w < keys[j] implies count_le(s, w) < t by {
        if j == 0 {
            assert forall|u: u64| u <= w implies count_eq(s, u) == 0 by {
                if count_eq(s, u) > 0 {
                    let i = key_index(keys, keys.len() as int, u);
                    if i > 0 {
                        assert(keys[0] < keys[i]);
                    }
                }
            }
            lemma_count_le_below_all(s, w);
        } else {
            if w <= keys[j - 1] {
                lemma_count_le_monotone(s, w, keys[j - 1]);
            } else {
                assert forall|u: u64| keys[j - 1] < u <= w implies count_eq(s, u) == 0 by {
                    if count_eq(s, u) > 0 {
                        let i = key_index(keys, keys.len() as int, u);
                        if i < j - 1 {
                            assert(keys[i] < keys[j - 1]);
                        } else if i > j {
                            assert(keys[j] < keys[i]);
                        }
                    }
                }
                lemma_count_le_gap(s, keys[j - 1], w);
            }
        }
    }
}

/// The percentile is unique: no two distinct values can both be the first
/// to reach the threshold.
pub proof fn lemma_percentile_unique(s: Seq<u64>, pct: nat, v1: u64, v2: u64)
    requires
        is_percentile(s, pct, v1),
        is_percentile(s, pct, v2),
    ensures
        v1 == v2,
{
    if v1 < v2 {
        assert(count_le(s, v1) < pct_threshold(s.len(), pct));
    }
    if v2 < v1 {
        assert(count_le(s, v2) < pct_threshold(s.len(), pct));
    }
}

} // verus!
