//! Reduction of a sample set into summary statistics.
//!
//! The aggregator scales raw samples under the calibration ratio when asked,
//! folds them into a histogram, and walks the distinct values ascending to
//! read off minimum, maximum, the 50th and 95th percentiles, the truncating
//! mean, and the population standard deviation. Every statistic is pinned by
//! `is_stats_for`, so the record is a pure function of the sample set, the
//! ratio and the scaling flag.

use vstd::prelude::*;
use vstd::arithmetic::div_mod::{lemma_div_basics_5, lemma_div_is_ordered, lemma_div_non_zero};
use crate::calibrate::{CalibrationRatio, scale_sample, spec_scaled_value};
use crate::dist::{
    count_eq, count_le, covers, is_isqrt, is_max_of, is_min_of, is_percentile, key_in_prefix,
    key_index, lemma_count_bounds, lemma_count_positive, lemma_count_push, lemma_cum_counts,
    lemma_percentile_at_crossing, lemma_percentile_unique, lemma_seq_weight_one,
    lemma_seq_weight_nonneg, lemma_seq_weight_push, lemma_seq_weight_take, lemma_sorted_distinct,
    lemma_value_le_sum, lemma_weighted_count_monotone, lemma_weighted_partition, pct_threshold,
    strictly_sorted, sum_sq_dev, sum_vals, w_one, w_sqdev, w_val, weighted_count,
};
use crate::hist::{Histogram, lemma_wf_facts};

verus! {

/// Relies on `u64::isqrt`: the documentation defines the result as the
/// largest integer `r` with `r * r <= self`.
pub assume_specification[ u64::isqrt ](x: u64) -> (r: u64)
    ensures
        r * r <= x,
        (r + 1) * (r + 1) > x,
;

/// The final immutable output of one benchmark run over one clock.
#[derive(Clone, Copy, Debug, PartialEq, Eq)]
pub struct StatsRecord {
    pub count: u64,
    pub min: u64,
    pub max: u64,
    pub p50: u64,
    pub p95: u64,
    pub mean: i64,
    pub stddev: u64,
    /// The calibration ratio behind the diagnostic drift figure, kept when
    /// the samples were left in native units; not applicable — `None` —
    /// when they were rescaled into nanoseconds.
    pub drift: Option<CalibrationRatio>,
}

/// The sample values the statistics are computed over: rescaled into
/// nanoseconds under the ratio when asked, the raw samples otherwise.
pub open spec fn spec_scaled_seq(samples: Seq<u64>, ratio: CalibrationRatio, scale: bool) -> Seq<
    u64,
> {
    if scale {
        samples.map_values(|s: u64| spec_scaled_value(s, ratio) as u64)
    } else {
        samples
    }
}

/// What the aggregator asks of its caller: at least two samples (the
/// minimum for a standard deviation), and inputs small enough that the
/// pipeline's 64-bit arithmetic cannot overflow.
pub open spec fn aggregate_pre(samples: Seq<u64>, ratio: CalibrationRatio, scale: bool) -> bool {
    let vals = spec_scaled_seq(samples, ratio, scale);
    &&& samples.len() >= 2
    &&& samples.len() * 100 <= u64::MAX
    &&& (scale ==> ratio.wf() && (forall|k: int|
        0 <= k < samples.len() ==> #[trigger] samples[k] * ratio.reference_nanos_delta
            <= u64::MAX))
    &&& sum_vals(vals) <= i64::MAX
    &&& sum_sq_dev(vals, sum_vals(vals) / (vals.len() as int)) <= u64::MAX
}

/// What the record holds: each statistic of the scaled sample values, as
/// the percentile rule and the truncating integer arithmetic define them,
/// and the drift ratio exactly when the samples were not rescaled.
pub open spec fn is_stats_for(
    samples: Seq<u64>,
    ratio: CalibrationRatio,
    scale: bool,
    r: StatsRecord,
) -> bool {
    let vals = spec_scaled_seq(samples, ratio, scale);
    &&& r.count == vals.len()
    &&& is_min_of(vals, r.min)
    &&& is_max_of(vals, r.max)
    &&& is_percentile(vals, 50, r.p50)
    &&& is_percentile(vals, 95, r.p95)
    &&& r.mean == sum_vals(vals) / (vals.len() as int)
    &&& is_isqrt(sum_sq_dev(vals, r.mean as int) / (vals.len() - 1), r.stddev as int)
    &&& r.drift == (if scale {
        Option::<CalibrationRatio>::None
    } else {
        Some(ratio)
    })
}

/// The histogram holds exactly the occurrence counts of `s`.
pub open spec fn hist_matches(h: Histogram, s: Seq<u64>) -> bool {
    &&& h.wf()
    &&& forall|v: u64| #[trigger] h@.contains_key(v) <==> count_eq(s, v) > 0
    &&& forall|v: u64| #[trigger] h@.contains_key(v) ==> h@[v] == count_eq(s, v)
}

/// Applies the calibration ratio to every sample, or hands the raw set on.
fn build_scaled(samples: &Vec<u64>, ratio: &CalibrationRatio, scale_to_nanos: bool) -> (r: Vec<
    u64,
>)
    requires
        scale_to_nanos ==> ratio.wf() && (forall|k: int|
            0 <= k < samples@.len() ==> #[trigger] samples@[k] * ratio.reference_nanos_delta
                <= u64::MAX),
    ensures
        r@ == spec_scaled_seq(samples@, *ratio, scale_to_nanos),
{
    let ghost gvals = spec_scaled_seq(samples@, *ratio, scale_to_nanos);
    let mut vals: Vec<u64> = Vec::with_capacity(samples.len());
    let mut i: usize = 0;
    while i < samples.len()
        invariant
            i <= samples@.len(),
            vals@.len() == i,
            forall|k: int| 0 <= k < i ==> vals@[k] == gvals[k],
            gvals == spec_scaled_seq(samples@, *ratio, scale_to_nanos),
            gvals.len() == samples@.len(),
            scale_to_nanos ==> ratio.wf() && (forall|k: int|
                0 <= k < samples@.len() ==> #[trigger] samples@[k] * ratio.reference_nanos_delta
                    <= u64::MAX),
        decreases samples@.len() - i,
    {
        let v = if scale_to_nanos {
            scale_sample(samples[i], ratio)
        } else {
            samples[i]
        };
        vals.push(v);
        i = i + 1;
    }
    proof {
        assert(vals@ =~= gvals);
    }
    vals
}

/// Folds a sample set into its frequency histogram.
fn build_histogram(vals: &Vec<u64>) -> (h: Histogram)
    requires
        vals@.len() < u64::MAX,
    ensures
        hist_matches(h, vals@),
{
    let mut h = Histogram::new();
    let mut i: usize = 0;
    while i < vals.len()
        invariant
            i <= vals@.len(),
            vals@.len() < u64::MAX,
            h.wf(),
            forall|v: u64| #[trigger] h@.contains_key(v) <==> count_eq(vals@.take(i as int), v) > 0,
            forall|v: u64|
                #[trigger] h@.contains_key(v) ==> h@[v] == count_eq(vals@.take(i as int), v),
        decreases vals@.len() - i,
    {
        let ghost prefix = vals@.take(i as int);
        let x = vals[i];
        proof {
            lemma_count_bounds(prefix, x);
        }
        h.record(x);
        proof {
            assert(vals@.take(i as int + 1) =~= prefix.push(x));
            assert forall|v: u64|
                #[trigger] h@.contains_key(v) <==> count_eq(vals@.take(i as int + 1), v) > 0 by {
                lemma_count_push(prefix, x, v);
            }
            assert forall|v: u64| #[trigger] h@.contains_key(v) implies h@[v] == count_eq(
                vals@.take(i as int + 1),
                v,
            ) by {
                lemma_count_push(prefix, x, v);
            }
        }
        i = i + 1;
    }
    proof {
        assert(vals@.take(vals@.len() as int) =~= vals@);
    }
    h
}

/// A matching histogram's sorted keys are exactly the distinct values.
proof fn lemma_hist_covers(h: &Histogram, s: Seq<u64>)
    requires
        hist_matches(*h, s),
    ensures
        covers(s, h.spec_keys()),
        strictly_sorted(h.spec_keys()),
{
    lemma_wf_facts(h);
    assert forall|v: u64|
        #[trigger] count_eq(s, v) > 0 <==> key_in_prefix(
            h.spec_keys(),
            h.spec_keys().len() as int,
            v,
        ) by {
        if count_eq(s, v) > 0 {
            assert(h@.contains_key(v));
        }
        if key_in_prefix(h.spec_keys(), h.spec_keys().len() as int, v) {
            assert(h@.contains_key(v));
        }
    }
}

/// Walks the histogram's values ascending and returns the first at which
/// the cumulative count reaches the integer-truncated threshold
/// `count * pct / 100` — the percentile rule.
fn find_percentile(h: &Histogram, count: u64, pct: u64, Ghost(s): Ghost<Seq<u64>>) -> (r: u64)
    requires
        hist_matches(*h, s),
        count == s.len(),
        1 <= pct <= 100,
        count * pct >= 100,
        count * pct <= u64::MAX,
    ensures
        is_percentile(s, pct as nat, r),
{
    let ghost keys = h.spec_keys();
    proof {
        lemma_hist_covers(h, s);
        lemma_sorted_distinct(keys);
    }
    let t: u64 = count * pct / 100;
    proof {
        lemma_div_non_zero((count * pct) as int, 100);
        assert(t as int == pct_threshold(s.len(), pct as nat));
    }
    let skeys = h.sorted_keys();
    let mut cum: u64 = 0;
    let mut found: Option<u64> = None;
    let mut j: usize = 0;
    while j < skeys.len()
        invariant
            hist_matches(*h, s),
            keys == h.spec_keys(),
            skeys@ == keys,
            strictly_sorted(keys),
            covers(s, keys),
            count == s.len(),
            t >= 1,
            t as int == pct_threshold(s.len(), pct as nat),
            j <= keys.len(),
            cum == weighted_count(s, keys, j as int, w_one()),
            cum <= s.len(),
            j > 0 ==> cum == count_le(s, keys[j - 1]),
            j == 0 ==> cum == 0,
            match found {
                Some(v) => is_percentile(s, pct as nat, v) && cum >= t,
                None => cum < t,
            },
        decreases keys.len() - j,
    {
        let k = skeys[j];
        let num = h.count_of(k);
        proof {
            assert(key_in_prefix(keys, keys.len() as int, keys[j as int]));
            assert(count_eq(s, k) > 0);
            assert(h@.contains_key(k));
            assert(w_one()(k) == 1);
            assert(weighted_count(s, keys, j as int + 1, w_one()) == cum + 1 * count_eq(s, k));
            assert forall|u: u64| #[trigger] w_one()(u) >= 0 by {}
            lemma_weighted_count_monotone(s, keys, j as int + 1, keys.len() as int, w_one());
            lemma_weighted_partition(s, keys, w_one());
            lemma_seq_weight_one(s);
            lemma_cum_counts(s, keys, j as int);
        }
        if cum < t && cum + num >= t {
            found = Some(k);
            proof {
                lemma_percentile_at_crossing(s, keys, j as int, pct as nat);
            }
        }
        cum = cum + num;
        j = j + 1;
    }
    proof {
        lemma_weighted_partition(s, keys, w_one());
        lemma_seq_weight_one(s);
    }
    match found {
        Some(v) => v,
        None => {
            proof {
                assert(cum == s.len());
                assert(count * pct <= count * 100) by (nonlinear_arith)
                    requires
                        pct <= 100,
                        count >= 0,
                ;
                lemma_div_is_ordered((count * pct) as int, (count * 100) as int, 100);
                assert((count * 100) as int / 100 == count) by (nonlinear_arith);
                assert(false);
            }
            0
        },
    }
}

/// The truncating mean of the sample values, read off the histogram.
fn compute_mean(h: &Histogram, count: u64, Ghost(s): Ghost<Seq<u64>>) -> (r: i64)
    requires
        hist_matches(*h, s),
        count == s.len(),
        s.len() >= 1,
        sum_vals(s) <= i64::MAX,
    ensures
        r == sum_vals(s) / (s.len() as int),
        0 <= r,
{
    let ghost keys = h.spec_keys();
    proof {
        lemma_hist_covers(h, s);
        lemma_sorted_distinct(keys);
        assert forall|u: u64| #[trigger] w_val()(u) >= 0 by {
            assert(w_val()(u) == u as int);
        }
        lemma_seq_weight_nonneg(s, w_val());
    }
    let skeys = h.sorted_keys();
    let mut total: u64 = 0;
    let mut j: usize = 0;
    while j < skeys.len()
        invariant
            hist_matches(*h, s),
            keys == h.spec_keys(),
            skeys@ == keys,
            strictly_sorted(keys),
            covers(s, keys),
            count == s.len(),
            sum_vals(s) <= i64::MAX,
            j <= keys.len(),
            total == weighted_count(s, keys, j as int, w_val()),
        decreases keys.len() - j,
    {
        let k = skeys[j];
        let num = h.count_of(k);
        proof {
            assert(key_in_prefix(keys, keys.len() as int, keys[j as int]));
            assert(count_eq(s, k) > 0);
            assert(h@.contains_key(k));
            assert(w_val()(k) == k as int);
            assert forall|u: u64| #[trigger] w_val()(u) >= 0 by {
                assert(w_val()(u) == u as int);
            }
            assert(weighted_count(s, keys, j as int + 1, w_val()) == total + (k as int) * count_eq(
                s,
                k,
            ));
            lemma_weighted_count_monotone(s, keys, 0, j as int, w_val());
            lemma_weighted_count_monotone(s, keys, j as int + 1, keys.len() as int, w_val());
            lemma_weighted_partition(s, keys, w_val());
        }
        let term = k * num;
        total = total + term;
        j = j + 1;
    }
    proof {
        lemma_weighted_partition(s, keys, w_val());
        lemma_div_basics_5(sum_vals(s), s.len() as int);
    }
    let mean = total / count;
    mean as i64
}

/// The population standard deviation: the integer square root of the sum of
/// squared deviations from the mean, weighted by occurrence, divided by
/// `count - 1`.
fn compute_stddev(h: &Histogram, count: u64, mean: i64, Ghost(s): Ghost<Seq<u64>>) -> (r: u64)
    requires
        hist_matches(*h, s),
        count == s.len(),
        s.len() >= 2,
        sum_vals(s) <= i64::MAX,
        mean == sum_vals(s) / (s.len() as int),
        sum_sq_dev(s, mean as int) <= u64::MAX,
    ensures
        is_isqrt(sum_sq_dev(s, mean as int) / (s.len() - 1), r as int),
{
    let ghost keys = h.spec_keys();
    let ghost m = mean as int;
    proof {
        lemma_hist_covers(h, s);
        lemma_sorted_distinct(keys);
        assert forall|u: u64| #[trigger] w_val()(u) >= 0 by {
            assert(w_val()(u) == u as int);
        }
        lemma_seq_weight_nonneg(s, w_val());
        lemma_div_basics_5(sum_vals(s), s.len() as int);
        assert(0 <= mean);
    }
    let skeys = h.sorted_keys();
    let mut ssd: u64 = 0;
    let mut j: usize = 0;
    while j < skeys.len()
        invariant
            hist_matches(*h, s),
            keys == h.spec_keys(),
            skeys@ == keys,
            strictly_sorted(keys),
            covers(s, keys),
            count == s.len(),
            s.len() >= 2,
            sum_vals(s) <= i64::MAX,
            m == mean as int,
            0 <= mean,
            mean <= sum_vals(s),
            sum_sq_dev(s, m) <= u64::MAX,
            j <= keys.len(),
            ssd == weighted_count(s, keys, j as int, w_sqdev(m)),
        decreases keys.len() - j,
    {
        let k = skeys[j];
        let num = h.count_of(k);
        proof {
            assert(key_in_prefix(keys, keys.len() as int, keys[j as int]));
            assert(count_eq(s, k) > 0);
            assert(h@.contains_key(k));
            lemma_value_le_sum(s, k);
            assert(w_sqdev(m)(k) == (k - m) * (k - m));
            assert forall|u: u64| #[trigger] w_sqdev(m)(u) >= 0 by {
                let d = u - m;
                assert(d * d >= 0) by (nonlinear_arith);
            }
            assert(weighted_count(s, keys, j as int + 1, w_sqdev(m)) == ssd + ((k - m) * (k - m))
                * count_eq(s, k));
            lemma_weighted_count_monotone(s, keys, 0, j as int, w_sqdev(m));
            lemma_weighted_count_monotone(s, keys, j as int + 1, keys.len() as int, w_sqdev(m));
            lemma_weighted_partition(s, keys, w_sqdev(m));
            assert(((k - m) * (k - m)) <= ((k - m) * (k - m)) * count_eq(s, k)) by (nonlinear_arith)
                requires
                    count_eq(s, k) >= 1,
            ;
        }
        let d: i64 = (k as i64) - mean;
        let dd: i128 = (d as i128) * (d as i128);
        let sq: u64 = dd as u64;
        let term = sq * num;
        ssd = ssd + term;
        j = j + 1;
    }
    proof {
        lemma_weighted_partition(s, keys, w_sqdev(m));
    }
    let variance = ssd / (count - 1);
    variance.isqrt()
}

/// Reduces one sample set into its statistics record under the calibration
/// ratio: the histogram statistics of the (optionally rescaled) values,
/// with the drift ratio kept exactly when no rescaling was applied. A pure
/// function of its inputs: the record is fully determined by them.
pub fn aggregate(samples: &Vec<u64>, ratio: &CalibrationRatio, scale_to_nanos: bool) -> (r:
    StatsRecord)
    requires
        aggregate_pre(samples@, *ratio, scale_to_nanos),
    ensures
        is_stats_for(samples@, *ratio, scale_to_nanos, r),
{
    let ghost s = spec_scaled_seq(samples@, *ratio, scale_to_nanos);
    let vals = build_scaled(samples, ratio, scale_to_nanos);
    let count: u64 = vals.len() as u64;
    let h = build_histogram(&vals);
    let ghost keys = h.spec_keys();
    proof {
        lemma_hist_covers(&h, s);
        lemma_sorted_distinct(keys);
        lemma_count_positive(s, 0);
        let i0 = key_index(keys, keys.len() as int, s[0]);
    }
    let skeys = h.sorted_keys();
    let minv = skeys[0];
    let maxv = skeys[skeys.len() - 1];
    proof {
        assert(key_in_prefix(keys, keys.len() as int, keys[0]));
        assert(key_in_prefix(keys, keys.len() as int, keys[keys.len() - 1]));
        assert forall|v: u64| #[trigger] count_eq(s, v) > 0 implies minv <= v && v <= maxv by {
            let i = key_index(keys, keys.len() as int, v);
            if i > 0 {
                assert(keys[0] < keys[i]);
            }
            if i < keys.len() - 1 {
                assert(keys[i] < keys[keys.len() - 1]);
            }
        }
    }
    let p50 = find_percentile(&h, count, 50, Ghost(s));
    let p95 = find_percentile(&h, count, 95, Ghost(s));
    let mean = compute_mean(&h, count, Ghost(s));
    let stddev = compute_stddev(&h, count, mean, Ghost(s));
    StatsRecord {
        count,
        min: minv,
        max: maxv,
        p50,
        p95,
        mean,
        stddev,
        drift: if scale_to_nanos {
            None
        } else {
            Some(*ratio)
        },
    }
}

/// Validates a sample set against the aggregator's precondition, and
/// aggregates it when every check passes. `None` reports a caller error —
/// fewer than two samples, the minimum for a standard deviation — or inputs
/// whose statistics would overflow the pipeline's 64-bit arithmetic; `Some`
/// comes back exactly on the inputs `aggregate` admits.
pub fn try_aggregate(samples: &Vec<u64>, ratio: &CalibrationRatio, scale_to_nanos: bool) -> (r:
    Option<StatsRecord>)
    ensures
        r is Some <==> aggregate_pre(samples@, *ratio, scale_to_nanos),
        r is Some ==> is_stats_for(samples@, *ratio, scale_to_nanos, r->Some_0),
{
    if samples.len() < 2 {
        return None;
    }
    if (samples.len() as u128) * 100 > (u64::MAX as u128) {
        return None;
    }
    if scale_to_nanos {
        if !(ratio.tick_delta > 0 && ratio.reference_nanos_delta > 0) {
            return None;
        }
        let mut i: usize = 0;
        while i < samples.len()
            invariant
                i <= samples@.len(),
                scale_to_nanos,
                ratio.wf(),
                forall|k: int|
                    0 <= k < i ==> #[trigger] samples@[k] * ratio.reference_nanos_delta
                        <= u64::MAX,
            decreases samples@.len() - i,
        {
            let a = samples[i];
            let b = ratio.reference_nanos_delta;
            proof {
                assert((a as int) * (b as int) <= (u64::MAX as int) * (u64::MAX as int))
                    by (nonlinear_arith)
                    requires
                        0 <= a <= u64::MAX,
                        0 <= b <= u64::MAX,
                ;
            }
            if (a as u128) * (b as u128) > (u64::MAX as u128) {
                return None;
            }
            i = i + 1;
        }
    }
    let vals = build_scaled(samples, ratio, scale_to_nanos);
    let ghost s = spec_scaled_seq(samples@, *ratio, scale_to_nanos);
    let mut acc: u128 = 0;
    let mut i: usize = 0;
    while i < vals.len()
        invariant
            i <= s.len(),
            vals@ == s,
            s == spec_scaled_seq(samples@, *ratio, scale_to_nanos),
            acc == sum_vals(s.take(i as int)),
            acc <= i64::MAX as u128,
        decreases s.len() - i,
    {
        proof {
            assert(s.take(i as int + 1) =~= s.take(i as int).push(s[i as int]));
            lemma_seq_weight_push(s.take(i as int), w_val(), s[i as int]);
            assert(w_val()(s[i as int]) == s[i as int] as int);
        }
        let v = vals[i];
        let na = acc + (v as u128);
        if na > (i64::MAX as u128) {
            proof {
                assert forall|u: u64| #[trigger] w_val()(u) >= 0 by {
                    assert(w_val()(u) == u as int);
                }
                lemma_seq_weight_take(s, w_val(), i as int + 1);
            }
            return None;
        }
        acc = na;
        i = i + 1;
    }
    proof {
        assert(s.take(s.len() as int) =~= s);
    }
    let total: u64 = acc as u64;
    let count: u64 = vals.len() as u64;
    proof {
        lemma_div_basics_5(sum_vals(s), s.len() as int);
        vstd::arithmetic::div_mod::lemma_div_basics_4(sum_vals(s), s.len() as int);
    }
    let mean: i64 = (total / count) as i64;
    let ghost m = mean as int;
    let mut acc2: u128 = 0;
    let mut i2: usize = 0;
    while i2 < vals.len()
        invariant
            i2 <= s.len(),
            vals@ == s,
            s == spec_scaled_seq(samples@, *ratio, scale_to_nanos),
            s.len() >= 2,
            m == mean as int,
            m == sum_vals(s) / (s.len() as int),
            0 <= mean,
            (mean as int) <= sum_vals(s),
            sum_vals(s) <= i64::MAX,
            acc2 == sum_sq_dev(s.take(i2 as int), m),
            acc2 <= u64::MAX as u128,
        decreases s.len() - i2,
    {
        proof {
            assert(s.take(i2 as int + 1) =~= s.take(i2 as int).push(s[i2 as int]));
            lemma_seq_weight_push(s.take(i2 as int), w_sqdev(m), s[i2 as int]);
            assert(w_sqdev(m)(s[i2 as int]) == (s[i2 as int] - m) * (s[i2 as int] - m));
            lemma_count_positive(s, i2 as int);
            lemma_value_le_sum(s, s[i2 as int]);
        }
        let v = vals[i2];
        let d: i128 = (v as i128) - (mean as i128);
        proof {
            assert(d * d >= 0 && d * d <= (i64::MAX as i128) * (i64::MAX as i128))
                by (nonlinear_arith)
                requires
                    -(i64::MAX as int) <= d <= (i64::MAX as int),
            ;
        }
        let sq: i128 = d * d;
        let na = acc2 + (sq as u128);
        if na > (u64::MAX as u128) {
            proof {
                assert forall|u: u64| #[trigger] w_sqdev(m)(u) >= 0 by {
                    let dd = u - m;
                    assert(dd * dd >= 0) by (nonlinear_arith);
                }
                lemma_seq_weight_take(s, w_sqdev(m), i2 as int + 1);
            }
            return None;
        }
        acc2 = na;
        i2 = i2 + 1;
    }
    proof {
        assert(s.take(s.len() as int) =~= s);
    }
    Some(aggregate(samples, ratio, scale_to_nanos))
}

/// The histogram's occurrence counts summed over its first `j` values.
pub open spec fn sum_counts(h: Histogram, j: int) -> int
    decreases j,
{
    if j <= 0 {
        0
    } else {
        sum_counts(h, j - 1) + h@[h.spec_keys()[j - 1]]
    }
}

/// Equates the histogram's own count sum with the walk over occurrence
/// counts of the matched sample set.
proof fn lemma_sum_counts_is_weighted(h: &Histogram, s: Seq<u64>, j: int)
    requires
        hist_matches(*h, s),
        0 <= j <= h.spec_keys().len(),
    ensures
        sum_counts(*h, j) == weighted_count(s, h.spec_keys(), j, w_one()),
    decreases j,
{
    let keys = h.spec_keys();
    if j > 0 {
        lemma_sum_counts_is_weighted(h, s, j - 1);
        lemma_wf_facts(h);
        assert(key_in_prefix(keys, keys.len() as int, keys[j - 1]));
        assert(h@.contains_key(keys[j - 1]));
        assert(w_one()(keys[j - 1]) == 1);
    }
}

/// For any histogram of a sample set, the sum of its occurrence counts over
/// all held values is the number of samples — the count a statistics record
/// over the same set reports.
pub proof fn lemma_histogram_total(h: &Histogram, s: Seq<u64>)
    requires
        hist_matches(*h, s),
    ensures
        sum_counts(*h, h.spec_keys().len() as int) == s.len(),
{
    let keys = h.spec_keys();
    lemma_hist_covers(h, s);
    lemma_sorted_distinct(keys);
    lemma_sum_counts_is_weighted(h, s, keys.len() as int);
    lemma_weighted_partition(s, keys, w_one());
    lemma_seq_weight_one(s);
}

/// The record's reported count is the sum of the histogram's counts: the
/// previous law carried through `is_stats_for`.
pub proof fn lemma_histogram_total_is_count(
    h: &Histogram,
    samples: Seq<u64>,
    ratio: CalibrationRatio,
    scale: bool,
    r: StatsRecord,
)
    requires
        hist_matches(*h, spec_scaled_seq(samples, ratio, scale)),
        is_stats_for(samples, ratio, scale, r),
    ensures
        sum_counts(*h, h.spec_keys().len() as int) == r.count,
{
    lemma_histogram_total(h, spec_scaled_seq(samples, ratio, scale));
}

/// The order law: `min <= p50 <= p95 <= max` holds of every statistics
/// record.
pub proof fn lemma_stats_ordered(
    samples: Seq<u64>,
    ratio: CalibrationRatio,
    scale: bool,
    r: StatsRecord,
)
    requires
        is_stats_for(samples, ratio, scale, r),
    ensures
        r.min <= r.p50,
        r.p50 <= r.p95,
        r.p95 <= r.max,
{
    let vals = spec_scaled_seq(samples, ratio, scale);
    assert(count_eq(vals, r.p50) > 0);
    assert(count_eq(vals, r.p95) > 0);
    let t50 = pct_threshold(vals.len(), 50);
    let t95 = pct_threshold(vals.len(), 95);
    lemma_div_is_ordered((vals.len() * 50) as int, (vals.len() * 95) as int, 100);
    if r.p95 < r.p50 {
        assert(count_le(vals, r.p95) < t50);
    }
}

/// The purity law: aggregation is a function of the sample set, the ratio
/// and the scaling flag alone, so any two records for the same inputs are
/// identical.
pub proof fn lemma_stats_deterministic(
    samples: Seq<u64>,
    ratio: CalibrationRatio,
    scale: bool,
    r1: StatsRecord,
    r2: StatsRecord,
)
    requires
        is_stats_for(samples, ratio, scale, r1),
        is_stats_for(samples, ratio, scale, r2),
    ensures
        r1 == r2,
{
    let vals = spec_scaled_seq(samples, ratio, scale);
    assert(count_eq(vals, r1.min) > 0);
    assert(count_eq(vals, r2.min) > 0);
    assert(count_eq(vals, r1.max) > 0);
    assert(count_eq(vals, r2.max) > 0);
    lemma_percentile_unique(vals, 50, r1.p50, r2.p50);
    lemma_percentile_unique(vals, 95, r1.p95, r2.p95);
    let n = sum_sq_dev(vals, r1.mean as int) / (vals.len() - 1);
    assert(r1.stddev == r2.stddev) by {
        let a = r1.stddev as int;
        let b = r2.stddev as int;
        if a < b {
            assert((a + 1) * (a + 1) <= b * b) by (nonlinear_arith)
                requires
                    0 <= a,
                    a + 1 <= b,
            ;
        }
        if b < a {
            assert((b + 1) * (b + 1) <= a * a) by (nonlinear_arith)
                requires
                    0 <= b,
                    b + 1 <= a,
            ;
        }
    }
}

} // verus!
