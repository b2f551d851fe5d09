//! Usage samples and the timelines built from them.

use vstd::prelude::*;
use crate::float_bits::{is_percentage, spec_is_percentage};

verus! {

/// One usage observation.
#[derive(Clone, Copy, Debug, PartialEq, Eq, Structural)]
pub struct Sample {
    /// When the observation was made (Unix seconds).
    pub timestamp: i64,
    /// Bit pattern of the used share of the window, a double in percent.
    pub used_bits: u64,
    /// When the window resets (Unix seconds), `0` where unknown.
    pub reset_at: i64,
}

/// Timestamps rise strictly from one sample to the next.
pub open spec fn increasing(s: Seq<Sample>) -> bool {
    forall|i: int, j: int| #![trigger s[i], s[j]] 0 <= i < j < s.len() ==> s[i].timestamp < s[j].timestamp
}

/// Puts `x` into a timeline of strictly rising timestamps. Where a sample with
/// the same timestamp is already there, `keep_existing` says which one stays.
pub open spec fn insert_by_timestamp(s: Seq<Sample>, x: Sample, keep_existing: bool) -> Seq<Sample>
    decreases s.len(),
{
    if s.len() == 0 {
        seq![x]
    } else if x.timestamp < s[0].timestamp {
        seq![x] + s
    } else if x.timestamp == s[0].timestamp {
        if keep_existing {
            s
        } else {
            seq![x] + s.drop_first()
        }
    } else {
        seq![s[0]] + insert_by_timestamp(s.drop_first(), x, keep_existing)
    }
}

/// The samples of `s` ordered by timestamp, one per timestamp: the first of
/// those sharing it when `keep_first`, else the last.
pub open spec fn timeline(s: Seq<Sample>, keep_first: bool) -> Seq<Sample>
    decreases s.len(),
{
    if s.len() == 0 {
        Seq::empty()
    } else {
        insert_by_timestamp(timeline(s.drop_last(), keep_first), s.last(), keep_first)
    }
}

/// Where `p` splits `s` at `x`'s timestamp, inserting `x` is an insert at `p`
/// or, for a timestamp already present, a replacement or nothing.
proof fn lemma_insert_at(s: Seq<Sample>, x: Sample, keep_existing: bool, p: int)
    requires
        increasing(s),
        0 <= p <= s.len(),
        forall|i: int| 0 <= i < p ==> #[trigger] s[i].timestamp < x.timestamp,
        forall|i: int| p <= i < s.len() ==> #[trigger] s[i].timestamp >= x.timestamp,
    ensures
        insert_by_timestamp(s, x, keep_existing) == (if p < s.len() && s[p].timestamp
            == x.timestamp {
            if keep_existing {
                s
            } else {
                s.update(p, x)
            }
        } else {
            s.insert(p, x)
        }),
    decreases s.len(),
{
    if s.len() == 0 {
        assert(s.insert(p, x) =~= seq![x]);
    } else if p == 0 {
        if x.timestamp < s[0].timestamp {
            assert(seq![x] + s =~= s.insert(0, x));
        } else if !keep_existing {
            assert(seq![x] + s.drop_first() =~= s.update(0, x));
        }
    } else {
        let rest = s.drop_first();
        assert(s[0].timestamp < x.timestamp);
        assert forall|i: int| 0 <= i < p - 1 implies #[trigger] rest[i].timestamp < x.timestamp by {
            assert(rest[i] == s[i + 1]);
        }
        assert forall|i: int| p - 1 <= i < rest.len() implies #[trigger] rest[i].timestamp
            >= x.timestamp by {
            assert(rest[i] == s[i + 1]);
        }
        lemma_insert_at(rest, x, keep_existing, p - 1);
        if p < s.len() && s[p].timestamp == x.timestamp {
            if keep_existing {
                assert(seq![s[0]] + rest =~= s);
            } else {
                assert(seq![s[0]] + rest.update(p - 1, x) =~= s.update(p, x));
            }
        } else {
            assert(seq![s[0]] + rest.insert(p - 1, x) =~= s.insert(p, x));
        }
    }
}

/// The first index of `v` whose timestamp is not below `t`.
fn lower_bound(v: &Vec<Sample>, t: i64) -> (p: usize)
    requires
        increasing(v@),
    ensures
        p <= v.len(),
        forall|i: int| 0 <= i < p ==> #[trigger] v@[i].timestamp < t,
        forall|i: int| p <= i < v.len() ==> #[trigger] v@[i].timestamp >= t,
{
    let mut lo: usize = 0;
    let mut hi: usize = v.len();
    while lo < hi
        invariant
            lo <= hi <= v.len(),
            increasing(v@),
            forall|i: int| 0 <= i < lo ==> #[trigger] v@[i].timestamp < t,
            forall|i: int| hi <= i < v.len() ==> #[trigger] v@[i].timestamp >= t,
        decreases hi - lo,
    {
        let mid = lo + (hi - lo) / 2;
        if v[mid].timestamp < t {
            assert forall|i: int| 0 <= i < mid + 1 implies #[trigger] v@[i].timestamp < t by {
                if i < mid {
                    assert(v@[i].timestamp < v@[mid as int].timestamp);
                }
            }
            lo = mid + 1;
        } else {
            assert forall|i: int| mid <= i < v.len() implies #[trigger] v@[i].timestamp >= t by {
                if i > mid {
                    assert(v@[mid as int].timestamp < v@[i].timestamp);
                }
            }
            hi = mid;
        }
    }
    lo
}

/// Puts `x` into the timeline `v` (see [`insert_by_timestamp`]).
fn insert_sample(v: &mut Vec<Sample>, x: Sample, keep_existing: bool)
    requires
        increasing(old(v)@),
    ensures
        final(v)@ == insert_by_timestamp(old(v)@, x, keep_existing),
        increasing(final(v)@),
{
    let p = lower_bound(v, x.timestamp);
    proof {
        lemma_insert_at(v@, x, keep_existing, p as int);
    }
    if p < v.len() && v[p].timestamp == x.timestamp {
        if !keep_existing {
            v.set(p, x);
        }
    } else {
        v.insert(p, x);
    }
    assert(increasing(v@)) by {
        assert forall|i: int, j: int| 0 <= i < j < v@.len() implies #[trigger] v@[i].timestamp
            < #[trigger] v@[j].timestamp by {
            let o = old(v)@;
            if p < o.len() && o[p as int].timestamp == x.timestamp {
                assert(o[i].timestamp <= v@[i].timestamp <= o[i].timestamp);
            } else {
                if j < p {
                    assert(v@[i] == o[i] && v@[j] == o[j]);
                } else if j == p {
                    assert(v@[i] == o[i]);
                } else if i < p {
                    assert(v@[j] == o[j - 1]);
                } else if i == p {
                    assert(v@[j] == o[j - 1]);
                } else {
                    assert(v@[i] == o[i - 1] && v@[j] == o[j - 1]);
                }
            }
        }
    }
}


/// `a - b`, clamped to the range of `i64`.
pub open spec fn spec_saturating_sub(a: i64, b: i64) -> i64 {
    if a - b < i64::MIN {
        i64::MIN
    } else if a - b > i64::MAX {
        i64::MAX
    } else {
        (a - b) as i64
    }
}

/// `a + b`, clamped to the range of `i64`.
pub open spec fn spec_saturating_add(a: i64, b: i64) -> i64 {
    if a + b < i64::MIN {
        i64::MIN
    } else if a + b > i64::MAX {
        i64::MAX
    } else {
        (a + b) as i64
    }
}

/// `a - b`, clamped to the range of `i64`.
pub fn saturating_sub(a: i64, b: i64) -> (res: i64)
    ensures
        res == spec_saturating_sub(a, b),
{
    if b >= 0 {
        if a >= i64::MIN + b {
            a - b
        } else {
            i64::MIN
        }
    } else {
        if a <= i64::MAX + b {
            a - b
        } else {
            i64::MAX
        }
    }
}

/// `a + b`, clamped to the range of `i64`.
pub fn saturating_add(a: i64, b: i64) -> (res: i64)
    ensures
        res == spec_saturating_add(a, b),
{
    if b >= 0 {
        if a <= i64::MAX - b {
            a + b
        } else {
            i64::MAX
        }
    } else {
        if a >= i64::MIN - b {
            a + b
        } else {
            i64::MIN
        }
    }
}

/// `m` points of `s`, spread evenly over it: point `i` is `s[i * (n - 1) / (m - 1)]`
/// for `n` points in `s`, so the first and the last point of `s` are kept.
pub open spec fn downsample(s: Seq<Sample>, m: int) -> Seq<Sample> {
    Seq::new(m as nat, |i: int| s[spread_index(s.len() as int, m, i)])
}

/// Index of point `i` when `m` points are spread evenly over `n`.
pub open spec fn spread_index(n: int, m: int, i: int) -> int {
    i * (n - 1) / (m - 1)
}

/// The sample is a finite percentage.
pub open spec fn has_percentage(s: Sample) -> bool {
    spec_is_percentage(s.used_bits)
}

/// The samples that lie no further than `window_secs` (read as an `i64`)
/// before the newest one.
pub open spec fn within_window(ordered: Seq<Sample>, window_secs: u64) -> Seq<Sample> {
    let oldest = spec_saturating_sub(ordered.last().timestamp, window_secs as i64);
    ordered.filter(since_pred(oldest))
}

/// The history a graph shows: the samples that hold a finite percentage, one
/// per timestamp (the first one given), in time order, restricted to the
/// window before the newest of them, and thinned to `max_points` evenly spread
/// points where there are more (unless `max_points <= 1`).
pub open spec fn normalized(samples: Seq<Sample>, window_secs: u64, max_points: usize) -> Seq<Sample> {
    let ordered = timeline(samples.filter(percentage_pred()), true);
    if ordered.len() == 0 {
        Seq::empty()
    } else {
        let kept = within_window(ordered, window_secs);
        if kept.len() <= max_points || max_points <= 1 {
            kept
        } else {
            downsample(kept, max_points as int)
        }
    }
}

/// One step of a filter over a growing prefix.
proof fn lemma_filter_take_step<A>(s: Seq<A>, pred: spec_fn(A) -> bool, k: int)
    requires
        0 <= k < s.len(),
    ensures
        s.take(k + 1).filter(pred) == (if pred(s[k]) {
            s.take(k).filter(pred).push(s[k])
        } else {
            s.take(k).filter(pred)
        }),
{
    reveal(Seq::filter);
    assert(s.take(k + 1).drop_last() =~= s.take(k));
}

/// `m` points of `s` spread evenly over it (see [`downsample`]).
fn downsample_exec(s: &Vec<Sample>, m: usize) -> (res: Vec<Sample>)
    requires
        2 <= m < s.len(),
    ensures
        res@ == downsample(s@, m as int),
{
    let last: u128 = (s.len() - 1) as u128;
    let denom: u128 = (m - 1) as u128;
    let mut res: Vec<Sample> = Vec::new();
    let mut i: usize = 0;
    while i < m
        invariant
            2 <= m < s.len(),
            last == s.len() - 1,
            denom == m - 1,
            i <= m,
            res@ =~= downsample(s@, m as int).take(i as int),
        decreases m - i,
    {
        let iw: u128 = i as u128;
        assert(iw * last <= denom * last && denom * last < 0x1_0000_0000_0000_0000_0000_0000_0000_0000)
            by (nonlinear_arith)
            requires
                iw <= denom,
                denom < last,
                last < 0x1_0000_0000_0000_0000,
        ;
        let idx_wide: u128 = iw * last / denom;
        assert(idx_wide <= last) by (nonlinear_arith)
            requires
                idx_wide as int == (iw as int) * (last as int) / (denom as int),
                iw <= denom,
                0 < denom,
        ;
        let idx = idx_wide as usize;
        res.push(s[idx]);
        i = i + 1;
    }
    res
}

/// The facts that tie a timeline of percentages to the observations it was
/// built from: `origin[k]` is where point `k` came from, the first observation
/// with a finite percentage at its timestamp.
pub open spec fn traced(input: Seq<Sample>, ordered: Seq<Sample>, origin: Seq<int>) -> bool {
    &&& origin.len() == ordered.len()
    &&& forall|k: int|
        0 <= k < ordered.len() ==> 0 <= #[trigger] origin[k] < input.len() && ordered[k]
            == input[origin[k]] && has_percentage(ordered[k])
    &&& forall|k: int, j: int|
        0 <= k < ordered.len() && 0 <= j < origin[k] && has_percentage(input[j])
            ==> #[trigger] input[j].timestamp != #[trigger] ordered[k].timestamp
}

/// Every observation with a finite percentage has its timestamp in `ordered`.
pub open spec fn covers(input: Seq<Sample>, ordered: Seq<Sample>) -> bool {
    forall|j: int|
        0 <= j < input.len() && has_percentage(#[trigger] input[j]) ==> exists|k: int|
            0 <= k < ordered.len() && #[trigger] ordered[k].timestamp == input[j].timestamp
}

/// The predicate "holds a finite percentage".
pub open spec fn percentage_pred() -> spec_fn(Sample) -> bool {
    |s: Sample| has_percentage(s)
}

/// The predicate "observed no earlier than `oldest`".
pub open spec fn since_pred(oldest: i64) -> spec_fn(Sample) -> bool {
    |s: Sample| s.timestamp >= oldest
}

/// Extending the traced timeline of `small` by an observation `x` without a
/// finite percentage.
proof fn lemma_trace_skip(small: Seq<Sample>, x: Sample, ordered: Seq<Sample>, origin: Seq<int>)
    requires
        traced(small, ordered, origin),
        covers(small, ordered),
        !has_percentage(x),
    ensures
        traced(small.push(x), ordered, origin),
        covers(small.push(x), ordered),
{
    let big = small.push(x);
    assert forall|j: int| 0 <= j < small.len() implies #[trigger] big[j] == small[j] by {}
    assert forall|k: int|
        0 <= k < ordered.len() implies 0 <= #[trigger] origin[k] < big.len() && ordered[k]
        == big[origin[k]] && has_percentage(ordered[k]) by {
        assert(big[origin[k]] == small[origin[k]]);
    }
    assert forall|k: int, j: int|
        0 <= k < ordered.len() && 0 <= j < origin[k] && has_percentage(big[j])
            implies #[trigger] big[j].timestamp != #[trigger] ordered[k].timestamp by {
        assert(big[j] == small[j]);
    }
    assert forall|j: int|
        0 <= j < big.len() && has_percentage(#[trigger] big[j]) implies exists|k: int|
        0 <= k < ordered.len() && #[trigger] ordered[k].timestamp == big[j].timestamp by {
        assert(big[j] == small[j]);
    }
}

/// Extending the traced timeline of `small` by an observation `x` whose
/// timestamp the timeline already has at `p`.
proof fn lemma_trace_present(small: Seq<Sample>, x: Sample, ordered: Seq<Sample>, origin: Seq<int>, p: int)
    requires
        traced(small, ordered, origin),
        covers(small, ordered),
        0 <= p < ordered.len(),
        ordered[p].timestamp == x.timestamp,
    ensures
        traced(small.push(x), ordered, origin),
        covers(small.push(x), ordered),
{
    let big = small.push(x);
    let i = small.len() as int;
    assert forall|j: int| 0 <= j < small.len() implies #[trigger] big[j] == small[j] by {}
    assert forall|k: int|
        0 <= k < ordered.len() implies 0 <= #[trigger] origin[k] < big.len() && ordered[k]
        == big[origin[k]] && has_percentage(ordered[k]) by {
        assert(big[origin[k]] == small[origin[k]]);
    }
    assert forall|k: int, j: int|
        0 <= k < ordered.len() && 0 <= j < origin[k] && has_percentage(big[j])
            implies #[trigger] big[j].timestamp != #[trigger] ordered[k].timestamp by {
        assert(big[j] == small[j]);
    }
    assert forall|j: int|
        0 <= j < big.len() && has_percentage(#[trigger] big[j]) implies exists|k: int|
        0 <= k < ordered.len() && #[trigger] ordered[k].timestamp == big[j].timestamp by {
        if j == i {
            assert(ordered[p].timestamp == big[j].timestamp);
        } else {
            assert(big[j] == small[j]);
        }
    }
}

/// Extending the traced timeline of `small` by an observation `x` with a
/// finite percentage and a new timestamp, inserted at `p`.
proof fn lemma_trace_new(small: Seq<Sample>, x: Sample, ordered: Seq<Sample>, origin: Seq<int>, p: int)
    requires
        traced(small, ordered, origin),
        covers(small, ordered),
        increasing(ordered),
        has_percentage(x),
        0 <= p <= ordered.len(),
        forall|k: int| 0 <= k < p ==> #[trigger] ordered[k].timestamp < x.timestamp,
        forall|k: int| p <= k < ordered.len() ==> #[trigger] ordered[k].timestamp > x.timestamp,
    ensures
        traced(small.push(x), ordered.insert(p, x), origin.insert(p, small.len() as int)),
        covers(small.push(x), ordered.insert(p, x)),
{
    let big = small.push(x);
    let i = small.len() as int;
    let after = ordered.insert(p, x);
    let new_origin = origin.insert(p, i);
    assert forall|j: int| 0 <= j < small.len() implies #[trigger] big[j] == small[j] by {}
    // no earlier observation with a percentage shares x's timestamp
    assert forall|j: int| 0 <= j < i && has_percentage(small[j]) implies #[trigger] small[j].timestamp
        != x.timestamp by {
        if small[j].timestamp == x.timestamp {
            let k = choose|k: int| 0 <= k < ordered.len() && #[trigger] ordered[k].timestamp == small[j].timestamp;
        }
    }
    assert forall|k: int|
        0 <= k < after.len() implies 0 <= #[trigger] new_origin[k] < big.len() && after[k]
        == big[new_origin[k]] && has_percentage(after[k]) by {
        if k < p {
            assert(new_origin[k] == origin[k]);
            assert(big[origin[k]] == small[origin[k]]);
        } else if k > p {
            assert(new_origin[k] == origin[k - 1]);
            assert(big[origin[k - 1]] == small[origin[k - 1]]);
        }
    }
    assert forall|k: int, j: int|
        0 <= k < after.len() && 0 <= j < new_origin[k] && has_percentage(big[j])
            implies #[trigger] big[j].timestamp != #[trigger] after[k].timestamp by {
        assert(big[j] == small[j]);
        if k < p {
            assert(new_origin[k] == origin[k] && after[k] == ordered[k]);
        } else if k > p {
            assert(new_origin[k] == origin[k - 1] && after[k] == ordered[k - 1]);
        }
    }
    assert forall|j: int|
        0 <= j < big.len() && has_percentage(#[trigger] big[j]) implies exists|k: int|
        0 <= k < after.len() && #[trigger] after[k].timestamp == big[j].timestamp by {
        if j == i {
            assert(after[p].timestamp == big[j].timestamp);
        } else {
            assert(big[j] == small[j]);
            let k = choose|k: int| 0 <= k < ordered.len() && #[trigger] ordered[k].timestamp == small[j].timestamp;
            if k < p {
                assert(after[k] == ordered[k]);
            } else {
                assert(after[k + 1] == ordered[k]);
            }
        }
    }
}

/// The timeline of the observations that hold a finite percentage, first one
/// per timestamp.
fn percentage_timeline(samples: &Vec<Sample>) -> (res: (Vec<Sample>, Ghost<Seq<int>>))
    ensures
        res.0@ == timeline(samples@.filter(percentage_pred()), true),
        increasing(res.0@),
        traced(samples@, res.0@, res.1@),
        covers(samples@, res.0@),
{
    let ghost input = samples@;
    let ghost valid = percentage_pred();
    let mut ordered: Vec<Sample> = Vec::new();
    let ghost mut origin: Seq<int> = Seq::empty();
    let mut i: usize = 0;
    while i < samples.len()
        invariant
            input == samples@,
            valid == percentage_pred(),
            i <= samples.len(),
            ordered@ == timeline(input.take(i as int).filter(valid), true),
            increasing(ordered@),
            traced(input.take(i as int), ordered@, origin),
            covers(input.take(i as int), ordered@),
        decreases samples.len() - i,
    {
        let x = samples[i];
        let ghost before = ordered@;
        let ghost prefix = input.take(i as int).filter(valid);
        proof {
            lemma_filter_take_step(input, valid, i as int);
            assert(input.take(i as int + 1) =~= input.take(i as int).push(x));
        }
        if is_percentage(x.used_bits) {
            assert(prefix.push(x).drop_last() =~= prefix);
            let p = lower_bound(&ordered, x.timestamp);
            proof {
                lemma_insert_at(before, x, true, p as int);
            }
            let present = p < ordered.len() && ordered[p].timestamp == x.timestamp;
            insert_sample(&mut ordered, x, true);
            proof {
                if present {
                    lemma_trace_present(input.take(i as int), x, before, origin, p as int);
                } else {
                    assert forall|k: int| p <= k < before.len() implies #[trigger] before[k].timestamp > x.timestamp by {
                        if k > p {
                            assert(before[p as int].timestamp < before[k].timestamp);
                        }
                    }
                    lemma_trace_new(input.take(i as int), x, before, origin, p as int);
                    origin = origin.insert(p as int, i as int);
                }
            }
        } else {
            proof {
                lemma_trace_skip(input.take(i as int), x, before, origin);
            }
        }
        i = i + 1;
    }
    assert(input.take(input.len() as int) =~= input);
    (ordered, Ghost(origin))
}

/// The points of `ordered` observed no earlier than `oldest`.
fn since(ordered: &Vec<Sample>, oldest: i64) -> (res: Vec<Sample>)
    requires
        increasing(ordered@),
    ensures
        res@ == ordered@.filter(since_pred(oldest)),
        increasing(res@),
        forall|a: int| #![trigger res@[a]] 0 <= a < res@.len() ==> exists|b: int|
            0 <= b < ordered@.len() && #[trigger] ordered@[b] == res@[a],
        ordered@.len() > 0 && ordered@.last().timestamp >= oldest ==> res@.len() > 0 && res@.last()
            == ordered@.last(),
{
    let ghost keep = since_pred(oldest);
    let mut kept: Vec<Sample> = Vec::new();
    let mut k: usize = 0;
    while k < ordered.len()
        invariant
            keep == since_pred(oldest),
            k <= ordered.len(),
            kept@ == ordered@.take(k as int).filter(keep),
            increasing(ordered@),
            increasing(kept@),
            forall|a: int| #![trigger kept@[a]] 0 <= a < kept@.len() ==> exists|b: int|
                0 <= b < k && #[trigger] ordered@[b] == kept@[a],
        decreases ordered.len() - k,
    {
        proof {
            lemma_filter_take_step(ordered@, keep, k as int);
        }
        if ordered[k].timestamp >= oldest {
            let ghost before = kept@;
            proof {
                if before.len() > 0 {
                    let b = choose|b: int| 0 <= b < k && #[trigger] ordered@[b] == before[before.len() - 1];
                    assert(ordered@[b].timestamp < ordered@[k as int].timestamp);
                }
            }
            kept.push(ordered[k]);
            assert(increasing(kept@)) by {
                assert forall|a: int, c: int| 0 <= a < c < kept@.len() implies #[trigger] kept@[a].timestamp
                    < #[trigger] kept@[c].timestamp by {
                    if c == before.len() && a < before.len() - 1 {
                        assert(before[a].timestamp < before[before.len() - 1].timestamp);
                    }
                }
            }
            assert forall|a: int| #![trigger kept@[a]] 0 <= a < kept@.len() implies exists|b: int|
                0 <= b < k + 1 && #[trigger] ordered@[b] == kept@[a] by {
                if a < before.len() {
                    let b = choose|b: int| 0 <= b < k && #[trigger] ordered@[b] == before[a];
                    assert(ordered@[b] == kept@[a]);
                } else {
                    assert(ordered@[k as int] == kept@[a]);
                }
            }
        }
        k = k + 1;
    }
    proof {
        assert(ordered@.take(ordered@.len() as int) =~= ordered@);
        let n = ordered@.len() as int;
        if n > 0 && ordered@.last().timestamp >= oldest {
            lemma_filter_take_step(ordered@, keep, n - 1);
        }
    }
    kept
}

/// The history a graph shows, built from raw samples (see [`normalized`]).
#[verifier::rlimit(90)]
pub fn normalized_samples(samples: Vec<Sample>, window_secs: u64, max_points: usize) -> (res: Vec<
    Sample,
>)
    ensures
        res@ == normalized(samples@, window_secs, max_points),
        increasing(res@),
        // every point is an observation given, with a finite percentage
        forall|k: int| 0 <= k < res@.len() ==> samples@.contains(#[trigger] res@[k]) && has_percentage(
            res@[k],
        ),
        // of the observations sharing a timestamp, the first one given is the one kept
        forall|k: int, j: int|
            0 <= k < res@.len() && 0 <= j < samples@.len() && has_percentage(samples@[j])
                && #[trigger] samples@[j].timestamp == #[trigger] res@[k].timestamp ==> exists|
                j0: int,
            |
                0 <= j0 <= j && samples@[j0] == res@[k],
        // points are shown only where a finite percentage was given, and the newest
        // of them is the last point
        res@.len() > 0 ==> exists|j: int| 0 <= j < samples@.len() && has_percentage(#[trigger] samples@[j]),
        window_secs <= i64::MAX && (exists|j: int| 0 <= j < samples@.len() && has_percentage(#[trigger] samples@[j]))
            ==> res@.len() > 0,
        window_secs <= i64::MAX && res@.len() > 0 ==> forall|j: int|
            0 <= j < samples@.len() && has_percentage(#[trigger] samples@[j])
                ==> samples@[j].timestamp <= res@.last().timestamp,
        // the history is capped
        max_points >= 2 ==> res@.len() <= max_points,
{
    let (ordered, Ghost(origin)) = percentage_timeline(&samples);
    let ghost input = samples@;
    if ordered.len() == 0 {
        assert forall|j: int| 0 <= j < input.len() implies !has_percentage(#[trigger] input[j]) by {
            if has_percentage(input[j]) {
                let k = choose|k: int|
                    0 <= k < ordered@.len() && #[trigger] ordered@[k].timestamp == input[j].timestamp;
            }
        }
        return Vec::new();
    }
    proof {
        lemma_timeline_latest(input, ordered@);
        assert(has_percentage(input[origin[0]]));
    }
    let latest = ordered[ordered.len() - 1].timestamp;
    let oldest = saturating_sub(latest, window_secs as i64);
    let kept = since(&ordered, oldest);
    let res = thin(kept, max_points);
    proof {
        assert forall|a: int| #![trigger res@[a]] 0 <= a < res@.len() implies exists|b: int|
            0 <= b < ordered@.len() && #[trigger] ordered@[b] == res@[a] by {
            assert(kept@.contains(res@[a]));
            let c = choose|c: int| 0 <= c < kept@.len() && kept@[c] == res@[a];
            let b = choose|b: int| 0 <= b < ordered@.len() && #[trigger] ordered@[b] == kept@[c];
        }
        lemma_points_from(input, ordered@, origin, res@);
    }
    res
}

/// The points of a thinned history are points of the history, it keeps the
/// first and the last of them, and it keeps their order.
pub proof fn lemma_downsample_points(s: Seq<Sample>, m: int)
    requires
        2 <= m < s.len(),
    ensures
        downsample(s, m).len() == m,
        forall|a: int| 0 <= a < m ==> 0 <= #[trigger] spread_index(s.len() as int, m, a) < s.len(),
        downsample(s, m)[0] == s[0],
        downsample(s, m).last() == s.last(),
        increasing(s) ==> increasing(downsample(s, m)),
{
    let d = downsample(s, m);
    let l = s.len() - 1;
    assert forall|a: int| 0 <= a < m implies 0 <= #[trigger] spread_index(s.len() as int, m, a) < s.len() by {
        let c = a * l / (m - 1);
        assert(0 <= c <= l) by (nonlinear_arith)
            requires c == a * l / (m - 1), 0 <= a < m, 0 < l, 1 <= m - 1,
        ;
    }
    assert((m - 1) * l / (m - 1) == l) by (nonlinear_arith)
        requires 1 <= m - 1,
    ;
    assert(0int * l / (m - 1) == 0) by (nonlinear_arith)
        requires 1 <= m - 1,
    ;
    if increasing(s) {
        assert forall|a: int, b: int| 0 <= a < b < m implies #[trigger] d[a].timestamp < #[trigger] d[b].timestamp by {
            let ca = a * l / (m - 1);
            let cb = b * l / (m - 1);
            assert(0 <= ca < cb <= l) by (nonlinear_arith)
                requires
                    ca == a * l / (m - 1),
                    cb == b * l / (m - 1),
                    0 <= a < b < m,
                    m - 1 < l,
                    1 <= m - 1,
            {
                assert(b * l >= a * l + l);
                assert(a * l + l >= a * l + (m - 1));
                assert((a * l + (m - 1)) / (m - 1) == a * l / (m - 1) + 1) by {
                    vstd::arithmetic::div_mod::lemma_div_plus_one(a * l, m - 1);
                }
                vstd::arithmetic::div_mod::lemma_div_is_ordered(a * l + (m - 1), b * l, m - 1);
                vstd::arithmetic::div_mod::lemma_div_is_ordered(b * l, (m - 1) * l, m - 1);
                vstd::arithmetic::div_mod::lemma_div_multiples_vanish(l, m - 1);
            }
            assert(spread_index(s.len() as int, m, a) == ca);
            assert(spread_index(s.len() as int, m, b) == cb);
        }
    }
}

/// Thins a history to `max_points` evenly spread points where it has more
/// (unless `max_points <= 1`).
fn thin(kept: Vec<Sample>, max_points: usize) -> (res: Vec<Sample>)
    ensures
        res@ == (if kept@.len() <= max_points || max_points <= 1 {
            kept@
        } else {
            downsample(kept@, max_points as int)
        }),
        increasing(kept@) ==> increasing(res@),
        forall|a: int| 0 <= a < res@.len() ==> kept@.contains(#[trigger] res@[a]),
        kept@.len() > 0 ==> res@.len() > 0 && res@.last() == kept@.last() && res@[0] == kept@[0],
        max_points >= 2 ==> res@.len() <= max_points,
{
    if kept.len() <= max_points || max_points <= 1 {
        return kept;
    }
    let res = downsample_exec(&kept, max_points);
    proof {
        lemma_downsample_points(kept@, max_points as int);
        assert forall|a: int| 0 <= a < res@.len() implies kept@.contains(#[trigger] res@[a]) by {
            let b = spread_index(kept@.len() as int, max_points as int, a);
            assert(kept@[b] == res@[a]);
        }
    }
    res
}

/// The newest observation with a percentage closes the timeline.
proof fn lemma_timeline_latest(input: Seq<Sample>, ordered: Seq<Sample>)
    requires
        increasing(ordered),
        covers(input, ordered),
        ordered.len() > 0,
    ensures
        forall|j: int| 0 <= j < input.len() && has_percentage(#[trigger] input[j]) ==> input[j].timestamp
            <= ordered.last().timestamp,
{
    let n = ordered.len() as int;
    assert forall|j: int| 0 <= j < input.len() && has_percentage(#[trigger] input[j]) implies input[j].timestamp
        <= ordered[n - 1].timestamp by {
        let k = choose|k: int|
            0 <= k < ordered.len() && #[trigger] ordered[k].timestamp == input[j].timestamp;
        if k < n - 1 {
            assert(ordered[k].timestamp < ordered[n - 1].timestamp);
        }
    }
}

/// Points drawn from a timeline built with `origin` are observations given, each
/// the first given with its timestamp.
proof fn lemma_points_from(input: Seq<Sample>, ordered: Seq<Sample>, origin: Seq<int>, res: Seq<Sample>)
    requires
        traced(input, ordered, origin),
        forall|a: int| #![trigger res[a]] 0 <= a < res.len() ==> exists|b: int| 0 <= b < ordered.len() && #[trigger] ordered[b] == res[a],
    ensures
        forall|k: int| 0 <= k < res.len() ==> input.contains(#[trigger] res[k]) && has_percentage(res[k]),
        forall|k: int, j: int|
            0 <= k < res.len() && 0 <= j < input.len() && has_percentage(input[j])
                && #[trigger] input[j].timestamp == #[trigger] res[k].timestamp ==> exists|j0: int|
                0 <= j0 <= j && input[j0] == res[k],
{
    assert forall|k: int| 0 <= k < res.len() implies input.contains(#[trigger] res[k]) && has_percentage(res[k]) by {
        let b = choose|b: int| 0 <= b < ordered.len() && #[trigger] ordered[b] == res[k];
        assert(input[origin[b]] == res[k]);
    }
    assert forall|k: int, j: int|
        0 <= k < res.len() && 0 <= j < input.len() && has_percentage(input[j])
            && #[trigger] input[j].timestamp == #[trigger] res[k].timestamp implies exists|j0: int|
            0 <= j0 <= j && input[j0] == res[k] by {
        let b = choose|b: int| 0 <= b < ordered.len() && #[trigger] ordered[b] == res[k];
        assert(input[origin[b]] == res[k]);
        if j < origin[b] {
            assert(input[j].timestamp != ordered[b].timestamp);
        }
    }
}

/// What an insert keeps: every point of the result is `x` or a point of `s`;
/// every point of `s` at another timestamp stays; `x` is in unless an existing
/// point at its timestamp is kept.
proof fn lemma_insert_members(s: Seq<Sample>, x: Sample, keep_existing: bool, p: int)
    requires
        increasing(s),
        0 <= p <= s.len(),
        forall|i: int| 0 <= i < p ==> #[trigger] s[i].timestamp < x.timestamp,
        forall|i: int| p <= i < s.len() ==> #[trigger] s[i].timestamp >= x.timestamp,
    ensures
        forall|k: int|
            0 <= k < insert_by_timestamp(s, x, keep_existing).len() ==> #[trigger] insert_by_timestamp(
                s,
                x,
                keep_existing,
            )[k] == x || s.contains(insert_by_timestamp(s, x, keep_existing)[k]),
        forall|i: int|
            0 <= i < s.len() && #[trigger] s[i].timestamp != x.timestamp ==> insert_by_timestamp(
                s,
                x,
                keep_existing,
            ).contains(s[i]),
        !keep_existing ==> insert_by_timestamp(s, x, keep_existing).contains(x),
{
    lemma_insert_at(s, x, keep_existing, p);
    let r = insert_by_timestamp(s, x, keep_existing);
    if p < s.len() && s[p].timestamp == x.timestamp {
        if keep_existing {
            assert forall|k: int| 0 <= k < r.len() implies #[trigger] r[k] == x || s.contains(r[k]) by {
                assert(r[k] == s[k]);
            }
            assert forall|i: int| 0 <= i < s.len() && #[trigger] s[i].timestamp != x.timestamp implies r.contains(s[i]) by {
                assert(r[i] == s[i]);
            }
        } else {
            assert forall|k: int| 0 <= k < r.len() implies #[trigger] r[k] == x || s.contains(r[k]) by {
                if k != p {
                    assert(r[k] == s[k]);
                }
            }
            assert forall|i: int| 0 <= i < s.len() && #[trigger] s[i].timestamp != x.timestamp implies r.contains(s[i]) by {
                assert(i != p);
                assert(r[i] == s[i]);
            }
            assert(r[p] == x);
        }
    } else {
        assert forall|k: int| 0 <= k < r.len() implies #[trigger] r[k] == x || s.contains(r[k]) by {
            if k < p {
                assert(r[k] == s[k]);
            } else if k > p {
                assert(r[k] == s[k - 1]);
            }
        }
        assert forall|i: int| 0 <= i < s.len() && #[trigger] s[i].timestamp != x.timestamp implies r.contains(s[i]) by {
            if i < p {
                assert(r[i] == s[i]);
            } else {
                assert(r[i + 1] == s[i]);
            }
        }
        assert(r[p] == x);
    }
}

/// Seconds in the seven-day window of the Codex graph.
pub const CODEX_HISTORY_WINDOW_SECS: u64 = 604800;

/// How many points the Codex sample store keeps.
pub const MAX_PERSISTED_CODEX_HISTORY_POINTS: usize = 1024;

/// The predicate "observed before `t`".
pub open spec fn before_pred(t: i64) -> spec_fn(Sample) -> bool {
    |s: Sample| s.timestamp < t
}

/// The Codex history with a live account reading as its final point: older
/// observations stay, those at or after the reading's second go.
pub open spec fn with_live_sample(history: Seq<Sample>, live: Sample) -> Seq<Sample> {
    normalized(
        history.filter(before_pred(live.timestamp)).push(live),
        CODEX_HISTORY_WINDOW_SECS,
        MAX_PERSISTED_CODEX_HISTORY_POINTS,
    )
}

/// Adds a live account reading to the Codex history (see [`with_live_sample`]).
/// A reading with a finite percentage is the last point of the result.
pub fn codex_history_with_live_sample(history: Vec<Sample>, live: Sample) -> (res: Vec<Sample>)
    ensures
        res@ == with_live_sample(history@, live),
        increasing(res@),
        res@.len() <= MAX_PERSISTED_CODEX_HISTORY_POINTS,
        has_percentage(live) ==> res@.len() > 0 && res@.last() == live,
{
    let ghost keep = before_pred(live.timestamp);
    let mut older: Vec<Sample> = Vec::new();
    let mut i: usize = 0;
    while i < history.len()
        invariant
            keep == before_pred(live.timestamp),
            i <= history.len(),
            older@ == history@.take(i as int).filter(keep),
            forall|k: int| 0 <= k < older@.len() ==> #[trigger] older@[k].timestamp < live.timestamp,
        decreases history.len() - i,
    {
        proof {
            lemma_filter_take_step(history@, keep, i as int);
        }
        if history[i].timestamp < live.timestamp {
            older.push(history[i]);
        }
        i = i + 1;
    }
    assert(history@.take(history@.len() as int) =~= history@);
    let ghost older_seq = older@;
    older.push(live);
    let ghost input = older@;
    let res = normalized_samples(older, CODEX_HISTORY_WINDOW_SECS, MAX_PERSISTED_CODEX_HISTORY_POINTS);
    proof {
        if has_percentage(live) {
            let last = input.len() - 1;
            assert(has_percentage(input[last]));
            assert(res@.len() > 0);
            assert(input[last].timestamp <= res@.last().timestamp);
            assert(input.contains(res@[res@.len() - 1]));
            let j = choose|j: int| 0 <= j < input.len() && input[j] == res@[res@.len() - 1];
            if j < last {
                assert(input[j] == older_seq[j]);
                assert(older_seq[j].timestamp < live.timestamp);
            }
        }
    }
    res
}

/// The predicate "observed after `oldest` and not after `newest`".
pub open spec fn between_pred(oldest: i64, newest: i64) -> spec_fn(Sample) -> bool {
    |s: Sample| oldest < s.timestamp && s.timestamp <= newest
}

/// The stored samples that a fresh computation can still be merged with: those
/// after the window before the newest computed sample and not after it.
pub open spec fn retained(persisted: Seq<Sample>, computed: Seq<Sample>, window_secs: u64) -> Seq<Sample> {
    let newest = computed.last().timestamp;
    persisted.filter(between_pred(spec_saturating_sub(newest, window_secs as i64), newest))
}

/// Stored and computed samples, one per timestamp in time order, the computed
/// ones winning (and of equal ones the later given).
pub open spec fn merged(persisted: Seq<Sample>, computed: Seq<Sample>, window_secs: u64) -> Seq<Sample> {
    if computed.len() == 0 {
        Seq::empty()
    } else {
        timeline(retained(persisted, computed, window_secs) + computed, false)
    }
}

/// The merged ZCode graph: [`merged`], thinned to `max_points` evenly spread
/// points where it has more.
pub open spec fn merged_thinned(persisted: Seq<Sample>, computed: Seq<Sample>, window_secs: u64, max_points: usize) -> Seq<Sample> {
    let m = merged(persisted, computed, window_secs);
    if m.len() > max_points {
        downsample(m, max_points as int)
    } else {
        m
    }
}

/// Merges the stored ZCode samples with freshly computed ones (see
/// [`merged_thinned`]). Fresh samples are authoritative; stored ones only fill
/// gaps and are dropped once outside the window.
#[verifier::rlimit(60)]
pub fn merge_zcode_samples(persisted: Vec<Sample>, computed: Vec<Sample>, window_secs: u64, max_points: usize) -> (res: Vec<Sample>)
    requires
        // thinning to a single point divides by zero
        max_points != 1 || merged(persisted@, computed@, window_secs).len() <= 1,
    ensures
        res@ == merged_thinned(persisted@, computed@, window_secs, max_points),
        increasing(res@),
        res@.len() <= max_points,
        // every point is a computed sample or a stored one inside the window
        forall|k: int| 0 <= k < res@.len() ==> computed@.contains(#[trigger] res@[k]) || retained(persisted@, computed@, window_secs).contains(res@[k]),
        // without thinning, each computed sample not given again later is a point
        merged(persisted@, computed@, window_secs).len() <= max_points ==> forall|c: int|
            0 <= c < computed@.len() && (forall|d: int| c < d < computed@.len() ==> computed@[d].timestamp != #[trigger] computed@[c].timestamp)
                ==> res@.contains(computed@[c]),
        // without thinning, each stored sample inside the window that is alone at
        // its second is a point
        computed@.len() > 0 && merged(persisted@, computed@, window_secs).len() <= max_points ==> forall|q: Sample|
            #[trigger] persisted@.contains(q) && spec_saturating_sub(computed@.last().timestamp, window_secs as i64) < q.timestamp
                && q.timestamp <= computed@.last().timestamp
                && (forall|j: int| 0 <= j < persisted@.len() && (#[trigger] persisted@[j]).timestamp == q.timestamp ==> persisted@[j] == q)
                && (forall|c: int| 0 <= c < computed@.len() ==> (#[trigger] computed@[c]).timestamp != q.timestamp)
                ==> res@.contains(q),
        // the newest computed sample, where none is newer, is the last point
        max_points > 0 && computed@.len() > 0 && (forall|c: int| 0 <= c < computed@.len() ==> #[trigger] computed@[c].timestamp
            <= computed@.last().timestamp) ==> res@.len() > 0 && res@.last() == computed@.last(),
{
    if computed.len() == 0 {
        return Vec::new();
    }
    let newest = computed[computed.len() - 1].timestamp;
    let oldest = saturating_sub(newest, window_secs as i64);
    let ghost window = between_pred(oldest, newest);
    let ghost kept = retained(persisted@, computed@, window_secs);
    let mut out: Vec<Sample> = Vec::new();
    let mut i: usize = 0;
    while i < persisted.len()
        invariant
            window == between_pred(oldest, newest),
            i <= persisted.len(),
            out@ == timeline(persisted@.take(i as int).filter(window), false),
            increasing(out@),
            forall|k: int| 0 <= k < out@.len() ==> persisted@.take(i as int).filter(window).contains(#[trigger] out@[k]),
        decreases persisted.len() - i,
    {
        let x = persisted[i];
        let ghost prefix = persisted@.take(i as int).filter(window);
        proof {
            lemma_filter_take_step(persisted@, window, i as int);
        }
        if oldest < x.timestamp && x.timestamp <= newest {
            assert(prefix.push(x).drop_last() =~= prefix);
            let ghost before = out@;
            let p = lower_bound(&out, x.timestamp);
            proof {
                lemma_insert_members(before, x, false, p as int);
            }
            insert_sample(&mut out, x, false);
            assert forall|k: int| 0 <= k < out@.len() implies prefix.push(x).contains(#[trigger] out@[k]) by {
                if out@[k] == x {
                    assert(prefix.push(x)[prefix.len() as int] == x);
                } else {
                    let a = choose|a: int| 0 <= a < before.len() && before[a] == out@[k];
                    assert(prefix.contains(before[a]));
                    let b = choose|b: int| 0 <= b < prefix.len() && prefix[b] == before[a];
                    assert(prefix.push(x)[b] == prefix[b]);
                }
            }
        }
        i = i + 1;
    }
    assert(persisted@.take(persisted@.len() as int) =~= persisted@);
    assert(kept == persisted@.filter(window));
    let ghost base = out@;
    let mut j: usize = 0;
    while j < computed.len()
        invariant
            j <= computed.len(),
            base == timeline(kept, false),
            out@ == timeline(kept + computed@.take(j as int), false),
            increasing(out@),
            forall|k: int| 0 <= k < out@.len() ==> computed@.take(j as int).contains(#[trigger] out@[k]) || kept.contains(out@[k]),
            forall|c: int|
                0 <= c < j && (forall|d: int| c < d < j ==> computed@[d].timestamp != #[trigger] computed@[c].timestamp)
                    ==> out@.contains(computed@[c]),
        decreases computed.len() - j,
    {
        let x = computed[j];
        let ghost before = out@;
        let ghost small = computed@.take(j as int);
        let ghost big = computed@.take(j as int + 1);
        assert((kept + big).drop_last() =~= kept + small);
        assert((kept + big).last() == x);
        let p = lower_bound(&out, x.timestamp);
        proof {
            lemma_insert_members(before, x, false, p as int);
        }
        insert_sample(&mut out, x, false);
        assert forall|k: int| 0 <= k < out@.len() implies big.contains(#[trigger] out@[k]) || kept.contains(out@[k]) by {
            if out@[k] == x {
                assert(big[j as int] == x);
            } else {
                let a = choose|a: int| 0 <= a < before.len() && before[a] == out@[k];
                if small.contains(before[a]) {
                    let b = choose|b: int| 0 <= b < small.len() && small[b] == before[a];
                    assert(big[b] == small[b]);
                }
            }
        }
        assert forall|c: int|
            0 <= c < j + 1 && (forall|d: int| c < d < j + 1 ==> computed@[d].timestamp != #[trigger] computed@[c].timestamp)
                implies out@.contains(computed@[c]) by {
            if c < j {
                assert(computed@[j as int].timestamp != computed@[c].timestamp);
                assert(before.contains(computed@[c]));
                let a = choose|a: int| 0 <= a < before.len() && before[a] == computed@[c];
                assert(before[a].timestamp != x.timestamp);
            }
        }
        j = j + 1;
    }
    assert(computed@.take(computed@.len() as int) =~= computed@);
    let ghost m = out@;
    assert(m == merged(persisted@, computed@, window_secs));
    proof {
        if m.len() <= max_points {
            assert forall|q: Sample|
                #[trigger] persisted@.contains(q) && spec_saturating_sub(computed@.last().timestamp, window_secs as i64) < q.timestamp
                    && q.timestamp <= computed@.last().timestamp
                    && (forall|j: int| 0 <= j < persisted@.len() && (#[trigger] persisted@[j]).timestamp == q.timestamp ==> persisted@[j] == q)
                    && (forall|c: int| 0 <= c < computed@.len() ==> (#[trigger] computed@[c]).timestamp != q.timestamp)
                implies m.contains(q) by {
                lemma_merge_keeps_stored(persisted@, computed@, window_secs, max_points, q);
            }
        }
    }
    proof {
        let x = computed@.last();
        if forall|c: int| 0 <= c < computed@.len() ==> #[trigger] computed@[c].timestamp <= x.timestamp {
            let n = computed@.len() - 1;
            assert(computed@[n] == x);
            assert(m.contains(x));
            let a = choose|a: int| 0 <= a < m.len() && m[a] == x;
            if a < m.len() - 1 {
                let last = m[m.len() - 1];
                assert(x.timestamp < last.timestamp);
                if computed@.contains(last) {
                    let c = choose|c: int| 0 <= c < computed@.len() && computed@[c] == last;
                    assert(computed@[c].timestamp <= x.timestamp);
                } else {
                    assert(kept.contains(last));
                    assert(kept == persisted@.filter(window));
                    let b = choose|b: int| 0 <= b < kept.len() && kept[b] == last;
                    persisted@.lemma_filter_pred(window, b);
                    assert(window(kept[b]));
                }
            }
        }
    }
    if out.len() > max_points {
        if max_points == 0 {
            assert(downsample(m, 0) =~= Seq::<Sample>::empty());
            return Vec::new();
        }
        let res = downsample_exec(&out, max_points);
        proof {
            lemma_downsample_points(m, max_points as int);
            assert forall|k: int| 0 <= k < res@.len() implies computed@.contains(#[trigger] res@[k]) || kept.contains(res@[k]) by {
                let b = spread_index(m.len() as int, max_points as int, k);
                assert(m[b] == res@[k]);
            }
        }
        res
    } else {
        out
    }
}

/// A copy of a list of samples.
pub fn copy_samples(samples: &Vec<Sample>) -> (res: Vec<Sample>)
    ensures
        res@ == samples@,
{
    let mut res: Vec<Sample> = Vec::new();
    let mut i: usize = 0;
    while i < samples.len()
        invariant
            i <= samples.len(),
            res@ == samples@.take(i as int),
        decreases samples.len() - i,
    {
        res.push(samples[i]);
        assert(samples@.take(i as int + 1) =~= samples@.take(i as int).push(samples@[i as int]));
        i = i + 1;
    }
    assert(samples@.take(samples@.len() as int) =~= samples@);
    res
}

/// In an ordered history whose newest sample holds a finite percentage, a
/// history drawn from its samples that reaches as far as every percentage ends
/// with that sample.
proof fn lemma_ends_with_newest(input: Seq<Sample>, res: Seq<Sample>)
    requires
        increasing(input),
        input.len() > 0,
        has_percentage(input.last()),
        res.len() > 0,
        forall|k: int| 0 <= k < res.len() ==> input.contains(#[trigger] res[k]),
        forall|j: int| 0 <= j < input.len() && has_percentage(#[trigger] input[j]) ==> input[j].timestamp <= res.last().timestamp,
    ensures
        res.last() == input.last(),
{
    let n = input.len() - 1;
    assert(has_percentage(input[n]));
    let r = res[res.len() - 1];
    assert(input.contains(r));
    let j = choose|j: int| 0 <= j < input.len() && input[j] == r;
    if j < n {
        assert(input[j].timestamp < input[n].timestamp);
    }
}

/// Where the newest sample of an ordered history holds a finite percentage,
/// the history a graph shows of it ends with that sample.
pub fn normalized_samples_of_ordered(samples: &Vec<Sample>, window_secs: u64, max_points: usize) -> (res: Vec<Sample>)
    requires
        increasing(samples@),
    ensures
        res@ == normalized(samples@, window_secs, max_points),
        samples@.len() > 0 && has_percentage(samples@.last()) && window_secs <= i64::MAX
            ==> res@.len() > 0 && res@.last() == samples@.last(),
{
    let ghost input = samples@;
    let res = normalized_samples(copy_samples(samples), window_secs, max_points);
    proof {
        if input.len() > 0 && has_percentage(input.last()) && window_secs <= i64::MAX {
            assert(has_percentage(input[input.len() - 1]));
            lemma_ends_with_newest(input, res@);
        }
    }
    res
}

/// Thinning never shortens the span a graph covers: a normalized history (for
/// a window that fits in an `i64`) has a point wherever a finite percentage was
/// given, and its first and last points are the oldest and the newest of the
/// samples within the window.
pub proof fn lemma_normalized_keeps_span(samples: Seq<Sample>, window_secs: u64, max_points: usize)
    requires
        window_secs <= i64::MAX,
    ensures
        ({
            let ordered = timeline(samples.filter(percentage_pred()), true);
            let kept = within_window(ordered, window_secs);
            let shown = normalized(samples, window_secs, max_points);
            ordered.len() > 0 ==> {
                &&& kept.len() > 0
                &&& shown.len() > 0
                &&& shown[0] == kept[0]
                &&& shown.last() == kept.last()
            }
        }),
{
    let ordered = timeline(samples.filter(percentage_pred()), true);
    if ordered.len() > 0 {
        let oldest = spec_saturating_sub(ordered.last().timestamp, window_secs as i64);
        let kept = within_window(ordered, window_secs);
        assert(since_pred(oldest)(ordered.last()));
        assert(ordered[ordered.len() - 1] == ordered.last());
        assert(ordered.contains(ordered.last()));
        ordered.lemma_filter_contains_rev(since_pred(oldest), ordered.last());
        assert(kept.contains(ordered.last()));
        if kept.len() > max_points && max_points > 1 {
            lemma_downsample_points(kept, max_points as int);
        }
    }
}

/// Inserting `x` keeps every sample of another second.
proof fn lemma_insert_keeps_other(t: Seq<Sample>, x: Sample, keep_existing: bool, y: Sample)
    requires
        t.contains(y),
        y.timestamp != x.timestamp,
    ensures
        insert_by_timestamp(t, x, keep_existing).contains(y),
    decreases t.len(),
{
    let r = insert_by_timestamp(t, x, keep_existing);
    let k = choose|k: int| 0 <= k < t.len() && t[k] == y;
    if x.timestamp < t[0].timestamp {
        assert(r[k + 1] == y);
    } else if x.timestamp == t[0].timestamp {
        if !keep_existing {
            assert(k != 0);
            assert(r[k] == y);
        }
    } else {
        if k == 0 {
            assert(r[0] == y);
        } else {
            let d = t.drop_first();
            assert(d[k - 1] == y);
            lemma_insert_keeps_other(d, x, keep_existing, y);
            let rest = insert_by_timestamp(d, x, keep_existing);
            let m = choose|m: int| 0 <= m < rest.len() && rest[m] == y;
            assert(r[m + 1] == y);
        }
    }
}

/// Inserting `x` in place of what shared its second puts `x` in.
proof fn lemma_insert_puts(t: Seq<Sample>, x: Sample)
    ensures
        insert_by_timestamp(t, x, false).contains(x),
    decreases t.len(),
{
    let r = insert_by_timestamp(t, x, false);
    if t.len() == 0 || x.timestamp <= t[0].timestamp {
        assert(r[0] == x);
    } else {
        let d = t.drop_first();
        lemma_insert_puts(d, x);
        let rest = insert_by_timestamp(d, x, false);
        let m = choose|m: int| 0 <= m < rest.len() && rest[m] == x;
        assert(r[m + 1] == x);
    }
}

/// A sample that is all that was given for its second is a point of the
/// timeline that keeps the last sample of each second.
proof fn lemma_timeline_keeps_unique(s: Seq<Sample>, y: Sample)
    requires
        s.contains(y),
        forall|j: int| 0 <= j < s.len() && (#[trigger] s[j]).timestamp == y.timestamp ==> s[j] == y,
    ensures
        timeline(s, false).contains(y),
    decreases s.len(),
{
    let d = s.drop_last();
    let n = s.len() - 1;
    if s[n] == y {
        lemma_insert_puts(timeline(d, false), y);
    } else {
        let k = choose|k: int| 0 <= k < s.len() && s[k] == y;
        assert(k < n);
        assert(d[k] == y);
        assert forall|j: int| 0 <= j < d.len() && (#[trigger] d[j]).timestamp == y.timestamp implies d[j] == y by {
            assert(d[j] == s[j]);
        }
        lemma_timeline_keeps_unique(d, y);
        assert(s[n].timestamp != y.timestamp);
        lemma_insert_keeps_other(timeline(d, false), s.last(), false, y);
    }
}

/// Stored samples fill the graph across the whole window: without thinning,
/// a stored sample taken after the newest computed sample's time less
/// `window_secs` (saturating, as an `i64`) and not after that time is a point
/// of the merged history, where it is the only sample given for its second
/// (no other stored sample and no computed one shares it).
pub proof fn lemma_merge_keeps_stored(persisted: Seq<Sample>, computed: Seq<Sample>, window_secs: u64, max_points: usize, p: Sample)
    requires
        computed.len() > 0,
        persisted.contains(p),
        spec_saturating_sub(computed.last().timestamp, window_secs as i64) < p.timestamp,
        p.timestamp <= computed.last().timestamp,
        forall|j: int| 0 <= j < persisted.len() && (#[trigger] persisted[j]).timestamp == p.timestamp ==> persisted[j] == p,
        forall|c: int| 0 <= c < computed.len() ==> (#[trigger] computed[c]).timestamp != p.timestamp,
        merged(persisted, computed, window_secs).len() <= max_points,
    ensures
        merged_thinned(persisted, computed, window_secs, max_points).contains(p),
{
    let newest = computed.last().timestamp;
    let pred = between_pred(spec_saturating_sub(newest, window_secs as i64), newest);
    let kept = retained(persisted, computed, window_secs);
    assert(kept == persisted.filter(pred));
    let i = choose|i: int| 0 <= i < persisted.len() && persisted[i] == p;
    assert(pred(persisted[i]));
    persisted.lemma_filter_contains(pred, i);
    let all = kept + computed;
    let k = choose|k: int| 0 <= k < kept.len() && kept[k] == p;
    assert(all[k] == p);
    assert forall|j: int| 0 <= j < all.len() && (#[trigger] all[j]).timestamp == p.timestamp implies all[j] == p by {
        if j < kept.len() {
            assert(all[j] == kept[j]);
            assert(kept.contains(kept[j]));
            persisted.lemma_filter_contains_rev(pred, kept[j]);
            let m = choose|m: int| 0 <= m < persisted.len() && persisted[m] == kept[j];
            assert(persisted[m].timestamp == p.timestamp);
        } else {
            assert(all[j] == computed[j - kept.len()]);
        }
    }
    lemma_timeline_keeps_unique(all, p);
}

} // verus!
