//! ZCode (z.ai coding plan) usage: the quota endpoint's answer, the widget's
//! sample store, and what the widget shows of them.

use vstd::prelude::*;
use crate::json::{deref_json, get_array, get_f64, get_i64, json_get, json_str, Json};
use crate::text::{trim, trimmed};
use crate::metric::{
    is_empty_metric, points_recent, recent_metric, shows, UsageCoreMetric, MAX_HISTORY_POINTS,
};
use crate::persist::ZCodeUnits;
use crate::samples::{merge_zcode_samples, merged, merged_thinned, normalized, Sample};

verus! {

/// Seconds in the five-hour window.
pub const ZCODE_FIVE_HOUR_WINDOW_SECS: u64 = 18000;

/// Seconds in the weekly window.
pub const ZCODE_WEEKLY_WINDOW_SECS: u64 = 604800;

/// Seconds for which the five-hour reading stays on display.
pub const ZCODE_FRESH_MAX_AGE_SECS: u64 = 1800;

/// Seconds for which the weekly reading stays on display.
pub const ZCODE_WEEKLY_FRESH_MAX_AGE_SECS: u64 = 21600;

/// How many points the ZCode sample store keeps per window.
pub const ZCODE_MAX_PERSISTED_HISTORY_POINTS: usize = 1024;

/// One credit pool of the quota endpoint's answer.
#[derive(Clone, Copy, Debug, PartialEq, Eq, Structural)]
pub struct ZCodeLiveLimit {
    /// Bit pattern of the used percentage, a double.
    pub percentage_bits: u64,
    pub used_units: i64,
    pub limit_units: i64,
    pub reset_at_unix_seconds: i64,
}

/// The five-hour and the weekly pool of the quota endpoint's answer.
#[derive(Clone, Copy, Debug, PartialEq, Eq, Structural)]
pub struct ZCodeLiveQuota {
    pub five_hour: ZCodeLiveLimit,
    pub week: ZCodeLiveLimit,
}

/// `x / d` rounded toward zero, as Rust divides integers.
pub open spec fn trunc_div(x: int, d: int) -> int {
    if x >= 0 {
        x / d
    } else {
        -((-x) / d)
    }
}

/// A millisecond instant in whole seconds, rounded toward zero.
pub fn millis_to_seconds(ms: i64) -> (res: i64)
    ensures
        res == trunc_div(ms as int, 1000),
{
    if ms >= 0 {
        ms / 1000
    } else {
        let magnitude: u64 = if ms == i64::MIN {
            0x8000_0000_0000_0000u64
        } else {
            (-ms) as u64
        };
        let q = magnitude / 1000;
        -(q as i64)
    }
}

/// A credit pool: a number `percentage`, integers `currentValue` (used
/// units) and `usage` (the pool size), and the millisecond instant
/// `nextResetTime`.
pub open spec fn spec_read_live_limit(v: Json) -> Option<ZCodeLiveLimit> {
    match (get_f64(v, "percentage"@), get_i64(v, "currentValue"@), get_i64(v, "usage"@), get_i64(v, "nextResetTime"@)) {
        (Some(p), Some(u), Some(l), Some(r)) => Some(ZCodeLiveLimit {
            percentage_bits: p,
            used_units: u,
            limit_units: l,
            reset_at_unix_seconds: trunc_div(r as int, 1000) as i64,
        }),
        _ => None,
    }
}

/// Reads a credit pool (see [`spec_read_live_limit`]).
pub fn read_live_limit(value: &Json) -> (res: Option<ZCodeLiveLimit>)
    ensures
        res == spec_read_live_limit(*value),
        // a pool with all four fields is read, its values as given
        has_pool_fields(*value) ==> res is Some && pool_fields_are(*value, res->0),
{
    proof {
        if has_pool_fields(*value) {
            lemma_pool_read_as_given(*value);
        }
    }
    match (value.get_f64_bits("percentage"), value.get_i64("currentValue"), value.get_i64("usage"), value.get_i64("nextResetTime")) {
        (Some(p), Some(u), Some(l), Some(r)) => Some(ZCodeLiveLimit {
            percentage_bits: p,
            used_units: u,
            limit_units: l,
            reset_at_unix_seconds: millis_to_seconds(r),
        }),
        _ => None,
    }
}

/// Whether `e` has the four fields of a credit pool: a number `percentage`
/// and integers `currentValue`, `usage` and `nextResetTime`.
pub open spec fn has_pool_fields(e: Json) -> bool {
    &&& get_f64(e, "percentage"@) is Some
    &&& get_i64(e, "currentValue"@) is Some
    &&& get_i64(e, "usage"@) is Some
    &&& get_i64(e, "nextResetTime"@) is Some
}

/// Whether `l` holds the pool fields of `e` as given: its percentage, used
/// units and pool size, and its millisecond reset instant in whole seconds
/// (rounded toward zero).
pub open spec fn pool_fields_are(e: Json, l: ZCodeLiveLimit) -> bool {
    &&& get_f64(e, "percentage"@) == Some(l.percentage_bits)
    &&& get_i64(e, "currentValue"@) == Some(l.used_units)
    &&& get_i64(e, "usage"@) == Some(l.limit_units)
    &&& get_i64(e, "nextResetTime"@) matches Some(r) && l.reset_at_unix_seconds == trunc_div(r as int, 1000)
}

/// Every credit pool with its four fields is read, whatever their values (a
/// pool at 0% included), and the reading holds them as given.
pub proof fn lemma_pool_read_as_given(v: Json)
    requires
        has_pool_fields(v),
    ensures
        spec_read_live_limit(v) is Some,
        pool_fields_are(v, spec_read_live_limit(v)->0),
{
    let r = get_i64(v, "nextResetTime"@)->0;
    assert(trunc_div(r as int, 1000) == trunc_div(r as int, 1000) as i64) by {
        if r >= 0 {
            assert(0 <= (r as int) / 1000 <= r);
        } else {
            assert(0 <= (-(r as int)) / 1000 <= -(r as int));
        }
    }
}

/// A readable pool with its `number` member.
pub open spec fn pool_entry(v: Json) -> Option<(Option<i64>, ZCodeLiveLimit)> {
    match spec_read_live_limit(v) {
        Some(l) => Some((get_i64(v, "number"@), l)),
        None => None,
    }
}

/// The reading of one pool.
pub open spec fn pool_entry_fn() -> spec_fn(Json) -> Option<(Option<i64>, ZCodeLiveLimit)> {
    |v: Json| pool_entry(v)
}

/// The pool whose `number` is 5 is the five-hour pool.
pub open spec fn is_five(p: (Option<i64>, ZCodeLiveLimit)) -> bool {
    p.0 == Some(5i64)
}

/// Index of the first smallest pool among those with `number` 5 (`five`) or
/// among all (`!five`).
pub open spec fn smallest(s: Seq<(Option<i64>, ZCodeLiveLimit)>, five: bool) -> Option<int>
    decreases s.len(),
{
    if s.len() == 0 {
        None
    } else {
        let rest = smallest(s.drop_last(), five);
        let i = s.len() - 1;
        if (!five || is_five(s[i])) && (rest is None || s[i].1.limit_units < s[rest->0].1.limit_units) {
            Some(i)
        } else {
            rest
        }
    }
}

/// Index of the last largest pool among those whose `number` is not 5.
pub open spec fn largest_other(s: Seq<(Option<i64>, ZCodeLiveLimit)>) -> Option<int>
    decreases s.len(),
{
    if s.len() == 0 {
        None
    } else {
        let rest = largest_other(s.drop_last());
        let i = s.len() - 1;
        if !is_five(s[i]) && (rest is None || s[i].1.limit_units >= s[rest->0].1.limit_units) {
            Some(i)
        } else {
            rest
        }
    }
}

/// The readable pools of an answer, in order: those of `data.limits`.
pub open spec fn answer_pools(root: Json) -> Option<Seq<(Option<i64>, ZCodeLiveLimit)>> {
    match json_get(root, "data"@) {
        Some(data) => match get_array(data, "limits"@) {
            Some(limits) => Some(limits.filter_map(pool_entry_fn())),
            None => None,
        },
        None => None,
    }
}

/// The quota of an answer: the five-hour pool is the smallest one numbered 5,
/// else the smallest of all; the weekly pool is the largest one not numbered 5
/// (of equal ones the first, respectively the last, given). Nothing where the
/// text was not JSON, has no `data.limits` array, no readable pool, or no pool
/// other than number 5.
pub open spec fn spec_parse_zcode_quota(document: Option<Json>) -> Option<ZCodeLiveQuota> {
    match document {
        None => None,
        Some(root) => match answer_pools(root) {
            None => None,
            Some(pools) => if pools.len() == 0 {
                None
            } else {
                let five_hour = match smallest(pools, true) {
                    Some(i) => pools[i].1,
                    None => pools[smallest(pools, false)->0].1,
                };
                match largest_other(pools) {
                    Some(j) => Some(ZCodeLiveQuota { five_hour, week: pools[j].1 }),
                    None => None,
                }
            },
        },
    }
}

/// The smallest-first index is that of a smallest pool of its kind.
proof fn lemma_smallest(s: Seq<(Option<i64>, ZCodeLiveLimit)>, five: bool)
    ensures
        smallest(s, five) matches Some(i) ==> 0 <= i < s.len() && (!five || is_five(s[i])) && forall|j: int|
            0 <= j < s.len() && (!five || is_five(s[j])) ==> s[i].1.limit_units <= #[trigger] s[j].1.limit_units,
        smallest(s, five) is None ==> s.len() == 0 || (five && forall|j: int| 0 <= j < s.len() ==> !is_five(#[trigger] s[j])),
    decreases s.len(),
{
    if s.len() > 0 {
        let d = s.drop_last();
        let n = s.len() - 1;
        lemma_smallest(d, five);
        assert forall|j: int| 0 <= j < n implies #[trigger] d[j] == s[j] by {}
        match smallest(s, five) {
            Some(i) => {
                assert forall|j: int| 0 <= j < s.len() && (!five || is_five(s[j])) implies s[i].1.limit_units
                    <= #[trigger] s[j].1.limit_units by {
                    if j < n {
                        assert(d[j] == s[j]);
                        assert(!five || is_five(d[j]));
                        let r = smallest(d, five);
                        assert(r is Some);
                        assert(d[r->0] == s[r->0]);
                        assert(d[r->0].1.limit_units <= d[j].1.limit_units);
                    }
                    if i < n {
                        assert(d[i] == s[i]);
                    }
                }
            },
            None => {
                assert forall|j: int| 0 <= j < s.len() implies !is_five(#[trigger] s[j]) by {
                    if j < n {
                        assert(d[j] == s[j]);
                    }
                }
            },
        }
    }
}

/// The largest-last index is that of a largest pool not numbered 5.
proof fn lemma_largest_other(s: Seq<(Option<i64>, ZCodeLiveLimit)>)
    ensures
        largest_other(s) matches Some(i) ==> 0 <= i < s.len() && !is_five(s[i]) && forall|j: int|
            0 <= j < s.len() && !is_five(s[j]) ==> #[trigger] s[j].1.limit_units <= s[i].1.limit_units,
        largest_other(s) is None ==> forall|j: int| 0 <= j < s.len() ==> is_five(#[trigger] s[j]),
    decreases s.len(),
{
    if s.len() > 0 {
        let d = s.drop_last();
        let n = s.len() - 1;
        lemma_largest_other(d);
        assert forall|j: int| 0 <= j < n implies #[trigger] d[j] == s[j] by {}
        match largest_other(s) {
            Some(i) => {
                assert forall|j: int| 0 <= j < s.len() && !is_five(s[j]) implies #[trigger] s[j].1.limit_units
                    <= s[i].1.limit_units by {
                    if j < n {
                        assert(d[j] == s[j]);
                        assert(!is_five(d[j]));
                        let r = largest_other(d);
                        assert(r is Some);
                        assert(d[r->0] == s[r->0]);
                        assert(d[j].1.limit_units <= d[r->0].1.limit_units);
                    }
                    if i < n {
                        assert(d[i] == s[i]);
                    }
                }
            },
            None => {
                assert forall|j: int| 0 <= j < s.len() implies is_five(#[trigger] s[j]) by {
                    if j < n {
                        assert(d[j] == s[j]);
                    }
                }
            },
        }
    }
}

/// An element that a filter-map maps to something gives that to its result.
pub(crate) proof fn lemma_filter_map_keeps<A, B>(s: Seq<A>, f: spec_fn(A) -> Option<B>, i: int)
    requires
        0 <= i < s.len(),
        f(s[i]) is Some,
    ensures
        s.filter_map(f).contains(f(s[i])->0),
    decreases s.len(),
{
    let n = s.len() - 1;
    let d = s.drop_last();
    if i == n {
        let r = s.filter_map(f);
        assert(r == d.filter_map(f) + seq![f(s[n])->0]);
        assert(r[r.len() - 1] == f(s[i])->0);
    } else {
        assert(d[i] == s[i]);
        lemma_filter_map_keeps(d, f, i);
        let rd = d.filter_map(f);
        let m = choose|m: int| 0 <= m < rd.len() && rd[m] == f(s[i])->0;
        let r = s.filter_map(f);
        match f(s[n]) {
            Some(b) => {
                assert(r == rd + seq![b]);
                assert(r[m] == rd[m]);
            },
            None => {
                assert(r == rd);
            },
        }
    }
}

/// The five-hour pool is the pool numbered 5: where the answer's
/// `data.limits` holds an entry numbered 5 with the four pool fields, the
/// five-hour pool read holds the fields of an entry numbered 5; where it also
/// holds such an entry numbered otherwise (or not numbered), the answer is
/// read at all.
pub proof fn lemma_five_hour_pool_numbered_five(root: Json, limits: Seq<Json>, k: int)
    requires
        json_get(root, "data"@) is Some,
        get_array(json_get(root, "data"@)->0, "limits"@) == Some(limits),
        0 <= k < limits.len(),
        has_pool_fields(limits[k]),
        get_i64(limits[k], "number"@) == Some(5i64),
    ensures
        spec_parse_zcode_quota(Some(root)) is Some ==> exists|m: int|
            0 <= m < limits.len() && get_i64(#[trigger] limits[m], "number"@) == Some(5i64)
                && pool_fields_are(limits[m], spec_parse_zcode_quota(Some(root))->0.five_hour),
        (exists|w: int| 0 <= w < limits.len() && has_pool_fields(#[trigger] limits[w]) && get_i64(limits[w], "number"@) != Some(5i64))
            ==> spec_parse_zcode_quota(Some(root)) is Some,
{
    let f = pool_entry_fn();
    let pools = limits.filter_map(f);
    assert(answer_pools(root) == Some(pools));
    lemma_pool_read_as_given(limits[k]);
    lemma_filter_map_keeps(limits, f, k);
    let e = f(limits[k])->0;
    assert(is_five(e));
    let j = choose|j: int| 0 <= j < pools.len() && pools[j] == e;
    lemma_smallest(pools, true);
    lemma_smallest(pools, false);
    lemma_largest_other(pools);
    let i = smallest(pools, true)->0;
    assert(is_five(pools[i]));
    if spec_parse_zcode_quota(Some(root)) is Some {
        let q = spec_parse_zcode_quota(Some(root))->0;
        assert(q.five_hour == pools[i].1);
        assert(pools.contains(pools[i]));
        limits.lemma_filter_map_contains(f, pools[i]);
        let t = choose|t: Json| #[trigger] limits.contains(t) && f(t) == Some(pools[i]);
        let m = choose|m: int| 0 <= m < limits.len() && limits[m] == t;
        lemma_pool_read_as_given(t);
        assert(get_i64(limits[m], "number"@) == Some(5i64));
        assert(pool_fields_are(limits[m], q.five_hour));
    }
    if exists|w: int| 0 <= w < limits.len() && has_pool_fields(#[trigger] limits[w]) && get_i64(limits[w], "number"@) != Some(5i64) {
        let w = choose|w: int| 0 <= w < limits.len() && has_pool_fields(#[trigger] limits[w]) && get_i64(limits[w], "number"@) != Some(5i64);
        lemma_pool_read_as_given(limits[w]);
        lemma_filter_map_keeps(limits, f, w);
        let ew = f(limits[w])->0;
        assert(!is_five(ew));
        let jw = choose|jw: int| 0 <= jw < pools.len() && pools[jw] == ew;
        assert(largest_other(pools) is Some);
    }
}

/// Without a fresh answer, the reset time shown is that of the newest stored
/// five-hour sample: in a history in time order, the one no other sample
/// follows.
pub proof fn lemma_stored_reset_is_newest(five_hour: Seq<Sample>, k: int)
    requires
        crate::samples::increasing(five_hour),
        0 <= k < five_hour.len(),
        forall|j: int| 0 <= j < five_hour.len() ==> (#[trigger] five_hour[j]).timestamp <= five_hour[k].timestamp,
    ensures
        stored_next_reset(five_hour) == five_hour[k].reset_at,
{
    let n = five_hour.len() - 1;
    if k < n {
        assert(five_hour[k].timestamp < five_hour[n].timestamp);
    }
}

/// Reads the quota endpoint's answer (see [`spec_parse_zcode_quota`]);
/// `document` is the answer read as JSON, `None` where it was not JSON. The
/// weekly pool is at least as large as every pool not numbered 5, and where no
/// pool is numbered 5 the five-hour pool is at most as large as every pool.
pub fn parse_zcode_quota(document: Option<&Json>) -> (res: Option<ZCodeLiveQuota>)
    ensures
        res == spec_parse_zcode_quota(deref_json(document)),
        res matches Some(q) ==> ({
            let pools = answer_pools(*document->0)->0;
            &&& forall|j: int| 0 <= j < pools.len() && !is_five(pools[j]) ==> #[trigger] pools[j].1.limit_units <= q.week.limit_units
            &&& (forall|j: int| 0 <= j < pools.len() ==> !is_five(#[trigger] pools[j])) ==> forall|j: int|
                0 <= j < pools.len() ==> q.five_hour.limit_units <= #[trigger] pools[j].1.limit_units
        }),
{
    let root = match document {
        Some(root) => root,
        None => return None,
    };
    let limits = match root.get("data") {
        Some(data) => match data.get_array("limits") {
            Some(limits) => limits,
            None => return None,
        },
        None => return None,
    };
    let ghost f = pool_entry_fn();
    let mut pools: Vec<(Option<i64>, ZCodeLiveLimit)> = Vec::new();
    let mut i: usize = 0;
    while i < limits.len()
        invariant
            f == pool_entry_fn(),
            i <= limits.len(),
            pools@ == limits@.take(i as int).filter_map(f),
        decreases limits.len() - i,
    {
        proof {
            limits@.lemma_filter_map_take_succ(f, i as int);
        }
        let value = &limits[i];
        if let Some(limit) = read_live_limit(value) {
            pools.push((value.get_i64("number"), limit));
        }
        i = i + 1;
    }
    assert(limits@.take(limits@.len() as int) =~= limits@);
    if pools.len() == 0 {
        return None;
    }
    let mut five: Option<usize> = None;
    let mut any: Option<usize> = None;
    let mut week: Option<usize> = None;
    let mut k: usize = 0;
    while k < pools.len()
        invariant
            k <= pools.len(),
            five matches Some(a) ==> a < pools.len(),
            any matches Some(a) ==> a < pools.len(),
            week matches Some(a) ==> a < pools.len(),
            smallest(pools@.take(k as int), true) == (match five { Some(a) => Some(a as int), None => None }),
            smallest(pools@.take(k as int), false) == (match any { Some(a) => Some(a as int), None => None }),
            largest_other(pools@.take(k as int)) == (match week { Some(a) => Some(a as int), None => None }),
        decreases pools.len() - k,
    {
        let ghost prefix = pools@.take(k as int + 1);
        assert(prefix.drop_last() =~= pools@.take(k as int));
        assert(prefix[k as int] == pools@[k as int]);
        proof {
            lemma_smallest(pools@.take(k as int), true);
            lemma_smallest(pools@.take(k as int), false);
            lemma_largest_other(pools@.take(k as int));
            if let Some(a) = five {
                assert(prefix[a as int] == pools@[a as int]);
            }
            if let Some(a) = any {
                assert(prefix[a as int] == pools@[a as int]);
            }
            if let Some(a) = week {
                assert(prefix[a as int] == pools@[a as int]);
            }
        }
        let units = pools[k].1.limit_units;
        let numbered_five = match pools[k].0 {
            Some(n) => n == 5,
            None => false,
        };
        if numbered_five {
            let better = match five {
                None => true,
                Some(a) => units < pools[a].1.limit_units,
            };
            if better {
                five = Some(k);
            }
        } else {
            let better = match week {
                None => true,
                Some(a) => units >= pools[a].1.limit_units,
            };
            if better {
                week = Some(k);
            }
        }
        let better_any = match any {
            None => true,
            Some(a) => units < pools[a].1.limit_units,
        };
        if better_any {
            any = Some(k);
        }
        k = k + 1;
    }
    assert(pools@.take(pools@.len() as int) =~= pools@);
    proof {
        lemma_smallest(pools@, true);
        lemma_smallest(pools@, false);
        lemma_largest_other(pools@);
    }
    let five_hour = match five {
        Some(a) => pools[a].1,
        None => match any {
            Some(a) => pools[a].1,
            None => return None,
        },
    };
    match week {
        Some(b) => Some(ZCodeLiveQuota { five_hour, week: pools[b].1 }),
        None => None,
    }
}

/// What the widget shows of ZCode.
#[derive(Debug)]
pub struct ZCodeUsage {
    pub five_hour: UsageCoreMetric,
    pub seven_day: UsageCoreMetric,
    pub next_reset_at: i64,
    pub five_hour_used_units: i64,
    pub five_hour_limit_units: i64,
    pub seven_day_used_units: i64,
    pub seven_day_limit_units: i64,
}

impl Default for ZCodeUsage {
    /// What the widget shows without any ZCode data: nothing.
    fn default() -> (res: Self)
        ensures
            is_empty_metric(res.five_hour),
            is_empty_metric(res.seven_day),
            res.next_reset_at == 0,
            res.five_hour_used_units == 0,
            res.five_hour_limit_units == 0,
            res.seven_day_used_units == 0,
            res.seven_day_limit_units == 0,
    {
        ZCodeUsage {
            five_hour: UsageCoreMetric::default(),
            seven_day: UsageCoreMetric::default(),
            next_reset_at: 0,
            five_hour_used_units: 0,
            five_hour_limit_units: 0,
            seven_day_used_units: 0,
            seven_day_limit_units: 0,
        }
    }
}

/// The sample a fresh pool reading makes at `now`.
pub open spec fn pool_sample(limit: ZCodeLiveLimit, now: i64) -> Sample {
    Sample { timestamp: now, used_bits: limit.percentage_bits, reset_at: limit.reset_at_unix_seconds }
}

/// The units a fresh answer reports.
pub open spec fn quota_units(quota: ZCodeLiveQuota) -> ZCodeUnits {
    ZCodeUnits {
        five_hour_used: quota.five_hour.used_units,
        five_hour_limit: quota.five_hour.limit_units,
        week_used: quota.week.used_units,
        week_limit: quota.week.limit_units,
    }
}

/// `m` shows the samples' graph where its newest point is at most `max_age_secs`
/// old, else nothing.
pub open spec fn shows_if_recent(m: UsageCoreMetric, samples: Seq<Sample>, window_secs: u64, now: i64, max_age_secs: u64) -> bool {
    let points = normalized(samples, window_secs, MAX_HISTORY_POINTS);
    if points_recent(points, now, max_age_secs) {
        shows(m, points)
    } else {
        is_empty_metric(m)
    }
}

/// A window's metric from an ordered history whose newest sample is the fresh
/// reading: at `now > 0`, a reading with a finite percentage is what it shows.
fn fresh_metric(samples: &Vec<Sample>, window_secs: u64, now: i64, max_age_secs: u64) -> (res: UsageCoreMetric)
    requires
        crate::samples::increasing(samples@),
        window_secs <= i64::MAX,
        max_age_secs <= i64::MAX,
    ensures
        shows_if_recent(res, samples@, window_secs, now, max_age_secs),
        now > 0 && samples@.len() > 0 && samples@.last().timestamp == now && crate::samples::has_percentage(samples@.last())
            ==> res.available == 1 && res.used_percentage_bits == samples@.last().used_bits
                && res.reset_at_unix_seconds == samples@.last().reset_at,
{
    let points = crate::samples::normalized_samples_of_ordered(samples, window_secs, MAX_HISTORY_POINTS);
    let metric = crate::metric::metric_of_points(&points);
    proof {
        crate::metric::lemma_recent_shows(metric, points@, now, max_age_secs);
    }
    crate::metric::metric_if_recent(metric, now, max_age_secs)
}

/// The refresh with a fresh answer from the quota endpoint: each window's
/// reading is merged into its stored samples (which are then to be stored
/// again, with the answer's units), and the graphs are drawn from the merged
/// samples. The answer's percentages are what the widget shows.
pub fn zcode_usage_from_quota(quota: ZCodeLiveQuota, persisted_five_hour: Vec<Sample>, persisted_seven_day: Vec<Sample>, now: i64) -> (res: (ZCodeUsage, Vec<Sample>, Vec<Sample>, ZCodeUnits))
    ensures
        res.1@ == merged_thinned(persisted_five_hour@, seq![pool_sample(quota.five_hour, now)], ZCODE_FIVE_HOUR_WINDOW_SECS, ZCODE_MAX_PERSISTED_HISTORY_POINTS),
        res.2@ == merged_thinned(persisted_seven_day@, seq![pool_sample(quota.week, now)], ZCODE_WEEKLY_WINDOW_SECS, ZCODE_MAX_PERSISTED_HISTORY_POINTS),
        res.3 == quota_units(quota),
        shows_if_recent(res.0.five_hour, res.1@, ZCODE_FIVE_HOUR_WINDOW_SECS, now, ZCODE_FRESH_MAX_AGE_SECS),
        shows_if_recent(res.0.seven_day, res.2@, ZCODE_WEEKLY_WINDOW_SECS, now, ZCODE_WEEKLY_FRESH_MAX_AGE_SECS),
        res.0.next_reset_at == quota.five_hour.reset_at_unix_seconds,
        res.0.five_hour_used_units == quota.five_hour.used_units,
        res.0.five_hour_limit_units == quota.five_hour.limit_units,
        res.0.seven_day_used_units == quota.week.used_units,
        res.0.seven_day_limit_units == quota.week.limit_units,
        // the answer's percentages are shown
        now > 0 && crate::float_bits::spec_is_percentage(quota.five_hour.percentage_bits) ==> res.0.five_hour.available == 1
            && res.0.five_hour.used_percentage_bits == quota.five_hour.percentage_bits
            && res.0.five_hour.reset_at_unix_seconds == quota.five_hour.reset_at_unix_seconds,
        now > 0 && crate::float_bits::spec_is_percentage(quota.week.percentage_bits) ==> res.0.seven_day.available == 1
            && res.0.seven_day.used_percentage_bits == quota.week.percentage_bits
            && res.0.seven_day.reset_at_unix_seconds == quota.week.reset_at_unix_seconds,
{
    let five_hour_sample = Sample { timestamp: now, used_bits: quota.five_hour.percentage_bits, reset_at: quota.five_hour.reset_at_unix_seconds };
    let seven_day_sample = Sample { timestamp: now, used_bits: quota.week.percentage_bits, reset_at: quota.week.reset_at_unix_seconds };
    let mut five_computed: Vec<Sample> = Vec::new();
    five_computed.push(five_hour_sample);
    let mut seven_computed: Vec<Sample> = Vec::new();
    seven_computed.push(seven_day_sample);
    assert(five_computed@ =~= seq![five_hour_sample]);
    assert(seven_computed@ =~= seq![seven_day_sample]);
    let five_hour_samples = merge_zcode_samples(persisted_five_hour, five_computed, ZCODE_FIVE_HOUR_WINDOW_SECS, ZCODE_MAX_PERSISTED_HISTORY_POINTS);
    let seven_day_samples = merge_zcode_samples(persisted_seven_day, seven_computed, ZCODE_WEEKLY_WINDOW_SECS, ZCODE_MAX_PERSISTED_HISTORY_POINTS);
    let units = ZCodeUnits {
        five_hour_used: quota.five_hour.used_units,
        five_hour_limit: quota.five_hour.limit_units,
        week_used: quota.week.used_units,
        week_limit: quota.week.limit_units,
    };
    let five_hour = fresh_metric(&five_hour_samples, ZCODE_FIVE_HOUR_WINDOW_SECS, now, ZCODE_FRESH_MAX_AGE_SECS);
    let seven_day = fresh_metric(&seven_day_samples, ZCODE_WEEKLY_WINDOW_SECS, now, ZCODE_WEEKLY_FRESH_MAX_AGE_SECS);
    let usage = ZCodeUsage {
        five_hour,
        seven_day,
        next_reset_at: quota.five_hour.reset_at_unix_seconds,
        five_hour_used_units: units.five_hour_used,
        five_hour_limit_units: units.five_hour_limit,
        seven_day_used_units: units.week_used,
        seven_day_limit_units: units.week_limit,
    };
    (usage, five_hour_samples, seven_day_samples, units)
}

/// The reset time the tooltip shows without a fresh answer: that of the newest
/// stored five-hour sample, `0` where there is none.
pub open spec fn stored_next_reset(five_hour: Seq<Sample>) -> i64 {
    if five_hour.len() == 0 {
        0
    } else {
        five_hour.last().reset_at
    }
}

/// The refresh without a fresh answer: the stored samples and units stay on
/// display until they go stale.
pub fn zcode_usage_from_store(five_hour: Vec<Sample>, seven_day: Vec<Sample>, units: ZCodeUnits, now: i64) -> (res: ZCodeUsage)
    ensures
        shows_if_recent(res.five_hour, five_hour@, ZCODE_FIVE_HOUR_WINDOW_SECS, now, ZCODE_FRESH_MAX_AGE_SECS),
        shows_if_recent(res.seven_day, seven_day@, ZCODE_WEEKLY_WINDOW_SECS, now, ZCODE_WEEKLY_FRESH_MAX_AGE_SECS),
        res.next_reset_at == stored_next_reset(five_hour@),
        // the reset of the last stored five-hour sample, `0` without one
        five_hour@.len() > 0 ==> res.next_reset_at == five_hour@.last().reset_at,
        five_hour@.len() == 0 ==> res.next_reset_at == 0,
        res.five_hour_used_units == units.five_hour_used,
        res.five_hour_limit_units == units.five_hour_limit,
        res.seven_day_used_units == units.week_used,
        res.seven_day_limit_units == units.week_limit,
{
    let next_reset_at = if five_hour.len() == 0 {
        0
    } else {
        five_hour[five_hour.len() - 1].reset_at
    };
    ZCodeUsage {
        five_hour: recent_metric(five_hour, ZCODE_FIVE_HOUR_WINDOW_SECS, now, ZCODE_FRESH_MAX_AGE_SECS),
        seven_day: recent_metric(seven_day, ZCODE_WEEKLY_WINDOW_SECS, now, ZCODE_WEEKLY_FRESH_MAX_AGE_SECS),
        next_reset_at,
        five_hour_used_units: units.five_hour_used,
        five_hour_limit_units: units.five_hour_limit,
        seven_day_used_units: units.week_used,
        seven_day_limit_units: units.week_limit,
    }
}

/// The API key that ZCode's configuration stores for `provider`, as it
/// stands: `None` where a step of the path `provider` / `provider` /
/// `options` / `apiKey` is missing or the key is not a string.
pub open spec fn provider_key(root: Json, provider: Seq<char>) -> Option<Seq<char>> {
    match json_get(root, "provider"@) {
        Some(providers) => match json_get(providers, provider) {
            Some(entry) => match json_get(entry, "options"@) {
                Some(options) => match json_get(options, "apiKey"@) {
                    Some(key) => json_str(key),
                    None => None,
                },
                None => None,
            },
            None => None,
        },
        None => None,
    }
}

/// The z.ai API key of ZCode's configuration (`config` is the configuration
/// file read as JSON, `None` where it could not be read or was not JSON): the
/// coding-plan provider's key without surrounding white space, or where that
/// is empty the start-plan provider's. A missing step for a provider that is
/// looked at gives no key at all.
pub open spec fn spec_zcode_api_key(config: Option<Json>) -> Option<Seq<char>> {
    match config {
        None => None,
        Some(root) => match provider_key(root, "builtin:zai-coding-plan"@) {
            None => None,
            Some(first) => if trimmed(first).len() > 0 {
                Some(trimmed(first))
            } else {
                match provider_key(root, "builtin:zai-start-plan"@) {
                    None => None,
                    Some(second) => if trimmed(second).len() > 0 {
                        Some(trimmed(second))
                    } else {
                        None
                    },
                }
            },
        },
    }
}

fn provider_key_exec<'a>(root: &'a Json, provider: &str) -> (res: Option<&'a String>)
    ensures
        match res {
            Some(k) => provider_key(*root, provider@) == Some(k@),
            None => provider_key(*root, provider@) is None,
        },
{
    let providers = match root.get("provider") {
        Some(p) => p,
        None => return None,
    };
    let entry = match providers.get(provider) {
        Some(e) => e,
        None => return None,
    };
    let options = match entry.get("options") {
        Some(o) => o,
        None => return None,
    };
    match options.get("apiKey") {
        Some(key) => key.as_str(),
        None => None,
    }
}

/// The z.ai API key of ZCode's configuration (see [`spec_zcode_api_key`]).
pub fn zcode_api_key_from_config(config: Option<&Json>) -> (res: Option<String>)
    ensures
        match res {
            Some(k) => spec_zcode_api_key(deref_json(config)) == Some(k@),
            None => spec_zcode_api_key(deref_json(config)) is None,
        },
{
    let root = match config {
        Some(r) => r,
        None => return None,
    };
    let first = match provider_key_exec(root, "builtin:zai-coding-plan") {
        Some(k) => trim(k.as_str()),
        None => return None,
    };
    if first.unicode_len() > 0 {
        return Some(first);
    }
    let second = match provider_key_exec(root, "builtin:zai-start-plan") {
        Some(k) => trim(k.as_str()),
        None => return None,
    };
    if second.unicode_len() > 0 {
        Some(second)
    } else {
        None
    }
}

} // verus!
