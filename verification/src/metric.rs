//! The metrics the widget draws: the latest percentage of a window, when the
//! window resets, and the burn-down history behind it.

use vstd::prelude::*;
use crate::samples::{
    normalized, normalized_samples, saturating_add, saturating_sub, spec_saturating_add,
    spec_saturating_sub, Sample, CODEX_HISTORY_WINDOW_SECS,
};

verus! {

/// How many history points a metric holds.
pub const MAX_HISTORY_POINTS: usize = 128;

/// Seconds for which the Anthropic app's usage history stays on display after its last
/// sample. The desktop app normally appends a sample every 15 minutes but may
/// skip polls; one missed update does not hide the graphs.
pub const CLAUDE_HISTORY_MAX_AGE_SECS: u64 = 3600;

/// Seconds in the Anthropic app's five-hour window.
pub const CLAUDE_FIVE_HOUR_WINDOW_SECS: u64 = 18000;

/// Seconds for which a Codex rate-limit reading stays on display.
pub const CODEX_RATE_LIMIT_MAX_AGE_SECS: u64 = 1200;

/// One point of a burn-down graph.
#[derive(Clone, Copy, Debug, PartialEq, Eq, Structural)]
pub struct UsageCoreHistoryPoint {
    /// When the point was observed (Unix seconds).
    pub timestamp_unix_seconds: i64,
    /// Bit pattern of the used percentage, a double.
    pub used_percentage_bits: u64,
}

/// One usage window as the widget shows it.
#[derive(Clone, Debug)]
pub struct UsageCoreMetric {
    /// `1` where the window has data to show, else `0`.
    pub available: u8,
    /// Bit pattern of the latest used percentage, a double.
    pub used_percentage_bits: u64,
    /// When the window resets (Unix seconds), `0` where unknown.
    pub reset_at_unix_seconds: i64,
    /// The burn-down history, oldest point first.
    pub history: Vec<UsageCoreHistoryPoint>,
}

/// Everything one refresh of the widget shows.
#[derive(Clone, Debug)]
pub struct UsageCoreSnapshot {
    pub claude_5h: UsageCoreMetric,
    pub claude_7d: UsageCoreMetric,
    pub codex_7d: UsageCoreMetric,
    pub claude_next_reset_at_unix_seconds: i64,
    pub zcode_5h: UsageCoreMetric,
    pub zcode_7d: UsageCoreMetric,
    pub zcode_next_reset_at_unix_seconds: i64,
    pub zcode_5h_used_units: i64,
    pub zcode_5h_limit_units: i64,
    pub zcode_7d_used_units: i64,
    pub zcode_7d_limit_units: i64,
}

/// The metric that shows nothing.
pub open spec fn is_empty_metric(m: UsageCoreMetric) -> bool {
    &&& m.available == 0
    &&& m.used_percentage_bits == 0
    &&& m.reset_at_unix_seconds == 0
    &&& m.history@.len() == 0
}

/// The graph point of a sample.
pub open spec fn point_of(s: Sample) -> UsageCoreHistoryPoint {
    UsageCoreHistoryPoint { timestamp_unix_seconds: s.timestamp, used_percentage_bits: s.used_bits }
}

/// `m` shows the history `points`: nothing where there are none, else the
/// latest point's percentage and reset time and all the points.
pub open spec fn shows(m: UsageCoreMetric, points: Seq<Sample>) -> bool {
    if points.len() == 0 {
        is_empty_metric(m)
    } else {
        &&& m.available == 1
        &&& m.used_percentage_bits == points.last().used_bits
        &&& m.reset_at_unix_seconds == points.last().reset_at
        &&& m.history@ == history_of(points)
    }
}

/// The graph points of a history.
pub open spec fn history_of(points: Seq<Sample>) -> Seq<UsageCoreHistoryPoint> {
    points.map_values(|s: Sample| point_of(s))
}

impl Default for UsageCoreMetric {
    /// The metric that shows nothing.
    fn default() -> (res: Self)
        ensures
            is_empty_metric(res),
    {
        UsageCoreMetric {
            available: 0,
            used_percentage_bits: 0,
            reset_at_unix_seconds: 0,
            history: Vec::new(),
        }
    }
}

/// The metric that shows `points`.
pub fn metric_of_points(points: &Vec<Sample>) -> (res: UsageCoreMetric)
    ensures
        shows(res, points@),
        res.history@.len() == points@.len(),
{
    if points.len() == 0 {
        return UsageCoreMetric::default();
    }
    let latest = points[points.len() - 1];
    let mut history: Vec<UsageCoreHistoryPoint> = Vec::new();
    let mut i: usize = 0;
    while i < points.len()
        invariant
            i <= points.len(),
            history@ == history_of(points@.take(i as int)),
        decreases points.len() - i,
    {
        history.push(UsageCoreHistoryPoint {
            timestamp_unix_seconds: points[i].timestamp,
            used_percentage_bits: points[i].used_bits,
        });
        assert(history_of(points@.take(i as int + 1)) =~= history_of(points@.take(i as int)).push(
            point_of(points@[i as int]),
        ));
        i = i + 1;
    }
    assert(points@.take(points@.len() as int) =~= points@);
    UsageCoreMetric {
        available: 1,
        used_percentage_bits: latest.used_bits,
        reset_at_unix_seconds: latest.reset_at,
        history,
    }
}

/// The metric of a usage window from raw samples: the history of
/// [`normalized`] with at most [`MAX_HISTORY_POINTS`] points.
pub fn normalized_metric(samples: Vec<Sample>, window_secs: u64) -> (res: UsageCoreMetric)
    ensures
        shows(res, normalized(samples@, window_secs, MAX_HISTORY_POINTS)),
        res.history@.len() <= MAX_HISTORY_POINTS,
{
    let points = normalized_samples(samples, window_secs, MAX_HISTORY_POINTS);
    metric_of_points(&points)
}

/// The newest point a freshness check looks at: the last of the first
/// [`MAX_HISTORY_POINTS`] points.
pub open spec fn newest_shown(m: UsageCoreMetric) -> Option<UsageCoreHistoryPoint> {
    let n = if m.history@.len() < MAX_HISTORY_POINTS { m.history@.len() as int } else { MAX_HISTORY_POINTS as int };
    if n == 0 {
        None
    } else {
        Some(m.history@[n - 1])
    }
}

/// The metric's newest point lies after the epoch, not further than
/// `max_age_secs` (read as an `i64`) ahead of `now`, and not older than that.
pub open spec fn is_recent(m: UsageCoreMetric, now: i64, max_age_secs: u64) -> bool {
    match newest_shown(m) {
        None => false,
        Some(latest) => {
            let t = latest.timestamp_unix_seconds;
            &&& t > 0
            &&& t <= spec_saturating_add(now, max_age_secs as i64)
            &&& spec_saturating_sub(now, t) <= max_age_secs as i64
        },
    }
}

/// The metric where it is recent (see [`is_recent`]), else the metric that
/// shows nothing.
pub fn metric_if_recent(metric: UsageCoreMetric, now: i64, max_age_secs: u64) -> (res: UsageCoreMetric)
    ensures
        is_recent(metric, now, max_age_secs) ==> res == metric,
        !is_recent(metric, now, max_age_secs) ==> is_empty_metric(res),
{
    let n = if metric.history.len() < MAX_HISTORY_POINTS { metric.history.len() } else { MAX_HISTORY_POINTS };
    if n == 0 {
        return UsageCoreMetric::default();
    }
    let latest = metric.history[n - 1].timestamp_unix_seconds;
    let max_age = max_age_secs as i64;
    if latest <= 0 || latest > saturating_add(now, max_age) || saturating_sub(now, latest) > max_age {
        return UsageCoreMetric::default();
    }
    metric
}

/// A history whose newest point is recent (see [`is_recent`]).
pub open spec fn points_recent(points: Seq<Sample>, now: i64, max_age_secs: u64) -> bool {
    points.len() > 0 && {
        let t = points.last().timestamp;
        &&& t > 0
        &&& t <= spec_saturating_add(now, max_age_secs as i64)
        &&& spec_saturating_sub(now, t) <= max_age_secs as i64
    }
}

/// A metric showing a history of at most [`MAX_HISTORY_POINTS`] points is
/// recent exactly when the history is.
pub proof fn lemma_recent_shows(m: UsageCoreMetric, points: Seq<Sample>, now: i64, max_age_secs: u64)
    requires
        shows(m, points),
        points.len() <= MAX_HISTORY_POINTS,
    ensures
        is_recent(m, now, max_age_secs) == points_recent(points, now, max_age_secs),
{
    if points.len() > 0 {
        assert(m.history@[points.len() - 1] == point_of(points.last()));
    }
}

/// A metric of a history, shown where its newest point is recent.
pub fn recent_metric(samples: Vec<Sample>, window_secs: u64, now: i64, max_age_secs: u64) -> (res: UsageCoreMetric)
    ensures
        points_recent(normalized(samples@, window_secs, MAX_HISTORY_POINTS), now, max_age_secs)
            ==> shows(res, normalized(samples@, window_secs, MAX_HISTORY_POINTS)),
        !points_recent(normalized(samples@, window_secs, MAX_HISTORY_POINTS), now, max_age_secs)
            ==> is_empty_metric(res),
{
    let ghost points = normalized(samples@, window_secs, MAX_HISTORY_POINTS);
    let metric = normalized_metric(samples, window_secs);
    proof {
        lemma_recent_shows(metric, points, now, max_age_secs);
    }
    metric_if_recent(metric, now, max_age_secs)
}

/// The Codex weekly metric from its samples: seven days of history, shown while
/// the newest sample is at most [`CODEX_RATE_LIMIT_MAX_AGE_SECS`] old.
pub fn codex_metric_from_samples(samples: Vec<Sample>, now: i64) -> (res: UsageCoreMetric)
    ensures
        points_recent(normalized(samples@, CODEX_HISTORY_WINDOW_SECS, MAX_HISTORY_POINTS), now, CODEX_RATE_LIMIT_MAX_AGE_SECS)
            ==> shows(res, normalized(samples@, CODEX_HISTORY_WINDOW_SECS, MAX_HISTORY_POINTS)),
        !points_recent(normalized(samples@, CODEX_HISTORY_WINDOW_SECS, MAX_HISTORY_POINTS), now, CODEX_RATE_LIMIT_MAX_AGE_SECS)
            ==> is_empty_metric(res),
{
    recent_metric(samples, CODEX_HISTORY_WINDOW_SECS, now, CODEX_RATE_LIMIT_MAX_AGE_SECS)
}

} // verus!
