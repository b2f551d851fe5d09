use usage_core::float_bits::{f64_bits_to_i64, is_percentage};
use usage_core::metric::{
    codex_metric_from_samples, metric_if_recent, normalized_metric, UsageCoreMetric,
    CLAUDE_HISTORY_MAX_AGE_SECS, CODEX_RATE_LIMIT_MAX_AGE_SECS, MAX_HISTORY_POINTS,
};
use usage_core::samples::{
    codex_history_with_live_sample, merge_zcode_samples, normalized_samples, Sample,
    CODEX_HISTORY_WINDOW_SECS, MAX_PERSISTED_CODEX_HISTORY_POINTS,
};

fn sample(timestamp: i64, used: f64, reset_at: i64) -> Sample {
    Sample { timestamp, used_bits: used.to_bits(), reset_at }
}

fn used(s: &Sample) -> f64 {
    f64::from_bits(s.used_bits)
}

fn shown(m: &UsageCoreMetric) -> f64 {
    f64::from_bits(m.used_percentage_bits)
}

#[test]
fn normalized_metric_keeps_the_latest_window_and_caps_history() {
    let samples = (0..140)
        .map(|index| sample(1_000 + index, index as f64 / 2.0, 9_999))
        .collect();

    let metric = normalized_metric(samples, 10_000);

    assert_eq!(metric.available, 1);
    assert_eq!(metric.history.len(), MAX_HISTORY_POINTS);
    assert_eq!(shown(&metric), 69.5);
    assert_eq!(metric.history[0].timestamp_unix_seconds, 1_000);
    assert_eq!(metric.history[MAX_HISTORY_POINTS - 1].timestamp_unix_seconds, 1_139);
}

#[test]
fn claude_history_tolerates_missed_poll_but_not_stale_data() {
    let metric = normalized_metric(vec![sample(1_000, 42.0, 0)], 5 * 60 * 60);

    assert_eq!(
        metric_if_recent(metric.clone(), 1_000 + 45 * 60, CLAUDE_HISTORY_MAX_AGE_SECS).available,
        1
    );
    assert_eq!(
        metric_if_recent(metric, 1_000 + 60 * 60 + 1, CLAUDE_HISTORY_MAX_AGE_SECS).available,
        0
    );
}

#[test]
fn codex_uses_only_the_latest_fresh_rate_limit_update() {
    let now = 2_000_000;
    let metric = codex_metric_from_samples(
        vec![
            sample(now - 25 * 60, 96.0, now + 74 * 24 * 60 * 60),
            sample(now - 5 * 60, 18.0, now + 6 * 24 * 60 * 60),
        ],
        now,
    );

    assert_eq!(metric.available, 1);
    assert_eq!(shown(&metric), 18.0);
    assert_eq!(metric.reset_at_unix_seconds, now + 6 * 24 * 60 * 60);
}

#[test]
fn live_codex_sample_keeps_older_session_history_for_the_graph() {
    let live_timestamp = 2_000_000;
    let metric = normalized_metric(
        codex_history_with_live_sample(
            vec![
                sample(live_timestamp - 2 * 60 * 60, 9.0, live_timestamp + 6 * 24 * 60 * 60),
                sample(live_timestamp, 99.0, live_timestamp + 6 * 24 * 60 * 60),
            ],
            sample(live_timestamp, 18.0, live_timestamp + 5 * 24 * 60 * 60),
        ),
        CODEX_HISTORY_WINDOW_SECS,
    );

    assert_eq!(metric.available, 1);
    assert_eq!(metric.history.len(), 2);
    assert_eq!(f64::from_bits(metric.history[0].used_percentage_bits), 9.0);
    assert_eq!(f64::from_bits(metric.history[1].used_percentage_bits), 18.0);
    assert_eq!(shown(&metric), 18.0);
    assert_eq!(metric.reset_at_unix_seconds, live_timestamp + 5 * 24 * 60 * 60);
}

#[test]
fn persisted_codex_history_keeps_a_seven_day_span_when_refreshed_often() {
    let now = 2_000_000;
    let samples = (0..20_000)
        .map(|index| {
            sample(
                now - CODEX_HISTORY_WINDOW_SECS as i64 + index * 30,
                (index % 100) as f64,
                now + 6 * 24 * 60 * 60,
            )
        })
        .collect();

    let history =
        codex_history_with_live_sample(samples, sample(now, 18.0, now + 5 * 24 * 60 * 60));

    assert_eq!(history.len(), MAX_PERSISTED_CODEX_HISTORY_POINTS);
    assert_eq!(
        history.first().expect("oldest sample").timestamp,
        now - CODEX_HISTORY_WINDOW_SECS as i64
    );
    assert_eq!(used(history.last().expect("live sample")), 18.0);
}

#[test]
fn codex_hides_rate_limit_after_no_recent_update() {
    let now = 2_000_000;
    let metric = codex_metric_from_samples(
        vec![sample(
            now - CODEX_RATE_LIMIT_MAX_AGE_SECS as i64 - 1,
            96.0,
            now + 74 * 24 * 60 * 60,
        )],
        now,
    );

    assert_eq!(metric.available, 0);
    assert_eq!(metric.history.len(), 0);
    assert_eq!(metric.reset_at_unix_seconds, 0);
}

#[test]
fn zcode_merge_prefers_computed_samples_and_drops_expired_ones() {
    let now = 10_000;
    let merged = merge_zcode_samples(
        vec![sample(now - 600, 10.0, 0), sample(now - 200, 20.0, 0)],
        vec![sample(now - 200, 40.0, 0)],
        300,
        1024,
    );

    assert_eq!(merged.len(), 1);
    assert_eq!(merged[0].timestamp, now - 200);
    assert_eq!(used(&merged[0]), 40.0);
}

#[test]
fn normalized_samples_drop_values_that_are_not_percentages() {
    let points = normalized_samples(
        vec![
            sample(10, f64::NAN, 0),
            sample(20, 100.5, 0),
            sample(30, -1.0, 0),
            sample(40, f64::INFINITY, 0),
            sample(50, -0.0, 0),
            sample(60, 100.0, 0),
            sample(70, 0.0, 0),
        ],
        1_000,
        10,
    );

    let timestamps: Vec<i64> = points.iter().map(|s| s.timestamp).collect();
    assert_eq!(timestamps, vec![50, 60, 70]);
    assert!(is_percentage((-0.0f64).to_bits()));
    assert!(!is_percentage(f64::NAN.to_bits()));
    assert!(!is_percentage(100.000001f64.to_bits()));
}

#[test]
fn normalized_samples_order_by_time_and_keep_the_first_of_a_second() {
    let points = normalized_samples(
        vec![sample(30, 3.0, 0), sample(10, 1.0, 0), sample(30, 4.0, 0), sample(20, 2.0, 0)],
        1_000,
        10,
    );

    let seen: Vec<(i64, f64)> = points.iter().map(|s| (s.timestamp, used(s))).collect();
    assert_eq!(seen, vec![(10, 1.0), (20, 2.0), (30, 3.0)]);
}

#[test]
fn normalized_samples_keep_only_the_window_before_the_newest() {
    let points = normalized_samples(
        vec![sample(100, 1.0, 0), sample(150, 2.0, 0), sample(200, 3.0, 0), sample(300, 4.0, 0)],
        150,
        10,
    );

    let timestamps: Vec<i64> = points.iter().map(|s| s.timestamp).collect();
    assert_eq!(timestamps, vec![150, 200, 300]);
}

#[test]
fn thinning_keeps_the_whole_span_and_spreads_points_evenly() {
    let samples = (0..10).map(|i| sample(i, i as f64, 0)).collect();

    let points = normalized_samples(samples, 1_000, 4);

    // point k is sample k * 9 / 3
    let timestamps: Vec<i64> = points.iter().map(|s| s.timestamp).collect();
    assert_eq!(timestamps, vec![0, 3, 6, 9]);
}

#[test]
fn a_single_point_limit_does_not_thin() {
    let samples = (0..5).map(|i| sample(i, 1.0, 0)).collect();

    assert_eq!(normalized_samples(samples, 1_000, 1).len(), 5);
}

#[test]
fn no_percentage_gives_an_empty_metric() {
    let metric = normalized_metric(vec![sample(10, f64::NAN, 5)], 1_000);

    assert_eq!(metric.available, 0);
    assert_eq!(metric.used_percentage_bits, 0);
    assert_eq!(metric.reset_at_unix_seconds, 0);
    assert!(metric.history.is_empty());
}

#[test]
fn a_metric_from_the_future_is_hidden() {
    let metric = normalized_metric(vec![sample(10_000, 5.0, 0)], 1_000);

    assert_eq!(metric_if_recent(metric.clone(), 10_000 - 60, 60).available, 1);
    assert_eq!(metric_if_recent(metric.clone(), 10_000 - 61, 60).available, 0);
    assert_eq!(metric_if_recent(metric, 10_000 + 60, 60).available, 1);
}

#[test]
fn a_metric_before_the_epoch_is_hidden() {
    let metric = normalized_metric(vec![sample(0, 5.0, 0)], 1_000);

    assert_eq!(metric_if_recent(metric, 0, 60).available, 0);
}

#[test]
fn a_live_reading_without_a_percentage_is_not_the_last_point() {
    let history = codex_history_with_live_sample(
        vec![sample(100, 5.0, 0), sample(200, 6.0, 0)],
        sample(150, f64::NAN, 0),
    );

    let timestamps: Vec<i64> = history.iter().map(|s| s.timestamp).collect();
    assert_eq!(timestamps, vec![100]);
}

#[test]
fn merging_keeps_stored_samples_inside_the_window_and_thins() {
    let persisted: Vec<Sample> = (0..6).map(|i| sample(100 + i * 10, i as f64, 0)).collect();
    let merged = merge_zcode_samples(persisted, vec![sample(160, 50.0, 7)], 1_000, 3);

    let seen: Vec<(i64, f64)> = merged.iter().map(|s| (s.timestamp, used(s))).collect();
    // seven points 100..=160 thinned to three: indices 0, 3, 6
    assert_eq!(seen, vec![(100, 0.0), (130, 3.0), (160, 50.0)]);
}

#[test]
fn merging_without_computed_samples_gives_nothing() {
    let merged = merge_zcode_samples(vec![sample(100, 1.0, 0)], Vec::new(), 1_000, 10);

    assert!(merged.is_empty());
}

#[test]
fn merging_drops_stored_samples_newer_than_the_computed_one() {
    let merged = merge_zcode_samples(
        vec![sample(90, 1.0, 0), sample(300, 2.0, 0)],
        vec![sample(200, 3.0, 0)],
        1_000,
        10,
    );

    let timestamps: Vec<i64> = merged.iter().map(|s| s.timestamp).collect();
    assert_eq!(timestamps, vec![90, 200]);
}

#[test]
fn doubles_become_whole_seconds_as_rust_casts_them() {
    assert_eq!(f64_bits_to_i64(1500.7f64.to_bits()), 1500);
    assert_eq!(f64_bits_to_i64((-3.9f64).to_bits()), -3);
    assert_eq!(f64_bits_to_i64(0.25f64.to_bits()), 0);
    assert_eq!(f64_bits_to_i64(f64::NAN.to_bits()), 0);
    assert_eq!(f64_bits_to_i64(1e30f64.to_bits()), i64::MAX);
    assert_eq!(f64_bits_to_i64((-1e30f64).to_bits()), i64::MIN);
    assert_eq!(f64_bits_to_i64(f64::INFINITY.to_bits()), i64::MAX);
    assert_eq!(f64_bits_to_i64(1_700_000_000.5f64.to_bits()), 1_700_000_000);
}
