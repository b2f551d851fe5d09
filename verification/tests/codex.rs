use serde_json::Value;
use usage_core::codex::{
    codex_live_reading, codex_reading_from_event, extract_weekly, find_rate_limits,
    parse_rfc3339_seconds, UsedPercent,
};
use usage_core::json::{Json, JsonNumber};
use usage_core::persist::{parse_persisted_codex_history, persisted_codex_history_json};
use usage_core::samples::Sample;

fn to_json(v: &Value) -> Json {
    match v {
        Value::Null => Json::Null,
        Value::Bool(b) => Json::Bool(*b),
        Value::Number(n) => Json::Number(JsonNumber {
            integer: n.as_i64(),
            float_bits: n.as_f64().map(f64::to_bits),
        }),
        Value::String(s) => Json::String(s.clone()),
        Value::Array(items) => Json::Array(items.iter().map(to_json).collect()),
        Value::Object(members) => {
            Json::Object(members.iter().map(|(k, v)| (k.clone(), to_json(v))).collect())
        }
    }
}

fn to_value(j: &Json) -> Value {
    match j {
        Json::Null => Value::Null,
        Json::Bool(b) => Value::Bool(*b),
        Json::Number(n) => match (n.integer, n.float_bits) {
            (Some(i), _) => Value::from(i),
            (None, Some(bits)) => Value::from(f64::from_bits(bits)),
            (None, None) => Value::Null,
        },
        Json::String(s) => Value::String(s.clone()),
        Json::Array(items) => Value::Array(items.iter().map(to_value).collect()),
        Json::Object(members) => {
            Value::Object(members.iter().map(|(k, v)| (k.clone(), to_value(v))).collect())
        }
    }
}

fn parse(text: &str) -> Option<Json> {
    serde_json::from_str::<Value>(text).ok().map(|v| to_json(&v))
}

fn json(text: &str) -> Json {
    parse(text).expect("valid JSON")
}

fn used(percent: UsedPercent) -> f64 {
    match percent {
        UsedPercent::Used(bits) => f64::from_bits(bits),
        UsedPercent::Remaining(bits) => 100.0 - f64::from_bits(bits),
    }
}

fn string(text: &str) -> Json {
    Json::String(text.to_owned())
}

#[test]
fn persisted_codex_history_round_trips() {
    let samples = vec![Sample { timestamp: 123, used_bits: 18.0f64.to_bits(), reset_at: 456 }];

    let text = to_value(&persisted_codex_history_json(&samples)).to_string();
    let parsed = parse_persisted_codex_history(parse(&text).as_ref());

    assert_eq!(parsed.len(), 1);
    assert_eq!(parsed[0].timestamp, 123);
    assert_eq!(f64::from_bits(parsed[0].used_bits), 18.0);
    assert_eq!(parsed[0].reset_at, 456);
}

#[test]
fn weekly_rate_limit_can_come_from_secondary_only() {
    let limits = json(
        r#"{"secondary": {"window_minutes": 10080, "remaining_percent": 37.0, "reset_at": "2026-08-30T00:00:00Z"}}"#,
    );

    let sample = extract_weekly(&limits, 123).expect("weekly metric");

    assert_eq!(sample.timestamp, 123);
    assert_eq!(used(sample.used), 63.0);
    assert!(sample.reset_at > 0);
}

#[test]
fn weekly_rate_limit_reads_codex_unix_reset_timestamp() {
    let limits = json(
        r#"{"primary": {"window_minutes": 10080, "used_percent": 15.0, "resets_at": 1788272240}}"#,
    );

    let sample = extract_weekly(&limits, 123).expect("weekly metric");

    assert_eq!(sample.reset_at, 1_788_272_240);
}

#[test]
fn weekly_rate_limit_reads_live_codex_app_server_format() {
    let limits = json(
        r#"{"primary": {"windowDurationMins": 10080, "usedPercent": 18, "resetsAt": 1788272240}}"#,
    );

    let sample = extract_weekly(&limits, 123).expect("weekly metric");

    assert_eq!(used(sample.used), 18.0);
    assert_eq!(sample.reset_at, 1_788_272_240);
}

#[test]
fn non_weekly_rate_limit_is_ignored() {
    let limits = json(r#"{"primary": {"window_minutes": 300, "used_percent": 12.0}}"#);

    assert!(extract_weekly(&limits, 123).is_none());
}

#[test]
fn rfc3339_reset_times_become_unix_seconds() {
    assert_eq!(parse_rfc3339_seconds(Some(&string("2026-08-30T00:00:00Z"))), 1_788_048_000);
    assert_eq!(parse_rfc3339_seconds(Some(&string("2026-08-30T02:00:00+02:00"))), 1_788_048_000);
    assert_eq!(parse_rfc3339_seconds(Some(&string("next tuesday"))), 0);
    assert_eq!(parse_rfc3339_seconds(Some(&Json::Null)), 0);
    assert_eq!(parse_rfc3339_seconds(None), 0);
}

#[test]
fn a_weekly_block_without_a_window_length_ends_the_search() {
    let limits = json(
        r#"{"primary": {"used_percent": 12.0},
            "secondary": {"window_minutes": 10080, "used_percent": 40.0}}"#,
    );

    assert!(extract_weekly(&limits, 123).is_none());
}

#[test]
fn a_short_primary_window_falls_through_to_the_secondary() {
    let limits = json(
        r#"{"primary": {"window_minutes": 300, "used_percent": 12.0},
            "secondary": {"window_minutes": 8640, "used_percent": 40.0, "resets_at": 77}}"#,
    );

    let sample = extract_weekly(&limits, 5).expect("weekly metric");

    assert_eq!(used(sample.used), 40.0);
    assert_eq!(sample.reset_at, 77);
}

#[test]
fn a_weekly_window_without_a_percentage_gives_nothing() {
    let limits = json(
        r#"{"primary": {"window_minutes": 10080},
            "secondary": {"window_minutes": 10080, "used_percent": 40.0}}"#,
    );

    assert!(extract_weekly(&limits, 5).is_none());
}

#[test]
fn the_weekly_window_spans_six_to_eight_days() {
    let at = |minutes: i64| {
        json(&format!(r#"{{"primary": {{"window_minutes": {minutes}, "used_percent": 1.0}}}}"#))
    };

    assert!(extract_weekly(&at(8639), 1).is_none());
    assert!(extract_weekly(&at(8640), 1).is_some());
    assert!(extract_weekly(&at(11520), 1).is_some());
    assert!(extract_weekly(&at(11521), 1).is_none());
}

#[test]
fn the_reset_falls_back_from_unix_seconds_to_a_date() {
    let limits = json(
        r#"{"primary": {"window_minutes": 10080, "used_percent": 1.0, "resetsAt": "soon", "reset_at": "2026-08-30T00:00:00Z"}}"#,
    );

    let sample = extract_weekly(&limits, 1).expect("weekly metric");

    assert_eq!(sample.reset_at, 1_788_048_000);
}

#[test]
fn rate_limits_are_found_deep_in_an_event() {
    let event = json(
        r#"{"timestamp": "2026-08-30T00:00:00Z", "type": "event_msg",
            "payload": {"info": [1, {"rate_limits": {"primary": {"window_minutes": 10080, "used_percent": 33.0}}}]}}"#,
    );

    let found = find_rate_limits(&event).expect("rate limits");
    assert!(found.get("primary").is_some());

    let sample = codex_reading_from_event(&event).expect("weekly metric");
    assert_eq!(sample.timestamp, 1_788_048_000);
    assert_eq!(used(sample.used), 33.0);
}

#[test]
fn an_event_without_a_time_gives_no_reading() {
    let event = json(
        r#"{"payload": {"rate_limits": {"primary": {"window_minutes": 10080, "used_percent": 33.0}}}}"#,
    );

    assert!(codex_reading_from_event(&event).is_none());
}

#[test]
fn the_live_answer_prefers_the_codex_limit() {
    let response = json(
        r#"{"rateLimitsByLimitId": {"codex": {"primary": {"windowDurationMins": 10080, "usedPercent": 12}}},
            "rateLimits": {"primary": {"windowDurationMins": 10080, "usedPercent": 90}}}"#,
    );

    let sample = codex_live_reading(&response, 55).expect("weekly metric");

    assert_eq!(sample.timestamp, 55);
    assert_eq!(used(sample.used), 12.0);

    let fallback = json(r#"{"rateLimits": {"primary": {"windowDurationMins": 10080, "usedPercent": 90}}}"#);
    assert_eq!(used(codex_live_reading(&fallback, 55).expect("weekly metric").used), 90.0);
}

#[test]
fn a_store_with_a_broken_entry_keeps_the_others() {
    let store = json(
        r#"{"version": 1, "samples": [
            {"timestamp": 1, "used": 2.0, "reset_at": 3},
            {"timestamp": 4, "used": 5.0},
            {"timestamp": 6, "used": 7, "reset_at": 8}]}"#,
    );

    let samples = parse_persisted_codex_history(Some(&store));

    let seen: Vec<(i64, f64, i64)> =
        samples.iter().map(|s| (s.timestamp, f64::from_bits(s.used_bits), s.reset_at)).collect();
    assert_eq!(seen, vec![(1, 2.0, 3), (6, 7.0, 8)]);
    assert!(parse_persisted_codex_history(None).is_empty());
    assert!(parse_persisted_codex_history(parse("not json").as_ref()).is_empty());
}
