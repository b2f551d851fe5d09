use serde_json::Value;
use usage_core::json::{Json, JsonNumber};
use usage_core::persist::{parse_persisted_zcode_history, persisted_zcode_history_json, ZCodeUnits};
use usage_core::samples::Sample;
use usage_core::text::trim;
use usage_core::zcode::{
    parse_zcode_quota, zcode_api_key_from_config, zcode_usage_from_quota, zcode_usage_from_store,
    ZCodeLiveLimit, ZCodeLiveQuota, ZCODE_FRESH_MAX_AGE_SECS,
};

fn to_json(v: &Value) -> Json {
    match v {
        Value::Null => Json::Null,
        Value::Bool(b) => Json::Bool(*b),
        Value::Number(n) => Json::Number(JsonNumber {
            integer: n.as_i64(),
            float_bits: n.as_f64().map(f64::to_bits),
        }),
        Value::String(s) => Json::String(s.clone()),
        Value::Array(items) => Json::Array(items.iter().map(to_json).collect()),
        Value::Object(members) => {
            Json::Object(members.iter().map(|(k, v)| (k.clone(), to_json(v))).collect())
        }
    }
}

fn to_value(j: &Json) -> Value {
    match j {
        Json::Null => Value::Null,
        Json::Bool(b) => Value::Bool(*b),
        Json::Number(n) => match (n.integer, n.float_bits) {
            (Some(i), _) => Value::from(i),
            (None, Some(bits)) => Value::from(f64::from_bits(bits)),
            (None, None) => Value::Null,
        },
        Json::String(s) => Value::String(s.clone()),
        Json::Array(items) => Value::Array(items.iter().map(to_value).collect()),
        Json::Object(members) => {
            Value::Object(members.iter().map(|(k, v)| (k.clone(), to_value(v))).collect())
        }
    }
}

fn parse(text: &str) -> Option<Json> {
    serde_json::from_str::<Value>(text).ok().map(|v| to_json(&v))
}

fn quota_of(text: &str) -> Option<ZCodeLiveQuota> {
    parse_zcode_quota(parse(text).as_ref())
}

fn sample(timestamp: i64, used: f64, reset_at: i64) -> Sample {
    Sample { timestamp, used_bits: used.to_bits(), reset_at }
}

fn limit(percentage: f64, used_units: i64, limit_units: i64, reset: i64) -> ZCodeLiveLimit {
    ZCodeLiveLimit {
        percentage_bits: percentage.to_bits(),
        used_units,
        limit_units,
        reset_at_unix_seconds: reset,
    }
}

#[test]
fn zcode_persisted_history_round_trips_with_units() {
    let stored = persisted_zcode_history_json(
        &vec![sample(123, 18.0, 456)],
        &vec![sample(789, 24.0, 0)],
        ZCodeUnits { five_hour_used: 285, five_hour_limit: 12000, week_used: 16311, week_limit: 60000 },
    );
    let text = to_value(&stored).to_string();
    let (five_hour, seven_day, units) = parse_persisted_zcode_history(parse(&text).as_ref());

    assert_eq!(five_hour.len(), 1);
    assert_eq!(five_hour[0].timestamp, 123);
    assert_eq!(five_hour[0].reset_at, 456);
    assert_eq!(seven_day.len(), 1);
    assert_eq!(f64::from_bits(seven_day[0].used_bits), 24.0);
    assert_eq!(units.five_hour_used, 285);
    assert_eq!(units.five_hour_limit, 12000);
    assert_eq!(units.week_used, 16311);
    assert_eq!(units.week_limit, 60000);
}

#[test]
fn zcode_quota_response_maps_windows_and_credits() {
    let data = r#"{"code":200,"msg":"Operation successful","data":{"limits":[
        {"type":"CREDIT_LIMIT","unit":3,"number":5,"usage":12000,"currentValue":1645,"remaining":10354,"percentage":13,"nextResetTime":1789540647386},
        {"type":"CREDIT_LIMIT","unit":6,"number":1,"usage":60000,"currentValue":13667,"remaining":46332,"percentage":22,"nextResetTime":1790096970983}
    ],"level":"pro"},"success":true}"#;

    let quota = quota_of(data).expect("quota");

    assert_eq!(quota.five_hour.used_units, 1645);
    assert_eq!(quota.five_hour.limit_units, 12000);
    assert_eq!(f64::from_bits(quota.five_hour.percentage_bits), 13.0);
    assert_eq!(quota.five_hour.reset_at_unix_seconds, 1_789_540_647);
    assert_eq!(quota.week.used_units, 13667);
    assert_eq!(quota.week.limit_units, 60000);
    assert_eq!(f64::from_bits(quota.week.percentage_bits), 22.0);
    assert_eq!(quota.week.reset_at_unix_seconds, 1_790_096_970);
}

#[test]
fn zcode_quota_response_with_unknown_units_falls_back_to_pool_size() {
    let data = r#"{"code":200,"data":{"limits":[
        {"type":"CREDIT_LIMIT","unit":9,"number":4,"usage":60000,"currentValue":1,"remaining":59999,"percentage":1,"nextResetTime":2000000},
        {"type":"CREDIT_LIMIT","unit":9,"number":2,"usage":12000,"currentValue":2,"remaining":11998,"percentage":2,"nextResetTime":3000000}
    ]}}"#;

    let quota = quota_of(data).expect("quota");

    // The smaller pool is treated as the five-hour window.
    assert_eq!(quota.five_hour.used_units, 2);
    assert_eq!(quota.week.used_units, 1);
}

#[test]
fn zcode_quota_garbage_is_rejected() {
    assert!(quota_of("not json").is_none());
    assert!(quota_of(r#"{"code":200,"data":{"limits":[]}}"#).is_none());
}

#[test]
fn a_quota_with_only_five_hour_pools_has_no_week() {
    let data = r#"{"data":{"limits":[
        {"number":5,"usage":100,"currentValue":1,"percentage":1,"nextResetTime":1000}
    ]}}"#;

    assert!(quota_of(data).is_none());
}

#[test]
fn a_pool_missing_a_field_is_skipped() {
    let data = r#"{"data":{"limits":[
        {"number":5,"usage":100,"currentValue":1,"nextResetTime":1000},
        {"number":1,"usage":500,"currentValue":7,"percentage":3,"nextResetTime":-1999},
        {"number":2,"usage":900,"currentValue":8,"percentage":4.5,"nextResetTime":5000}
    ]}}"#;

    let quota = quota_of(data).expect("quota");

    // no complete five-hour pool: the smallest complete pool stands in
    assert_eq!(quota.five_hour.limit_units, 500);
    assert_eq!(quota.five_hour.reset_at_unix_seconds, -1);
    assert_eq!(quota.week.limit_units, 900);
    assert_eq!(f64::from_bits(quota.week.percentage_bits), 4.5);
}

#[test]
fn the_week_is_the_largest_pool_that_is_not_the_five_hour_one() {
    let data = r#"{"data":{"limits":[
        {"number":1,"usage":70000,"currentValue":1,"percentage":1,"nextResetTime":1000},
        {"number":5,"usage":90000,"currentValue":2,"percentage":2,"nextResetTime":1000},
        {"number":3,"usage":30000,"currentValue":3,"percentage":3,"nextResetTime":1000}
    ]}}"#;

    let quota = quota_of(data).expect("quota");

    assert_eq!(quota.five_hour.used_units, 2);
    assert_eq!(quota.week.used_units, 1);
}

#[test]
fn a_fresh_answer_is_what_the_widget_shows() {
    let now = 1_000_000;
    let quota = ZCodeLiveQuota {
        five_hour: limit(13.0, 1645, 12000, now + 3_600),
        week: limit(22.0, 13667, 60000, now + 86_400),
    };

    let (usage, five_hour, seven_day, units) = zcode_usage_from_quota(
        quota,
        vec![sample(now - 600, 10.0, 1), sample(now - 20_000, 5.0, 1)],
        vec![sample(now - 600, 20.0, 2)],
        now,
    );

    assert_eq!(usage.five_hour.available, 1);
    assert_eq!(f64::from_bits(usage.five_hour.used_percentage_bits), 13.0);
    assert_eq!(usage.five_hour.reset_at_unix_seconds, now + 3_600);
    assert_eq!(usage.five_hour.history.len(), 2);
    assert_eq!(f64::from_bits(usage.seven_day.used_percentage_bits), 22.0);
    assert_eq!(usage.seven_day.history.len(), 2);
    assert_eq!(usage.next_reset_at, now + 3_600);
    assert_eq!(usage.five_hour_used_units, 1645);
    assert_eq!(usage.seven_day_limit_units, 60000);
    assert_eq!(five_hour.iter().map(|s| s.timestamp).collect::<Vec<_>>(), vec![now - 600, now]);
    assert_eq!(seven_day.len(), 2);
    assert_eq!(units.week_used, 13667);
}

#[test]
fn the_stored_answer_stays_until_it_goes_stale() {
    let now = 1_000_000;
    let units = ZCodeUnits { five_hour_used: 1, five_hour_limit: 2, week_used: 3, week_limit: 4 };

    let fresh = zcode_usage_from_store(
        vec![sample(now - 60, 40.0, now + 100)],
        vec![sample(now - 60, 50.0, now + 200)],
        units,
        now,
    );
    assert_eq!(fresh.five_hour.available, 1);
    assert_eq!(fresh.seven_day.available, 1);
    assert_eq!(fresh.next_reset_at, now + 100);
    assert_eq!(fresh.seven_day_limit_units, 4);

    let stale = zcode_usage_from_store(
        vec![sample(now - ZCODE_FRESH_MAX_AGE_SECS as i64 - 1, 40.0, now + 100)],
        vec![sample(now - ZCODE_FRESH_MAX_AGE_SECS as i64 - 1, 50.0, now + 200)],
        units,
        now,
    );
    assert_eq!(stale.five_hour.available, 0);
    // the weekly window stays fresh for six hours
    assert_eq!(stale.seven_day.available, 1);
    assert_eq!(stale.next_reset_at, now + 100);

    let empty = zcode_usage_from_store(Vec::new(), Vec::new(), ZCodeUnits::default(), now);
    assert_eq!(empty.next_reset_at, 0);
    assert_eq!(empty.five_hour.available, 0);
}

#[test]
fn a_store_without_units_reads_zero_units() {
    let (five_hour, seven_day, units) = parse_persisted_zcode_history(
        parse(r#"{"version":2,"five_hour":[{"timestamp":5,"used":1.5}],"seven_day":"none"}"#).as_ref(),
    );

    assert_eq!(five_hour.len(), 1);
    assert_eq!(five_hour[0].reset_at, 0);
    assert!(seven_day.is_empty());
    assert_eq!(units, ZCodeUnits::default());

    let (five_hour, seven_day, units) = parse_persisted_zcode_history(parse("not json").as_ref());
    assert!(five_hour.is_empty() && seven_day.is_empty());
    assert_eq!(units, ZCodeUnits::default());
}

#[test]
fn the_api_key_is_trimmed_and_falls_back_to_the_start_plan() {
    let config = parse(
        r#"{"provider": {
            "builtin:zai-coding-plan": {"options": {"apiKey": " \t\u00a0 "}},
            "builtin:zai-start-plan": {"options": {"apiKey": "\n start-key \u3000"}}}}"#,
    );
    assert_eq!(zcode_api_key_from_config(config.as_ref()).as_deref(), Some("start-key"));

    let config = parse(
        r#"{"provider": {"builtin:zai-coding-plan": {"options": {"apiKey": "  coding key  "}}}}"#,
    );
    assert_eq!(zcode_api_key_from_config(config.as_ref()).as_deref(), Some("coding key"));
}

#[test]
fn a_missing_provider_step_gives_no_api_key() {
    let coding_missing = parse(
        r#"{"provider": {"builtin:zai-start-plan": {"options": {"apiKey": "start-key"}}}}"#,
    );
    assert_eq!(zcode_api_key_from_config(coding_missing.as_ref()), None);

    let start_missing = parse(
        r#"{"provider": {"builtin:zai-coding-plan": {"options": {"apiKey": ""}}}}"#,
    );
    assert_eq!(zcode_api_key_from_config(start_missing.as_ref()), None);

    let not_a_string = parse(
        r#"{"provider": {"builtin:zai-coding-plan": {"options": {"apiKey": 42}}}}"#,
    );
    assert_eq!(zcode_api_key_from_config(not_a_string.as_ref()), None);
    assert_eq!(zcode_api_key_from_config(None), None);
}

#[test]
fn trimming_removes_unicode_white_space_at_both_ends_only() {
    assert_eq!(trim("  a b  "), "a b");
    assert_eq!(trim("\u{2003}x\u{205f}"), "x");
    assert_eq!(trim("\u{200b}x"), "\u{200b}x");
    assert_eq!(trim(" \t\r\n"), "");
    assert_eq!(trim(""), "");
    assert_eq!(trim("é ü"), "é ü");
}
