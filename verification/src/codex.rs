//! Codex rate-limit readings: where they sit in a session event or in the
//! app-server's answer, and which of them is the weekly window.

use vstd::prelude::*;
use crate::json::{deref_json, get_f64, json_f64, json_get, json_i64, json_str, Json};

verus! {

/// Seconds since the Unix epoch of an RFC 3339 date-time as chrono's
/// `DateTime::parse_from_rfc3339` reads it, `None` where it rejects the text.
pub uninterp spec fn rfc3339_seconds(text: Seq<char>) -> Option<i64>;

/// Calls chrono's `DateTime::parse_from_rfc3339` and takes the instant's Unix
/// seconds (`DateTime::timestamp`). Claimed: the result is
/// [`rfc3339_seconds`] of the text, a function of the text alone; nothing more
/// is stated of it.
#[verifier::external_body]
fn parse_rfc3339(text: &str) -> (res: Option<i64>)
    ensures
        res == rfc3339_seconds(text@),
{
    match chrono::DateTime::parse_from_rfc3339(text) {
        Ok(time) => Some(time.timestamp()),
        Err(_) => None,
    }
}

/// The Unix seconds of a date-time string value, `0` where there is no string
/// or it is not an RFC 3339 date-time.
pub open spec fn rfc3339_value(value: Option<Json>) -> i64 {
    match value {
        Some(v) => match json_str(v) {
            Some(text) => match rfc3339_seconds(text) {
                Some(t) => t,
                None => 0,
            },
            None => 0,
        },
        None => 0,
    }
}

/// The Unix seconds of a date-time string value (see [`rfc3339_value`]).
pub fn parse_rfc3339_seconds(value: Option<&Json>) -> (res: i64)
    ensures
        res == rfc3339_value(deref_json(value)),
{
    match value {
        Some(v) => match v.as_str() {
            Some(text) => match parse_rfc3339(text.as_str()) {
                Some(t) => t,
                None => 0,
            },
            None => 0,
        },
        None => 0,
    }
}

/// The first rate-limit block of a value: its own `rate_limits` member, else
/// the first found, depth first, among its members' values (in order) or its
/// elements.
pub open spec fn spec_find_rate_limits(v: Json) -> Option<Json>
    decreases v, 0int,
{
    match json_get(v, "rate_limits"@) {
        Some(found) => Some(found),
        None => match v {
            Json::Object(members) => find_in_members(members@, 0),
            Json::Array(items) => find_in_items(items@, 0),
            _ => None,
        },
    }
}

/// The first rate-limit block among the values of members `i..`.
pub open spec fn find_in_members(members: Seq<(String, Json)>, i: int) -> Option<Json>
    decreases members, members.len() - i,
{
    if 0 <= i < members.len() {
        match spec_find_rate_limits(members[i].1) {
            Some(found) => Some(found),
            None => find_in_members(members, i + 1),
        }
    } else {
        None
    }
}

/// The first rate-limit block among elements `i..`.
pub open spec fn find_in_items(items: Seq<Json>, i: int) -> Option<Json>
    decreases items, items.len() - i,
{
    if 0 <= i < items.len() {
        match spec_find_rate_limits(items[i]) {
            Some(found) => Some(found),
            None => find_in_items(items, i + 1),
        }
    } else {
        None
    }
}

/// The first rate-limit block of a value (see [`spec_find_rate_limits`]).
pub fn find_rate_limits(value: &Json) -> (res: Option<&Json>)
    ensures
        deref_json(res) == spec_find_rate_limits(*value),
    decreases *value,
{
    if let Some(found) = value.get("rate_limits") {
        return Some(found);
    }
    match value {
        Json::Object(members) => {
            let mut i: usize = 0;
            while i < members.len()
                invariant
                    *value == Json::Object(*members),
                    i <= members.len(),
                    spec_find_rate_limits(*value) == find_in_members(members@, i as int),
                decreases members.len() - i,
            {
                proof {
                    assert(decreases_to!(*value => members@[i as int].1));
                }
                if let Some(found) = find_rate_limits(&members[i].1) {
                    return Some(found);
                }
                i = i + 1;
            }
            None
        },
        Json::Array(items) => {
            let mut i: usize = 0;
            while i < items.len()
                invariant
                    *value == Json::Array(*items),
                    i <= items.len(),
                    spec_find_rate_limits(*value) == find_in_items(items@, i as int),
                decreases items.len() - i,
            {
                proof {
                    assert(decreases_to!(*value => items@[i as int]));
                }
                if let Some(found) = find_rate_limits(&items[i]) {
                    return Some(found);
                }
                i = i + 1;
            }
            None
        },
        _ => None,
    }
}

/// Where a weekly percentage comes from.
#[derive(Clone, Copy, Debug, PartialEq, Eq, Structural)]
pub enum UsedPercent {
    /// The used percentage itself (bits of a double).
    Used(u64),
    /// The remaining percentage (bits of a double); the used one is 100 minus it.
    Remaining(u64),
}

/// A weekly rate-limit reading.
#[derive(Clone, Copy, Debug, PartialEq, Eq, Structural)]
pub struct WeeklyReading {
    /// When it was read (Unix seconds).
    pub timestamp: i64,
    /// The percentage as given.
    pub used: UsedPercent,
    /// When the week resets (Unix seconds), `0` where unknown.
    pub reset_at: i64,
}

/// Shortest weekly window, in minutes (six days).
pub const MIN_WEEKLY_WINDOW_MINUTES: i64 = 8640;

/// Longest weekly window, in minutes (eight days).
pub const MAX_WEEKLY_WINDOW_MINUTES: i64 = 11520;

/// Member `a`, or member `b` where there is no `a`.
pub open spec fn first_present(m: Json, a: Seq<char>, b: Seq<char>) -> Option<Json> {
    match json_get(m, a) {
        Some(x) => Some(x),
        None => json_get(m, b),
    }
}

/// The integer of member `a`, or of `b` where there is no `a`.
pub open spec fn first_present_i64(m: Json, a: Seq<char>, b: Seq<char>) -> Option<i64> {
    match first_present(m, a, b) {
        Some(x) => json_i64(x),
        None => None,
    }
}

/// The percentage of a window block: `used_percent` (or `usedPercent` where
/// that is absent) where it is a number, else `remaining_percent`.
pub open spec fn used_of(m: Json) -> Option<UsedPercent> {
    match (match first_present(m, "used_percent"@, "usedPercent"@) {
        Some(x) => json_f64(x),
        None => None,
    }) {
        Some(u) => Some(UsedPercent::Used(u)),
        None => match get_f64(m, "remaining_percent"@) {
            Some(r) => Some(UsedPercent::Remaining(r)),
            None => None,
        },
    }
}

/// The reset time of a window block: the integer `resets_at` (or `resetsAt`
/// where that is absent), else the RFC 3339 date-time `reset_at`, else `0`.
pub open spec fn reset_of(m: Json) -> i64 {
    match first_present_i64(m, "resets_at"@, "resetsAt"@) {
        Some(r) => r,
        None => rfc3339_value(json_get(m, "reset_at"@)),
    }
}

/// What one window block decides: `None` to look at the next block,
/// `Some(r)` to answer `r`. A block without a window length, or a weekly block
/// without a percentage, ends the search with nothing.
pub open spec fn weekly_in(rate_limits: Json, key: Seq<char>, timestamp: i64) -> Option<Option<WeeklyReading>> {
    match json_get(rate_limits, key) {
        None => None,
        Some(m) => match first_present_i64(m, "window_minutes"@, "windowDurationMins"@) {
            None => Some(None),
            Some(minutes) => if minutes < MIN_WEEKLY_WINDOW_MINUTES || minutes > MAX_WEEKLY_WINDOW_MINUTES {
                None
            } else {
                match used_of(m) {
                    None => Some(None),
                    Some(used) => Some(Some(WeeklyReading { timestamp, used, reset_at: reset_of(m) })),
                }
            },
        },
    }
}

/// The weekly reading of a rate-limit block: the `primary` window, else the
/// `secondary` one (see [`weekly_in`]).
pub open spec fn spec_extract_weekly(rate_limits: Json, timestamp: i64) -> Option<WeeklyReading> {
    match weekly_in(rate_limits, "primary"@, timestamp) {
        Some(r) => r,
        None => match weekly_in(rate_limits, "secondary"@, timestamp) {
            Some(r) => r,
            None => None,
        },
    }
}

/// Member `a`, or member `b` where there is no `a`.
fn first_present_exec<'a>(m: &'a Json, a: &str, b: &str) -> (res: Option<&'a Json>)
    ensures
        deref_json(res) == first_present(*m, a@, b@),
{
    match m.get(a) {
        Some(x) => Some(x),
        None => m.get(b),
    }
}

/// What one window block decides (see [`weekly_in`]).
fn weekly_in_exec(rate_limits: &Json, key: &str, timestamp: i64) -> (res: Option<Option<WeeklyReading>>)
    ensures
        res == weekly_in(*rate_limits, key@, timestamp),
{
    let m = match rate_limits.get(key) {
        None => return None,
        Some(m) => m,
    };
    let minutes = match first_present_exec(m, "window_minutes", "windowDurationMins") {
        Some(x) => x.as_i64(),
        None => None,
    };
    let minutes = match minutes {
        None => return Some(None),
        Some(minutes) => minutes,
    };
    if minutes < MIN_WEEKLY_WINDOW_MINUTES || minutes > MAX_WEEKLY_WINDOW_MINUTES {
        return None;
    }
    let used_direct = match first_present_exec(m, "used_percent", "usedPercent") {
        Some(x) => x.as_f64_bits(),
        None => None,
    };
    let used = match used_direct {
        Some(u) => UsedPercent::Used(u),
        None => match m.get_f64_bits("remaining_percent") {
            Some(r) => UsedPercent::Remaining(r),
            None => return Some(None),
        },
    };
    let reset_direct = match first_present_exec(m, "resets_at", "resetsAt") {
        Some(x) => x.as_i64(),
        None => None,
    };
    let reset_at = match reset_direct {
        Some(r) => r,
        None => parse_rfc3339_seconds(m.get("reset_at")),
    };
    Some(Some(WeeklyReading { timestamp, used, reset_at }))
}

/// The weekly reading of a rate-limit block (see [`spec_extract_weekly`]).
pub fn extract_weekly(rate_limits: &Json, timestamp: i64) -> (res: Option<WeeklyReading>)
    ensures
        res == spec_extract_weekly(*rate_limits, timestamp),
{
    match weekly_in_exec(rate_limits, "primary", timestamp) {
        Some(r) => r,
        None => match weekly_in_exec(rate_limits, "secondary", timestamp) {
            Some(r) => r,
            None => None,
        },
    }
}

/// The weekly reading of a session event: at the event's RFC 3339
/// `timestamp`, where that is after the epoch, from the first rate-limit block
/// of the event.
pub open spec fn spec_event_reading(event: Json) -> Option<WeeklyReading> {
    let timestamp = rfc3339_value(json_get(event, "timestamp"@));
    if timestamp <= 0 {
        None
    } else {
        match spec_find_rate_limits(event) {
            Some(rate_limits) => spec_extract_weekly(rate_limits, timestamp),
            None => None,
        }
    }
}

/// The weekly reading of one Codex session event (see [`spec_event_reading`]).
pub fn codex_reading_from_event(event: &Json) -> (res: Option<WeeklyReading>)
    ensures
        res == spec_event_reading(*event),
{
    let timestamp = parse_rfc3339_seconds(event.get("timestamp"));
    if timestamp <= 0 {
        return None;
    }
    match find_rate_limits(event) {
        Some(rate_limits) => extract_weekly(rate_limits, timestamp),
        None => None,
    }
}

/// The rate limits of the app-server's answer: those of the `codex` limit in
/// `rateLimitsByLimitId`, else `rateLimits`.
pub open spec fn spec_live_rate_limits(response: Json) -> Option<Json> {
    match (match json_get(response, "rateLimitsByLimitId"@) {
        Some(by_id) => json_get(by_id, "codex"@),
        None => None,
    }) {
        Some(limits) => Some(limits),
        None => json_get(response, "rateLimits"@),
    }
}

/// The weekly reading of the app-server's answer to a rate-limit request,
/// taken at `now`.
pub open spec fn spec_live_reading(response: Json, now: i64) -> Option<WeeklyReading> {
    match spec_live_rate_limits(response) {
        Some(limits) => spec_extract_weekly(limits, now),
        None => None,
    }
}

/// The weekly reading of the app-server's answer (see [`spec_live_reading`]).
pub fn codex_live_reading(response: &Json, now: i64) -> (res: Option<WeeklyReading>)
    ensures
        res == spec_live_reading(*response, now),
{
    let by_id = match response.get("rateLimitsByLimitId") {
        Some(by_id) => by_id.get("codex"),
        None => None,
    };
    let limits = match by_id {
        Some(limits) => Some(limits),
        None => response.get("rateLimits"),
    };
    match limits {
        Some(limits) => extract_weekly(limits, now),
        None => None,
    }
}

/// A weekly block's used percentage is read as given, whatever the number (0
/// included): where `rate_limits` has the block `key` (`primary`, or
/// `secondary` where there is no `primary`) whose window length
/// (`window_minutes`, else `windowDurationMins`) is an integer from
/// [`MIN_WEEKLY_WINDOW_MINUTES`] to [`MAX_WEEKLY_WINDOW_MINUTES`] and whose
/// `used_percent` (else `usedPercent`) is a number, the weekly reading is made
/// at `timestamp` and holds that number as the used percentage.
pub proof fn lemma_weekly_used_as_given(rate_limits: Json, key: Seq<char>, timestamp: i64)
    requires
        key == "primary"@ || (key == "secondary"@ && json_get(rate_limits, "primary"@) is None),
        json_get(rate_limits, key) is Some,
        first_present_i64(json_get(rate_limits, key)->0, "window_minutes"@, "windowDurationMins"@) is Some,
        MIN_WEEKLY_WINDOW_MINUTES <= first_present_i64(json_get(rate_limits, key)->0, "window_minutes"@, "windowDurationMins"@)->0,
        first_present_i64(json_get(rate_limits, key)->0, "window_minutes"@, "windowDurationMins"@)->0 <= MAX_WEEKLY_WINDOW_MINUTES,
        first_present(json_get(rate_limits, key)->0, "used_percent"@, "usedPercent"@) is Some,
        json_f64(first_present(json_get(rate_limits, key)->0, "used_percent"@, "usedPercent"@)->0) is Some,
    ensures
        spec_extract_weekly(rate_limits, timestamp) is Some,
        spec_extract_weekly(rate_limits, timestamp)->0.timestamp == timestamp,
        spec_extract_weekly(rate_limits, timestamp)->0.used == UsedPercent::Used(
            json_f64(first_present(json_get(rate_limits, key)->0, "used_percent"@, "usedPercent"@)->0)->0,
        ),
{
}

} // verus!
