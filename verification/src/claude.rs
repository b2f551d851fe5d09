//! Usage of the Anthropic desktop app: the history it keeps, and the rate-limit state it
//! leaves in its local storage (a LevelDB database).

use vstd::prelude::*;
use crate::float_bits::{f64_bits_to_i64, spec_f64_bits_to_i64};
use crate::json::{deref_json, get_array, get_f64, get_i64, json_get, Json};
use crate::metric::{
    recent_metric, UsageCoreMetric, CLAUDE_FIVE_HOUR_WINDOW_SECS, CLAUDE_HISTORY_MAX_AGE_SECS,
};
use crate::samples::{saturating_sub, spec_saturating_sub, Sample, CODEX_HISTORY_WINDOW_SECS};
use crate::zcode::{lemma_filter_map_keeps, millis_to_seconds, shows_if_recent, trunc_div};

verus! {

/// Seconds for which the Anthropic app's rate-limit state counts as fresh.
pub const CLAUDE_RATE_LIMIT_MAX_AGE_SECS: u64 = 1200;

/// One LevelDB record, as far as the logic reads it.
#[derive(Debug)]
pub struct StorageRecord {
    /// The record's value bytes.
    pub value: Vec<u8>,
    /// The global sequence number that orders the write.
    pub seq: u64,
    /// Whether the record is a deletion tombstone.
    pub deleted: bool,
}

/// The records (value, sequence number, tombstone) that leveldb-core's
/// `parse_table_bytes` reads from an SSTable's bytes; `None` where it reports
/// an error.
pub uninterp spec fn leveldb_table_records(data: Seq<u8>) -> Option<Seq<(Seq<u8>, u64, bool)>>;

/// The records (value, sequence number, tombstone) that leveldb-core's
/// `parse_log_bytes` reads from a write-ahead log's bytes; `None` where it
/// reports an error.
pub uninterp spec fn leveldb_log_records(data: Seq<u8>) -> Option<Seq<(Seq<u8>, u64, bool)>>;

/// The plain view of a record.
pub open spec fn record_view(r: StorageRecord) -> (Seq<u8>, u64, bool) {
    (r.value@, r.seq, r.deleted)
}

/// `records` are the records `read` names, in order.
pub open spec fn records_match(records: Seq<StorageRecord>, read: Seq<(Seq<u8>, u64, bool)>) -> bool {
    records.len() == read.len() && forall|i: int| 0 <= i < read.len() ==> record_view(#[trigger] records[i]) == read[i]
}

/// Calls leveldb-core's `parse_table_bytes` and keeps each record's value,
/// sequence number and tombstone flag. Claimed: the result is
/// [`leveldb_table_records`] of the bytes, record for record. The origin path
/// that the crate takes only labels the records and errors, so an empty one is
/// given.
#[verifier::external_body]
fn parse_table(data: &[u8]) -> (res: Option<Vec<StorageRecord>>)
    ensures
        match (res, leveldb_table_records(data@)) {
            (Some(records), Some(read)) => records_match(records@, read),
            (None, None) => true,
            _ => false,
        },
{
    match leveldb_core::parse_table_bytes(data, std::path::Path::new("")) {
        Ok(records) => Some(records.into_iter().map(|r| StorageRecord { value: r.value, seq: r.seq, deleted: r.deleted }).collect()),
        Err(_) => None,
    }
}

/// Calls leveldb-core's `parse_log_bytes` and keeps each record's value,
/// sequence number and tombstone flag. Claimed: the result is
/// [`leveldb_log_records`] of the bytes, record for record, and the crate's
/// log reader does not fail (it skips damaged records). The origin path only
/// labels the records, so an empty one is given.
#[verifier::external_body]
fn parse_log(data: &[u8]) -> (res: Option<Vec<StorageRecord>>)
    ensures
        res is Some,
        match (res, leveldb_log_records(data@)) {
            (Some(records), Some(read)) => records_match(records@, read),
            (None, None) => true,
            _ => false,
        },
{
    match leveldb_core::parse_log_bytes(data, std::path::Path::new("")) {
        Ok(records) => Some(records.into_iter().map(|r| StorageRecord { value: r.value, seq: r.seq, deleted: r.deleted }).collect()),
        Err(_) => None,
    }
}

/// The records of one local-storage file: a write-ahead log where `is_log`,
/// else an SSTable; none where the file cannot be read as one.
pub open spec fn file_records(data: Seq<u8>, is_log: bool) -> Seq<(Seq<u8>, u64, bool)> {
    match (if is_log { leveldb_log_records(data) } else { leveldb_table_records(data) }) {
        Some(read) => read,
        None => Seq::empty(),
    }
}

/// Reads the records of one local-storage file (see [`file_records`]).
pub fn storage_records(data: &[u8], is_log: bool) -> (res: Vec<StorageRecord>)
    ensures
        records_match(res@, file_records(data@, is_log)),
{
    let parsed = if is_log { parse_log(data) } else { parse_table(data) };
    match parsed {
        Some(records) => records,
        None => Vec::new(),
    }
}

/// Where a record's JSON state starts: the first `{` of its value.
pub fn json_start(value: &Vec<u8>) -> (res: Option<usize>)
    ensures
        match res {
            Some(i) => i < value@.len() && value@[i as int] == 0x7bu8 && forall|j: int| 0 <= j < i ==> value@[j] != 0x7bu8,
            None => forall|j: int| 0 <= j < value@.len() ==> value@[j] != 0x7bu8,
        },
{
    let mut i: usize = 0;
    while i < value.len()
        invariant
            i <= value.len(),
            forall|j: int| 0 <= j < i ==> value@[j] != 0x7bu8,
        decreases value.len() - i,
    {
        if value[i] == 0x7bu8 {
            return Some(i);
        }
        i = i + 1;
    }
    None
}

/// The next reset that one record's rate-limit state announces, with the
/// record's sequence number: the state is the record's value from its first
/// `{` read as JSON (`None` where there is none or it is not JSON). It counts
/// for a live record whose state has an integer `resetsAt` after `now`, a
/// number `observedAt` (converted to whole seconds as Rust's `as` does) after
/// the epoch and at most [`CLAUDE_RATE_LIMIT_MAX_AGE_SECS`] before `now`, and a
/// number `utilization`.
pub open spec fn spec_claude_reset(deleted: bool, seq: u64, state: Option<Json>, now: i64) -> Option<(u64, i64)> {
    if deleted {
        None
    } else {
        match state {
            None => None,
            Some(v) => match (get_i64(v, "resetsAt"@), get_f64(v, "observedAt"@), get_f64(v, "utilization"@)) {
                (Some(reset_at), Some(observed_bits), Some(_)) => {
                    let observed_at = spec_f64_bits_to_i64(observed_bits);
                    if reset_at <= now || observed_at <= 0 || spec_saturating_sub(now, observed_at)
                        > CLAUDE_RATE_LIMIT_MAX_AGE_SECS as i64 {
                        None
                    } else {
                        Some((seq, reset_at))
                    }
                },
                _ => None,
            },
        }
    }
}

/// The next reset one record announces (see [`spec_claude_reset`]).
pub fn claude_reset_from_record(record: &StorageRecord, state: Option<&Json>, now: i64) -> (res: Option<(u64, i64)>)
    ensures
        res == spec_claude_reset(record.deleted, record.seq, deref_json(state), now),
{
    if record.deleted {
        return None;
    }
    let v = match state {
        Some(v) => v,
        None => return None,
    };
    match (v.get_i64("resetsAt"), v.get_f64_bits("observedAt"), v.get_f64_bits("utilization")) {
        (Some(reset_at), Some(observed_bits), Some(_)) => {
            let observed_at = f64_bits_to_i64(observed_bits);
            if reset_at <= now || observed_at <= 0 || saturating_sub(now, observed_at)
                > CLAUDE_RATE_LIMIT_MAX_AGE_SECS as i64 {
                None
            } else {
                Some((record.seq, reset_at))
            }
        },
        _ => None,
    }
}

/// The reset announced by the newest record (highest sequence number, the
/// first given of equal ones) among the candidates, `None` where there is none.
pub open spec fn newest_candidate(candidates: Seq<Option<(u64, i64)>>) -> Option<(u64, i64)>
    decreases candidates.len(),
{
    if candidates.len() == 0 {
        None
    } else {
        let rest = newest_candidate(candidates.drop_last());
        match candidates.last() {
            Some(c) => match rest {
                Some(current) => if c.0 > current.0 { Some(c) } else { Some(current) },
                None => Some(c),
            },
            None => rest,
        }
    }
}

/// The next reset of the Anthropic app from the records' candidates, in the order the files
/// and their records were read: that of the newest (see
/// [`newest_candidate`]), `0` where there is none.
pub fn claude_next_reset(candidates: &Vec<Option<(u64, i64)>>) -> (res: i64)
    ensures
        res == (match newest_candidate(candidates@) {
            Some(c) => c.1,
            None => 0,
        }),
        // no candidate is newer than the one chosen
        newest_candidate(candidates@) matches Some(c) ==> forall|i: int|
            0 <= i < candidates@.len() && (#[trigger] candidates@[i]) is Some ==> candidates@[i].unwrap().0 <= c.0,
{
    let mut newest: Option<(u64, i64)> = None;
    let mut i: usize = 0;
    while i < candidates.len()
        invariant
            i <= candidates.len(),
            newest == newest_candidate(candidates@.take(i as int)),
            newest matches Some(c) ==> forall|k: int|
                0 <= k < i && (#[trigger] candidates@[k]) is Some ==> candidates@[k].unwrap().0 <= c.0,
            newest is None ==> forall|k: int| 0 <= k < i ==> (#[trigger] candidates@[k]) is None,
        decreases candidates.len() - i,
    {
        assert(candidates@.take(i as int + 1).drop_last() =~= candidates@.take(i as int));
        assert(candidates@.take(i as int + 1).last() == candidates@[i as int]);
        if let Some(candidate) = candidates[i] {
            let replace = match newest {
                Some(current) => candidate.0 > current.0,
                None => true,
            };
            if replace {
                newest = Some(candidate);
            }
        }
        i = i + 1;
    }
    assert(candidates@.take(candidates@.len() as int) =~= candidates@);
    match newest {
        Some(c) => c.1,
        None => 0,
    }
}

/// The Unix seconds of a history entry: its integer `t` (milliseconds, `0`
/// where missing) in whole seconds, rounded toward zero.
pub open spec fn entry_seconds(entry: Json) -> i64 {
    trunc_div(match get_i64(entry, "t"@) {
        Some(t) => t as int,
        None => 0,
    }, 1000) as i64
}

/// The sample of one history entry for the window stored under `key` in its
/// usage object `u`, where the entry lies after the epoch.
pub open spec fn history_entry(entry: Json, key: Seq<char>) -> Option<Sample> {
    let timestamp = entry_seconds(entry);
    if timestamp <= 0 {
        None
    } else {
        match json_get(entry, "u"@) {
            Some(usage) => match get_f64(usage, key) {
                Some(used) => Some(Sample { timestamp, used_bits: used, reset_at: 0 }),
                None => None,
            },
            None => None,
        }
    }
}

/// The five-hour samples of one history entry.
pub open spec fn five_hour_entry_fn() -> spec_fn(Json) -> Option<Sample> {
    |e: Json| history_entry(e, "fh"@)
}

/// The seven-day samples of one history entry.
pub open spec fn seven_day_entry_fn() -> spec_fn(Json) -> Option<Sample> {
    |e: Json| history_entry(e, "sd"@)
}

/// The entries of the Anthropic app's usage history: the `samples` array.
pub open spec fn history_entries(document: Option<Json>) -> Seq<Json> {
    match document {
        Some(root) => match get_array(root, "samples"@) {
            Some(entries) => entries,
            None => Seq::empty(),
        },
        None => Seq::empty(),
    }
}

/// The sample of one entry for the window stored under `key`.
fn entry_sample(entry: &Json, key: &str) -> (res: Option<Sample>)
    ensures
        res == history_entry(*entry, key@),
{
    let t = match entry.get_i64("t") {
        Some(t) => t,
        None => 0,
    };
    let timestamp = millis_to_seconds(t);
    if timestamp <= 0 {
        return None;
    }
    match entry.get("u") {
        Some(usage) => match usage.get_f64_bits(key) {
            Some(used) => Some(Sample { timestamp, used_bits: used, reset_at: 0 }),
            None => None,
        },
        None => None,
    }
}

/// The five-hour and seven-day samples of the Anthropic app's usage history
/// (`document` is the history file read as JSON, `None` where it could not be
/// read or was not JSON).
pub fn claude_history_samples(document: Option<&Json>) -> (res: (Vec<Sample>, Vec<Sample>))
    ensures
        res.0@ == history_entries(deref_json(document)).filter_map(five_hour_entry_fn()),
        res.1@ == history_entries(deref_json(document)).filter_map(seven_day_entry_fn()),
{
    let mut five_hour: Vec<Sample> = Vec::new();
    let mut seven_day: Vec<Sample> = Vec::new();
    let entries = match document {
        Some(root) => match root.get_array("samples") {
            Some(entries) => entries,
            None => return (five_hour, seven_day),
        },
        None => return (five_hour, seven_day),
    };
    let ghost f = five_hour_entry_fn();
    let ghost g = seven_day_entry_fn();
    let mut i: usize = 0;
    while i < entries.len()
        invariant
            f == five_hour_entry_fn(),
            g == seven_day_entry_fn(),
            i <= entries.len(),
            five_hour@ == entries@.take(i as int).filter_map(f),
            seven_day@ == entries@.take(i as int).filter_map(g),
        decreases entries.len() - i,
    {
        proof {
            entries@.lemma_filter_map_take_succ(f, i as int);
            entries@.lemma_filter_map_take_succ(g, i as int);
        }
        if let Some(s) = entry_sample(&entries[i], "fh") {
            five_hour.push(s);
        }
        if let Some(s) = entry_sample(&entries[i], "sd") {
            seven_day.push(s);
        }
        i = i + 1;
    }
    assert(entries@.take(entries@.len() as int) =~= entries@);
    (five_hour, seven_day)
}

/// The Anthropic app's five-hour and seven-day metrics from its usage history: each shown
/// while its newest sample is at most [`CLAUDE_HISTORY_MAX_AGE_SECS`] old.
pub fn claude_metrics(document: Option<&Json>, now: i64) -> (res: (UsageCoreMetric, UsageCoreMetric))
    ensures
        shows_if_recent(res.0, history_entries(deref_json(document)).filter_map(five_hour_entry_fn()), CLAUDE_FIVE_HOUR_WINDOW_SECS, now, CLAUDE_HISTORY_MAX_AGE_SECS),
        shows_if_recent(res.1, history_entries(deref_json(document)).filter_map(seven_day_entry_fn()), CODEX_HISTORY_WINDOW_SECS, now, CLAUDE_HISTORY_MAX_AGE_SECS),
{
    let (five_hour, seven_day) = claude_history_samples(document);
    (
        recent_metric(five_hour, CLAUDE_FIVE_HOUR_WINDOW_SECS, now, CLAUDE_HISTORY_MAX_AGE_SECS),
        recent_metric(seven_day, CODEX_HISTORY_WINDOW_SECS, now, CLAUDE_HISTORY_MAX_AGE_SECS),
    )
}

/// Every entry of the usage history is read with its value as given, whatever
/// the number (0 included): an entry with an integer `t` of at least 1000
/// (milliseconds) and a number under `fh` (five hours, where `five_hour`) or
/// `sd` (seven days) in its `u` object gives a sample of that window at `t` in
/// whole seconds holding exactly that number.
pub proof fn lemma_history_entry_read_as_given(document: Option<Json>, k: int, five_hour: bool)
    requires
        0 <= k < history_entries(document).len(),
        get_i64(history_entries(document)[k], "t"@) is Some,
        get_i64(history_entries(document)[k], "t"@)->0 >= 1000,
        json_get(history_entries(document)[k], "u"@) is Some,
        get_f64(json_get(history_entries(document)[k], "u"@)->0, if five_hour { "fh"@ } else { "sd"@ }) is Some,
    ensures
        history_entries(document).filter_map(if five_hour { five_hour_entry_fn() } else { seven_day_entry_fn() }).contains(
            Sample {
                timestamp: (get_i64(history_entries(document)[k], "t"@)->0 / 1000) as i64,
                used_bits: get_f64(json_get(history_entries(document)[k], "u"@)->0, if five_hour { "fh"@ } else { "sd"@ })->0,
                reset_at: 0,
            },
        ),
{
    let entries = history_entries(document);
    let f = if five_hour { five_hour_entry_fn() } else { seven_day_entry_fn() };
    let t = get_i64(entries[k], "t"@)->0;
    assert(t / 1000 >= 1);
    assert(t / 1000 <= t);
    lemma_filter_map_keeps(entries, f, k);
}

} // verus!
