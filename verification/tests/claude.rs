use serde_json::Value;
use usage_core::claude::{
    claude_history_samples, claude_metrics, claude_next_reset, claude_reset_from_record,
    json_start, storage_records, StorageRecord,
};
use usage_core::clock::{unix_now, unix_seconds};
use usage_core::files::{
    is_claude_package, is_local_storage_file, is_log_file, is_session_log, newest_first,
    tail_start, walk_continues, walk_entry, WalkAction, MAX_CLAUDE_LOCAL_STORAGE_FILE_BYTES,
    MAX_CODEX_DIRECTORY_ENTRIES, MAX_CODEX_FILE_TAIL_BYTES,
};
use usage_core::json::{Json, JsonNumber};

fn to_json(v: &Value) -> Json {
    match v {
        Value::Null => Json::Null,
        Value::Bool(b) => Json::Bool(*b),
        Value::Number(n) => Json::Number(JsonNumber {
            integer: n.as_i64(),
            float_bits: n.as_f64().map(f64::to_bits),
        }),
        Value::String(s) => Json::String(s.clone()),
        Value::Array(items) => Json::Array(items.iter().map(to_json).collect()),
        Value::Object(members) => {
            Json::Object(members.iter().map(|(k, v)| (k.clone(), to_json(v))).collect())
        }
    }
}

fn parse_bytes(bytes: &[u8]) -> Option<Json> {
    serde_json::from_slice::<Value>(bytes).ok().map(|v| to_json(&v))
}

/// The state a record holds: its value from the first `{`, read as JSON.
fn state_of(record: &StorageRecord) -> Option<Json> {
    json_start(&record.value).and_then(|start| parse_bytes(&record.value[start..]))
}

fn crc32c(data: &[u8]) -> u32 {
    let mut crc = !0u32;
    for &byte in data {
        crc ^= u32::from(byte);
        for _ in 0..8 {
            crc = if crc & 1 != 0 { (crc >> 1) ^ 0x82f6_3b78 } else { crc >> 1 };
        }
    }
    !crc
}

/// A write-ahead log holding one batch of puts, starting at sequence `seq`.
fn log_with_puts(seq: u64, puts: &[(&[u8], &[u8])]) -> Vec<u8> {
    let mut batch = Vec::new();
    batch.extend_from_slice(&seq.to_le_bytes());
    batch.extend_from_slice(&(puts.len() as u32).to_le_bytes());
    for (key, value) in puts {
        batch.push(1);
        batch.push(key.len() as u8);
        batch.extend_from_slice(key);
        batch.push(value.len() as u8);
        batch.extend_from_slice(value);
    }
    let mut checked = vec![1u8];
    checked.extend_from_slice(&batch);
    let crc = crc32c(&checked).rotate_left(17).wrapping_add(0xa282_ead8);
    let mut log = Vec::new();
    log.extend_from_slice(&crc.to_le_bytes());
    log.extend_from_slice(&(batch.len() as u16).to_le_bytes());
    log.push(1);
    log.extend_from_slice(&batch);
    log
}

/// A block body of prefix-free entries with one restart point.
fn block(entries: &[(Vec<u8>, Vec<u8>)]) -> Vec<u8> {
    let mut body = Vec::new();
    for (key, value) in entries {
        body.push(0);
        body.push(key.len() as u8);
        body.push(value.len() as u8);
        body.extend_from_slice(key);
        body.extend_from_slice(value);
    }
    body.extend_from_slice(&0u32.to_le_bytes());
    body.extend_from_slice(&1u32.to_le_bytes());
    body
}

/// Appends an uncompressed block with its checksummed trailer; gives its
/// offset and size.
fn append_block(table: &mut Vec<u8>, body: &[u8]) -> (u8, u8) {
    let offset = table.len() as u8;
    table.extend_from_slice(body);
    let mut checked = body.to_vec();
    checked.push(0);
    let crc = crc32c(&checked).rotate_left(17).wrapping_add(0xa282_ead8);
    table.push(0);
    table.extend_from_slice(&crc.to_le_bytes());
    (offset, body.len() as u8)
}

/// An SSTable with one data block holding `value` under `key` at `seq`.
fn table_with_value(key: &[u8], seq: u64, value: &[u8]) -> Vec<u8> {
    let mut internal = key.to_vec();
    internal.extend_from_slice(&((seq << 8) | 1).to_le_bytes());
    let mut table = Vec::new();
    let (data_offset, data_size) = append_block(&mut table, &block(&[(internal, value.to_vec())]));
    let (index_offset, index_size) =
        append_block(&mut table, &block(&[(b"~".to_vec(), vec![data_offset, data_size])]));
    let mut footer = vec![0, 0, index_offset, index_size];
    footer.resize(40, 0);
    footer.extend_from_slice(&0xdb47_7524_8b80_fb57u64.to_le_bytes());
    table.extend_from_slice(&footer);
    table
}

#[test]
fn claude_reset_requires_fresh_usage_state() {
    let record = StorageRecord {
        value: b"\x01{\"resetsAt\":2000,\"utilization\":0.23,\"observedAt\":1500}".to_vec(),
        seq: 42,
        deleted: false,
    };
    let state = state_of(&record);

    assert_eq!(claude_reset_from_record(&record, state.as_ref(), 1_600), Some((42, 2_000)));
    assert_eq!(claude_reset_from_record(&record, state.as_ref(), 3_000), None);
}

#[test]
fn claude_reset_rejects_old_observations_tombstones_and_partial_state() {
    let record = StorageRecord {
        value: b"{\"resetsAt\":5000,\"utilization\":1,\"observedAt\":1000.9}".to_vec(),
        seq: 7,
        deleted: false,
    };
    let state = state_of(&record);
    assert_eq!(claude_reset_from_record(&record, state.as_ref(), 2_200), Some((7, 5_000)));
    assert_eq!(claude_reset_from_record(&record, state.as_ref(), 2_201), None);

    let tombstone = StorageRecord { value: record.value.clone(), seq: 8, deleted: true };
    assert_eq!(claude_reset_from_record(&tombstone, state.as_ref(), 2_000), None);

    let partial = StorageRecord {
        value: b"{\"resetsAt\":5000,\"observedAt\":1000}".to_vec(),
        seq: 9,
        deleted: false,
    };
    assert_eq!(claude_reset_from_record(&partial, state_of(&partial).as_ref(), 2_000), None);

    let no_json = StorageRecord { value: b"\x01plain".to_vec(), seq: 10, deleted: false };
    assert_eq!(json_start(&no_json.value), None);
    assert_eq!(claude_reset_from_record(&no_json, state_of(&no_json).as_ref(), 2_000), None);
}

#[test]
fn the_newest_record_decides_the_next_claude_reset() {
    assert_eq!(claude_next_reset(&vec![None, Some((3, 300)), Some((9, 900)), Some((5, 500))]), 900);
    assert_eq!(claude_next_reset(&vec![Some((9, 1)), Some((9, 2))]), 1);
    assert_eq!(claude_next_reset(&vec![None, None]), 0);
    assert_eq!(claude_next_reset(&Vec::new()), 0);
}

#[test]
fn local_storage_logs_are_read_record_by_record() {
    let value: &[u8] = b"\x01{\"resetsAt\":2000,\"utilization\":0.5,\"observedAt\":1500}";
    let log = log_with_puts(100, &[(b"k1", b"first"), (b"k2", value)]);

    let records = storage_records(&log, true);

    assert_eq!(records.len(), 2);
    assert_eq!(records[0].seq, 100);
    assert_eq!(records[0].value, b"first".to_vec());
    assert_eq!(records[1].seq, 101);
    assert!(!records[1].deleted);
    assert_eq!(
        claude_reset_from_record(&records[1], state_of(&records[1]).as_ref(), 1_600),
        Some((101, 2_000))
    );
}

#[test]
fn unreadable_local_storage_gives_no_records() {
    assert!(storage_records(b"not a table", false).is_empty());
    assert!(storage_records(b"", false).is_empty());
    assert!(storage_records(&[0u8; 7], true).is_empty());
    let mut damaged = log_with_puts(1, &[(b"k", b"v")]);
    damaged[0] ^= 1;
    assert!(storage_records(&damaged, true).is_empty());
}

#[test]
fn claude_history_feeds_both_windows() {
    let now = 1_700_000_000;
    let document = serde_json::from_str::<Value>(&format!(
        r#"{{"samples": [
            {{"t": {}, "u": {{"fh": 10.0, "sd": 20.0}}}},
            {{"t": {}, "u": {{"fh": 12.5}}}},
            {{"t": 500, "u": {{"fh": 99.0, "sd": 99.0}}}},
            {{"u": {{"fh": 1.0}}}}
        ]}}"#,
        (now - 1_800) * 1000,
        (now - 600) * 1000 + 999
    ))
    .map(|v| to_json(&v))
    .expect("valid JSON");

    let (five_hour, seven_day) = claude_history_samples(Some(&document));
    assert_eq!(five_hour.iter().map(|s| s.timestamp).collect::<Vec<_>>(), vec![now - 1_800, now - 600]);
    assert_eq!(seven_day.len(), 1);

    let (five, seven) = claude_metrics(Some(&document), now);
    assert_eq!(five.available, 1);
    assert_eq!(f64::from_bits(five.used_percentage_bits), 12.5);
    assert_eq!(seven.available, 1);
    assert_eq!(f64::from_bits(seven.used_percentage_bits), 20.0);

    let (five, seven) = claude_metrics(Some(&document), now + 3_600);
    assert_eq!(five.available, 0);
    assert_eq!(seven.available, 0);

    let (five, _) = claude_metrics(None, now);
    assert_eq!(five.available, 0);
}

#[test]
fn newest_files_come_first_and_later_listed_wins_a_tie() {
    let files = vec![
        (Some(30), true),
        (None, true),
        (Some(50), true),
        (Some(30), true),
        (Some(10), false),
        (Some(50), true),
    ];

    assert_eq!(newest_first(&files, 16), vec![5, 2, 3, 0, 1]);
    assert_eq!(newest_first(&files, 2), vec![5, 2]);
    assert_eq!(newest_first(&files, 1), vec![5]);
    assert_eq!(newest_first(&files, 0), Vec::<usize>::new());
}

#[test]
fn local_storage_files_are_chosen_by_kind_and_size() {
    assert!(is_local_storage_file(Some("ldb"), Some(10)));
    assert!(is_local_storage_file(Some("SST"), Some(MAX_CLAUDE_LOCAL_STORAGE_FILE_BYTES)));
    assert!(is_local_storage_file(Some("Log"), Some(0)));
    assert!(!is_local_storage_file(Some("ldb"), Some(MAX_CLAUDE_LOCAL_STORAGE_FILE_BYTES + 1)));
    assert!(!is_local_storage_file(Some("ldb"), None));
    assert!(!is_local_storage_file(Some("txt"), Some(10)));
    assert!(!is_local_storage_file(Some("ldbx"), Some(10)));
    assert!(!is_local_storage_file(None, Some(10)));
    assert!(is_log_file(Some("LOG")));
    assert!(!is_log_file(Some("ldb")));
    assert!(is_session_log(Some("JSONL")));
    assert!(!is_session_log(Some("json")));
    assert!(is_claude_package("Claude_pzs8sxrjxfjjc"));
    assert!(!is_claude_package("claude_x"));
    assert!(!is_claude_package("Claudette"));
}

#[test]
fn session_logs_are_read_from_their_last_two_mebibytes() {
    assert_eq!(tail_start(10), 0);
    assert_eq!(tail_start(MAX_CODEX_FILE_TAIL_BYTES), 0);
    assert_eq!(tail_start(MAX_CODEX_FILE_TAIL_BYTES + 5), 5);
}

#[test]
fn the_clock_reads_unix_seconds() {
    assert_eq!(unix_seconds(None), 0);
    assert_eq!(unix_seconds(Some(1_700_000_000)), 1_700_000_000);
    assert_eq!(unix_seconds(Some(u64::MAX)), -1);
    assert!(unix_now() > 1_600_000_000);
}

#[test]
fn the_session_walk_stops_at_its_entry_limit() {
    assert_eq!(walk_entry(0, true, None), (1, WalkAction::Descend));
    assert_eq!(walk_entry(5, false, Some("JsonL")), (6, WalkAction::Keep));
    assert_eq!(walk_entry(5, false, Some("json")), (6, WalkAction::Skip));
    assert_eq!(walk_entry(5, false, None), (6, WalkAction::Skip));
    assert_eq!(
        walk_entry(MAX_CODEX_DIRECTORY_ENTRIES - 1, false, Some("jsonl")),
        (MAX_CODEX_DIRECTORY_ENTRIES, WalkAction::Stop)
    );
    assert!(walk_continues(MAX_CODEX_DIRECTORY_ENTRIES - 1));
    assert!(!walk_continues(MAX_CODEX_DIRECTORY_ENTRIES));
}

#[test]
fn local_storage_tables_are_read_record_by_record() {
    let value: &[u8] = b"\x01{\"resetsAt\":2000,\"utilization\":0.5,\"observedAt\":1500}";
    let table = table_with_value(b"_https://example.org\x00\x01usage", 77, value);

    let records = storage_records(&table, false);

    assert_eq!(records.len(), 1);
    assert_eq!(records[0].seq, 77);
    assert_eq!(records[0].value, value.to_vec());
    assert!(!records[0].deleted);
    // the same bytes are no write-ahead log
    assert!(storage_records(&table, true).is_empty());
}
