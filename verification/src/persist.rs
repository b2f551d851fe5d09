//! The widget's own sample stores: the JSON trees it writes for the Codex and
//! ZCode histories, and how it reads them back.

use vstd::prelude::*;
use crate::json::{
    deref_json, float_json, get_array, get_f64, get_i64, int_json, json_array, json_get,
    member_value, Json,
};
use crate::samples::Sample;

verus! {

/// Credit counts of the latest ZCode quota response, stored beside the samples
/// so that a missed request does not blank the tooltip.
#[derive(Clone, Copy, Debug, Default, PartialEq, Eq, Structural)]
pub struct ZCodeUnits {
    pub five_hour_used: i64,
    pub five_hour_limit: i64,
    pub week_used: i64,
    pub week_limit: i64,
}

/// The units that are all zero.
pub open spec fn zero_units() -> ZCodeUnits {
    ZCodeUnits { five_hour_used: 0, five_hour_limit: 0, week_used: 0, week_limit: 0 }
}

/// A stored Codex sample: an object with an integer `timestamp`, a number
/// `used` and an integer `reset_at`.
pub open spec fn codex_entry(v: Json) -> Option<Sample> {
    match (get_i64(v, "timestamp"@), get_f64(v, "used"@), get_i64(v, "reset_at"@)) {
        (Some(t), Some(u), Some(r)) => Some(Sample { timestamp: t, used_bits: u, reset_at: r }),
        _ => None,
    }
}

/// The reading of one stored Codex sample.
pub open spec fn codex_entry_fn() -> spec_fn(Json) -> Option<Sample> {
    |v: Json| codex_entry(v)
}

/// The samples of a Codex store: the readable entries of its `samples` array,
/// in order; none where the text was not JSON or has no such array.
pub open spec fn codex_store_samples(document: Option<Json>) -> Seq<Sample> {
    match document {
        Some(root) => match get_array(root, "samples"@) {
            Some(entries) => entries.filter_map(codex_entry_fn()),
            None => Seq::empty(),
        },
        None => Seq::empty(),
    }
}

/// Reads the samples of a Codex store (see [`codex_store_samples`]);
/// `document` is the store's text read as JSON, `None` where it was not JSON.
pub fn parse_persisted_codex_history(document: Option<&Json>) -> (res: Vec<Sample>)
    ensures
        res@ == codex_store_samples(deref_json(document)),
{
    let root = match document {
        Some(root) => root,
        None => return Vec::new(),
    };
    let entries = match root.get_array("samples") {
        Some(entries) => entries,
        None => return Vec::new(),
    };
    let ghost f = codex_entry_fn();
    let mut res: Vec<Sample> = Vec::new();
    let mut i: usize = 0;
    while i < entries.len()
        invariant
            f == codex_entry_fn(),
            i <= entries.len(),
            res@ == entries@.take(i as int).filter_map(f),
        decreases entries.len() - i,
    {
        proof {
            entries@.lemma_filter_map_take_succ(f, i as int);
        }
        let entry = &entries[i];
        match (entry.get_i64("timestamp"), entry.get_f64_bits("used"), entry.get_i64("reset_at")) {
            (Some(timestamp), Some(used_bits), Some(reset_at)) => {
                res.push(Sample { timestamp, used_bits, reset_at });
            },
            _ => {},
        }
        i = i + 1;
    }
    assert(entries@.take(entries@.len() as int) =~= entries@);
    res
}

/// `e` is the stored form of `s`: an object whose members are `timestamp`,
/// `used` and `reset_at`, in that order.
pub open spec fn is_sample_entry(e: Json, s: Sample) -> bool {
    match e {
        Json::Object(members) => {
            &&& members@.len() == 3
            &&& members@[0].0@ == "timestamp"@ && members@[0].1 == int_json(s.timestamp)
            &&& members@[1].0@ == "used"@ && members@[1].1 == float_json(s.used_bits)
            &&& members@[2].0@ == "reset_at"@ && members@[2].1 == int_json(s.reset_at)
        },
        _ => false,
    }
}

/// `a` holds the stored forms of `samples`, in order.
pub open spec fn is_sample_array(a: Json, samples: Seq<Sample>) -> bool {
    match a {
        Json::Array(entries) => entries@.len() == samples.len() && forall|k: int|
            0 <= k < samples.len() ==> is_sample_entry(#[trigger] entries@[k], samples[k]),
        _ => false,
    }
}

/// `doc` is a Codex store of `samples`: an object whose members are `version`
/// (1) and `samples`, in that order.
pub open spec fn is_codex_store(doc: Json, samples: Seq<Sample>) -> bool {
    match doc {
        Json::Object(members) => {
            &&& members@.len() == 2
            &&& members@[0].0@ == "version"@ && members@[0].1 == int_json(1)
            &&& members@[1].0@ == "samples"@ && is_sample_array(members@[1].1, samples)
        },
        _ => false,
    }
}

/// The stored form of one sample.
fn sample_entry(s: Sample) -> (res: Json)
    ensures
        is_sample_entry(res, s),
{
    let mut members: Vec<(String, Json)> = Vec::new();
    members.push(("timestamp".to_owned(), Json::integer(s.timestamp)));
    members.push(("used".to_owned(), Json::float(s.used_bits)));
    members.push(("reset_at".to_owned(), Json::integer(s.reset_at)));
    Json::Object(members)
}

/// The stored forms of samples, as an array.
pub fn persisted_samples_json(samples: &Vec<Sample>) -> (res: Json)
    ensures
        is_sample_array(res, samples@),
{
    let mut entries: Vec<Json> = Vec::new();
    let mut i: usize = 0;
    while i < samples.len()
        invariant
            i <= samples.len(),
            entries@.len() == i,
            forall|k: int| 0 <= k < i ==> is_sample_entry(#[trigger] entries@[k], samples@[k]),
        decreases samples.len() - i,
    {
        entries.push(sample_entry(samples[i]));
        i = i + 1;
    }
    Json::Array(entries)
}

/// The Codex store of `samples` (see [`is_codex_store`]).
pub fn persisted_codex_history_json(samples: &Vec<Sample>) -> (res: Json)
    ensures
        is_codex_store(res, samples@),
{
    let mut members: Vec<(String, Json)> = Vec::new();
    members.push(("version".to_owned(), Json::integer(1)));
    members.push(("samples".to_owned(), persisted_samples_json(samples)));
    Json::Object(members)
}

/// A lookup finds the first member with the key.
proof fn lemma_member_at(ms: Seq<(String, Json)>, key: Seq<char>, i: int)
    requires
        0 <= i < ms.len(),
        ms[i].0@ == key,
        forall|j: int| 0 <= j < i ==> #[trigger] ms[j].0@ != key,
    ensures
        member_value(ms, key) == Some(ms[i].1),
    decreases i,
{
    if i > 0 {
        let rest = ms.drop_first();
        assert forall|j: int| 0 <= j < i - 1 implies #[trigger] rest[j].0@ != key by {
            assert(rest[j] == ms[j + 1]);
        }
        lemma_member_at(rest, key, i - 1);
    }
}

/// The keys of the stored forms differ from one another.
proof fn lemma_store_keys()
    ensures
        "timestamp"@ != "used"@,
        "timestamp"@ != "reset_at"@,
        "used"@ != "reset_at"@,
        "version"@ != "samples"@,
        "version"@ != "five_hour"@,
        "version"@ != "seven_day"@,
        "version"@ != "latest"@,
        "five_hour"@ != "seven_day"@,
        "five_hour"@ != "latest"@,
        "seven_day"@ != "latest"@,
        "five_hour_used"@ != "five_hour_limit"@,
        "five_hour_used"@ != "week_used"@,
        "five_hour_used"@ != "week_limit"@,
        "five_hour_limit"@ != "week_used"@,
        "five_hour_limit"@ != "week_limit"@,
        "week_used"@ != "week_limit"@,
{
    reveal_strlit("timestamp");
    reveal_strlit("used");
    reveal_strlit("reset_at");
    reveal_strlit("version");
    reveal_strlit("samples");
    reveal_strlit("five_hour");
    reveal_strlit("seven_day");
    reveal_strlit("latest");
    reveal_strlit("five_hour_used");
    reveal_strlit("five_hour_limit");
    reveal_strlit("week_used");
    reveal_strlit("week_limit");
    assert("version"@[0] != "samples"@[0]);
    assert("five_hour"@[0] != "seven_day"@[0]);
    assert("timestamp"@.len() != "used"@.len());
    assert("timestamp"@.len() != "reset_at"@.len());
    assert("used"@.len() != "reset_at"@.len());
    assert("version"@.len() != "five_hour"@.len());
    assert("version"@.len() != "seven_day"@.len());
    assert("version"@.len() != "latest"@.len());
    assert("five_hour"@.len() != "latest"@.len());
    assert("seven_day"@.len() != "latest"@.len());
    assert("five_hour_used"@.len() != "five_hour_limit"@.len());
    assert("five_hour_used"@.len() != "week_used"@.len());
    assert("five_hour_used"@.len() != "week_limit"@.len());
    assert("five_hour_limit"@.len() != "week_used"@.len());
    assert("five_hour_limit"@.len() != "week_limit"@.len());
    assert("week_used"@.len() != "week_limit"@.len());
}

/// Reading a stored sample gives the sample back.
proof fn lemma_sample_entry(e: Json, s: Sample)
    requires
        is_sample_entry(e, s),
    ensures
        codex_entry(e) == Some(s),
        zcode_entry(e) == Some(s),
{
    lemma_store_keys();
    if let Json::Object(members) = e {
        let ms = members@;
        lemma_member_at(ms, "timestamp"@, 0);
        lemma_member_at(ms, "used"@, 1);
        lemma_member_at(ms, "reset_at"@, 2);
    }
}

/// Reading the stored forms of samples gives them back.
proof fn lemma_sample_array(a: Json, samples: Seq<Sample>, read: spec_fn(Json) -> Option<Sample>)
    requires
        is_sample_array(a, samples),
        read == codex_entry_fn() || read == zcode_entry_fn(),
    ensures
        json_array(a) matches Some(entries) && entries.filter_map(read) == samples,
{
    if let Json::Array(entries) = a {
        let es = entries@;
        assert forall|k: int| 0 <= k < es.len() implies #[trigger] read(es[k]) == Some(samples[k]) by {
            lemma_sample_entry(es[k], samples[k]);
        }
        lemma_filter_map_all(es, read, samples);
    }
}

/// A filter-map that keeps every element maps them all.
proof fn lemma_filter_map_all(es: Seq<Json>, read: spec_fn(Json) -> Option<Sample>, samples: Seq<Sample>)
    requires
        es.len() == samples.len(),
        forall|k: int| 0 <= k < es.len() ==> #[trigger] read(es[k]) == Some(samples[k]),
    ensures
        es.filter_map(read) == samples,
    decreases es.len(),
{
    if es.len() > 0 {
        let n = es.len() - 1;
        assert forall|k: int| 0 <= k < n implies #[trigger] read(es.drop_last()[k]) == Some(samples.drop_last()[k]) by {
            assert(read(es[k]) == Some(samples[k]));
        }
        lemma_filter_map_all(es.drop_last(), read, samples.drop_last());
        assert(read(es[n]) == Some(samples[n]));
        assert(samples.drop_last() + seq![samples[n]] =~= samples);
    } else {
        assert(samples =~= Seq::<Sample>::empty());
    }
}

/// Reading back a Codex store gives the samples it was written from.
pub proof fn lemma_codex_store_round_trip(doc: Json, samples: Seq<Sample>)
    requires
        is_codex_store(doc, samples),
    ensures
        codex_store_samples(Some(doc)) == samples,
{
    lemma_store_keys();
    if let Json::Object(members) = doc {
        let ms = members@;
        lemma_member_at(ms, "samples"@, 1);
        lemma_sample_array(ms[1].1, samples, codex_entry_fn());
    }
}

/// A stored ZCode sample: an object with an integer `timestamp` and a number
/// `used`; its `reset_at` is `0` where absent or not an integer.
pub open spec fn zcode_entry(v: Json) -> Option<Sample> {
    match (get_i64(v, "timestamp"@), get_f64(v, "used"@)) {
        (Some(t), Some(u)) => Some(
            Sample {
                timestamp: t,
                used_bits: u,
                reset_at: match get_i64(v, "reset_at"@) {
                    Some(r) => r,
                    None => 0,
                },
            },
        ),
        _ => None,
    }
}

/// The reading of one stored ZCode sample.
pub open spec fn zcode_entry_fn() -> spec_fn(Json) -> Option<Sample> {
    |v: Json| zcode_entry(v)
}

/// The readable ZCode samples of an array value; none for anything else.
pub open spec fn zcode_samples(value: Option<Json>) -> Seq<Sample> {
    match value {
        Some(v) => match json_array(v) {
            Some(entries) => entries.filter_map(zcode_entry_fn()),
            None => Seq::empty(),
        },
        None => Seq::empty(),
    }
}

/// Reads the ZCode samples of an array value (see [`zcode_samples`]).
pub fn parse_persisted_zcode_samples(value: Option<&Json>) -> (res: Vec<Sample>)
    ensures
        res@ == zcode_samples(deref_json(value)),
{
    let entries = match value {
        Some(v) => match v.as_array() {
            Some(entries) => entries,
            None => return Vec::new(),
        },
        None => return Vec::new(),
    };
    let ghost f = zcode_entry_fn();
    let mut res: Vec<Sample> = Vec::new();
    let mut i: usize = 0;
    while i < entries.len()
        invariant
            f == zcode_entry_fn(),
            i <= entries.len(),
            res@ == entries@.take(i as int).filter_map(f),
        decreases entries.len() - i,
    {
        proof {
            entries@.lemma_filter_map_take_succ(f, i as int);
        }
        let entry = &entries[i];
        match (entry.get_i64("timestamp"), entry.get_f64_bits("used")) {
            (Some(timestamp), Some(used_bits)) => {
                let reset_at = match entry.get_i64("reset_at") {
                    Some(r) => r,
                    None => 0,
                };
                res.push(Sample { timestamp, used_bits, reset_at });
            },
            _ => {},
        }
        i = i + 1;
    }
    assert(entries@.take(entries@.len() as int) =~= entries@);
    res
}

/// The unit count `key` of the `latest` member, `0` where missing.
pub open spec fn latest_unit(root: Json, key: Seq<char>) -> i64 {
    match json_get(root, "latest"@) {
        Some(latest) => match get_i64(latest, key) {
            Some(n) => n,
            None => 0,
        },
        None => 0,
    }
}

/// What a ZCode store holds: the five-hour samples, the seven-day samples and
/// the latest units; nothing where the text was not JSON.
pub open spec fn zcode_store(document: Option<Json>) -> (Seq<Sample>, Seq<Sample>, ZCodeUnits) {
    match document {
        Some(root) => (
            zcode_samples(json_get(root, "five_hour"@)),
            zcode_samples(json_get(root, "seven_day"@)),
            ZCodeUnits {
                five_hour_used: latest_unit(root, "five_hour_used"@),
                five_hour_limit: latest_unit(root, "five_hour_limit"@),
                week_used: latest_unit(root, "week_used"@),
                week_limit: latest_unit(root, "week_limit"@),
            },
        ),
        None => (Seq::empty(), Seq::empty(), zero_units()),
    }
}

/// The unit count `key` of `latest`, `0` where missing.
fn read_unit(latest: Option<&Json>, key: &str) -> (res: i64)
    ensures
        res == (match deref_json(latest) {
            Some(l) => match get_i64(l, key@) {
                Some(n) => n,
                None => 0,
            },
            None => 0,
        }),
{
    match latest {
        Some(l) => match l.get_i64(key) {
            Some(n) => n,
            None => 0,
        },
        None => 0,
    }
}

/// Reads a ZCode store (see [`zcode_store`]); `document` is its text read as
/// JSON, `None` where it was not JSON.
pub fn parse_persisted_zcode_history(document: Option<&Json>) -> (res: (Vec<Sample>, Vec<Sample>, ZCodeUnits))
    ensures
        (res.0@, res.1@, res.2) == zcode_store(deref_json(document)),
{
    let root = match document {
        Some(root) => root,
        None => return (Vec::new(), Vec::new(), ZCodeUnits { five_hour_used: 0, five_hour_limit: 0, week_used: 0, week_limit: 0 }),
    };
    let latest = root.get("latest");
    let units = ZCodeUnits {
        five_hour_used: read_unit(latest, "five_hour_used"),
        five_hour_limit: read_unit(latest, "five_hour_limit"),
        week_used: read_unit(latest, "week_used"),
        week_limit: read_unit(latest, "week_limit"),
    };
    (parse_persisted_zcode_samples(root.get("five_hour")), parse_persisted_zcode_samples(root.get("seven_day")), units)
}

/// `doc` is a ZCode store of the two histories and the units: an object whose
/// members are `version` (2), `five_hour`, `seven_day` and `latest`, in that
/// order, `latest` holding the four unit counts.
pub open spec fn is_zcode_store(doc: Json, five_hour: Seq<Sample>, seven_day: Seq<Sample>, units: ZCodeUnits) -> bool {
    match doc {
        Json::Object(members) => {
            &&& members@.len() == 4
            &&& members@[0].0@ == "version"@ && members@[0].1 == int_json(2)
            &&& members@[1].0@ == "five_hour"@ && is_sample_array(members@[1].1, five_hour)
            &&& members@[2].0@ == "seven_day"@ && is_sample_array(members@[2].1, seven_day)
            &&& members@[3].0@ == "latest"@ && is_units(members@[3].1, units)
        },
        _ => false,
    }
}

/// `v` is the stored form of the units.
pub open spec fn is_units(v: Json, units: ZCodeUnits) -> bool {
    match v {
        Json::Object(members) => {
            &&& members@.len() == 4
            &&& members@[0].0@ == "five_hour_used"@ && members@[0].1 == int_json(units.five_hour_used)
            &&& members@[1].0@ == "five_hour_limit"@ && members@[1].1 == int_json(units.five_hour_limit)
            &&& members@[2].0@ == "week_used"@ && members@[2].1 == int_json(units.week_used)
            &&& members@[3].0@ == "week_limit"@ && members@[3].1 == int_json(units.week_limit)
        },
        _ => false,
    }
}

/// The ZCode store of two histories and the latest units (see
/// [`is_zcode_store`]).
pub fn persisted_zcode_history_json(five_hour: &Vec<Sample>, seven_day: &Vec<Sample>, units: ZCodeUnits) -> (res: Json)
    ensures
        is_zcode_store(res, five_hour@, seven_day@, units),
{
    let mut latest: Vec<(String, Json)> = Vec::new();
    latest.push(("five_hour_used".to_owned(), Json::integer(units.five_hour_used)));
    latest.push(("five_hour_limit".to_owned(), Json::integer(units.five_hour_limit)));
    latest.push(("week_used".to_owned(), Json::integer(units.week_used)));
    latest.push(("week_limit".to_owned(), Json::integer(units.week_limit)));
    let mut members: Vec<(String, Json)> = Vec::new();
    members.push(("version".to_owned(), Json::integer(2)));
    members.push(("five_hour".to_owned(), persisted_samples_json(five_hour)));
    members.push(("seven_day".to_owned(), persisted_samples_json(seven_day)));
    members.push(("latest".to_owned(), Json::Object(latest)));
    Json::Object(members)
}

/// Reading back a ZCode store gives the histories and units it was written
/// from.
pub proof fn lemma_zcode_store_round_trip(doc: Json, five_hour: Seq<Sample>, seven_day: Seq<Sample>, units: ZCodeUnits)
    requires
        is_zcode_store(doc, five_hour, seven_day, units),
    ensures
        zcode_store(Some(doc)) == (five_hour, seven_day, units),
{
    lemma_store_keys();
    if let Json::Object(members) = doc {
        let ms = members@;
        lemma_member_at(ms, "five_hour"@, 1);
        lemma_member_at(ms, "seven_day"@, 2);
        lemma_member_at(ms, "latest"@, 3);
        lemma_sample_array(ms[1].1, five_hour, zcode_entry_fn());
        lemma_sample_array(ms[2].1, seven_day, zcode_entry_fn());
        if let Json::Object(lm) = ms[3].1 {
            let l = lm@;
            lemma_member_at(l, "five_hour_used"@, 0);
            lemma_member_at(l, "five_hour_limit"@, 1);
            lemma_member_at(l, "week_used"@, 2);
            lemma_member_at(l, "week_limit"@, 3);
        }
    }
}

} // verus!
