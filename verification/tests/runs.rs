// Tests of the per-key record step, the log-line rendering, and the
// fail-fast run over a whole enumeration.

use store_fingerprint::canon::TypeTag;
use store_fingerprint::digest::calculate_hash;
use store_fingerprint::pipeline::make_record;
use store_fingerprint::pipeline::process_entries;
use store_fingerprint::pipeline::StoreEntry;
use store_fingerprint::record::format_record;
use store_fingerprint::record::tag_name;
use store_fingerprint::record::to_hex;

fn strings(elems: &[&str]) -> Vec<String> {
    elems.iter().map(|e| e.to_string()).collect()
}

fn entry(key: &str, reported: &str, raw: &[&str]) -> StoreEntry {
    StoreEntry {
        key: key.to_string(),
        reported: reported.to_string(),
        raw: strings(raw),
    }
}

#[test]
fn record_for_string_value() {
    let rec = make_record("k1".to_string(), "string", strings(&["v1"])).unwrap();
    assert_eq!(rec.key, "k1");
    assert_eq!(rec.tag, TypeTag::Str);
    assert_eq!(rec.digest, calculate_hash(&strings(&["v1"])));
}

#[test]
fn record_for_set_value_sorts_members() {
    let rec = make_record("k2".to_string(), "set", strings(&["b", "a"])).unwrap();
    assert_eq!(rec.tag, TypeTag::MemberSet);
    assert_eq!(rec.digest, calculate_hash(&strings(&["a", "b"])));
}

#[test]
fn record_for_absent_key() {
    let rec = make_record("gone".to_string(), "none", Vec::new()).unwrap();
    assert_eq!(rec.key, "gone");
    assert_eq!(rec.tag, TypeTag::Absent);
    assert_eq!(rec.digest, calculate_hash(&strings(&[""])));
}

#[test]
fn record_for_unsupported_type() {
    let err = make_record("bad".to_string(), "stream", Vec::new()).unwrap_err();
    assert_eq!(err.key, "bad");
    assert_eq!(err.reported, "stream");
}

#[test]
fn hex_rendering_is_lowercase_without_leading_zeros() {
    assert_eq!(to_hex(0), "0");
    assert_eq!(to_hex(15), "f");
    assert_eq!(to_hex(16), "10");
    assert_eq!(to_hex(0xdead_beef), format!("{:x}", 0xdead_beefu64));
    assert_eq!(to_hex(u64::MAX), format!("{:x}", u64::MAX));
}

#[test]
fn tag_names_match_store_vocabulary() {
    assert_eq!(tag_name(TypeTag::Str), "string");
    assert_eq!(tag_name(TypeTag::List), "list");
    assert_eq!(tag_name(TypeTag::MemberSet), "set");
    assert_eq!(tag_name(TypeTag::Hash), "hash");
    assert_eq!(tag_name(TypeTag::ZSet), "zset");
    assert_eq!(tag_name(TypeTag::Absent), "none");
}

#[test]
fn formatted_line_shape() {
    let rec = make_record("k1".to_string(), "string", strings(&["v1"])).unwrap();
    let line = format_record(&rec);
    let expected = format!("k1 string: {:x}\n", calculate_hash(&strings(&["v1"])));
    assert_eq!(line, expected);
}

#[test]
fn end_to_end_scenario() {
    let entries: Vec<StoreEntry> = vec![
        entry("k1", "string", &["v1"]),
        entry("k2", "set", &["b", "a"]),
        entry("k3", "list", &["x", "y"]),
    ];
    let (records, failure) = process_entries(&entries);
    assert!(failure.is_none());
    assert_eq!(records.len(), 3);

    let mut lines: Vec<String> = records.iter().map(format_record).collect();
    let mut expected: Vec<String> = vec![
        format!("k1 string: {:x}\n", calculate_hash(&strings(&["v1"]))),
        format!("k2 set: {:x}\n", calculate_hash(&strings(&["a", "b"]))),
        format!("k3 list: {:x}\n", calculate_hash(&strings(&["x", "y"]))),
    ];
    lines.sort();
    expected.sort();
    assert_eq!(lines, expected);
}

#[test]
fn unsupported_type_aborts_run_keeping_earlier_records() {
    let entries: Vec<StoreEntry> = vec![
        entry("k1", "string", &["v1"]),
        entry("k2", "stream", &[]),
        entry("k3", "list", &["x", "y"]),
    ];
    let (records, failure) = process_entries(&entries);
    let err = failure.expect("the run must abort on the unsupported type");
    assert_eq!(err.key, "k2");
    assert_eq!(err.reported, "stream");
    assert_eq!(records.len(), 1);
    assert_eq!(records[0].key, "k1");
}

#[test]
fn vanished_key_does_not_abort_run() {
    let entries: Vec<StoreEntry> = vec![
        entry("k1", "none", &[]),
        entry("k2", "string", &["v"]),
    ];
    let (records, failure) = process_entries(&entries);
    assert!(failure.is_none());
    assert_eq!(records.len(), 2);
    assert_eq!(records[0].tag, TypeTag::Absent);
}

#[test]
fn runs_are_deterministic_across_enumeration_orders() {
    let one: Vec<StoreEntry> = vec![
        entry("k1", "string", &["v1"]),
        entry("k2", "set", &["b", "a"]),
        entry("k3", "hash", &["y", "2", "x", "1"]),
    ];
    let two: Vec<StoreEntry> = vec![
        entry("k3", "hash", &["x", "1", "y", "2"]),
        entry("k1", "string", &["v1"]),
        entry("k2", "set", &["a", "b"]),
    ];
    let (rec_one, fail_one) = process_entries(&one);
    let (rec_two, fail_two) = process_entries(&two);
    assert!(fail_one.is_none());
    assert!(fail_two.is_none());
    let mut lines_one: Vec<String> = rec_one.iter().map(format_record).collect();
    let mut lines_two: Vec<String> = rec_two.iter().map(format_record).collect();
    lines_one.sort();
    lines_two.sort();
    assert_eq!(lines_one, lines_two);
}

#[test]
fn repeated_runs_identical() {
    let entries: Vec<StoreEntry> = vec![
        entry("k1", "zset", &["m1", "m2"]),
        entry("k2", "hash", &["f", "v"]),
    ];
    let (rec_one, _) = process_entries(&entries);
    let (rec_two, _) = process_entries(&entries);
    let lines_one: Vec<String> = rec_one.iter().map(format_record).collect();
    let lines_two: Vec<String> = rec_two.iter().map(format_record).collect();
    assert_eq!(lines_one, lines_two);
}
