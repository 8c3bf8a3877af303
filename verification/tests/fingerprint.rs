// Tests of the canonicalizer and the fingerprinter, against an
// independent rendering of the digest formula: count-prefixed,
// length-prefixed FNV-style folding of code points.

use store_fingerprint::canon::canonicalize;
use store_fingerprint::canon::parse_type_tag;
use store_fingerprint::canon::TypeTag;
use store_fingerprint::digest::calculate_hash;
use store_fingerprint::order::sort_pairs;
use store_fingerprint::order::sort_strings;
use store_fingerprint::order::str_eq;
use store_fingerprint::order::str_le;

fn model_step(h: u64, x: u64) -> u64 {
    (h ^ x).wrapping_mul(0x0000_0100_0000_01b3)
}

fn model_digest(elems: &[&str]) -> u64 {
    let mut h: u64 = 0xcbf2_9ce4_8422_2325;
    h = model_step(h, elems.len() as u64);
    for e in elems.iter() {
        h = model_step(h, e.chars().count() as u64);
        for c in e.chars() {
            h = model_step(h, c as u64);
        }
    }
    h
}

fn strings(elems: &[&str]) -> Vec<String> {
    elems.iter().map(|e| e.to_string()).collect()
}

#[test]
fn digest_matches_model() {
    assert_eq!(calculate_hash(&strings(&[])), model_digest(&[]));
    assert_eq!(calculate_hash(&strings(&["v1"])), model_digest(&["v1"]));
    assert_eq!(calculate_hash(&strings(&[""])), model_digest(&[""]));
    assert_eq!(
        calculate_hash(&strings(&["a", "b", "a"])),
        model_digest(&["a", "b", "a"])
    );
    assert_eq!(
        calculate_hash(&strings(&["héllo", "wörld"])),
        model_digest(&["héllo", "wörld"])
    );
}

#[test]
fn digest_of_empty_sequence_is_mixed_count() {
    // One step folds the element count 0 into the offset basis.
    let expected: u64 = (0xcbf2_9ce4_8422_2325u64 ^ 0).wrapping_mul(0x0000_0100_0000_01b3);
    assert_eq!(calculate_hash(&strings(&[])), expected);
}

#[test]
fn digest_separates_element_boundaries() {
    assert_ne!(
        calculate_hash(&strings(&["ab", "c"])),
        calculate_hash(&strings(&["a", "bc"]))
    );
    assert_ne!(
        calculate_hash(&strings(&["a", "b"])),
        calculate_hash(&strings(&["a", "b", "a"]))
    );
}

#[test]
fn set_members_order_independent() {
    let one = canonicalize(TypeTag::MemberSet, strings(&["b", "a"]));
    let two = canonicalize(TypeTag::MemberSet, strings(&["a", "b"]));
    assert_eq!(one, strings(&["a", "b"]));
    assert_eq!(one, two);
    assert_eq!(calculate_hash(&one), calculate_hash(&two));
}

#[test]
fn list_order_sensitive() {
    let one = canonicalize(TypeTag::List, strings(&["a", "b"]));
    let two = canonicalize(TypeTag::List, strings(&["b", "a"]));
    assert_eq!(one, strings(&["a", "b"]));
    assert_eq!(two, strings(&["b", "a"]));
    assert_ne!(calculate_hash(&one), calculate_hash(&two));
}

#[test]
fn sorted_set_order_preserved() {
    let one = canonicalize(TypeTag::ZSet, strings(&["low", "mid", "high"]));
    assert_eq!(one, strings(&["low", "mid", "high"]));
}

#[test]
fn hash_field_order_independent() {
    let one = canonicalize(TypeTag::Hash, strings(&["y", "2", "x", "1"]));
    let two = canonicalize(TypeTag::Hash, strings(&["x", "1", "y", "2"]));
    assert_eq!(one, strings(&["x", "1", "y", "2"]));
    assert_eq!(one, two);
    assert_eq!(calculate_hash(&one), calculate_hash(&two));
}

#[test]
fn absent_key_sentinel() {
    let form = canonicalize(TypeTag::Absent, Vec::new());
    assert_eq!(form, strings(&[""]));
    // The sentinel digest coincides with an empty string value's: the
    // log alone cannot tell a vanished key from an empty one.
    let empty_string_value = canonicalize(TypeTag::Str, strings(&[""]));
    assert_eq!(calculate_hash(&form), calculate_hash(&empty_string_value));
}

#[test]
fn type_tags_parse() {
    assert_eq!(parse_type_tag("string"), Some(TypeTag::Str));
    assert_eq!(parse_type_tag("list"), Some(TypeTag::List));
    assert_eq!(parse_type_tag("set"), Some(TypeTag::MemberSet));
    assert_eq!(parse_type_tag("hash"), Some(TypeTag::Hash));
    assert_eq!(parse_type_tag("zset"), Some(TypeTag::ZSet));
    assert_eq!(parse_type_tag("none"), Some(TypeTag::Absent));
    assert_eq!(parse_type_tag("stream"), None);
    assert_eq!(parse_type_tag(""), None);
    assert_eq!(parse_type_tag("String"), None);
}

#[test]
fn string_comparison() {
    assert!(str_eq("", ""));
    assert!(str_eq("abc", "abc"));
    assert!(!str_eq("abc", "abd"));
    assert!(!str_eq("abc", "ab"));
    assert!(str_le("", "a"));
    assert!(str_le("a", "ab"));
    assert!(!str_le("ab", "a"));
    assert!(str_le("abc", "abd"));
    assert!(!str_le("b", "a"));
    assert!(str_le("a", "a"));
    // Order goes by Unicode code point, so every ASCII letter comes
    // before an accented one.
    assert!(str_le("z", "é"));
    assert!(!str_le("é", "z"));
}

#[test]
fn sorting_is_by_code_point() {
    let sorted = sort_strings(&strings(&["é", "z", "a"]));
    assert_eq!(sorted, strings(&["a", "z", "é"]));
}

#[test]
fn sorting_strings() {
    let sorted = sort_strings(&strings(&["b", "", "ab", "a", "b"]));
    assert_eq!(sorted, strings(&["", "a", "ab", "b", "b"]));
}

#[test]
fn sorting_pairs_by_field_then_value() {
    let pairs: Vec<(String, String)> = vec![
        ("y".to_string(), "2".to_string()),
        ("x".to_string(), "1".to_string()),
        ("x".to_string(), "0".to_string()),
    ];
    let sorted = sort_pairs(&pairs);
    let expected: Vec<(String, String)> = vec![
        ("x".to_string(), "0".to_string()),
        ("x".to_string(), "1".to_string()),
        ("y".to_string(), "2".to_string()),
    ];
    assert_eq!(sorted, expected);
}
