use tracing_profile::{FieldMap, FieldValue};

fn entries(map: &FieldMap) -> Vec<(String, String)> {
    let mut out = Vec::new();
    for i in 0..map.len() {
        out.push((map.key_at(i).clone(), map.value_at(i).clone()));
    }
    out
}

fn pair(k: &str, v: &str) -> (String, String) {
    (k.to_string(), v.to_string())
}

#[test]
fn a_new_map_is_empty() {
    let map = FieldMap::new();
    assert!(map.is_empty());
    assert_eq!(map.len(), 0);
    assert!(map.get("a").is_none());
}

#[test]
fn names_are_kept_in_ascending_order() {
    let mut map = FieldMap::new();
    map.insert("m".to_string(), "1".to_string());
    map.insert("z".to_string(), "2".to_string());
    map.insert("a".to_string(), "3".to_string());
    map.insert("mm".to_string(), "4".to_string());
    assert_eq!(entries(&map), vec![pair("a", "3"), pair("m", "1"), pair("mm", "4"), pair("z", "2")]);
    assert!(!map.is_empty());
}

#[test]
fn a_later_value_overwrites_an_earlier_one() {
    let mut map = FieldMap::new();
    map.insert("k".to_string(), "old".to_string());
    map.insert("j".to_string(), "other".to_string());
    map.insert("k".to_string(), "new".to_string());
    assert_eq!(entries(&map), vec![pair("j", "other"), pair("k", "new")]);
    assert_eq!(map.get("k").unwrap(), "new");
    assert_eq!(map.get("j").unwrap(), "other");
    assert!(map.get("l").is_none());
}

#[test]
fn the_order_is_that_of_an_ordered_map() {
    let names = ["field2", "field10", "a", "Z", "é", "", "index", "field1", "a"];
    let mut map = FieldMap::new();
    let mut reference = std::collections::BTreeMap::new();
    for (i, name) in names.iter().enumerate() {
        map.insert(name.to_string(), i.to_string());
        reference.insert(name.to_string(), i.to_string());
    }
    let expected: Vec<(String, String)> = reference.into_iter().collect();
    assert_eq!(entries(&map), expected);
}

#[test]
fn typed_values_are_written_in_their_canonical_form() {
    let mut map = FieldMap::new();
    map.record_str("s", "text");
    map.record_u64("u", 18446744073709551615);
    map.record_i64("i", -42);
    map.record_bool("t", true);
    map.record_bool("f", false);
    map.record_debug("d", "Some(1)");
    assert_eq!(
        entries(&map),
        vec![
            pair("d", "Some(1)"),
            pair("f", "false"),
            pair("i", "-42"),
            pair("s", "text"),
            pair("t", "true"),
            pair("u", "18446744073709551615"),
        ]
    );
}

#[test]
fn a_pass_of_events_is_recorded_in_order() {
    let mut map = FieldMap::new();
    map.insert("kept".to_string(), "yes".to_string());
    map.insert("n".to_string(), "before".to_string());
    let events = vec![
        ("n".to_string(), FieldValue::U64(1)),
        ("b".to_string(), FieldValue::Bool(true)),
        ("n".to_string(), FieldValue::I64(-2)),
        ("s".to_string(), FieldValue::Str("x".to_string())),
        ("g".to_string(), FieldValue::Debug("[1, 2]".to_string())),
    ];
    map.record(&events);
    assert_eq!(
        entries(&map),
        vec![pair("b", "true"), pair("g", "[1, 2]"), pair("kept", "yes"), pair("n", "-2"), pair("s", "x")]
    );
}

#[test]
fn record_value_matches_the_typed_methods() {
    let mut a = FieldMap::new();
    a.record_value("x", &FieldValue::U64(7));
    a.record_value("y", &FieldValue::Str("v".to_string()));
    let mut b = FieldMap::new();
    b.record_u64("x", 7);
    b.record_str("y", "v");
    assert_eq!(entries(&a), entries(&b));
}

#[test]
fn taking_the_fields_leaves_the_map_empty() {
    let mut map = FieldMap::new();
    map.insert("a".to_string(), "1".to_string());
    let taken = map.take();
    assert!(map.is_empty());
    assert_eq!(entries(&taken), vec![pair("a", "1")]);
}

#[test]
fn a_clone_holds_the_same_entries() {
    let mut map = FieldMap::new();
    map.insert("b".to_string(), "2".to_string());
    map.insert("a".to_string(), "1".to_string());
    let copy = map.clone();
    map.insert("c".to_string(), "3".to_string());
    assert_eq!(entries(&copy), vec![pair("a", "1"), pair("b", "2")]);
    assert_eq!(map.len(), 3);
}
