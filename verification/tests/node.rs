use tracing_profile::config::{is_share_above, is_share_below, share_hundredths};
use tracing_profile::{FieldMap, GraphNode, Percent, PrintTreeConfig};

fn node(name: &str, duration: u64) -> GraphNode {
    GraphNode {
        name: name.to_string(),
        id: 1,
        execution_duration: duration,
        metadata: FieldMap::new(),
        call_count: 1,
    }
}

#[test]
fn a_new_node_stands_for_nothing() {
    let n = GraphNode::new("[...]".to_string());
    assert_eq!(n.name, "[...]");
    assert_eq!(n.id, 0);
    assert_eq!(n.execution_duration, 0);
    assert_eq!(n.call_count, 0);
    assert!(n.metadata.is_empty());
}

#[test]
fn the_default_thresholds() {
    let c = PrintTreeConfig::default();
    assert_eq!(c.attention_above_percent, Percent::whole(25));
    assert_eq!(c.relevant_above_percent, Percent::hundredths(250));
    assert_eq!(c.hide_below_percent, Percent::whole(1));
    assert!(!c.display_unaccounted);
    assert_eq!(Percent::whole(25).millionths, 25_000_000);
    assert_eq!(Percent::hundredths(250).millionths, 2_500_000);
    assert_eq!(Percent::from_millionths(-1).millionths, -1);
}

#[test]
fn the_whole_is_exactly_one_hundred_percent() {
    for d in [1u64, 2, 3, 7, 123_790, 1_000_000_007, u64::MAX] {
        assert_eq!(node("n", d).execution_percentage(d), 10_000);
    }
}

#[test]
fn any_share_of_nothing_is_zero() {
    for d in [0u64, 1, 500, u64::MAX] {
        assert_eq!(node("n", d).execution_percentage(0), 0);
    }
}

#[test]
fn percentages_round_to_the_nearest_hundredth() {
    assert_eq!(node("n", 1).execution_percentage(3), 3333);
    assert_eq!(node("n", 2).execution_percentage(3), 6667);
    assert_eq!(node("n", 2_880).execution_percentage(123_790), 233);
    assert_eq!(node("n", 51_000).execution_percentage(123_790), 4120);
    assert_eq!(node("n", 0).execution_percentage(100), 0);
    assert_eq!(node("n", 1).execution_percentage(20_000), 0);
    assert_eq!(node("n", 3).execution_percentage(20_000), 2);
    assert_eq!(node("n", 5).execution_percentage(20_000), 2);
    assert_eq!(node("n", 200).execution_percentage(100), 20_000);
    assert_eq!(share_hundredths(u64::MAX, 1), 10_000 * (u64::MAX as u128));
}

#[test]
fn thresholds_are_compared_exactly_and_strictly() {
    let quarter = Percent::whole(25);
    assert!(!is_share_above(25, 100, quarter));
    assert!(is_share_above(26, 100, quarter));
    assert!(!is_share_below(25, 100, quarter));
    assert!(is_share_below(24, 100, quarter));
    assert!(is_share_above(250_001, 1_000_000, quarter));
    assert!(is_share_below(249_999, 1_000_000, quarter));
    let tiny = Percent::from_millionths(1);
    assert!(is_share_above(1, 99_999_999, tiny));
    assert!(!is_share_above(1, 100_000_000, tiny));
    assert!(is_share_below(1, 100_000_001, tiny));
    assert!(is_share_above(u64::MAX, u64::MAX, Percent::from_millionths(99_999_999)));
    assert!(!is_share_above(u64::MAX, u64::MAX, Percent::whole(100)));
    assert!(is_share_below(u64::MAX, u64::MAX, Percent::from_millionths(i64::MAX)));
    assert!(is_share_above(0, u64::MAX, Percent::from_millionths(i64::MIN)));
}

#[test]
fn in_a_root_of_no_duration_every_share_counts_as_zero() {
    assert!(!is_share_above(5, 0, Percent::whole(0)));
    assert!(!is_share_below(5, 0, Percent::whole(0)));
    assert!(is_share_above(5, 0, Percent::from_millionths(-1)));
    assert!(is_share_below(5, 0, Percent::from_millionths(1)));
    assert!(!is_share_above(5, 0, Percent::whole(1)));
}

#[test]
fn aggregate_adds_time_and_calls() {
    let mut a = node("a", 30);
    a.id = 7;
    a.metadata.insert("k".to_string(), "v".to_string());
    let mut b = node("b", 12);
    b.id = 8;
    b.call_count = 4;
    let r = a.aggregate(&b);
    assert_eq!(r.name, "a");
    assert_eq!(r.id, 7);
    assert_eq!(r.execution_duration, 42);
    assert_eq!(r.call_count, 5);
    assert_eq!(r.metadata.get("k").unwrap(), "v");
}

#[test]
fn aggregate_stops_at_the_largest_value() {
    let mut a = node("a", u64::MAX - 1);
    a.call_count = usize::MAX;
    let r = a.aggregate(&node("b", 5));
    assert_eq!(r.execution_duration, u64::MAX);
    assert_eq!(r.call_count, usize::MAX);
}

#[test]
fn a_plain_label_shows_name_time_and_share() {
    let c = PrintTreeConfig::default();
    assert_eq!(node("root span", 123_790).label(123_790, &c, true), "root span [ 123.79µs | 100.00% ]");
    assert_eq!(node("x", 51_000).label(123_790, &c, true), "x [ 51.00µs | 41.20% ]");
    assert_eq!(node("x", 5).label(0, &c, true), "x [ 5.00ns | 0.00% ]");
}

#[test]
fn a_label_shows_the_metadata_between_braces() {
    let c = PrintTreeConfig::default();
    let mut n = node("child span1", 2_880);
    n.metadata.insert("field1".to_string(), "value1".to_string());
    assert_eq!(n.label(123_790, &c, true), "child span1 [ 2.88µs | 2.33% ] { field1 = value1 }");
    n.metadata.insert("a".to_string(), "1".to_string());
    assert_eq!(n.label(123_790, &c, true), "child span1 [ 2.88µs | 2.33% ] { a = 1, field1 = value1 }");
}

#[test]
fn a_label_shows_the_calls_in_place_of_the_metadata() {
    let c = PrintTreeConfig::default();
    let mut n = node("f", 2_000);
    n.metadata.insert("k".to_string(), "v".to_string());
    n.call_count = 2;
    assert_eq!(n.label(100_000, &c, true), "f [ 2.00µs | 2.00% ] (2 calls)");
    n.call_count = 1;
    assert_eq!(n.label(100_000, &c, true), "f [ 2.00µs | 2.00% ] { k = v }");
    n.call_count = 0;
    assert_eq!(n.label(100_000, &c, true), "f [ 2.00µs | 2.00% ] { k = v }");
}

#[test]
fn a_coloured_label_is_wrapped_in_its_style() {
    let c = PrintTreeConfig::default();
    assert_eq!(node("x", 26).label(100, &c, false), "\x1b[1;31mx [ 26.00ns | 26.00% ]\x1b[0m");
    assert_eq!(node("x", 25).label(100, &c, false), "\x1b[0mx [ 25.00ns | 25.00% ]\x1b[0m");
    assert_eq!(node("x", 3).label(100, &c, false), "\x1b[0mx [ 3.00ns | 3.00% ]\x1b[0m");
    assert_eq!(node("x", 25).label(1000, &c, false), "\x1b[2mx [ 25.00ns | 2.50% ]\x1b[0m");
    assert_eq!(node("x", 1).label(100, &c, false), "\x1b[2mx [ 1.00ns | 1.00% ]\x1b[0m");
}

#[test]
fn the_style_does_not_change_what_the_label_says() {
    let c = PrintTreeConfig::default();
    let mut n = node("x", 40);
    n.metadata.insert("k".to_string(), "v".to_string());
    let plain = n.label(100, &c, true);
    let styled = n.label(100, &c, false);
    assert_eq!(styled, format!("\x1b[1;31m{}\x1b[0m", plain));
}

#[test]
fn a_cloned_node_is_the_same_node() {
    let mut n = node("x", 40);
    n.id = 9;
    n.call_count = 3;
    n.metadata.insert("k".to_string(), "v".to_string());
    let m = n.clone();
    assert_eq!(m.name, "x");
    assert_eq!(m.id, 9);
    assert_eq!(m.execution_duration, 40);
    assert_eq!(m.call_count, 3);
    assert_eq!(m.metadata.get("k").unwrap(), "v");
}
