use tracing_profile::{
    aggregate_runs, children_duration, collapse_hidden, surviving_children, FieldMap, GraphNode,
    Percent, PrintTreeConfig,
};

fn node(name: &str, id: u64, duration: u64) -> GraphNode {
    let mut metadata = FieldMap::new();
    metadata.insert("own".to_string(), id.to_string());
    GraphNode { name: name.to_string(), id, execution_duration: duration, metadata, call_count: 1 }
}

fn config(relevant: i32, hide: i32, unaccounted: bool) -> PrintTreeConfig {
    PrintTreeConfig {
        attention_above_percent: Percent::whole(25),
        relevant_above_percent: Percent::whole(relevant),
        hide_below_percent: Percent::whole(hide),
        display_unaccounted: unaccounted,
    }
}

fn summary(nodes: &Vec<GraphNode>) -> Vec<(String, u64, u64, usize)> {
    nodes.iter().map(|n| (n.name.clone(), n.id, n.execution_duration, n.call_count)).collect()
}

fn row(name: &str, id: u64, duration: u64, calls: usize) -> (String, u64, u64, usize) {
    (name.to_string(), id, duration, calls)
}

#[test]
fn a_run_keeps_its_significant_members_and_merges_the_rest() {
    let raw = vec![node("A", 1, 10_000), node("A", 2, 1_000), node("A", 3, 1_000), node("B", 4, 5_000)];
    let c = config(5, 0, false);
    let out = aggregate_runs(&raw, 100_000, &c);
    assert_eq!(summary(&out), vec![row("A", 1, 10_000, 1), row("A", 2, 2_000, 2), row("B", 4, 5_000, 1)]);
    assert_eq!(out[0].metadata.get("index").unwrap(), "1");
    assert_eq!(out[0].metadata.get("own").unwrap(), "1");
    assert!(out[1].metadata.is_empty());
    assert!(out[2].metadata.get("index").is_none());
    assert_eq!(out[2].metadata.get("own").unwrap(), "4");
    assert_eq!(out[0].label(100_000, &c, true), "A [ 10.00µs | 10.00% ] { index = 1, own = 1 }");
    assert_eq!(out[1].label(100_000, &c, true), "A [ 2.00µs | 2.00% ] (2 calls)");
    assert_eq!(out[2].label(100_000, &c, true), "B [ 5.00µs | 5.00% ] { own = 4 }");
}

#[test]
fn a_run_of_small_members_becomes_one_node() {
    let raw = vec![node("A", 5, 100), node("A", 6, 200), node("A", 7, 300)];
    let out = aggregate_runs(&raw, 100_000, &config(5, 0, false));
    assert_eq!(summary(&out), vec![row("A", 5, 600, 3)]);
    assert!(out[0].metadata.is_empty());
}

#[test]
fn merged_members_bring_their_own_calls() {
    let mut first = node("A", 1, 100);
    first.call_count = 4;
    let mut second = node("A", 2, 100);
    second.call_count = 6;
    let out = aggregate_runs(&vec![first, second], 100_000, &config(5, 0, false));
    assert_eq!(summary(&out), vec![row("A", 1, 200, 10)]);
}

#[test]
fn only_adjacent_siblings_of_one_name_form_a_run() {
    let raw = vec![node("A", 1, 100), node("B", 2, 100), node("A", 3, 100)];
    let out = aggregate_runs(&raw, 100_000, &config(5, 0, false));
    assert_eq!(summary(&out), vec![row("A", 1, 100, 1), row("B", 2, 100, 1), row("A", 3, 100, 1)]);
    assert_eq!(out[0].metadata.get("own").unwrap(), "1");
    assert!(out[0].metadata.get("index").is_none());
}

#[test]
fn significant_members_are_numbered_within_their_run() {
    let raw = vec![
        node("A", 1, 10_000),
        node("A", 2, 10_000),
        node("A", 3, 10_000),
        node("B", 4, 10_000),
        node("A", 5, 10_000),
        node("A", 6, 10_000),
    ];
    let out = aggregate_runs(&raw, 100_000, &config(5, 0, false));
    assert_eq!(out.len(), 6);
    assert_eq!(out[0].metadata.get("index").unwrap(), "1");
    assert_eq!(out[1].metadata.get("index").unwrap(), "2");
    assert!(out[2].metadata.get("index").is_none());
    assert!(out[3].metadata.get("index").is_none());
    assert_eq!(out[4].metadata.get("index").unwrap(), "1");
    assert!(out[5].metadata.get("index").is_none());
    assert_eq!(summary(&out)[2], row("A", 3, 10_000, 1));
}

#[test]
fn the_number_counts_the_merged_members_too() {
    let raw = vec![node("A", 1, 100), node("A", 2, 10_000), node("A", 3, 100), node("A", 4, 100)];
    let out = aggregate_runs(&raw, 100_000, &config(5, 0, false));
    assert_eq!(summary(&out), vec![row("A", 2, 10_000, 1), row("A", 1, 300, 3)]);
    assert_eq!(out[0].metadata.get("index").unwrap(), "2");
}

#[test]
fn the_last_of_a_run_closes_an_open_aggregate_whatever_its_share() {
    let raw = vec![node("A", 1, 100), node("A", 2, 50_000)];
    let out = aggregate_runs(&raw, 100_000, &config(5, 0, false));
    assert_eq!(summary(&out), vec![row("A", 1, 50_100, 2)]);
}

#[test]
fn a_share_at_the_relevance_threshold_is_merged() {
    let raw = vec![node("A", 1, 5_000), node("A", 2, 5_001), node("A", 3, 1)];
    let out = aggregate_runs(&raw, 100_000, &config(5, 0, false));
    assert_eq!(summary(&out), vec![row("A", 2, 5_001, 1), row("A", 1, 5_001, 2)]);
}

#[test]
fn nothing_to_merge_in_no_children_or_one() {
    let c = config(5, 0, false);
    assert!(aggregate_runs(&vec![], 100, &c).is_empty());
    let out = aggregate_runs(&vec![node("A", 1, 1)], 100, &c);
    assert_eq!(summary(&out), vec![row("A", 1, 1, 1)]);
    assert_eq!(out[0].metadata.get("own").unwrap(), "1");
}

#[test]
fn negligible_nodes_collapse_into_a_placeholder() {
    let list = vec![node("A", 1, 500), node("B", 2, 300), node("C", 3, 5_000)];
    let c = config(5, 1, false);
    let out = collapse_hidden(list, 100_000, &c);
    assert_eq!(summary(&out), vec![row("[...]", 0, 800, 2), row("C", 3, 5_000, 1)]);
    assert!(out[0].metadata.is_empty());
    assert_eq!(out[0].label(100_000, &c, true), "[...] [ 800.00ns | 0.80% ] (2 calls)");
    assert_eq!(out[1].metadata.get("own").unwrap(), "3");
}

#[test]
fn each_stretch_of_negligible_nodes_has_its_own_placeholder() {
    let list = vec![
        node("A", 1, 500),
        node("C", 2, 5_000),
        node("B", 3, 300),
        node("B2", 4, 200),
        node("D", 5, 9_000),
        node("E", 6, 1),
    ];
    let out = collapse_hidden(list, 100_000, &config(5, 1, false));
    assert_eq!(
        summary(&out),
        vec![
            row("[...]", 0, 500, 1),
            row("C", 2, 5_000, 1),
            row("[...]", 0, 500, 2),
            row("D", 5, 9_000, 1),
            row("[...]", 0, 1, 1),
        ]
    );
}

#[test]
fn a_share_at_the_hiding_threshold_stays() {
    let list = vec![node("A", 1, 1_000), node("B", 2, 999)];
    let out = collapse_hidden(list, 100_000, &config(5, 1, false));
    assert_eq!(summary(&out), vec![row("A", 1, 1_000, 1), row("[...]", 0, 999, 1)]);
}

#[test]
fn nothing_collapses_unless_the_threshold_is_above_zero() {
    let out = collapse_hidden(vec![node("A", 1, 0), node("B", 2, 1)], 100_000, &config(5, 0, false));
    assert_eq!(summary(&out), vec![row("A", 1, 0, 1), row("B", 2, 1, 1)]);
    let out = collapse_hidden(vec![node("A", 1, 0), node("B", 2, 1)], 100_000, &config(5, -3, false));
    assert_eq!(summary(&out), vec![row("A", 1, 0, 1), row("B", 2, 1, 1)]);
}

#[test]
fn in_a_root_of_no_duration_everything_collapses() {
    let out = collapse_hidden(vec![node("A", 1, 7), node("B", 2, 1)], 0, &config(5, 1, false));
    assert_eq!(summary(&out), vec![row("[...]", 0, 8, 2)]);
}

#[test]
fn the_time_of_all_children_is_summed_exactly() {
    assert_eq!(children_duration(&vec![]), 0);
    assert_eq!(children_duration(&vec![node("A", 1, 30), node("B", 2, 20)]), 50);
    let big = vec![node("A", 1, u64::MAX), node("B", 2, u64::MAX), node("C", 3, 2)];
    assert_eq!(children_duration(&big), 2 * (u64::MAX as u128) + 2);
}

#[test]
fn unaccounted_time_is_shown_in_front() {
    let parent = node("P", 9, 100_000_000);
    let raw = vec![node("X", 1, 30_000_000), node("Y", 2, 20_000_000)];
    let c = config(5, 0, true);
    let out = surviving_children(&raw, &parent, 100_000_000, &c);
    assert_eq!(
        summary(&out),
        vec![row("[unaccounted]", 0, 50_000_000, 0), row("X", 1, 30_000_000, 1), row("Y", 2, 20_000_000, 1)]
    );
    assert!(out[0].metadata.is_empty());
    assert_eq!(out[0].label(100_000_000, &c, true), "[unaccounted] [ 50.00ms | 50.00% ]");
}

#[test]
fn unaccounted_time_counts_the_children_as_they_completed() {
    let parent = node("P", 9, 100_000);
    let raw = vec![node("A", 1, 100), node("A", 2, 200), node("B", 3, 400)];
    let out = surviving_children(&raw, &parent, 100_000, &config(5, 1, true));
    assert_eq!(summary(&out), vec![row("[unaccounted]", 0, 99_300, 0), row("[...]", 0, 700, 3)]);
}

#[test]
fn children_that_took_longer_than_the_parent_leave_nothing_unaccounted() {
    let parent = node("P", 9, 40);
    let raw = vec![node("X", 1, 30), node("Y", 2, 20)];
    let out = surviving_children(&raw, &parent, 40, &config(5, 0, true));
    assert_eq!(summary(&out)[0], row("[unaccounted]", 0, 0, 0));
    assert_eq!(out.len(), 3);
}

#[test]
fn no_unaccounted_time_without_children_or_without_asking() {
    let parent = node("P", 9, 100);
    assert!(surviving_children(&vec![], &parent, 100, &config(5, 0, true)).is_empty());
    let out = surviving_children(&vec![node("X", 1, 30)], &parent, 100, &config(5, 0, false));
    assert_eq!(summary(&out), vec![row("X", 1, 30, 1)]);
}

#[test]
fn merging_comes_before_collapsing() {
    let parent = node("P", 9, 100_000);
    let raw = vec![node("A", 1, 600), node("A", 2, 600), node("B", 3, 600)];
    let out = surviving_children(&raw, &parent, 100_000, &config(5, 1, false));
    assert_eq!(summary(&out), vec![row("A", 1, 1_200, 2), row("[...]", 0, 600, 1)]);
}

#[test]
fn without_runs_and_without_collapsing_the_children_stay_as_they_are() {
    let parent = node("P", 9, 100_000);
    let raw = vec![node("A", 1, 1), node("B", 2, 50_000), node("A", 3, 0), node("C", 4, 7)];
    let out = surviving_children(&raw, &parent, 100_000, &config(100, 0, false));
    assert_eq!(summary(&out), summary(&raw));
    for (shown, completed) in out.iter().zip(raw.iter()) {
        assert_eq!(shown.metadata.len(), 1);
        assert_eq!(shown.metadata.get("own"), completed.metadata.get("own"));
    }
}

#[test]
fn no_time_and_no_call_is_lost_on_the_way() {
    let parent = node("P", 9, 1_000_000);
    let raw = vec![
        node("A", 1, 100),
        node("A", 2, 90_000),
        node("A", 3, 200),
        node("A", 4, 300),
        node("B", 5, 50),
        node("C", 6, 60),
        node("D", 7, 400_000),
        node("D", 8, 70),
    ];
    let out = surviving_children(&raw, &parent, 1_000_000, &config(5, 1, false));
    assert_eq!(
        summary(&out),
        vec![row("A", 2, 90_000, 1), row("[...]", 0, 710, 5), row("D", 7, 400_000, 1), row("[...]", 0, 70, 1)]
    );
    let time: u64 = out.iter().map(|n| n.execution_duration).sum();
    let calls: usize = out.iter().map(|n| n.call_count).sum();
    assert_eq!(time as u128, children_duration(&raw));
    assert_eq!(calls, raw.len());
}
