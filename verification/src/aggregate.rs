//! What becomes of the children of one node before they are shown: adjacent
//! siblings of one name are merged, negligible ones are collapsed, and the time
//! that no child accounts for is made visible.

use vstd::prelude::*;
use crate::config::{is_share_above, is_share_below, share_above, share_below, Config};
use crate::fields::upsert;
use crate::node::{blank, merged, nodes_view, GraphNode, NodeView};
use crate::text::{decimal_text, push_decimal};

verus! {

/// The place of sibling `i` within its run of adjacent siblings of one name,
/// counted from one.
pub open spec fn run_position(raw: Seq<NodeView>, i: int) -> nat
    decreases i,
{
    if 0 < i < raw.len() && raw[i - 1].name == raw[i].name {
        run_position(raw, i - 1) + 1
    } else {
        1
    }
}

/// `c` with its place in the run recorded in its metadata under `index`.
pub open spec fn indexed(c: NodeView, position: nat) -> NodeView {
    NodeView { metadata: upsert(c.metadata, "index"@, decimal_text(position)), ..c }
}

/// The open aggregate after `c` has been folded into it. A fresh aggregate
/// takes the name and the id of `c` and none of its metadata.
pub open spec fn folded(open: Option<NodeView>, c: NodeView) -> NodeView {
    match open {
        Some(a) => merged(a, c),
        None => NodeView { metadata: Seq::empty(), ..c },
    }
}

/// What is shown for the last sibling `c` of a run: the open aggregate with
/// `c` folded in where one is open, else `c` as it is.
pub open spec fn closing(open: Option<NodeView>, c: NodeView) -> NodeView {
    match open {
        Some(a) => merged(a, c),
        None => c,
    }
}

/// The siblings `raw[i..]` after the merging of runs, where `open` is the
/// aggregate that the earlier siblings of the current run have left open.
///
/// A sibling followed by one of the same name is shown by itself, with its
/// place in the run, if its share of `root` is above the relevance threshold,
/// and is folded into the aggregate otherwise. The last sibling of a run
/// closes the aggregate.
pub open spec fn aggregate_from(
    raw: Seq<NodeView>,
    i: int,
    open: Option<NodeView>,
    root: nat,
    config: Config,
) -> Seq<NodeView>
    decreases raw.len() - i,
{
    if i < 0 || i >= raw.len() {
        Seq::empty()
    } else if i + 1 < raw.len() && raw[i + 1].name == raw[i].name {
        if share_above(raw[i].duration, root, config.relevant_above_percent) {
            seq![indexed(raw[i], run_position(raw, i))] + aggregate_from(
                raw,
                i + 1,
                open,
                root,
                config,
            )
        } else {
            aggregate_from(raw, i + 1, Some(folded(open, raw[i])), root, config)
        }
    } else {
        seq![closing(open, raw[i])] + aggregate_from(raw, i + 1, None, root, config)
    }
}

/// The siblings `raw` after the merging of runs of adjacent siblings of one name.
pub open spec fn aggregated(raw: Seq<NodeView>, root: nat, config: Config) -> Seq<NodeView> {
    aggregate_from(raw, 0, None, root, config)
}

/// What an open placeholder contributes to the output when it is closed.
pub open spec fn flushed(open: Option<NodeView>) -> Seq<NodeView> {
    match open {
        Some(p) => seq![p],
        None => Seq::empty(),
    }
}

/// The open placeholder after `c` has been merged into it; a fresh one is
/// named `[...]`.
pub open spec fn hidden(open: Option<NodeView>, c: NodeView) -> NodeView {
    match open {
        Some(p) => merged(p, c),
        None => merged(blank("[...]"@), c),
    }
}

/// The nodes `list[i..]` after collapsing, where `open` is the placeholder
/// that the nodes just before `i` have left open. Each stretch of adjacent
/// nodes whose share of `root` is below the hiding threshold becomes one
/// placeholder that carries their time and their calls.
pub open spec fn collapse_from(
    list: Seq<NodeView>,
    i: int,
    open: Option<NodeView>,
    root: nat,
    config: Config,
) -> Seq<NodeView>
    decreases list.len() - i,
{
    if i < 0 || i >= list.len() {
        flushed(open)
    } else if share_below(list[i].duration, root, config.hide_below_percent) {
        collapse_from(list, i + 1, Some(hidden(open, list[i])), root, config)
    } else {
        flushed(open) + seq![list[i]] + collapse_from(list, i + 1, None, root, config)
    }
}

/// The nodes `list` after collapsing; nothing is collapsed unless the hiding
/// threshold is above zero.
pub open spec fn collapsed(list: Seq<NodeView>, root: nat, config: Config) -> Seq<NodeView> {
    if config.hide_below_percent.millionths > 0 {
        collapse_from(list, 0, None, root, config)
    } else {
        list
    }
}

/// The sum of the durations of `nodes`.
pub open spec fn total_duration(nodes: Seq<NodeView>) -> nat
    decreases nodes.len(),
{
    if nodes.len() == 0 {
        0
    } else {
        total_duration(nodes.drop_last()) + nodes.last().duration
    }
}

/// The node that shows the time of `node` that its children `raw` do not
/// account for: the difference where the children took less than the node,
/// else nothing.
pub open spec fn unaccounted(node: NodeView, raw: Seq<NodeView>) -> NodeView {
    NodeView {
        duration: if total_duration(raw) >= node.duration {
            0
        } else {
            (node.duration - total_duration(raw)) as nat
        },
        ..blank("[unaccounted]"@)
    }
}

/// The children shown below `node`, whose completed children are `raw`, in a
/// tree whose root took `root`: merged, then collapsed, and with the
/// unaccounted time in front where that is asked for and anything is shown.
pub open spec fn surviving(raw: Seq<NodeView>, node: NodeView, root: nat, config: Config) -> Seq<
    NodeView,
> {
    let shown = collapsed(aggregated(raw, root, config), root, config);
    if config.display_unaccounted && shown.len() > 0 {
        seq![unaccounted(node, raw)] + shown
    } else {
        shown
    }
}

/// Merges runs of adjacent siblings of one name.
pub fn aggregate_runs(raw: &Vec<GraphNode>, root_time: u64, config: &Config) -> (out: Vec<GraphNode>)
    ensures
        nodes_view(out@) == aggregated(nodes_view(raw@), root_time as nat, *config),
{
    let ghost rawv = nodes_view(raw@);
    let ghost root = root_time as nat;
    let mut out: Vec<GraphNode> = Vec::new();
    let mut open: Option<GraphNode> = None;
    let mut position: usize = 1;
    let n = raw.len();
    let mut i: usize = 0;
    assert(nodes_view(out@) =~= Seq::<NodeView>::empty());
    while i < n
        invariant
            n == raw@.len(),
            rawv == nodes_view(raw@),
            root == root_time as nat,
            i <= n,
            1 <= position <= i + 1,
            i < n ==> position == run_position(rawv, i as int),
            nodes_view(out@) + aggregate_from(rawv, i as int, option_view(open), root, *config)
                == aggregated(rawv, root, *config),
        decreases n - i,
    {
        let child = &raw[i];
        assert(rawv[i as int] == child@);
        let ghost shown = nodes_view(out@);
        let ghost open_before = option_view(open);
        let in_run = i + 1 < n && raw[i + 1].name == child.name;
        assert(in_run == (i + 1 < rawv.len() && rawv[i + 1].name == rawv[i as int].name));
        if in_run {
            if is_share_above(child.execution_duration, root_time, config.relevant_above_percent) {
                let mut kept = child.clone();
                let mut place = String::new();
                push_decimal(&mut place, position as u128);
                assert(place@ =~= decimal_text(position as nat));
                kept.metadata.insert(String::from_str("index"), place);
                assert(kept@ == indexed(child@, position as nat));
                out.push(kept);
                assert(nodes_view(out@) =~= shown + seq![indexed(rawv[i as int], position as nat)]);
            } else {
                let next = match open {
                    Some(a) => a.aggregate(child),
                    None => {
                        let mut fresh = child.clone();
                        fresh.metadata = crate::fields::FieldMap::new();
                        fresh
                    },
                };
                assert(next@ == folded(open_before, child@));
                open = Some(next);
                assert(nodes_view(out@) =~= shown);
            }
            position = position + 1;
        } else {
            let last = match open {
                Some(a) => a.aggregate(child),
                None => child.clone(),
            };
            assert(last@ == closing(open_before, child@));
            open = None;
            out.push(last);
            assert(nodes_view(out@) =~= shown + seq![closing(open_before, rawv[i as int])]);
            position = 1;
        }
        i = i + 1;
    }
    assert(nodes_view(out@) =~= aggregated(rawv, root, *config));
    out
}

/// The view of a node that may be there.
pub open spec fn option_view(node: Option<GraphNode>) -> Option<NodeView> {
    match node {
        Some(n) => Some(n@),
        None => None,
    }
}

/// Collapses each stretch of adjacent nodes below the hiding threshold into
/// one `[...]` node; hands `list` back as it is unless that threshold is
/// above zero.
pub fn collapse_hidden(list: Vec<GraphNode>, root_time: u64, config: &Config) -> (out: Vec<GraphNode>)
    ensures
        nodes_view(out@) == collapsed(nodes_view(list@), root_time as nat, *config),
{
    if config.hide_below_percent.millionths <= 0 {
        return list;
    }
    let ghost listv = nodes_view(list@);
    let ghost root = root_time as nat;
    let mut out: Vec<GraphNode> = Vec::new();
    let mut open: Option<GraphNode> = None;
    let n = list.len();
    let mut i: usize = 0;
    assert(nodes_view(out@) =~= Seq::<NodeView>::empty());
    while i < n
        invariant
            n == list@.len(),
            listv == nodes_view(list@),
            root == root_time as nat,
            i <= n,
            nodes_view(out@) + collapse_from(listv, i as int, option_view(open), root, *config)
                == collapse_from(listv, 0, None, root, *config),
        decreases n - i,
    {
        let child = &list[i];
        assert(listv[i as int] == child@);
        let ghost shown = nodes_view(out@);
        let ghost open_before = option_view(open);
        if is_share_below(child.execution_duration, root_time, config.hide_below_percent) {
            let next = match open {
                Some(p) => p.aggregate(child),
                None => GraphNode::new(String::from_str("[...]")).aggregate(child),
            };
            assert(next@ == hidden(open_before, child@));
            open = Some(next);
            assert(nodes_view(out@) =~= shown);
        } else {
            match open {
                Some(p) => {
                    out.push(p);
                },
                None => {},
            }
            open = None;
            out.push(child.clone());
            assert(nodes_view(out@) =~= shown + (flushed(open_before) + seq![listv[i as int]]));
            assert(shown + (flushed(open_before) + seq![listv[i as int]]) + collapse_from(
                listv,
                i + 1,
                None,
                root,
                *config,
            ) =~= shown + collapse_from(listv, i as int, open_before, root, *config));
        }
        i = i + 1;
    }
    let ghost shown = nodes_view(out@);
    let ghost open_before = option_view(open);
    match open {
        Some(p) => {
            out.push(p);
        },
        None => {},
    }
    assert(nodes_view(out@) =~= shown + flushed(open_before));
    out
}

/// The sum of the durations of `nodes`, in nanoseconds.
pub fn children_duration(nodes: &Vec<GraphNode>) -> (total: u128)
    ensures
        total == total_duration(nodes_view(nodes@)),
{
    let ghost all = nodes_view(nodes@);
    let n = nodes.len();
    let mut total: u128 = 0;
    let mut i: usize = 0;
    assert(all.take(0) =~= Seq::<NodeView>::empty());
    while i < n
        invariant
            n == nodes@.len(),
            all == nodes_view(nodes@),
            i <= n,
            total == total_duration(all.take(i as int)),
            total <= i * 0xffff_ffff_ffff_ffff,
        decreases n - i,
    {
        proof {
            let grown = all.take(i + 1);
            assert(grown.drop_last() =~= all.take(i as int));
            assert(grown.last() == nodes@[i as int]@);
        }
        assert(i * 0xffff_ffff_ffff_ffff + 0xffff_ffff_ffff_ffff <= u128::MAX) by (nonlinear_arith)
            requires
                i < 0x1_0000_0000_0000_0000,
        ;
        assert((i + 1) * 0xffff_ffff_ffff_ffff == i * 0xffff_ffff_ffff_ffff + 0xffff_ffff_ffff_ffff)
            by (nonlinear_arith);
        total = total + nodes[i].execution_duration as u128;
        i = i + 1;
    }
    assert(all.take(n as int) =~= all);
    total
}

/// The children to show below `node`, whose completed children are `raw`, in
/// a tree whose root took `root_time`.
pub fn surviving_children(
    raw: &Vec<GraphNode>,
    node: &GraphNode,
    root_time: u64,
    config: &Config,
) -> (out: Vec<GraphNode>)
    ensures
        nodes_view(out@) == surviving(nodes_view(raw@), node@, root_time as nat, *config),
{
    let merged_runs = aggregate_runs(raw, root_time, config);
    let mut out = collapse_hidden(merged_runs, root_time, config);
    if config.display_unaccounted && out.len() > 0 {
        let ghost shown = nodes_view(out@);
        let spent = children_duration(raw);
        let mut rest = GraphNode::new(String::from_str("[unaccounted]"));
        if spent < node.execution_duration as u128 {
            rest.execution_duration = ((node.execution_duration as u128) - spent) as u64;
        }
        assert(rest@ == unaccounted(node@, nodes_view(raw@)));
        out.insert(0, rest);
        assert(nodes_view(out@) =~= seq![unaccounted(node@, nodes_view(raw@))] + shown);
    }
    out
}


/// No two adjacent nodes of `list` have the same name.
pub open spec fn no_runs(list: Seq<NodeView>) -> bool {
    forall|i: int| 0 <= i < list.len() - 1 ==> (#[trigger] list[i]).name != list[i + 1].name
}

/// Where no two adjacent siblings share a name, the merging of runs hands
/// the siblings back as they are.
pub proof fn lemma_aggregated_without_runs(raw: Seq<NodeView>, i: int, root: nat, config: Config)
    requires
        no_runs(raw),
        0 <= i <= raw.len(),
    ensures
        aggregate_from(raw, i, None, root, config) == raw.skip(i),
    decreases raw.len() - i,
{
    if i < raw.len() {
        lemma_aggregated_without_runs(raw, i + 1, root, config);
        assert(raw[i].name != raw[i + 1].name || i + 1 >= raw.len());
        assert(seq![raw[i]] + raw.skip(i + 1) =~= raw.skip(i));
    } else {
        assert(raw.skip(i) =~= Seq::<NodeView>::empty());
    }
}

/// With collapsing switched off, the unaccounted time not shown, and no two
/// adjacent siblings of one name, the children that are shown are the
/// completed children themselves: names, durations and metadata untouched.
pub proof fn lemma_survivors_without_merging(
    raw: Seq<NodeView>,
    node: NodeView,
    root: nat,
    config: Config,
)
    requires
        no_runs(raw),
        config.hide_below_percent.millionths <= 0,
        !config.display_unaccounted,
    ensures
        surviving(raw, node, root, config) == raw,
{
    lemma_aggregated_without_runs(raw, 0, root, config);
    assert(raw.skip(0) =~= raw);
}

/// The sum of the calls that `nodes` stand for.
pub open spec fn total_calls(nodes: Seq<NodeView>) -> nat
    decreases nodes.len(),
{
    if nodes.len() == 0 {
        0
    } else {
        total_calls(nodes.drop_last()) + nodes.last().call_count
    }
}

/// The time that an open aggregate or placeholder holds.
pub open spec fn held_duration(open: Option<NodeView>) -> nat {
    match open {
        Some(a) => a.duration,
        None => 0,
    }
}

/// The calls that an open aggregate or placeholder holds.
pub open spec fn held_calls(open: Option<NodeView>) -> nat {
    match open {
        Some(a) => a.call_count,
        None => 0,
    }
}

/// The totals of a single node are its own time and calls.
pub proof fn lemma_totals_of_one(node: NodeView)
    ensures
        total_duration(seq![node]) == node.duration,
        total_calls(seq![node]) == node.call_count,
{
    let one = seq![node];
    assert(one.drop_last() =~= Seq::<NodeView>::empty());
    assert(one.last() == node);
    assert(total_duration(one) == total_duration(one.drop_last()) + one.last().duration);
    assert(total_calls(one) == total_calls(one.drop_last()) + one.last().call_count);
}

/// The totals of two sequences joined are the sums of their totals.
pub proof fn lemma_totals_of_joined(a: Seq<NodeView>, b: Seq<NodeView>)
    ensures
        total_duration(a + b) == total_duration(a) + total_duration(b),
        total_calls(a + b) == total_calls(a) + total_calls(b),
    decreases b.len(),
{
    if b.len() == 0 {
        assert(a + b =~= a);
    } else {
        lemma_totals_of_joined(a, b.drop_last());
        assert((a + b).drop_last() =~= a + b.drop_last());
    }
}

/// The totals of a sequence are those of its first node and of the rest.
pub proof fn lemma_totals_from(nodes: Seq<NodeView>, i: int)
    requires
        0 <= i < nodes.len(),
    ensures
        total_duration(nodes.skip(i)) == nodes[i].duration + total_duration(nodes.skip(i + 1)),
        total_calls(nodes.skip(i)) == nodes[i].call_count + total_calls(nodes.skip(i + 1)),
{
    let first = seq![nodes[i]];
    assert(nodes.skip(i) =~= first + nodes.skip(i + 1));
    lemma_totals_of_joined(first, nodes.skip(i + 1));
    lemma_totals_of_one(nodes[i]);
}

/// Merging loses nothing: as long as no sum outgrows its field, the merged
/// siblings together have the time and the calls of the siblings as they
/// completed, an open aggregate counted in.
pub proof fn lemma_aggregate_from_keeps_totals(
    raw: Seq<NodeView>,
    i: int,
    open: Option<NodeView>,
    root: nat,
    config: Config,
)
    requires
        0 <= i <= raw.len(),
        open is Some ==> i < raw.len(),
        held_duration(open) + total_duration(raw.skip(i)) <= u64::MAX,
        held_calls(open) + total_calls(raw.skip(i)) <= usize::MAX,
    ensures
        total_duration(aggregate_from(raw, i, open, root, config)) == held_duration(open)
            + total_duration(raw.skip(i)),
        total_calls(aggregate_from(raw, i, open, root, config)) == held_calls(open) + total_calls(
            raw.skip(i),
        ),
    decreases raw.len() - i,
{
    if i < raw.len() {
        lemma_totals_from(raw, i);
        let rest = if i + 1 < raw.len() && raw[i + 1].name == raw[i].name {
            if share_above(raw[i].duration, root, config.relevant_above_percent) {
                open
            } else {
                Some(folded(open, raw[i]))
            }
        } else {
            None
        };
        lemma_aggregate_from_keeps_totals(raw, i + 1, rest, root, config);
        let tail = aggregate_from(raw, i + 1, rest, root, config);
        if i + 1 < raw.len() && raw[i + 1].name == raw[i].name {
            if share_above(raw[i].duration, root, config.relevant_above_percent) {
                let head = seq![indexed(raw[i], run_position(raw, i))];
                lemma_totals_of_joined(head, tail);
                lemma_totals_of_one(indexed(raw[i], run_position(raw, i)));
            }
        } else {
            let head = seq![closing(open, raw[i])];
            lemma_totals_of_joined(head, tail);
            lemma_totals_of_one(closing(open, raw[i]));
        }
    } else {
        assert(raw.skip(i) =~= Seq::<NodeView>::empty());
    }
}

/// Collapsing loses nothing: as long as no sum outgrows its field, the nodes
/// after collapsing together have the time and the calls of the nodes before,
/// an open placeholder counted in.
pub proof fn lemma_collapse_from_keeps_totals(
    list: Seq<NodeView>,
    i: int,
    open: Option<NodeView>,
    root: nat,
    config: Config,
)
    requires
        0 <= i <= list.len(),
        held_duration(open) + total_duration(list.skip(i)) <= u64::MAX,
        held_calls(open) + total_calls(list.skip(i)) <= usize::MAX,
    ensures
        total_duration(collapse_from(list, i, open, root, config)) == held_duration(open)
            + total_duration(list.skip(i)),
        total_calls(collapse_from(list, i, open, root, config)) == held_calls(open) + total_calls(
            list.skip(i),
        ),
    decreases list.len() - i,
{
    let out = flushed(open);
    match open {
        Some(p) => {
            lemma_totals_of_one(p);
        },
        None => {},
    }
    if i < list.len() {
        lemma_totals_from(list, i);
        if share_below(list[i].duration, root, config.hide_below_percent) {
            lemma_collapse_from_keeps_totals(list, i + 1, Some(hidden(open, list[i])), root, config);
        } else {
            lemma_collapse_from_keeps_totals(list, i + 1, None, root, config);
            let kept = seq![list[i]];
            let tail = collapse_from(list, i + 1, None, root, config);
            lemma_totals_of_one(list[i]);
            lemma_totals_of_joined(out, kept);
            lemma_totals_of_joined(out + kept, tail);
        }
    } else {
        assert(list.skip(i) =~= Seq::<NodeView>::empty());
    }
}

/// No completed child is lost on the way to the tree: as long as the sums fit
/// their fields, the children that are shown, the unaccounted time aside,
/// together have the time and the calls of the children as they completed.
pub proof fn lemma_shown_children_keep_totals(raw: Seq<NodeView>, root: nat, config: Config)
    requires
        total_duration(raw) <= u64::MAX,
        total_calls(raw) <= usize::MAX,
    ensures
        total_duration(collapsed(aggregated(raw, root, config), root, config)) == total_duration(
            raw,
        ),
        total_calls(collapsed(aggregated(raw, root, config), root, config)) == total_calls(raw),
{
    assert(raw.skip(0) =~= raw);
    lemma_aggregate_from_keeps_totals(raw, 0, None, root, config);
    let merged_runs = aggregated(raw, root, config);
    assert(merged_runs.skip(0) =~= merged_runs);
    if config.hide_below_percent.millionths > 0 {
        lemma_collapse_from_keeps_totals(merged_runs, 0, None, root, config);
    }
}

} // verus!
