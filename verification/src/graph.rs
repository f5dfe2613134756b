//! The index of completed child spans by parent, and the rendering of a
//! finished root into a labelled tree.

use vstd::prelude::*;
use std::collections::HashMap;
use crate::aggregate::{lemma_survivors_without_merging, no_runs, surviving, surviving_children};
use crate::config::Config;
use crate::error::TraceError;
use crate::fields::{record_from, Entry, FieldValue};
use crate::span_metadata::{elapsed, GraphMetadata};
use crate::storage_utils::{insert_to_span_storage, with_span_storage_mut, SpanStorage};
use crate::log_tree::{forest_view, LogTree, TreeView};
use crate::node::{label_text, nodes_view, GraphNode, NodeView};

verus! {

/// The index as mathematics: for each parent id that has any, its completed
/// children in the order in which they completed.
pub type Index = Map<u64, Seq<NodeView>>;

/// The children that `index` holds for `parent`; none where it has no entry.
pub open spec fn children_of(index: Index, parent: u64) -> Seq<NodeView> {
    if index.dom().contains(parent) {
        index[parent]
    } else {
        Seq::empty()
    }
}

/// The tree below `node` and the index that is left once the tree is built.
///
/// The children of `node` are taken out of the index, so that no list is
/// shown twice. With `merging` they are merged, collapsed and completed as
/// `surviving` says; without it they are shown as they are. Each child that
/// is shown is unfolded in turn, against the index that the children before
/// it have left.
pub open spec fn unfold_node(
    index: Index,
    node: NodeView,
    root: nat,
    config: Config,
    no_color: bool,
    merging: bool,
) -> (TreeView, Index)
    decreases index.dom().len(), 0nat, 0nat,
{
    let label = label_text(node, root, config, no_color);
    if index.dom().finite() && index.dom().contains(node.id) {
        let raw = index[node.id];
        let shown = if merging {
            surviving(raw, node, root, config)
        } else {
            raw
        };
        let below = unfold_all(index.remove(node.id), shown, 0, root, config, no_color, merging);
        (TreeView { label, children: below.0 }, below.1)
    } else {
        (TreeView { label, children: Seq::empty() }, index)
    }
}

/// The trees below the nodes `shown[from..]`, in order, and the index that is
/// left after the last of them.
///
/// The comparison of the two sizes makes the definition well founded. It never
/// fails: `lemma_unfold_all_shrinks` shows that the index only shrinks, and
/// gives the definition without the comparison.
pub open spec fn unfold_all(
    index: Index,
    shown: Seq<NodeView>,
    from: int,
    root: nat,
    config: Config,
    no_color: bool,
    merging: bool,
) -> (Seq<TreeView>, Index)
    decreases index.dom().len(), 1nat, shown.len() - from,
{
    if from < 0 || from >= shown.len() {
        (Seq::empty(), index)
    } else {
        let first = unfold_node(index, shown[from], root, config, no_color, merging);
        if first.1.dom().len() <= index.dom().len() {
            let others = unfold_all(first.1, shown, from + 1, root, config, no_color, merging);
            (seq![first.0] + others.0, others.1)
        } else {
            (seq![first.0], first.1)
        }
    }
}

/// The tree that a completed root is rendered into, and the index left over.
pub open spec fn rendered(index: Index, node: NodeView, root: nat, config: Config, no_color: bool) -> (
    TreeView,
    Index,
) {
    unfold_node(index, node, root, config, no_color, true)
}

/// The completed children of every span that has any, by the id of the
/// parent, with the settings by which a root is rendered.
pub struct TracingGraph {
    children: HashMap<u64, Vec<GraphNode>>,
    config: Config,
    no_color: bool,
}

impl TracingGraph {
    /// The index: for each parent id that has any, its completed children in
    /// the order in which they completed.
    pub closed spec fn index(&self) -> Index {
        self.children@.map_values(|list: Vec<GraphNode>| nodes_view(list@))
    }

    /// The thresholds by which a root is rendered.
    pub closed spec fn config(&self) -> Config {
        self.config
    }

    /// Whether labels are left without colour.
    pub closed spec fn no_color(&self) -> bool {
        self.no_color
    }

    /// An empty index with the given settings.
    pub fn new(config: Config, no_color: bool) -> (r: Self)
        ensures
            r.index() == Map::<u64, Seq<NodeView>>::empty(),
            r.config() == config,
            r.no_color() == no_color,
    {
        let r = TracingGraph { children: HashMap::new(), config, no_color };
        assert(r.index() =~= Map::<u64, Seq<NodeView>>::empty());
        r
    }

    /// Appends `node` to the completed children of `parent_id`.
    pub fn insert(&mut self, parent_id: u64, node: GraphNode)
        ensures
            final(self).index() == old(self).index().insert(
                parent_id,
                children_of(old(self).index(), parent_id).push(node@),
            ),
            final(self).config() == old(self).config(),
            final(self).no_color() == old(self).no_color(),
    {
        let ghost nodev = node@;
        let mut list = match self.children.remove(&parent_id) {
            Some(list) => list,
            None => Vec::new(),
        };
        assert(nodes_view(list@) =~= children_of(old(self).index(), parent_id));
        list.push(node);
        assert(nodes_view(list@) =~= children_of(old(self).index(), parent_id).push(nodev));
        self.children.insert(parent_id, list);
        assert(self.index() =~= old(self).index().insert(
            parent_id,
            children_of(old(self).index(), parent_id).push(nodev),
        ));
    }

    /// Hands out the completed children of `parent_id` and removes them from
    /// the index.
    pub fn take_all(&mut self, parent_id: u64) -> (list: Vec<GraphNode>)
        ensures
            nodes_view(list@) == children_of(old(self).index(), parent_id),
            final(self).index() == old(self).index().remove(parent_id),
            final(self).config() == old(self).config(),
            final(self).no_color() == old(self).no_color(),
    {
        let list = match self.children.remove(&parent_id) {
            Some(list) => list,
            None => Vec::new(),
        };
        assert(nodes_view(list@) =~= children_of(old(self).index(), parent_id));
        assert(self.index() =~= old(self).index().remove(parent_id));
        list
    }

    /// Whether the index holds children for `parent_id`.
    pub fn has_children(&self, parent_id: u64) -> (b: bool)
        ensures
            b == self.index().dom().contains(parent_id),
    {
        self.children.contains_key(&parent_id)
    }

    /// The number of parents for which the index holds children.
    pub fn len(&self) -> (n: usize)
        ensures
            n == self.index().dom().len(),
    {
        assert(self.index().dom() =~= self.children@.dom());
        self.children.len()
    }

    /// Empties the index.
    pub fn clear(&mut self)
        ensures
            final(self).index() == Map::<u64, Seq<NodeView>>::empty(),
            final(self).config() == old(self).config(),
            final(self).no_color() == old(self).no_color(),
    {
        self.children.clear();
        assert(self.index() =~= Map::<u64, Seq<NodeView>>::empty());
    }

    /// Renders the tree below `node` in a trace whose root took `root_time`,
    /// taking out of the index every list of children that it shows.
    pub fn render_tree(&mut self, node: &GraphNode, root_time: u64) -> (tree: LogTree)
        ensures
            (tree@, final(self).index()) == rendered(
                old(self).index(),
                node@,
                root_time as nat,
                old(self).config(),
                old(self).no_color(),
            ),
            final(self).index().dom().subset_of(old(self).index().dom()),
            final(self).config() == old(self).config(),
            final(self).no_color() == old(self).no_color(),
        decreases old(self).index().dom().len(),
    {
        let ghost start = self.index();
        let ghost root = root_time as nat;
        let ghost config = self.config;
        let ghost no_color = self.no_color;
        assert(start.dom() =~= self.children@.dom());
        let label = node.label(root_time, &self.config, self.no_color);
        if !self.children.contains_key(&node.id) {
            let tree = LogTree::leaf(label);
            return tree;
        }
        let raw = self.take_all(node.id);
        let shown = surviving_children(&raw, node, root_time, &self.config);
        let ghost after = self.index();
        let ghost shownv = nodes_view(shown@);
        assert(shownv == surviving(start[node.id], node@, root, config));
        assert(after == start.remove(node.id));
        assert(after.dom() =~= start.dom().remove(node.id));
        let mut trees: Vec<LogTree> = Vec::new();
        let n = shown.len();
        let mut i: usize = 0;
        assert(forest_view(trees@) =~= Seq::<TreeView>::empty());
        while i < n
            invariant
                n == shown@.len(),
                shownv == nodes_view(shown@),
                root == root_time as nat,
                self.config() == config,
                self.no_color() == no_color,
                i <= n,
                start == old(self).index(),
                start.dom().finite(),
                start.dom().contains(node.id),
                self.index().dom().subset_of(after.dom()),
                after.dom() == start.dom().remove(node.id),
                ({
                    let rest = unfold_all(self.index(), shownv, i as int, root, config, no_color, true);
                    let whole = unfold_all(after, shownv, 0, root, config, no_color, true);
                    forest_view(trees@) + rest.0 == whole.0 && rest.1 == whole.1
                }),
            decreases n - i,
        {
            let ghost here = self.index();
            let ghost built = forest_view(trees@);
            proof {
                vstd::set_lib::lemma_len_subset(here.dom(), after.dom());
                assert(here.dom().len() < start.dom().len());
            }
            let tree = self.render_tree(&shown[i], root_time);
            proof {
                assert(shownv[i as int] == shown@[i as int]@);
                vstd::set_lib::lemma_len_subset(self.index().dom(), here.dom());
            }
            trees.push(tree);
            assert(forest_view(trees@) =~= built + seq![tree@]);
            assert(forall|a: Seq<TreeView>, b: Seq<TreeView>, c: Seq<TreeView>|
                a + (b + c) =~= (a + b) + c);
            i = i + 1;
        }
        let tree = LogTree { label, children: trees };
        tree
    }
}


/// What the layer stores for a live span.
#[derive(Debug)]
pub struct SpanRecord {
    pub name: String,
    /// The id of the span's parent; `None` for a root.
    pub parent: Option<u64>,
    pub storage: GraphMetadata,
}

/// The storage of a live span as mathematics.
pub struct RecordView {
    pub name: Seq<char>,
    pub parent: Option<u64>,
    pub start_time: Option<u64>,
    pub fields: Seq<Entry>,
}

impl View for SpanRecord {
    type V = RecordView;

    open spec fn view(&self) -> RecordView {
        RecordView {
            name: self.name@,
            parent: self.parent,
            start_time: self.storage.start_time,
            fields: self.storage.fields@,
        }
    }
}

/// The state of the layer as mathematics.
pub struct LayerView {
    /// The storage of each live span.
    pub spans: Map<u64, RecordView>,
    /// The completed children of each span that has any.
    pub index: Index,
    pub config: Config,
    pub no_color: bool,
}

/// What the instrumented program tells the layer about a span. Times are
/// nanoseconds on a monotonic clock.
#[derive(Debug)]
pub enum SpanEvent {
    /// The span `id` came to be, below `parent` if it has one.
    Create { id: u64, parent: Option<u64>, name: String, fields: Vec<(String, FieldValue)> },
    /// Values were recorded against the span.
    Record { id: u64, fields: Vec<(String, FieldValue)> },
    /// The span was entered at `now`.
    Enter { id: u64, now: u64 },
    /// The span was left at `now`.
    Exit { id: u64, now: u64 },
    /// The span is gone, and its storage with it.
    Close { id: u64 },
}

/// The node that a span with storage `record` turns into when it is left at `now`.
pub open spec fn exit_node(record: RecordView, id: u64, now: u64) -> NodeView {
    NodeView {
        name: record.name,
        id,
        duration: elapsed(record.start_time, now),
        metadata: record.fields,
        call_count: 1,
    }
}

/// The state after the span `id` was created: it has storage of its own, with
/// the fields it was created with and no start time.
pub open spec fn after_create(
    s: LayerView,
    id: u64,
    parent: Option<u64>,
    name: Seq<char>,
    fields: Seq<(String, FieldValue)>,
) -> LayerView {
    LayerView {
        spans: s.spans.insert(
            id,
            RecordView {
                name,
                parent,
                start_time: None,
                fields: record_from(Seq::empty(), fields, 0),
            },
        ),
        ..s
    }
}

/// The state after values were recorded against the span `id`; the same state
/// where nothing is stored for `id`.
pub open spec fn after_record(s: LayerView, id: u64, fields: Seq<(String, FieldValue)>) -> LayerView {
    if s.spans.dom().contains(id) {
        LayerView {
            spans: s.spans.insert(
                id,
                RecordView { fields: record_from(s.spans[id].fields, fields, 0), ..s.spans[id] },
            ),
            ..s
        }
    } else {
        s
    }
}

/// The state after the span `id` was entered at `now`; the same state where
/// nothing is stored for `id`.
pub open spec fn after_enter(s: LayerView, id: u64, now: u64) -> LayerView {
    if s.spans.dom().contains(id) {
        LayerView {
            spans: s.spans.insert(id, RecordView { start_time: Some(now), ..s.spans[id] }),
            ..s
        }
    } else {
        s
    }
}

/// The node that leaving the span `id` at `now` produces: one for a span that
/// has storage, none otherwise.
pub open spec fn node_at_exit(s: LayerView, id: u64, now: u64) -> Option<NodeView> {
    if s.spans.dom().contains(id) {
        Some(exit_node(s.spans[id], id, now))
    } else {
        None
    }
}

/// The state after the span `id` was left at `now`. Its fields have gone into
/// its node. The node of a span with a parent joins the parent's completed
/// children; the node of a root is rendered, and the index is empty
/// afterwards. The same state where nothing is stored for `id`.
pub open spec fn after_exit(s: LayerView, id: u64, now: u64) -> LayerView {
    if s.spans.dom().contains(id) {
        let record = s.spans[id];
        let node = exit_node(record, id, now);
        let spans = s.spans.insert(id, RecordView { fields: Seq::empty(), ..record });
        match record.parent {
            Some(p) => LayerView {
                spans,
                index: s.index.insert(p, children_of(s.index, p).push(node)),
                ..s
            },
            None => LayerView { spans, index: Map::empty(), ..s },
        }
    } else {
        s
    }
}

/// The tree that leaving the span `id` at `now` gives: that of the whole
/// trace where the span is a root with storage, with the root's own duration
/// as the whole; none otherwise.
pub open spec fn tree_at_exit(s: LayerView, id: u64, now: u64) -> Option<TreeView> {
    if s.spans.dom().contains(id) && s.spans[id].parent is None {
        let node = exit_node(s.spans[id], id, now);
        Some(rendered(s.index, node, node.duration, s.config, s.no_color).0)
    } else {
        None
    }
}

/// The state after the span `id` was closed: nothing is stored for it.
pub open spec fn after_close(s: LayerView, id: u64) -> LayerView {
    LayerView { spans: s.spans.remove(id), ..s }
}

/// The state after one event.
pub open spec fn step(s: LayerView, event: SpanEvent) -> LayerView {
    match event {
        SpanEvent::Create { id, parent, name, fields } => after_create(s, id, parent, name@, fields@),
        SpanEvent::Record { id, fields } => after_record(s, id, fields@),
        SpanEvent::Enter { id, now } => after_enter(s, id, now),
        SpanEvent::Exit { id, now } => after_exit(s, id, now),
        SpanEvent::Close { id } => after_close(s, id),
    }
}

/// The node that one event produces in state `s`, if any.
pub open spec fn node_of(s: LayerView, event: SpanEvent) -> Option<NodeView> {
    match event {
        SpanEvent::Exit { id, now } => node_at_exit(s, id, now),
        _ => None,
    }
}

/// Whether the event is one that needs the storage of its span, and the span
/// has none.
pub open spec fn names_unknown_span(s: LayerView, event: SpanEvent) -> bool {
    match event {
        SpanEvent::Record { id, .. } => !s.spans.dom().contains(id),
        SpanEvent::Enter { id, .. } => !s.spans.dom().contains(id),
        SpanEvent::Exit { id, .. } => !s.spans.dom().contains(id),
        _ => false,
    }
}

/// The view of a tree that may be there.
pub open spec fn option_tree_view(tree: Option<LogTree>) -> Option<TreeView> {
    match tree {
        Some(t) => Some(t@),
        None => None,
    }
}

/// The layer that turns the life of spans into a printed call tree: it keeps
/// storage for each live span, collects completed spans under their parents,
/// and renders the trace when a root completes.
pub struct Layer {
    graph: TracingGraph,
    spans: SpanStorage<SpanRecord>,
}

impl View for Layer {
    type V = LayerView;

    closed spec fn view(&self) -> LayerView {
        LayerView {
            spans: self.spans@.map_values(|r: SpanRecord| r@),
            index: self.graph.index(),
            config: self.graph.config(),
            no_color: self.graph.no_color(),
        }
    }
}

impl Layer {
    /// A layer with no live span and nothing completed.
    pub fn new(config: Config, no_color: bool) -> (r: Self)
        ensures
            r@ == (LayerView {
                spans: Map::empty(),
                index: Map::empty(),
                config,
                no_color,
            }),
    {
        let r = Layer { graph: TracingGraph::new(config, no_color), spans: SpanStorage::new() };
        assert(r@.spans =~= Map::<u64, RecordView>::empty());
        r
    }

    /// Whether the layer has storage for the span `id`.
    pub fn is_live(&self, id: u64) -> (b: bool)
        ensures
            b == self@.spans.dom().contains(id),
    {
        self.spans.contains(id)
    }

    /// Whether the index holds completed children for `parent_id`.
    pub fn has_children(&self, parent_id: u64) -> (b: bool)
        ensures
            b == self@.index.dom().contains(parent_id),
    {
        self.graph.has_children(parent_id)
    }

    /// Gives the new span `id` its storage, with the fields it was created with.
    pub fn on_new_span(
        &mut self,
        id: u64,
        parent: Option<u64>,
        name: String,
        fields: &Vec<(String, FieldValue)>,
    )
        ensures
            final(self)@ == after_create(old(self)@, id, parent, name@, fields@),
    {
        let mut storage = GraphMetadata::new();
        storage.record(fields);
        let record = SpanRecord { name, parent, storage };
        insert_to_span_storage(&mut self.spans, id, record);
        assert(self@.spans =~= old(self)@.spans.insert(id, record@));
    }

    /// Merges recorded values into the fields of the span `id`. Where nothing
    /// is stored for `id`, nothing changes and the error says so.
    pub fn on_record(&mut self, id: u64, fields: &Vec<(String, FieldValue)>) -> (r: Result<
        (),
        TraceError,
    >)
        ensures
            final(self)@ == after_record(old(self)@, id, fields@),
            match r {
                Ok(_) => old(self)@.spans.dom().contains(id),
                Err(e) => e == TraceError::SpanNotFound && !old(self)@.spans.dom().contains(id),
            },
    {
        let change = |record: SpanRecord| -> (out: SpanRecord)
            ensures
                out@ == (RecordView {
                    fields: record_from(record@.fields, fields@, 0),
                    ..record@
                }),
            {
                let mut out = record;
                out.storage.record(fields);
                out
            };
        let r = with_span_storage_mut(&mut self.spans, id, change);
        proof {
            if r is Ok {
                assert(self@.spans =~= old(self)@.spans.insert(id, self.spans@[id]@));
            } else {
                assert(self@.spans =~= old(self)@.spans);
            }
        }
        r
    }

    /// Starts the timer of the span `id` at `now`. Where nothing is stored for
    /// `id`, nothing changes and the error says so.
    pub fn on_enter(&mut self, id: u64, now: u64) -> (r: Result<(), TraceError>)
        ensures
            final(self)@ == after_enter(old(self)@, id, now),
            match r {
                Ok(_) => old(self)@.spans.dom().contains(id),
                Err(e) => e == TraceError::SpanNotFound && !old(self)@.spans.dom().contains(id),
            },
    {
        let change = |record: SpanRecord| -> (out: SpanRecord)
            ensures
                out@ == (RecordView { start_time: Some(now), ..record@ }),
            {
                let mut out = record;
                out.storage.enter(now);
                out
            };
        let r = with_span_storage_mut(&mut self.spans, id, change);
        proof {
            if r is Ok {
                assert(self@.spans =~= old(self)@.spans.insert(id, self.spans@[id]@));
            } else {
                assert(self@.spans =~= old(self)@.spans);
            }
        }
        r
    }

    /// Turns the span `id`, left at `now`, into a node. The node of a span
    /// with a parent is kept for the parent, and nothing is handed back. The
    /// node of a root is rendered with all that was kept below it, the index
    /// is emptied, and the tree is handed back. Where nothing is stored for
    /// `id`, nothing changes and the error says so.
    pub fn on_exit(&mut self, id: u64, now: u64) -> (r: Result<Option<LogTree>, TraceError>)
        ensures
            final(self)@ == after_exit(old(self)@, id, now),
            match r {
                Ok(tree) => old(self)@.spans.dom().contains(id) && option_tree_view(tree)
                    == tree_at_exit(old(self)@, id, now),
                Err(e) => e == TraceError::SpanNotFound && !old(self)@.spans.dom().contains(id),
            },
    {
        let mut record = match self.spans.remove(id) {
            Some(record) => record,
            None => {
                assert(self@.spans =~= old(self)@.spans);
                return Err(TraceError::SpanNotFound);
            },
        };
        let ghost before = record@;
        assert(before == old(self)@.spans[id]);
        let (duration, fields) = record.storage.exit(now);
        let node = GraphNode {
            name: record.name.clone(),
            id,
            execution_duration: duration,
            metadata: fields,
            call_count: 1,
        };
        assert(node@ == exit_node(before, id, now));
        let parent = record.parent;
        insert_to_span_storage(&mut self.spans, id, record);
        assert(self@.spans =~= old(self)@.spans.insert(
            id,
            RecordView { fields: Seq::empty(), ..before },
        ));
        match parent {
            Some(p) => {
                self.graph.insert(p, node);
                Ok(None)
            },
            None => {
                let tree = self.graph.render_tree(&node, duration);
                self.graph.clear();
                Ok(Some(tree))
            },
        }
    }

    /// Drops the storage of the span `id`.
    pub fn on_close(&mut self, id: u64)
        ensures
            final(self)@ == after_close(old(self)@, id),
    {
        let _ = self.spans.remove(id);
        assert(self@.spans =~= old(self)@.spans.remove(id));
    }

    /// Takes one event. What is handed back is the tree of the trace where the
    /// event completes a root; an event that names a span without storage
    /// changes nothing and gives the error.
    pub fn handle(&mut self, event: &SpanEvent) -> (r: Result<Option<LogTree>, TraceError>)
        ensures
            final(self)@ == step(old(self)@, *event),
            match r {
                Ok(tree) => !names_unknown_span(old(self)@, *event) && option_tree_view(tree) == (
                match *event {
                    SpanEvent::Exit { id, now } => tree_at_exit(old(self)@, id, now),
                    _ => None,
                }),
                Err(e) => e == TraceError::SpanNotFound && names_unknown_span(old(self)@, *event),
            },
    {
        match event {
            SpanEvent::Create { id, parent, name, fields } => {
                self.on_new_span(*id, *parent, name.clone(), fields);
                Ok(None)
            },
            SpanEvent::Record { id, fields } => match self.on_record(*id, fields) {
                Ok(_) => Ok(None),
                Err(e) => Err(e),
            },
            SpanEvent::Enter { id, now } => match self.on_enter(*id, *now) {
                Ok(_) => Ok(None),
                Err(e) => Err(e),
            },
            SpanEvent::Exit { id, now } => self.on_exit(*id, *now),
            SpanEvent::Close { id } => {
                self.on_close(*id);
                Ok(None)
            },
        }
    }
}


proof fn lemma_submap_transitive(a: Index, b: Index, c: Index)
    requires
        a.submap_of(b),
        b.submap_of(c),
    ensures
        a.submap_of(c),
{
    assert forall|k: u64|
        #![trigger a.dom().contains(k), c.dom().contains(k)]
        !a.dom().contains(k) || (c.dom().contains(k) && a[k] == c[k]) by {
        if a.dom().contains(k) {
            assert(b.dom().contains(k));
            assert(c.dom().contains(k));
        }
    }
}

/// Unfolding a node only ever takes lists out of the index: what is left
/// holds no new parent, holds each remaining list unchanged, and no longer
/// holds the children of the node itself.
pub proof fn lemma_unfold_node_shrinks(
    index: Index,
    node: NodeView,
    root: nat,
    config: Config,
    no_color: bool,
    merging: bool,
)
    ensures
        unfold_node(index, node, root, config, no_color, merging).1.submap_of(index),
        unfold_node(index, node, root, config, no_color, merging).1.dom().len()
            <= index.dom().len(),
        index.dom().finite() ==> unfold_node(
            index,
            node,
            root,
            config,
            no_color,
            merging,
        ).1.dom().finite() && !unfold_node(
            index,
            node,
            root,
            config,
            no_color,
            merging,
        ).1.dom().contains(node.id),
    decreases index.dom().len(), 0nat, 0nat,
{
    if index.dom().finite() && index.dom().contains(node.id) {
        let raw = index[node.id];
        let shown = if merging {
            surviving(raw, node, root, config)
        } else {
            raw
        };
        let taken = index.remove(node.id);
        assert(taken.dom() =~= index.dom().remove(node.id));
        lemma_unfold_all_shrinks(taken, shown, 0, root, config, no_color, merging);
        assert(taken.submap_of(index));
        lemma_submap_transitive(
            unfold_all(taken, shown, 0, root, config, no_color, merging).1,
            taken,
            index,
        );
    } else {
        assert(index.submap_of(index));
    }
}

/// Unfolding a sequence of nodes only ever takes lists out of the index, and
/// it goes through all of the nodes: the tree of the first, then the trees of
/// the others against what the first has left.
pub proof fn lemma_unfold_all_shrinks(
    index: Index,
    shown: Seq<NodeView>,
    from: int,
    root: nat,
    config: Config,
    no_color: bool,
    merging: bool,
)
    ensures
        unfold_all(index, shown, from, root, config, no_color, merging).1.submap_of(index),
        unfold_all(index, shown, from, root, config, no_color, merging).1.dom().len()
            <= index.dom().len(),
        index.dom().finite() ==> unfold_all(
            index,
            shown,
            from,
            root,
            config,
            no_color,
            merging,
        ).1.dom().finite(),
        0 <= from < shown.len() ==> ({
            let first = unfold_node(index, shown[from], root, config, no_color, merging);
            let others = unfold_all(first.1, shown, from + 1, root, config, no_color, merging);
            unfold_all(index, shown, from, root, config, no_color, merging) == (
                seq![first.0] + others.0,
                others.1,
            )
        }),
        unfold_all(index, shown, from, root, config, no_color, merging).0.len() == (if 0 <= from
            <= shown.len() {
            shown.len() - from
        } else {
            0
        }),
    decreases index.dom().len(), 1nat, shown.len() - from,
{
    if 0 <= from < shown.len() {
        lemma_unfold_node_shrinks(index, shown[from], root, config, no_color, merging);
        let first = unfold_node(index, shown[from], root, config, no_color, merging);
        lemma_unfold_all_shrinks(first.1, shown, from + 1, root, config, no_color, merging);
        let others = unfold_all(first.1, shown, from + 1, root, config, no_color, merging);
        lemma_submap_transitive(others.1, first.1, index);
        assert(unfold_all(index, shown, from, root, config, no_color, merging).1 == others.1);
    } else {
        assert(index.submap_of(index));
    }
}

/// Every list of completed children in `index` is free of adjacent siblings
/// of one name.
pub open spec fn index_without_runs(index: Index) -> bool {
    forall|k: u64| index.dom().contains(k) ==> no_runs(#[trigger] index[k])
}

/// With collapsing switched off, the unaccounted time not shown, and no two
/// adjacent siblings of one name anywhere in the index, the rendered tree is
/// the tree of the spans as they completed: every node with its own name,
/// duration and metadata, below its own parent and in its own place.
pub proof fn lemma_rendering_keeps_structure(
    index: Index,
    node: NodeView,
    root: nat,
    config: Config,
    no_color: bool,
)
    requires
        index_without_runs(index),
        config.hide_below_percent.millionths <= 0,
        !config.display_unaccounted,
    ensures
        rendered(index, node, root, config, no_color) == unfold_node(
            index,
            node,
            root,
            config,
            no_color,
            false,
        ),
    decreases index.dom().len(), 0nat, 0nat,
{
    if index.dom().finite() && index.dom().contains(node.id) {
        let raw = index[node.id];
        lemma_survivors_without_merging(raw, node, root, config);
        let taken = index.remove(node.id);
        assert(taken.dom() =~= index.dom().remove(node.id));
        lemma_forest_keeps_structure(taken, raw, 0, root, config, no_color);
    }
}

/// The same for the trees below a sequence of nodes.
pub proof fn lemma_forest_keeps_structure(
    index: Index,
    shown: Seq<NodeView>,
    from: int,
    root: nat,
    config: Config,
    no_color: bool,
)
    requires
        index_without_runs(index),
        config.hide_below_percent.millionths <= 0,
        !config.display_unaccounted,
    ensures
        unfold_all(index, shown, from, root, config, no_color, true) == unfold_all(
            index,
            shown,
            from,
            root,
            config,
            no_color,
            false,
        ),
    decreases index.dom().len(), 1nat, shown.len() - from,
{
    if 0 <= from < shown.len() {
        lemma_rendering_keeps_structure(index, shown[from], root, config, no_color);
        lemma_unfold_node_shrinks(index, shown[from], root, config, no_color, true);
        let first = unfold_node(index, shown[from], root, config, no_color, true);
        assert(index_without_runs(first.1)) by {
            assert forall|k: u64| first.1.dom().contains(k) implies no_runs(
                #[trigger] first.1[k],
            ) by {
                assert(first.1[k] == index[k]);
            }
        }
        lemma_forest_keeps_structure(first.1, shown, from + 1, root, config, no_color);
    }
}

/// Once a root has been left and rendered, the index holds no children for
/// any span, those below that root among them.
pub proof fn lemma_root_exit_empties_index(s: LayerView, id: u64, now: u64)
    requires
        s.spans.dom().contains(id),
        s.spans[id].parent is None,
    ensures
        tree_at_exit(s, id, now) is Some,
        forall|parent: u64| !after_exit(s, id, now).index.dom().contains(parent),
{
}

/// The nodes that the events `events[from..]` produce, in order, starting in
/// state `s`.
pub open spec fn produced(s: LayerView, events: Seq<SpanEvent>, from: int) -> Seq<NodeView>
    decreases events.len() - from,
{
    if from < 0 || from >= events.len() {
        Seq::empty()
    } else {
        (match node_of(s, events[from]) {
            Some(node) => seq![node],
            None => Seq::empty(),
        }) + produced(step(s, events[from]), events, from + 1)
    }
}

/// How many of the events `events[from..]` are exits.
pub open spec fn exits(events: Seq<SpanEvent>, from: int) -> nat
    decreases events.len() - from,
{
    if from < 0 || from >= events.len() {
        0
    } else {
        (if events[from] is Exit {
            1nat
        } else {
            0nat
        }) + exits(events, from + 1)
    }
}

/// The events `events[from..]` keep the order that the instrumented program
/// owes: a span is recorded against, entered and left only between its
/// creation and its closing. `live` holds the spans created and not closed
/// before.
pub open spec fn in_order(live: Set<u64>, events: Seq<SpanEvent>, from: int) -> bool
    decreases events.len() - from,
{
    if from < 0 || from >= events.len() {
        true
    } else {
        match events[from] {
            SpanEvent::Create { id, .. } => in_order(live.insert(id), events, from + 1),
            SpanEvent::Record { id, .. } => live.contains(id) && in_order(live, events, from + 1),
            SpanEvent::Enter { id, .. } => live.contains(id) && in_order(live, events, from + 1),
            SpanEvent::Exit { id, .. } => live.contains(id) && in_order(live, events, from + 1),
            SpanEvent::Close { id } => in_order(live.remove(id), events, from + 1),
        }
    }
}

/// Events in order produce exactly one node for each exit, and each node has
/// the time between the last entering of its span and the exit, never less
/// than none, and stands for one call.
pub proof fn lemma_one_node_per_exit(s: LayerView, events: Seq<SpanEvent>, from: int)
    requires
        0 <= from,
        in_order(s.spans.dom(), events, from),
    ensures
        produced(s, events, from).len() == exits(events, from),
        forall|i: int|
            0 <= i < produced(s, events, from).len() ==> (#[trigger] produced(
                s,
                events,
                from,
            )[i]).duration >= 0 && produced(s, events, from)[i].call_count == 1,
    decreases events.len() - from,
{
    if from < events.len() {
        let next = step(s, events[from]);
        match events[from] {
            SpanEvent::Create { id, .. } => {
                assert(next.spans.dom() =~= s.spans.dom().insert(id));
            },
            SpanEvent::Record { id, .. } => {
                assert(next.spans.dom() =~= s.spans.dom());
            },
            SpanEvent::Enter { id, .. } => {
                assert(next.spans.dom() =~= s.spans.dom());
            },
            SpanEvent::Exit { id, .. } => {
                assert(next.spans.dom() =~= s.spans.dom());
            },
            SpanEvent::Close { id } => {
                assert(next.spans.dom() =~= s.spans.dom().remove(id));
            },
        }
        lemma_one_node_per_exit(next, events, from + 1);
    }
}

} // verus!
