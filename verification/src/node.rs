//! The record of one completed span, and the line of text that shows it.

use vstd::prelude::*;
use crate::config::{percent_hundredths, share_above, share_hundredths, is_share_above, Config};
use crate::fields::{Entry, FieldMap};
use crate::text::{decimal_text, duration_text, fixed2_text, push_decimal, push_duration, push_fixed2};

verus! {

/// The record of one completed span, or of several merged into one.
#[derive(Debug)]
pub struct GraphNode {
    pub name: String,
    /// The span's id; zero on a node that stands for no single span.
    pub id: u64,
    /// Nanoseconds between entering and leaving the span.
    pub execution_duration: u64,
    pub metadata: FieldMap,
    /// How many spans the node stands for.
    pub call_count: usize,
}

/// A node as mathematics.
pub struct NodeView {
    pub name: Seq<char>,
    pub id: u64,
    pub duration: nat,
    pub metadata: Seq<Entry>,
    pub call_count: nat,
}

impl View for GraphNode {
    type V = NodeView;

    open spec fn view(&self) -> NodeView {
        NodeView {
            name: self.name@,
            id: self.id,
            duration: self.execution_duration as nat,
            metadata: self.metadata@,
            call_count: self.call_count as nat,
        }
    }
}

/// The views of a sequence of nodes.
pub open spec fn nodes_view(nodes: Seq<GraphNode>) -> Seq<NodeView> {
    Seq::new(nodes.len(), |i: int| nodes[i]@)
}

/// A node of the given name that stands for nothing yet: id zero, no time, no
/// metadata and no calls.
pub open spec fn blank(name: Seq<char>) -> NodeView {
    NodeView { name, id: 0, duration: 0, metadata: Seq::empty(), call_count: 0 }
}

/// `a` with the time and the calls of `b` added to its own. Each sum stops at
/// the largest value its field can hold.
pub open spec fn merged(a: NodeView, b: NodeView) -> NodeView {
    NodeView {
        duration: if a.duration + b.duration <= u64::MAX {
            a.duration + b.duration
        } else {
            u64::MAX as nat
        },
        call_count: if a.call_count + b.call_count <= usize::MAX {
            a.call_count + b.call_count
        } else {
            usize::MAX as nat
        },
        ..a
    }
}

/// The metadata between braces: ` name = value` for each entry from `from` on,
/// with a comma between two entries.
pub open spec fn entries_text(s: Seq<Entry>, from: int) -> Seq<char>
    decreases s.len() - from,
{
    if from < 0 || from >= s.len() {
        Seq::empty()
    } else {
        (if from > 0 {
            ", "@
        } else {
            Seq::empty()
        }) + s[from].0 + " = "@ + s[from].1 + entries_text(s, from + 1)
    }
}

/// What follows the timing on a label: the number of calls where the node
/// stands for more than one, else the metadata where there is any.
pub open spec fn info_text(n: NodeView) -> Seq<char> {
    if n.call_count > 1 {
        " ("@ + decimal_text(n.call_count) + " calls)"@
    } else if n.metadata.len() > 0 {
        " { "@ + entries_text(n.metadata, 0) + " }"@
    } else {
        Seq::empty()
    }
}

/// The label without colour: the name, the duration, the share of the root's
/// time with two decimal places, and the calls or the metadata.
pub open spec fn plain_label(n: NodeView, root: nat) -> Seq<char> {
    n.name + " [ "@ + duration_text(n.duration) + " | "@ + fixed2_text(
        percent_hundredths(n.duration, root),
    ) + "% ]"@ + info_text(n)
}

/// The escape sequence that opens a label: bold red above the attention
/// threshold, the regular colour above the relevance threshold, dim otherwise.
pub open spec fn style_text(n: NodeView, root: nat, config: Config) -> Seq<char> {
    if share_above(n.duration, root, config.attention_above_percent) {
        "\x1b[1;31m"@
    } else if share_above(n.duration, root, config.relevant_above_percent) {
        "\x1b[0m"@
    } else {
        "\x1b[2m"@
    }
}

/// The label of a node: plain where colour is off, and otherwise between its
/// style's escape sequence and the reset sequence.
pub open spec fn label_text(n: NodeView, root: nat, config: Config, no_color: bool) -> Seq<char> {
    if no_color {
        plain_label(n, root)
    } else {
        style_text(n, root, config) + plain_label(n, root) + "\x1b[0m"@
    }
}

impl GraphNode {
    /// A node of the given name that stands for nothing yet.
    pub fn new(name: String) -> (r: Self)
        ensures
            r@ == blank(name@),
    {
        GraphNode { name, id: 0, execution_duration: 0, metadata: FieldMap::new(), call_count: 0 }
    }

    /// The node's share of `root_time`, in hundredths of one percent, rounded
    /// to the nearest; zero where `root_time` is zero.
    pub fn execution_percentage(&self, root_time: u64) -> (r: u128)
        ensures
            r == percent_hundredths(self@.duration, root_time as nat),
            root_time == 0 ==> r == 0,
            root_time > 0 && self.execution_duration == root_time ==> r == 10_000,
    {
        proof {
            crate::config::lemma_percent_of_whole_and_of_nothing(
                self@.duration,
                root_time as nat,
            );
        }
        share_hundredths(self.execution_duration, root_time)
    }

    /// This node with the time and the calls of `other` added to its own; a
    /// sum that does not fit stops at the largest value.
    pub fn aggregate(self, other: &GraphNode) -> (r: Self)
        ensures
            r@ == merged(self@, other@),
    {
        let mut r = self;
        r.execution_duration = r.execution_duration.saturating_add(other.execution_duration);
        r.call_count = r.call_count.saturating_add(other.call_count);
        r
    }

    /// The line of text that shows this node in a tree whose root took
    /// `root_time`.
    pub fn label(&self, root_time: u64, config: &Config, no_color: bool) -> (text: String)
        ensures
            text@ == label_text(self@, root_time as nat, *config, no_color),
    {
        let mut text = String::new();
        if !no_color {
            if is_share_above(self.execution_duration, root_time, config.attention_above_percent) {
                text.append("\x1b[1;31m");
            } else if is_share_above(
                self.execution_duration,
                root_time,
                config.relevant_above_percent,
            ) {
                text.append("\x1b[0m");
            } else {
                text.append("\x1b[2m");
            }
        }
        let ghost styled = text@;
        text.append(self.name.as_str());
        text.append(" [ ");
        push_duration(&mut text, self.execution_duration);
        text.append(" | ");
        push_fixed2(&mut text, self.execution_percentage(root_time));
        text.append("% ]");
        let ghost timed = text@;
        if self.call_count > 1 {
            text.append(" (");
            push_decimal(&mut text, self.call_count as u128);
            text.append(" calls)");
        } else if !self.metadata.is_empty() {
            text.append(" { ");
            let ghost opened = text@;
            let n = self.metadata.len();
            let mut i: usize = 0;
            while i < n
                invariant
                    n == self.metadata@.len(),
                    i <= n,
                    text@ + entries_text(self.metadata@, i as int) == opened + entries_text(
                        self.metadata@,
                        0,
                    ),
                decreases n - i,
            {
                let ghost before = text@;
                if i > 0 {
                    text.append(", ");
                }
                text.append(self.metadata.key_at(i).as_str());
                text.append(" = ");
                text.append(self.metadata.value_at(i).as_str());
                proof {
                    let s = self.metadata@;
                    assert(text@ + entries_text(s, i + 1) =~= before + entries_text(s, i as int));
                }
                i = i + 1;
            }
            assert(text@ =~= opened + entries_text(self.metadata@, 0));
            text.append(" }");
        }
        assert(text@ =~= timed + info_text(self@));
        assert(timed =~= styled + (self@.name + " [ "@ + duration_text(self@.duration) + " | "@
            + fixed2_text(percent_hundredths(self@.duration, root_time as nat)) + "% ]"@));
        if !no_color {
            text.append("\x1b[0m");
        }
        assert(text@ =~= label_text(self@, root_time as nat, *config, no_color));
        text
    }
}

impl Clone for GraphNode {
    fn clone(&self) -> (r: Self)
        ensures
            r@ == self@,
    {
        GraphNode {
            name: self.name.clone(),
            id: self.id,
            execution_duration: self.execution_duration,
            metadata: self.metadata.clone(),
            call_count: self.call_count,
        }
    }
}

} // verus!
