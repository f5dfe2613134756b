//! The labelled tree that a finished trace is rendered into, and its text form
//! with box-drawing connectors.

use vstd::prelude::*;

verus! {

/// A labelled tree: one line of text and the subtrees below it, in order.
#[derive(Debug)]
pub struct LogTree {
    pub label: String,
    pub children: Vec<LogTree>,
}

/// A labelled tree as mathematics.
pub struct TreeView {
    pub label: Seq<char>,
    pub children: Seq<TreeView>,
}

impl View for LogTree {
    type V = TreeView;

    open spec fn view(&self) -> TreeView
        decreases self,
    {
        TreeView { label: self.label@, children: forest_view(self.children@) }
    }
}

/// The views of a sequence of trees.
pub open spec fn forest_view(trees: Seq<LogTree>) -> Seq<TreeView>
    decreases trees,
{
    Seq::new(
        trees.len(),
        |i: int|
            if 0 <= i < trees.len() {
                trees[i].view()
            } else {
                arbitrary()
            },
    )
}

/// The columns drawn for the ancestors of a line, outermost first: blank below
/// an ancestor that was the last child at its level, a vertical bar otherwise.
pub open spec fn indent_text(spaces: Seq<bool>) -> Seq<char>
    decreases spaces.len(),
{
    if spaces.len() == 0 {
        Seq::empty()
    } else {
        indent_text(spaces.drop_last()) + (if spaces.last() {
            "   "@
        } else {
            "│  "@
        })
    }
}

/// The connector in front of a label: a corner for the last child at its
/// level, a tee for any other.
pub open spec fn branch_text(is_last: bool) -> Seq<char> {
    if is_last {
        "└── "@
    } else {
        "├── "@
    }
}

/// The lines of the children `from..` of `t` and of all that hangs below them,
/// each line ended by a newline; `spaces` says for each ancestor level whether
/// the ancestor there was a last child.
pub open spec fn children_text(t: TreeView, from: int, spaces: Seq<bool>) -> Seq<char>
    decreases t, t.children.len() - from,
{
    if from < 0 || from >= t.children.len() {
        Seq::empty()
    } else {
        let child = t.children[from];
        let is_last = from == t.children.len() - 1;
        indent_text(spaces) + branch_text(is_last) + child.label + "\n"@ + children_text(
            child,
            0,
            spaces.push(is_last),
        ) + children_text(t, from + 1, spaces)
    }
}

/// The whole tree as text: the root's label on the first line, then every
/// descendant on a line of its own.
pub open spec fn tree_text(t: TreeView) -> Seq<char> {
    t.label + "\n"@ + children_text(t, 0, Seq::empty())
}

impl LogTree {
    /// A tree with a label and no children.
    pub fn leaf(label: String) -> (r: Self)
        ensures
            r@ == (TreeView { label: label@, children: Seq::empty() }),
    {
        let r = LogTree { label, children: Vec::new() };
        assert(r@.children =~= Seq::empty());
        r
    }

    /// Appends to `out` the lines of all descendants of this tree, children in
    /// order and each child followed by its own descendants.
    pub fn display_children(&self, out: &mut String, spaces: Vec<bool>)
        ensures
            final(out)@ == old(out)@ + children_text(self@, 0, spaces@),
        decreases self,
    {
        let n = self.children.len();
        let mut i: usize = 0;
        assert(self@.children == forest_view(self.children@));
        while i < n
            invariant
                n == self.children@.len(),
                self@.children == forest_view(self.children@),
                i <= n,
                out@ + children_text(self@, i as int, spaces@) == old(out)@ + children_text(
                    self@,
                    0,
                    spaces@,
                ),
            decreases n - i,
        {
            let child = &self.children[i];
            let is_last = i == n - 1;
            let ghost at_line = out@;
            push_indent(out, &spaces);
            if is_last {
                out.append("└── ");
            } else {
                out.append("├── ");
            }
            out.append(child.label.as_str());
            out.append("\n");
            let mut next_spaces = spaces.clone();
            next_spaces.push(is_last);
            assert(next_spaces@ =~= spaces@.push(is_last));
            child.display_children(out, next_spaces);
            proof {
                assert(self@.children[i as int] == child@);
                assert(out@ =~= at_line + (indent_text(spaces@) + branch_text(is_last) + child@.label
                    + "\n"@ + children_text(child@, 0, spaces@.push(is_last))));
                assert(at_line + children_text(self@, i as int, spaces@) =~= out@ + children_text(
                    self@,
                    i + 1,
                    spaces@,
                ));
            }
            i = i + 1;
        }
        assert(out@ =~= old(out)@ + children_text(self@, 0, spaces@));
    }

    /// The tree as text, one line per node.
    pub fn render(&self) -> (text: String)
        ensures
            text@ == tree_text(self@),
    {
        let mut text = self.label.clone();
        text.append("\n");
        self.display_children(&mut text, Vec::new());
        assert(text@ =~= tree_text(self@));
        text
    }
}

fn push_indent(out: &mut String, spaces: &Vec<bool>)
    ensures
        final(out)@ == old(out)@ + indent_text(spaces@),
{
    let mut k: usize = 0;
    assert(spaces@.take(0) =~= Seq::<bool>::empty());
    while k < spaces.len()
        invariant
            k <= spaces@.len(),
            out@ == old(out)@ + indent_text(spaces@.take(k as int)),
        decreases spaces@.len() - k,
    {
        if spaces[k] {
            out.append("   ");
        } else {
            out.append("│  ");
        }
        proof {
            let grown = spaces@.take(k + 1);
            assert(grown.drop_last() =~= spaces@.take(k as int));
            assert(grown.last() == spaces@[k as int]);
            assert(out@ =~= old(out)@ + indent_text(grown));
        }
        k = k + 1;
    }
    assert(spaces@.take(spaces@.len() as int) =~= spaces@);
}

} // verus!
