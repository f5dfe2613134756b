use tracing_profile::LogTree;

fn leaf(label: &str) -> LogTree {
    LogTree::leaf(label.to_string())
}

fn node(label: &str, children: Vec<LogTree>) -> LogTree {
    LogTree { label: label.to_string(), children }
}

#[test]
fn a_single_node_is_one_line() {
    assert_eq!(leaf("root").render(), "root\n");
}

#[test]
fn a_leaf_has_no_children() {
    let t = leaf("x");
    assert_eq!(t.label, "x");
    assert!(t.children.is_empty());
}

#[test]
fn two_children_use_a_tee_and_a_corner() {
    let t = node("root", vec![leaf("first"), leaf("last")]);
    assert_eq!(t.render(), "root\n├── first\n└── last\n");
}

#[test]
fn ancestors_draw_a_bar_or_a_blank() {
    let t = node(
        "root",
        vec![
            node("a", vec![leaf("a1"), node("a2", vec![leaf("a2x")])]),
            node("b", vec![leaf("b1"), leaf("b2")]),
        ],
    );
    let expected = [
        "root",
        "├── a",
        "│  ├── a1",
        "│  └── a2",
        "│     └── a2x",
        "└── b",
        "   ├── b1",
        "   └── b2",
        "",
    ]
    .join("\n");
    assert_eq!(t.render(), expected);
}

#[test]
fn display_children_appends_below_a_given_indent() {
    let t = node("ignored", vec![leaf("x"), leaf("y")]);
    let mut out = String::from(">");
    t.display_children(&mut out, vec![true, false]);
    assert_eq!(out, ">   │  ├── x\n   │  └── y\n");
}

#[test]
fn display_children_of_a_leaf_appends_nothing() {
    let mut out = String::from("kept");
    leaf("x").display_children(&mut out, vec![false]);
    assert_eq!(out, "kept");
}
