use sauron::diff::diff;
use sauron::node::{merge_attributes, AttrValue, Attribute, Node};
use sauron::patch::Patch;
use sauron::program::{MountMode, Program};

fn text(s: &str) -> Node {
    Node::text(s.to_string())
}

fn el(tag: &str, attrs: Vec<Attribute>, children: Vec<Node>) -> Node {
    Node::element(tag.to_string(), attrs, children)
}

fn attr(name: &str, value: &str) -> Attribute {
    Attribute::new(name.to_string(), value.to_string())
}

fn on(name: &str, callback: u64) -> Attribute {
    Attribute::listener(name.to_string(), callback)
}

fn sample() -> Node {
    el(
        "div",
        vec![attr("class", "box"), on("click", 1)],
        vec![el("p", vec![attr("id", "a")], vec![text("a"), text("b")]), text("x")],
    )
}

#[test]
fn diff_of_same_tree_is_empty() {
    let t = sample();
    assert_eq!(diff(&t, &t.copy()), vec![]);
    assert_eq!(diff(&text("a"), &text("a")), vec![]);
}

#[test]
fn unchanged_subtrees_advance_the_index() {
    let old = el(
        "div",
        vec![],
        vec![el("p", vec![], vec![text("a"), text("b")]), text("x"), text("c")],
    );
    let new = el(
        "div",
        vec![],
        vec![el("p", vec![], vec![text("a"), text("b")]), text("x"), text("d")],
    );
    let patches = diff(&old, &new);
    assert_eq!(patches, vec![Patch::ChangeText(5, "d".to_string())]);
    assert_eq!(patches[0].node_idx(), 5);
    assert_eq!(old.node_count(), 6);
}

#[test]
fn merge_later_plain_value_wins() {
    let merged = merge_attributes(&vec![attr("class", "a"), attr("class", "b")]);
    assert_eq!(merged, vec![attr("class", "b")]);
}

#[test]
fn merge_joins_listener_callbacks() {
    let merged = merge_attributes(&vec![on("click", 1), attr("id", "k"), on("click", 2)]);
    assert_eq!(
        merged,
        vec![
            Attribute { name: "click".to_string(), value: AttrValue::Listener(vec![1, 2]) },
            attr("id", "k"),
        ]
    );
}

#[test]
fn duplicate_names_cause_no_churn() {
    let old = el("div", vec![attr("class", "a"), attr("class", "b")], vec![]);
    let new = el("div", vec![attr("class", "b")], vec![]);
    assert_eq!(diff(&old, &new), vec![]);
}

#[test]
fn children_are_compared_by_position() {
    let old = el("ul", vec![], vec![text("a"), text("b"), text("c")]);
    let new = el("ul", vec![], vec![text("x"), text("a"), text("b"), text("c")]);
    assert_eq!(
        diff(&old, &new),
        vec![
            Patch::ChangeText(1, "x".to_string()),
            Patch::ChangeText(2, "a".to_string()),
            Patch::ChangeText(3, "b".to_string()),
            Patch::AppendChildren(0, vec![text("c")]),
        ]
    );
}

#[test]
fn element_against_text_is_replaced() {
    let old = el("div", vec![], vec![text("a")]);
    let new = text("a");
    assert_eq!(diff(&old, &new), vec![Patch::Replace(0, text("a"))]);
    assert_eq!(diff(&new, &old), vec![Patch::Replace(0, el("div", vec![], vec![text("a")]))]);
}

#[test]
fn different_tags_are_replaced_without_recursion() {
    let old = el("section", vec![], vec![el("div", vec![attr("id", "1")], vec![text("a")]), text("z")]);
    let new = el(
        "section",
        vec![],
        vec![el("span", vec![attr("id", "2")], vec![text("b")]), text("z")],
    );
    assert_eq!(
        diff(&old, &new),
        vec![Patch::Replace(1, el("span", vec![attr("id", "2")], vec![text("b")]))]
    );
}

#[test]
fn fewer_children_truncate() {
    let old = el("div", vec![], vec![text("a"), text("b"), text("c")]);
    let new = el("div", vec![], vec![text("a"), text("b")]);
    assert_eq!(diff(&old, &new), vec![Patch::TruncateChildren(0, 2)]);
}

#[test]
fn more_children_append() {
    let old = el("div", vec![], vec![text("a"), text("b")]);
    let new = el("div", vec![], vec![text("a"), text("b"), text("c")]);
    assert_eq!(diff(&old, &new), vec![Patch::AppendChildren(0, vec![text("c")])]);
}

#[test]
fn truncation_after_nested_children_keeps_indices() {
    let old = el(
        "div",
        vec![],
        vec![el("p", vec![], vec![text("a")]), text("b"), el("p", vec![], vec![text("c")])],
    );
    let new = el("div", vec![], vec![el("p", vec![], vec![text("A")]), text("b")]);
    assert_eq!(
        diff(&old, &new),
        vec![Patch::ChangeText(2, "A".to_string()), Patch::TruncateChildren(0, 2)]
    );
}

#[test]
fn plain_attribute_replaced_by_listener() {
    let old = el("button", vec![attr("class", "a")], vec![]);
    let new = el("button", vec![on("click", 7)], vec![]);
    assert_eq!(
        diff(&old, &new),
        vec![
            Patch::RemoveAttributes(0, vec!["class".to_string()]),
            Patch::AddEventListener(0, vec![on("click", 7)]),
        ]
    );
}

#[test]
fn plain_change_and_new_listener() {
    let old = el("button", vec![attr("class", "a")], vec![]);
    let new = el("button", vec![attr("class", "b"), on("click", 7)], vec![]);
    assert_eq!(
        diff(&old, &new),
        vec![
            Patch::AddAttributes(0, vec![attr("class", "b")]),
            Patch::AddEventListener(0, vec![on("click", 7)]),
        ]
    );
}

#[test]
fn changed_listener_is_removed_then_added() {
    let old = el("button", vec![on("click", 7)], vec![]);
    let new = el("button", vec![on("click", 8)], vec![]);
    assert_eq!(
        diff(&old, &new),
        vec![
            Patch::RemoveEventListener(0, vec!["click".to_string()]),
            Patch::AddEventListener(0, vec![on("click", 8)]),
        ]
    );
}

#[test]
fn listener_turned_plain() {
    let old = el("a", vec![on("href", 3), attr("id", "q")], vec![]);
    let new = el("a", vec![attr("href", "/x")], vec![]);
    assert_eq!(
        diff(&old, &new),
        vec![
            Patch::RemoveAttributes(0, vec!["id".to_string()]),
            Patch::RemoveEventListener(0, vec!["href".to_string()]),
            Patch::AddAttributes(0, vec![attr("href", "/x")]),
        ]
    );
}

#[test]
fn node_idx_of_each_patch() {
    let patches = vec![
        Patch::AppendChildren(1, vec![]),
        Patch::TruncateChildren(2, 0),
        Patch::Replace(3, text("a")),
        Patch::AddAttributes(4, vec![]),
        Patch::RemoveAttributes(5, vec![]),
        Patch::AddEventListener(6, vec![]),
        Patch::RemoveEventListener(7, vec![]),
        Patch::ChangeText(8, "t".to_string()),
    ];
    let idxs: Vec<usize> = patches.iter().map(|p| p.node_idx()).collect();
    assert_eq!(idxs, vec![1, 2, 3, 4, 5, 6, 7, 8]);
}

#[test]
fn node_count_counts_every_node() {
    assert_eq!(sample().node_count(), 5);
    assert_eq!(text("a").node_count(), 1);
}

#[test]
fn copy_is_equal() {
    let t = sample();
    assert_eq!(t.copy(), t);
}

#[test]
fn program_mounts() {
    let p = Program::mount_to_body(text("a"));
    assert_eq!(p.mount, Some(MountMode::Append));
    assert_eq!(p.current_view, text("a"));
    let q = Program::new_replace_mount(text("b"));
    assert_eq!(q.mount, Some(MountMode::Replace));
    let r = Program::new_append_to_mount(text("c"));
    assert_eq!(r.mount, Some(MountMode::Append));
}

#[test]
fn program_update_returns_patches() {
    let mut p = Program::new_replace_mount(el("div", vec![], vec![text("0")]));
    let patches = p.dispatch_inner(el("div", vec![], vec![text("1")]));
    assert_eq!(patches, vec![Patch::ChangeText(1, "1".to_string())]);
    assert_eq!(p.current_view, el("div", vec![], vec![text("1")]));
    assert_eq!(p.mount, Some(MountMode::Replace));
    let again = p.dispatch_inner(el("div", vec![], vec![text("1")]));
    assert_eq!(again, vec![]);
}
