use sauron::applier::{apply, ApplyError};
use sauron::diff::diff;
use sauron::node::{Attribute, Node};
use sauron::patch::Patch;

fn text(s: &str) -> Node {
    Node::text(s.to_string())
}

fn el(tag: &str, attrs: Vec<Attribute>, children: Vec<Node>) -> Node {
    Node::element(tag.to_string(), attrs, children)
}

fn attr(name: &str, value: &str) -> Attribute {
    Attribute::new(name.to_string(), value.to_string())
}

fn on(name: &str, callback: u64) -> Attribute {
    Attribute::listener(name.to_string(), callback)
}

fn converges(old: &Node, new: &Node) -> bool {
    let patches = diff(old, new);
    apply(old, &patches).unwrap().same_structure(new)
}

#[test]
fn patched_tree_matches_new_tree() {
    let old = el(
        "div",
        vec![attr("class", "a"), on("click", 1), attr("id", "main")],
        vec![
            el("p", vec![], vec![text("a"), text("b")]),
            text("x"),
            el("ul", vec![], vec![text("1"), text("2"), text("3")]),
        ],
    );
    let new = el(
        "div",
        vec![on("click", 2), attr("class", "b"), attr("title", "t")],
        vec![
            el("section", vec![], vec![text("a")]),
            text("y"),
            el("ul", vec![attr("role", "list")], vec![text("1")]),
            text("tail"),
        ],
    );
    assert!(converges(&old, &new));
    assert!(converges(&new, &old));
}

#[test]
fn patched_list_after_prepend_matches() {
    let old = el("ul", vec![], vec![text("a"), text("b"), text("c")]);
    let new = el("ul", vec![], vec![text("x"), text("a"), text("b"), text("c")]);
    assert!(converges(&old, &new));
}

#[test]
fn patched_listener_swap_matches() {
    let old = el("button", vec![attr("class", "a")], vec![text("go")]);
    let new = el("button", vec![on("click", 7)], vec![text("go")]);
    assert!(converges(&old, &new));
    assert!(converges(&new, &old));
}

#[test]
fn patched_text_to_element_matches() {
    assert!(converges(&text("a"), &el("b", vec![], vec![text("c")])));
    assert!(converges(&el("b", vec![], vec![text("c")]), &text("a")));
}

#[test]
fn patches_resolve_against_old_indices() {
    let old = el(
        "div",
        vec![],
        vec![el("p", vec![], vec![text("a"), text("b")]), text("c")],
    );
    let patches = vec![Patch::Replace(1, text("p")), Patch::ChangeText(4, "C".to_string())];
    let live = apply(&old, &patches).unwrap();
    assert_eq!(live, el("div", vec![], vec![text("p"), text("C")]));
}

#[test]
fn apply_without_patches_copies() {
    let t = el("div", vec![attr("k", "v")], vec![text("a")]);
    assert_eq!(apply(&t, &vec![]), Ok(el("div", vec![attr("k", "v")], vec![text("a")])));
}

#[test]
fn structure_ignores_attribute_order_and_duplicates() {
    let a = el("div", vec![attr("a", "1"), attr("b", "2")], vec![]);
    let b = el("div", vec![attr("b", "2"), attr("a", "0"), attr("a", "1")], vec![]);
    assert!(a.same_structure(&b));
    let c = el("div", vec![attr("a", "1")], vec![]);
    assert!(!a.same_structure(&c));
    assert!(!text("a").same_structure(&text("b")));
    assert!(!el("div", vec![], vec![]).same_structure(&el("span", vec![], vec![])));
    assert!(!el("div", vec![], vec![text("a")]).same_structure(&el("div", vec![], vec![])));
}

#[test]
fn index_past_the_tree_is_rejected() {
    let t = el("div", vec![], vec![text("a")]);
    let patches = vec![Patch::ChangeText(1, "b".to_string()), Patch::ChangeText(2, "c".to_string())];
    assert_eq!(apply(&t, &patches), Err(ApplyError::IndexNotFound(1)));
}

#[test]
fn listener_in_plain_patch_is_rejected() {
    let t = el("div", vec![], vec![]);
    let patches = vec![Patch::AddAttributes(0, vec![attr("id", "x"), on("click", 1)])];
    assert_eq!(apply(&t, &patches), Err(ApplyError::AttributeKindMismatch(0)));
}

#[test]
fn plain_in_listener_patch_is_rejected() {
    let t = el("div", vec![], vec![]);
    let patches = vec![
        Patch::AddEventListener(0, vec![on("click", 1)]),
        Patch::AddEventListener(0, vec![attr("id", "x")]),
    ];
    assert_eq!(apply(&t, &patches), Err(ApplyError::AttributeKindMismatch(1)));
}

#[test]
fn applied_patches_change_attributes_and_children() {
    let t = el("div", vec![attr("a", "1"), on("click", 1)], vec![text("x"), text("y")]);
    let patches = vec![
        Patch::RemoveAttributes(0, vec!["a".to_string()]),
        Patch::RemoveEventListener(0, vec!["click".to_string()]),
        Patch::AddAttributes(0, vec![attr("b", "2")]),
        Patch::AddEventListener(0, vec![on("input", 3)]),
        Patch::TruncateChildren(0, 1),
        Patch::AppendChildren(0, vec![text("z")]),
    ];
    assert_eq!(
        apply(&t, &patches),
        Ok(el("div", vec![attr("b", "2"), on("input", 3)], vec![text("x"), text("z")]))
    );
}
