use vstd::prelude::*;
use crate::node::{AttrV, NodeV, ValueV, lookup, unique_names, merge_attrs, lemma_lookup_at, lemma_merge_unique};
use crate::diff::{added, removed, attr_patches, diff_node, diff_children};
use crate::patch::PatchV;
use crate::apply::attr_map;
use crate::attr_map_laws::lemma_attr_map_merged;

verus! {

proof fn lemma_added_same(m: Seq<AttrV>, listeners: bool, k: int)
    requires
        unique_names(m),
        k <= m.len(),
    ensures
        added(m, m, listeners, k) == Seq::<AttrV>::empty(),
    decreases k,
{
    if k > 0 {
        lemma_added_same(m, listeners, k - 1);
        lemma_lookup_at(m, k - 1);
    }
}

proof fn lemma_removed_same(m: Seq<AttrV>, listeners: bool, k: int)
    requires
        unique_names(m),
        k <= m.len(),
    ensures
        removed(m, m, listeners, k) == Seq::<Seq<char>>::empty(),
    decreases k,
{
    if k > 0 {
        lemma_removed_same(m, listeners, k - 1);
        lemma_lookup_at(m, k - 1);
    }
}

/// Equal attribute lists give no attribute patch.
pub proof fn lemma_attr_patches_same(idx: nat, a: Seq<AttrV>)
    ensures
        attr_patches(idx, merge_attrs(a), merge_attrs(a)) == Seq::<PatchV>::empty(),
{
    let m = merge_attrs(a);
    lemma_merge_unique(a);
    lemma_added_same(m, false, m.len() as int);
    lemma_added_same(m, true, m.len() as int);
    lemma_removed_same(m, false, m.len() as int);
    lemma_removed_same(m, true, m.len() as int);
    assert(attr_patches(idx, m, m) =~= Seq::<PatchV>::empty());
}

/// Diffing a tree against itself, at any index, gives no patch.
pub proof fn lemma_diff_same(t: NodeV, idx: nat)
    ensures
        diff_node(t, t, idx) == Seq::<PatchV>::empty(),
    decreases t, 0nat,
{
    match t {
        NodeV::Element { tag, attrs, children } => {
            lemma_attr_patches_same(idx, attrs);
            lemma_diff_children_same(children, children, idx + 1, children.len() as int);
            assert(diff_node(t, t, idx) =~= Seq::<PatchV>::empty());
        },
        NodeV::Text(_) => {},
    }
}

/// Diffing children against a sequence that starts with the same children
/// gives no patch for the first `k` positions.
pub proof fn lemma_diff_children_same(oc: Seq<NodeV>, nc: Seq<NodeV>, start: nat, k: int)
    requires
        k <= oc.len(),
        k <= nc.len(),
        forall|i: int| 0 <= i < k ==> oc[i] == nc[i],
    ensures
        diff_children(oc, nc, start, k) == Seq::<PatchV>::empty(),
    decreases oc, k,
{
    if k > 0 {
        lemma_diff_children_same(oc, nc, start, k - 1);
        lemma_diff_same(oc[k - 1], start + crate::node::forest_size(oc.subrange(0, k - 1)));
        assert(diff_children(oc, nc, start, k) =~= Seq::<PatchV>::empty());
    }
}

/// Identity: diffing any tree against itself gives an empty patch sequence.
pub proof fn diff_of_same_tree_is_empty(t: NodeV)
    ensures
        diff_node(t, t, 0) == Seq::<PatchV>::empty(),
{
    lemma_diff_same(t, 0);
}

/// Shape mismatch: where the two nodes are not both text and not both
/// elements of one tag, the diff is a single `Replace` of the node at its
/// index, whatever lies below.
pub proof fn shape_mismatch_replaces(old_tree: NodeV, new_tree: NodeV, idx: nat)
    requires
        !(old_tree is Text && new_tree is Text),
        !(old_tree is Element && new_tree is Element && old_tree->tag == new_tree->tag),
    ensures
        diff_node(old_tree, new_tree, idx) == seq![PatchV::Replace(idx, new_tree)],
{
}

proof fn lemma_truncate_patch(tag: Seq<char>, attrs: Seq<AttrV>, children: Seq<NodeV>, k: nat, idx: nat)
    requires
        k < children.len(),
    ensures
        diff_node(
            NodeV::Element { tag, attrs, children },
            NodeV::Element { tag, attrs, children: children.subrange(0, k as int) },
            idx,
        ) == seq![PatchV::TruncateChildren(idx, k)],
{
    lemma_attr_patches_same(idx, attrs);
    let short = children.subrange(0, k as int);
    lemma_diff_children_same(children, short, idx + 1, k as int);
    assert(diff_node(
        NodeV::Element { tag, attrs, children },
        NodeV::Element { tag, attrs, children: short },
        idx,
    ) =~= seq![PatchV::TruncateChildren(idx, k)]);
}

proof fn lemma_append_patch(tag: Seq<char>, attrs: Seq<AttrV>, children: Seq<NodeV>, extra: Seq<NodeV>, idx: nat)
    requires
        extra.len() > 0,
    ensures
        diff_node(
            NodeV::Element { tag, attrs, children },
            NodeV::Element { tag, attrs, children: children + extra },
            idx,
        ) == seq![PatchV::AppendChildren(idx, extra)],
{
    lemma_attr_patches_same(idx, attrs);
    let long = children + extra;
    lemma_diff_children_same(children, long, idx + 1, children.len() as int);
    assert(long.subrange(children.len() as int, long.len() as int) =~= extra);
    assert(diff_node(
        NodeV::Element { tag, attrs, children },
        NodeV::Element { tag, attrs, children: long },
        idx,
    ) =~= seq![PatchV::AppendChildren(idx, extra)]);
}

/// Length changes: an element whose children are cut to their first `k`
/// gets one `TruncateChildren(idx, k)`; one whose children gain `extra` at
/// the end gets one `AppendChildren(idx, extra)`. Nothing else changes.
pub proof fn length_change_patches(
    tag: Seq<char>,
    attrs: Seq<AttrV>,
    children: Seq<NodeV>,
    k: nat,
    extra: Seq<NodeV>,
    idx: nat,
)
    requires
        k < children.len(),
        extra.len() > 0,
    ensures
        diff_node(
            NodeV::Element { tag, attrs, children },
            NodeV::Element { tag, attrs, children: children.subrange(0, k as int) },
            idx,
        ) == seq![PatchV::TruncateChildren(idx, k)],
        diff_node(
            NodeV::Element { tag, attrs, children },
            NodeV::Element { tag, attrs, children: children + extra },
            idx,
        ) == seq![PatchV::AppendChildren(idx, extra)],
{
    lemma_truncate_patch(tag, attrs, children, k, idx);
    lemma_append_patch(tag, attrs, children, extra, idx);
}

/// Index stability: when only the last child of an element changes, the
/// element's diff is that child's own diff at its pre-order index, one past
/// the element and all nodes of the unchanged children before it.
pub proof fn unchanged_siblings_keep_indices(
    tag: Seq<char>,
    attrs: Seq<AttrV>,
    children: Seq<NodeV>,
    last: NodeV,
    idx: nat,
)
    requires
        children.len() > 0,
    ensures
        diff_node(
            NodeV::Element { tag, attrs, children },
            NodeV::Element { tag, attrs, children: children.drop_last().push(last) },
            idx,
        ) == diff_node(
            children.last(),
            last,
            idx + 1 + crate::node::forest_size(children.drop_last()),
        ),
{
    let k = children.len() as int;
    let nc = children.drop_last().push(last);
    lemma_attr_patches_same(idx, attrs);
    lemma_diff_children_same(children, nc, idx + 1, k - 1);
    assert(children.subrange(0, k - 1) =~= children.drop_last());
    let d = diff_node(children.last(), last, idx + 1 + crate::node::forest_size(children.drop_last()));
    assert(diff_children(children, nc, idx + 1, k) =~= Seq::<PatchV>::empty() + d);
    assert(diff_node(
        NodeV::Element { tag, attrs, children },
        NodeV::Element { tag, attrs, children: nc },
        idx,
    ) =~= d);
}

/// Merge determinism: after merging, a name holds one attribute; a plain
/// value given last wins, and a listener given last joins its callbacks to
/// those of an earlier listener of the same name.
pub proof fn merge_later_wins(s: Seq<AttrV>, a: AttrV)
    ensures
        unique_names(merge_attrs(s.push(a))),
        a.value is Plain ==> lookup(merge_attrs(s.push(a)), a.name) == Some(a.value),
        lookup(merge_attrs(s), a.name) is Some && lookup(merge_attrs(s), a.name)->0 is Listener
            && a.value is Listener ==> lookup(merge_attrs(s.push(a)), a.name) == Some(
            ValueV::Listener(lookup(merge_attrs(s), a.name)->0->Listener_0 + a.value->Listener_0),
        ),
{
    lemma_merge_unique(s.push(a));
    lemma_attr_map_merged(s, a.name);
    lemma_attr_map_merged(s.push(a), a.name);
    assert(s.push(a).drop_last() =~= s);
    assert(attr_map(s.push(a)) == crate::apply::insert_attr(attr_map(s), a));
}

} // verus!
