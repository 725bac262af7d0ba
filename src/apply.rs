use vstd::prelude::*;
use crate::node::{
    AttrV, NodeV, ValueV, merge_value, tree_size, forest_size, lemma_forest_size_push,
    lemma_forest_prefix_le,
};
use crate::patch::PatchV;

verus! {

/// The attributes of `s` whose names are not in `names`, in order.
pub open spec fn drop_named(s: Seq<AttrV>, names: Seq<Seq<char>>) -> Seq<AttrV>
    decreases s.len(),
{
    if s.len() == 0 {
        s
    } else {
        let r = drop_named(s.drop_last(), names);
        if names.contains(s.last().name) {
            r
        } else {
            r.push(s.last())
        }
    }
}

/// The effect of one patch on the node it targets. A patch that does not fit
/// the node's kind leaves it as it is.
pub open spec fn apply_one(t: NodeV, p: PatchV) -> NodeV {
    match p {
        PatchV::Replace(_, n) => n,
        PatchV::ChangeText(_, s) => match t {
            NodeV::Text(_) => NodeV::Text(s),
            _ => t,
        },
        _ => match t {
            NodeV::Element { tag, attrs, children } => match p {
                PatchV::AppendChildren(_, ns) => NodeV::Element {
                    tag,
                    attrs,
                    children: children + ns,
                },
                PatchV::TruncateChildren(_, k) => NodeV::Element {
                    tag,
                    attrs,
                    children: if k <= children.len() {
                        children.subrange(0, k as int)
                    } else {
                        children
                    },
                },
                PatchV::AddAttributes(_, a) => NodeV::Element { tag, attrs: attrs + a, children },
                PatchV::AddEventListener(_, a) => NodeV::Element {
                    tag,
                    attrs: attrs + a,
                    children,
                },
                PatchV::RemoveAttributes(_, names) => NodeV::Element {
                    tag,
                    attrs: drop_named(attrs, names),
                    children,
                },
                PatchV::RemoveEventListener(_, names) => NodeV::Element {
                    tag,
                    attrs: drop_named(attrs, names),
                    children,
                },
                _ => t,
            },
            _ => t,
        },
    }
}

/// `t` after the patches of `ps` that target index `idx`, in their order.
pub open spec fn apply_here(t: NodeV, idx: nat, ps: Seq<PatchV>) -> NodeV
    decreases ps.len(),
{
    if ps.len() == 0 {
        t
    } else {
        let t1 = apply_here(t, idx, ps.drop_last());
        if ps.last().idx() == idx {
            apply_one(t1, ps.last())
        } else {
            t1
        }
    }
}

/// The subtree `t`, whose root had pre-order index `idx` in the old tree,
/// after `ps`. Every patch reaches the node that its index named in the old
/// tree, whatever earlier patches did to the shape; each node first has its
/// descendants patched, then its own patches.
pub open spec fn patch_tree(t: NodeV, idx: nat, ps: Seq<PatchV>) -> NodeV
    decreases t, 0nat,
{
    let inner = match t {
        NodeV::Element { tag, attrs, children } => NodeV::Element {
            tag,
            attrs,
            children: patch_forest(children, idx + 1, ps, children.len() as int),
        },
        NodeV::Text(_) => t,
    };
    apply_here(inner, idx, ps)
}

/// The first `k` trees of `cs` after `ps`, where the first tree's root had
/// pre-order index `start`.
pub open spec fn patch_forest(cs: Seq<NodeV>, start: nat, ps: Seq<PatchV>, k: int) -> Seq<NodeV>
    decreases cs, k,
{
    if k <= 0 || k > cs.len() {
        Seq::empty()
    } else {
        patch_forest(cs, start, ps, k - 1).push(
            patch_tree(cs[k - 1], start + forest_size(cs.subrange(0, k - 1)), ps),
        )
    }
}

/// A live tree that mirrors `t` after the patch sequence `ps`.
pub open spec fn apply_patches(t: NodeV, ps: Seq<PatchV>) -> NodeV {
    patch_tree(t, 0, ps)
}

/// Structural form of a tree: attributes as a map from name to merged value.
pub enum Shape {
    Element { tag: Seq<char>, attrs: Map<Seq<char>, ValueV>, children: Seq<Shape> },
    Text(Seq<char>),
}

/// Adds one raw attribute to a name-to-value map, merging by name.
pub open spec fn insert_attr(m: Map<Seq<char>, ValueV>, a: AttrV) -> Map<Seq<char>, ValueV> {
    m.insert(a.name, if m.contains_key(a.name) { merge_value(m[a.name], a.value) } else { a.value })
}

/// Adds raw attributes in order to a name-to-value map.
pub open spec fn insert_all(m: Map<Seq<char>, ValueV>, s: Seq<AttrV>) -> Map<Seq<char>, ValueV>
    decreases s.len(),
{
    if s.len() == 0 {
        m
    } else {
        insert_attr(insert_all(m, s.drop_last()), s.last())
    }
}

/// The merged attributes of a raw sequence, as a map.
pub open spec fn attr_map(s: Seq<AttrV>) -> Map<Seq<char>, ValueV> {
    insert_all(Map::empty(), s)
}

pub open spec fn shape(t: NodeV) -> Shape
    decreases t,
{
    match t {
        NodeV::Element { tag, attrs, children } => Shape::Element {
            tag,
            attrs: attr_map(attrs),
            children: Seq::new(
                children.len(),
                |i: int|
                    if 0 <= i < children.len() {
                        shape(children[i])
                    } else {
                        Shape::Text(Seq::empty())
                    },
            ),
        },
        NodeV::Text(s) => Shape::Text(s),
    }
}

/// Whether an attribute patch carries only the kind of attribute it is for.
pub open spec fn payload_fits(p: PatchV) -> bool {
    match p {
        PatchV::AddAttributes(_, a) => forall|i: int| 0 <= i < a.len() ==> (#[trigger] a[i]).value is Plain,
        PatchV::AddEventListener(_, a) => forall|i: int| 0 <= i < a.len() ==> (#[trigger] a[i]).value is Listener,
        _ => true,
    }
}

pub open spec fn patch_fits(p: PatchV, size: nat) -> bool {
    p.idx() < size && payload_fits(p)
}

/// The patches of `ps` whose index lies in `[lo, hi)`, in order.
pub open spec fn within(ps: Seq<PatchV>, lo: nat, hi: nat) -> Seq<PatchV>
    decreases ps.len(),
{
    if ps.len() == 0 {
        ps
    } else {
        let r = within(ps.drop_last(), lo, hi);
        if lo <= ps.last().idx() < hi {
            r.push(ps.last())
        } else {
            r
        }
    }
}

pub open spec fn all_within(ps: Seq<PatchV>, lo: nat, hi: nat) -> bool {
    forall|i: int| 0 <= i < ps.len() ==> lo <= #[trigger] ps[i].idx() < hi
}

pub open spec fn none_within(ps: Seq<PatchV>, lo: nat, hi: nat) -> bool {
    forall|i: int| 0 <= i < ps.len() ==> !(lo <= #[trigger] ps[i].idx() < hi)
}

pub proof fn lemma_within_concat(a: Seq<PatchV>, b: Seq<PatchV>, lo: nat, hi: nat)
    ensures
        within(a + b, lo, hi) == within(a, lo, hi) + within(b, lo, hi),
    decreases b.len(),
{
    if b.len() == 0 {
        assert(a + b =~= a);
        assert(within(a, lo, hi) + within(b, lo, hi) =~= within(a, lo, hi));
    } else {
        lemma_within_concat(a, b.drop_last(), lo, hi);
        assert((a + b).drop_last() =~= a + b.drop_last());
        assert((a + b).last() == b.last());
        assert(within(a, lo, hi) + within(b.drop_last(), lo, hi).push(b.last()) =~= (within(a, lo, hi)
            + within(b.drop_last(), lo, hi)).push(b.last()));
    }
}

pub proof fn lemma_within_all(a: Seq<PatchV>, lo: nat, hi: nat)
    requires
        all_within(a, lo, hi),
    ensures
        within(a, lo, hi) == a,
    decreases a.len(),
{
    if a.len() > 0 {
        lemma_within_all(a.drop_last(), lo, hi);
        assert(a.last() == a[a.len() - 1]);
        assert(a.drop_last().push(a.last()) =~= a);
    }
}

pub proof fn lemma_within_none(a: Seq<PatchV>, lo: nat, hi: nat)
    requires
        none_within(a, lo, hi),
    ensures
        within(a, lo, hi) == Seq::<PatchV>::empty(),
    decreases a.len(),
{
    if a.len() > 0 {
        lemma_within_none(a.drop_last(), lo, hi);
        assert(a.last() == a[a.len() - 1]);
    } else {
        assert(a =~= Seq::<PatchV>::empty());
    }
}

pub proof fn lemma_within_nested(ps: Seq<PatchV>, lo: nat, hi: nat, lo2: nat, hi2: nat)
    requires
        lo <= lo2,
        hi2 <= hi,
    ensures
        within(within(ps, lo, hi), lo2, hi2) == within(ps, lo2, hi2),
    decreases ps.len(),
{
    if ps.len() > 0 {
        lemma_within_nested(ps.drop_last(), lo, hi, lo2, hi2);
        let r = within(ps.drop_last(), lo, hi);
        if lo <= ps.last().idx() < hi {
            assert(r.push(ps.last()).drop_last() =~= r);
        }
    }
}

pub proof fn lemma_apply_here_within(t: NodeV, idx: nat, ps: Seq<PatchV>, lo: nat, hi: nat)
    requires
        lo <= idx < hi,
    ensures
        apply_here(t, idx, ps) == apply_here(t, idx, within(ps, lo, hi)),
    decreases ps.len(),
{
    if ps.len() > 0 {
        lemma_apply_here_within(t, idx, ps.drop_last(), lo, hi);
        let r = within(ps.drop_last(), lo, hi);
        if lo <= ps.last().idx() < hi {
            assert(r.push(ps.last()).drop_last() =~= r);
        }
    }
}

pub proof fn lemma_apply_here_concat(t: NodeV, idx: nat, a: Seq<PatchV>, b: Seq<PatchV>)
    ensures
        apply_here(t, idx, a + b) == apply_here(apply_here(t, idx, a), idx, b),
    decreases b.len(),
{
    if b.len() == 0 {
        assert(a + b =~= a);
    } else {
        lemma_apply_here_concat(t, idx, a, b.drop_last());
        assert((a + b).drop_last() =~= a + b.drop_last());
        assert((a + b).last() == b.last());
    }
}

pub proof fn lemma_apply_here_none(t: NodeV, idx: nat, b: Seq<PatchV>)
    requires
        none_within(b, idx, idx + 1),
    ensures
        apply_here(t, idx, b) == t,
    decreases b.len(),
{
    if b.len() > 0 {
        lemma_apply_here_none(t, idx, b.drop_last());
        assert(b.last() == b[b.len() - 1]);
    }
}

/// A subtree is changed only by the patches whose index falls in its range.
pub proof fn lemma_patch_tree_local(t: NodeV, idx: nat, ps: Seq<PatchV>)
    ensures
        patch_tree(t, idx, ps) == patch_tree(t, idx, within(ps, idx, idx + tree_size(t))),
    decreases t, 0nat,
{
    let w = within(ps, idx, idx + tree_size(t));
    match t {
        NodeV::Element { tag, attrs, children } => {
            lemma_patch_forest_local(children, idx + 1, ps, children.len() as int, idx, idx + tree_size(t));
            let inner = NodeV::Element {
                tag,
                attrs,
                children: patch_forest(children, idx + 1, ps, children.len() as int),
            };
            lemma_apply_here_within(inner, idx, ps, idx, idx + tree_size(t));
            lemma_within_nested(ps, idx, idx + tree_size(t), idx, idx + tree_size(t));
        },
        NodeV::Text(_) => {
            lemma_apply_here_within(t, idx, ps, idx, idx + tree_size(t));
            lemma_within_nested(ps, idx, idx + tree_size(t), idx, idx + tree_size(t));
        },
    }
}

pub proof fn lemma_patch_forest_local(cs: Seq<NodeV>, start: nat, ps: Seq<PatchV>, k: int, lo: nat, hi: nat)
    requires
        lo <= start,
        start + forest_size(cs) <= hi,
    ensures
        patch_forest(cs, start, ps, k) == patch_forest(cs, start, within(ps, lo, hi), k),
    decreases cs, k,
{
    if k > 0 && k <= cs.len() {
        lemma_patch_forest_local(cs, start, ps, k - 1, lo, hi);
        let s = start + forest_size(cs.subrange(0, k - 1));
        let c = cs[k - 1];
        lemma_forest_size_push(cs, k - 1);
        lemma_forest_prefix_le(cs, k);
        lemma_patch_tree_local(c, s, ps);
        lemma_patch_tree_local(c, s, within(ps, lo, hi));
        lemma_within_nested(ps, lo, hi, s, s + tree_size(c));
    }
}

} // verus!
