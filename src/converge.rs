use vstd::prelude::*;
use crate::node::{
    AttrV, NodeV, tree_size, forest_size, lemma_forest_size_push, lemma_forest_prefix_le,
};
use crate::patch::PatchV;
use crate::diff::{attr_patches, diff_node, diff_children, length_patch};
use crate::apply::{
    within, all_within, none_within, lemma_within_concat, lemma_within_all, lemma_within_none,
    apply_one, apply_here, patch_tree, patch_forest, apply_patches, shape, attr_map, insert_all,
    drop_named, payload_fits, patch_fits, lemma_apply_here_concat, lemma_apply_here_none, lemma_patch_tree_local,
};
use crate::attr_map_laws::{
    get, lemma_maps_equal_by_get, lemma_attr_map_merged, lemma_attr_map_drop,
    lemma_insert_all_concat, lemma_insert_all_fresh, lemma_removed_contains, lemma_added_lookup,
};
use crate::diff::{added, removed};
use crate::node::{lookup, merge_attrs, lemma_merge_unique, lemma_lookup_at};

verus! {

proof fn lemma_all_within_concat(a: Seq<PatchV>, b: Seq<PatchV>, lo: nat, hi: nat)
    requires
        all_within(a, lo, hi),
        all_within(b, lo, hi),
    ensures
        all_within(a + b, lo, hi),
{
    assert forall|i: int| 0 <= i < (a + b).len() implies lo <= #[trigger] (a + b)[i].idx() < hi by {
        if i >= a.len() {
            assert((a + b)[i] == b[i - a.len()]);
        }
    }
}

proof fn lemma_all_within_widen(a: Seq<PatchV>, lo: nat, hi: nat, lo2: nat, hi2: nat)
    requires
        all_within(a, lo, hi),
        lo2 <= lo,
        hi <= hi2,
    ensures
        all_within(a, lo2, hi2),
{
}

proof fn lemma_attr_patches_at(idx: nat, o: Seq<AttrV>, n: Seq<AttrV>)
    ensures
        all_within(attr_patches(idx, o, n), idx, idx + 1),
{
    let ps = attr_patches(idx, o, n);
    assert forall|i: int| 0 <= i < ps.len() implies idx <= #[trigger] ps[i].idx() < idx + 1 by {
    }
}

proof fn lemma_forest_prefix_mono(cs: Seq<NodeV>, a: int, b: int)
    requires
        0 <= a <= b <= cs.len(),
    ensures
        forest_size(cs.subrange(0, a)) <= forest_size(cs.subrange(0, b)),
{
    lemma_forest_prefix_le(cs.subrange(0, b), a);
    assert(cs.subrange(0, b).subrange(0, a) =~= cs.subrange(0, a));
}

/// Every patch of a subtree's diff targets a node of that subtree.
pub proof fn lemma_diff_range(t: NodeV, n: NodeV, idx: nat)
    ensures
        all_within(diff_node(t, n, idx), idx, idx + tree_size(t)),
    decreases t, 0nat,
{
    match (t, n) {
        (
            NodeV::Element { tag: ot, attrs: oa, children: oc },
            NodeV::Element { tag: nt, attrs: na, children: nc },
        ) => {
            if ot == nt {
                let m = if oc.len() <= nc.len() { oc.len() } else { nc.len() };
                let a = attr_patches(idx, crate::node::merge_attrs(oa), crate::node::merge_attrs(na));
                let c = diff_children(oc, nc, idx + 1, m as int);
                let l = length_patch(idx, oc, nc);
                lemma_attr_patches_at(idx, crate::node::merge_attrs(oa), crate::node::merge_attrs(na));
                lemma_diff_children_range(oc, nc, idx + 1, m as int);
                lemma_forest_prefix_le(oc, m as int);
                assert(all_within(l, idx, idx + 1));
                lemma_all_within_widen(a, idx, idx + 1, idx, idx + tree_size(t));
                lemma_all_within_widen(l, idx, idx + 1, idx, idx + tree_size(t));
                lemma_all_within_widen(
                    c,
                    idx + 1,
                    idx + 1 + forest_size(oc.subrange(0, m as int)),
                    idx,
                    idx + tree_size(t),
                );
                lemma_all_within_concat(a, c, idx, idx + tree_size(t));
                lemma_all_within_concat(a + c, l, idx, idx + tree_size(t));
            }
        },
        _ => {},
    }
}

/// The diff of the first `k` children targets only those children.
pub proof fn lemma_diff_children_range(oc: Seq<NodeV>, nc: Seq<NodeV>, start: nat, k: int)
    requires
        0 <= k <= oc.len(),
        k <= nc.len(),
    ensures
        all_within(diff_children(oc, nc, start, k), start, start + forest_size(oc.subrange(0, k))),
    decreases oc, k,
{
    if k > 0 {
        lemma_diff_children_range(oc, nc, start, k - 1);
        let s = start + forest_size(oc.subrange(0, k - 1));
        lemma_diff_range(oc[k - 1], nc[k - 1], s);
        lemma_forest_size_push(oc, k - 1);
        let hi = start + forest_size(oc.subrange(0, k));
        lemma_all_within_widen(diff_children(oc, nc, start, k - 1), start, s, start, hi);
        lemma_all_within_widen(diff_node(oc[k - 1], nc[k - 1], s), s, s + tree_size(oc[k - 1]), start, hi);
        lemma_all_within_concat(diff_children(oc, nc, start, k - 1), diff_node(oc[k - 1], nc[k - 1], s), start, hi);
    }
}

/// Within the children's diff, the patches aimed at child `j` are exactly
/// that child's own diff.
pub proof fn lemma_child_patches(oc: Seq<NodeV>, nc: Seq<NodeV>, start: nat, m: int, j: int)
    requires
        0 <= j,
        m <= oc.len(),
        m <= nc.len(),
        j < oc.len(),
        j < nc.len(),
    ensures
        ({
            let s = start + forest_size(oc.subrange(0, j));
            within(diff_children(oc, nc, start, m), s, s + tree_size(oc[j])) == if j < m {
                diff_node(oc[j], nc[j], s)
            } else {
                Seq::<PatchV>::empty()
            }
        }),
    decreases m,
{
    let s = start + forest_size(oc.subrange(0, j));
    let hi = s + tree_size(oc[j]);
    lemma_forest_size_push(oc, j);
    if m <= 0 {
        assert(diff_children(oc, nc, start, m) =~= Seq::<PatchV>::empty());
        lemma_within_none(diff_children(oc, nc, start, m), s, hi);
    } else if m <= j {
        lemma_diff_children_range(oc, nc, start, m);
        lemma_forest_prefix_mono(oc, m, j);
        lemma_within_none(diff_children(oc, nc, start, m), s, hi);
    } else {
        lemma_child_patches(oc, nc, start, m - 1, j);
        let sm = start + forest_size(oc.subrange(0, m - 1));
        let d = diff_node(oc[m - 1], nc[m - 1], sm);
        lemma_within_concat(diff_children(oc, nc, start, m - 1), d, s, hi);
        lemma_diff_range(oc[m - 1], nc[m - 1], sm);
        if m - 1 == j {
            lemma_within_all(d, s, hi);
            assert(Seq::<PatchV>::empty() + d =~= d);
        } else {
            lemma_forest_prefix_mono(oc, j + 1, m - 1);
            lemma_within_none(d, s, hi);
            assert(diff_node(oc[j], nc[j], s) + Seq::<PatchV>::empty() =~= diff_node(oc[j], nc[j], s));
        }
    }
}

proof fn lemma_apply_single(t: NodeV, idx: nat, p: PatchV)
    requires
        p.idx() == idx,
    ensures
        apply_here(t, idx, seq![p]) == apply_one(t, p),
{
    let ps = seq![p];
    assert(ps.drop_last() =~= Seq::<PatchV>::empty());
    assert(ps.last() == p);
    assert(apply_here(t, idx, ps.drop_last()) == t);
}

/// The attribute patches bring an element's attributes, name by name, to
/// the new ones, and leave its tag and children alone.
proof fn lemma_attr_patches_converge(
    tag: Seq<char>,
    oa: Seq<AttrV>,
    na: Seq<AttrV>,
    xc: Seq<NodeV>,
    idx: nat,
)
    ensures
        apply_here(
            NodeV::Element { tag, attrs: oa, children: xc },
            idx,
            attr_patches(idx, merge_attrs(oa), merge_attrs(na)),
        ) matches NodeV::Element { tag: t2, attrs: a2, children: c2 } && t2 == tag && c2 == xc
            && attr_map(a2) == attr_map(na),
{
    let o = merge_attrs(oa);
    let n = merge_attrs(na);
    lemma_merge_unique(oa);
    lemma_merge_unique(na);
    assert(o.subrange(0, o.len() as int) =~= o);
    assert(n.subrange(0, n.len() as int) =~= n);
    let rp = removed(o, n, false, o.len() as int);
    let rl = removed(o, n, true, o.len() as int);
    let ap = added(o, n, false, n.len() as int);
    let al = added(o, n, true, n.len() as int);
    let q1 = if rp.len() > 0 { seq![PatchV::RemoveAttributes(idx, rp)] } else { Seq::<PatchV>::empty() };
    let q2 = if rl.len() > 0 { seq![PatchV::RemoveEventListener(idx, rl)] } else { Seq::<PatchV>::empty() };
    let q3 = if ap.len() > 0 { seq![PatchV::AddAttributes(idx, ap)] } else { Seq::<PatchV>::empty() };
    let q4 = if al.len() > 0 { seq![PatchV::AddEventListener(idx, al)] } else { Seq::<PatchV>::empty() };
    let om = attr_map(oa);
    let nm = attr_map(na);

    let s1 = if rp.len() > 0 { drop_named(oa, rp) } else { oa };
    let s2 = if rl.len() > 0 { drop_named(s1, rl) } else { s1 };
    let s3 = if ap.len() > 0 { s2 + ap } else { s2 };
    let s4 = if al.len() > 0 { s3 + al } else { s3 };
    let t0 = NodeV::Element { tag, attrs: oa, children: xc };
    let t1 = NodeV::Element { tag, attrs: s1, children: xc };
    let t2 = NodeV::Element { tag, attrs: s2, children: xc };
    let t3 = NodeV::Element { tag, attrs: s3, children: xc };
    let t4 = NodeV::Element { tag, attrs: s4, children: xc };
    if rp.len() > 0 { lemma_apply_single(t0, idx, q1[0]); assert(q1 == seq![q1[0]]); }
    if rl.len() > 0 { lemma_apply_single(t1, idx, q2[0]); assert(q2 == seq![q2[0]]); }
    if ap.len() > 0 { lemma_apply_single(t2, idx, q3[0]); assert(q3 == seq![q3[0]]); }
    if al.len() > 0 { lemma_apply_single(t3, idx, q4[0]); assert(q4 == seq![q4[0]]); }
    assert(apply_here(t0, idx, q1) == t1);
    assert(apply_here(t1, idx, q2) == t2);
    assert(apply_here(t2, idx, q3) == t3);
    assert(apply_here(t3, idx, q4) == t4);
    lemma_apply_here_concat(t0, idx, q1, q2);
    lemma_apply_here_concat(t0, idx, q1 + q2, q3);
    lemma_apply_here_concat(t0, idx, q1 + q2 + q3, q4);
    assert(attr_patches(idx, o, n) == q1 + q2 + q3 + q4);

    let m1 = om.remove_keys(rp.to_set());
    let m2 = m1.remove_keys(rl.to_set());
    let m3 = insert_all(m2, ap);
    let m4 = insert_all(m3, al);
    if rp.len() > 0 {
        lemma_attr_map_drop(oa, rp);
    } else {
        assert(m1 =~= om);
    }
    if rl.len() > 0 {
        lemma_attr_map_drop(s1, rl);
    } else {
        assert(m2 =~= m1);
    }
    if ap.len() > 0 {
        lemma_insert_all_concat(Map::empty(), s2, ap);
    } else {
        assert(ap =~= Seq::<AttrV>::empty());
    }
    if al.len() > 0 {
        lemma_insert_all_concat(Map::empty(), s3, al);
    } else {
        assert(al =~= Seq::<AttrV>::empty());
    }
    assert(attr_map(s4) == m4);

    lemma_added_lookup(o, n, false, n.len() as int, Seq::empty());
    lemma_added_lookup(o, n, true, n.len() as int, Seq::empty());
    assert forall|x: Seq<char>| get(m3, x) == (if lookup(ap, x) is Some { lookup(ap, x) } else { get(m2, x) }) by {
        lemma_insert_all_fresh(m2, ap, x);
        lemma_added_lookup(o, n, false, n.len() as int, x);
    }
    assert forall|i: int| 0 <= i < al.len() implies (#[trigger] al[i]).value is Plain || !m3.contains_key(al[i].name) by {
        let x = al[i].name;
        lemma_added_lookup(o, n, true, n.len() as int, x);
        lemma_lookup_at(al, i);
        lemma_added_lookup(o, n, false, n.len() as int, x);
        lemma_removed_contains(o, n, false, o.len() as int, x);
        lemma_removed_contains(o, n, true, o.len() as int, x);
        lemma_attr_map_merged(oa, x);
        assert(get(m3, x) == (if lookup(ap, x) is Some { lookup(ap, x) } else { get(m2, x) }));
    }
    assert forall|x: Seq<char>| get(m4, x) == get(nm, x) by {
        lemma_insert_all_fresh(m3, al, x);
        lemma_added_lookup(o, n, true, n.len() as int, x);
        lemma_added_lookup(o, n, false, n.len() as int, x);
        lemma_removed_contains(o, n, false, o.len() as int, x);
        lemma_removed_contains(o, n, true, o.len() as int, x);
        lemma_attr_map_merged(oa, x);
        lemma_attr_map_merged(na, x);
        assert(get(m3, x) == (if lookup(ap, x) is Some { lookup(ap, x) } else { get(m2, x) }));
    }
    lemma_maps_equal_by_get(m4, nm);
}

proof fn lemma_patch_forest_index(cs: Seq<NodeV>, start: nat, ps: Seq<PatchV>, k: int, j: int)
    requires
        0 <= k <= cs.len(),
    ensures
        patch_forest(cs, start, ps, k).len() == k,
        0 <= j < k ==> patch_forest(cs, start, ps, k)[j] == patch_tree(
            cs[j],
            start + forest_size(cs.subrange(0, j)),
            ps,
        ),
    decreases k,
{
    if k > 0 {
        lemma_patch_forest_index(cs, start, ps, k - 1, j);
    }
}

proof fn lemma_none_above(a: Seq<PatchV>, lo: nat, hi: nat, lo2: nat, hi2: nat)
    requires
        all_within(a, lo, hi),
        hi <= lo2,
    ensures
        none_within(a, lo2, hi2),
{
}

/// Convergence for a subtree at any index.
pub proof fn lemma_converge(t: NodeV, n: NodeV, idx: nat)
    ensures
        shape(patch_tree(t, idx, diff_node(t, n, idx))) == shape(n),
    decreases t, 0nat,
{
    let d = diff_node(t, n, idx);
    match (t, n) {
        (
            NodeV::Element { tag: ot, attrs: oa, children: oc },
            NodeV::Element { tag: nt, attrs: na, children: nc },
        ) => {
            if ot == nt {
                let m = if oc.len() <= nc.len() { oc.len() } else { nc.len() };
                let a = attr_patches(idx, merge_attrs(oa), merge_attrs(na));
                let c = diff_children(oc, nc, idx + 1, m as int);
                let l = length_patch(idx, oc, nc);
                assert(d == a + c + l);
                let pf = patch_forest(oc, idx + 1, d, oc.len() as int);
                let inner = NodeV::Element { tag: ot, attrs: oa, children: pf };
                lemma_apply_here_concat(inner, idx, a + c, l);
                lemma_apply_here_concat(inner, idx, a, c);
                lemma_attr_patches_converge(ot, oa, na, pf, idx);
                let r1 = apply_here(inner, idx, a);
                lemma_diff_children_range(oc, nc, idx + 1, m as int);
                assert forall|i: int| 0 <= i < c.len() implies !(idx <= #[trigger] c[i].idx() < idx + 1) by {}
                lemma_apply_here_none(r1, idx, c);
                let r1_attrs = r1->attrs;
                lemma_patch_forest_index(oc, idx + 1, d, oc.len() as int, 0);
                let r2 = apply_here(r1, idx, l);
                let kids = if nc.len() > oc.len() {
                    pf + nc.subrange(oc.len() as int, nc.len() as int)
                } else if nc.len() < oc.len() {
                    pf.subrange(0, nc.len() as int)
                } else {
                    pf
                };
                if nc.len() != oc.len() {
                    lemma_apply_single(r1, idx, l[0]);
                    assert(l == seq![l[0]]);
                }
                assert(r2 == NodeV::Element { tag: ot, attrs: r1_attrs, children: kids });
                assert(patch_tree(t, idx, d) == r2);
                assert(kids.len() == nc.len());
                assert forall|j: int| 0 <= j < nc.len() implies shape(#[trigger] kids[j]) == shape(nc[j]) by {
                    if j < m {
                        let s = idx + 1 + forest_size(oc.subrange(0, j));
                        lemma_patch_forest_index(oc, idx + 1, d, oc.len() as int, j);
                        assert(kids[j] == pf[j]);
                        lemma_forest_size_push(oc, j);
                        lemma_forest_prefix_le(oc, j + 1);
                        lemma_patch_tree_local(oc[j], s, d);
                        lemma_within_concat(a + c, l, s, s + tree_size(oc[j]));
                        lemma_within_concat(a, c, s, s + tree_size(oc[j]));
                        lemma_attr_patches_at(idx, merge_attrs(oa), merge_attrs(na));
                        lemma_none_above(a, idx, idx + 1, s, s + tree_size(oc[j]));
                        lemma_within_none(a, s, s + tree_size(oc[j]));
                        assert(all_within(l, idx, idx + 1));
                        lemma_none_above(l, idx, idx + 1, s, s + tree_size(oc[j]));
                        lemma_within_none(l, s, s + tree_size(oc[j]));
                        lemma_child_patches(oc, nc, idx + 1, m as int, j);
                        let dj = diff_node(oc[j], nc[j], s);
                        assert(Seq::<PatchV>::empty() + dj + Seq::<PatchV>::empty() =~= dj);
                        assert(decreases_to!(t => oc));
                        lemma_converge(oc[j], nc[j], s);
                    } else {
                        assert(kids[j] == nc[j]);
                    }
                }
                assert(shape(r2)->children =~= shape(n)->children);
            } else {
                lemma_apply_single(
                    NodeV::Element { tag: ot, attrs: oa, children: patch_forest(oc, idx + 1, d, oc.len() as int) },
                    idx,
                    d[0],
                );
                assert(d == seq![d[0]]);
            }
        },
        (NodeV::Text(x), NodeV::Text(y)) => {
            if x != y {
                lemma_apply_single(t, idx, d[0]);
                assert(d == seq![d[0]]);
            }
        },
        (NodeV::Element { tag, attrs, children }, _) => {
            lemma_apply_single(
                NodeV::Element { tag, attrs, children: patch_forest(children, idx + 1, d, children.len() as int) },
                idx,
                d[0],
            );
            assert(d == seq![d[0]]);
        },
        (NodeV::Text(_), _) => {
            lemma_apply_single(t, idx, d[0]);
            assert(d == seq![d[0]]);
        },
    }
}

pub open spec fn all_fit(ps: Seq<PatchV>) -> bool {
    forall|i: int| 0 <= i < ps.len() ==> payload_fits(#[trigger] ps[i])
}

proof fn lemma_all_fit_concat(a: Seq<PatchV>, b: Seq<PatchV>)
    requires
        all_fit(a),
        all_fit(b),
    ensures
        all_fit(a + b),
{
    assert forall|i: int| 0 <= i < (a + b).len() implies payload_fits(#[trigger] (a + b)[i]) by {
        if i >= a.len() {
            assert((a + b)[i] == b[i - a.len()]);
        }
    }
}

proof fn lemma_attr_patches_fit(idx: nat, oa: Seq<AttrV>, na: Seq<AttrV>)
    ensures
        all_fit(attr_patches(idx, merge_attrs(oa), merge_attrs(na))),
{
    let o = merge_attrs(oa);
    let n = merge_attrs(na);
    lemma_merge_unique(na);
    lemma_added_lookup(o, n, false, n.len() as int, Seq::empty());
    lemma_added_lookup(o, n, true, n.len() as int, Seq::empty());
    let ps = attr_patches(idx, o, n);
    assert forall|i: int| 0 <= i < ps.len() implies payload_fits(#[trigger] ps[i]) by {}
}

proof fn lemma_diff_fit(t: NodeV, n: NodeV, idx: nat)
    ensures
        all_fit(diff_node(t, n, idx)),
    decreases t, 0nat,
{
    match (t, n) {
        (
            NodeV::Element { tag: ot, attrs: oa, children: oc },
            NodeV::Element { tag: nt, attrs: na, children: nc },
        ) => {
            if ot == nt {
                let m = if oc.len() <= nc.len() { oc.len() } else { nc.len() };
                lemma_attr_patches_fit(idx, oa, na);
                lemma_diff_children_fit(oc, nc, idx + 1, m as int);
                lemma_all_fit_concat(
                    attr_patches(idx, merge_attrs(oa), merge_attrs(na)),
                    diff_children(oc, nc, idx + 1, m as int),
                );
                lemma_all_fit_concat(
                    attr_patches(idx, merge_attrs(oa), merge_attrs(na)) + diff_children(oc, nc, idx + 1, m as int),
                    length_patch(idx, oc, nc),
                );
            }
        },
        _ => {},
    }
}

proof fn lemma_diff_children_fit(oc: Seq<NodeV>, nc: Seq<NodeV>, start: nat, k: int)
    ensures
        all_fit(diff_children(oc, nc, start, k)),
    decreases oc, k,
{
    if k > 0 && k <= oc.len() && k <= nc.len() {
        lemma_diff_children_fit(oc, nc, start, k - 1);
        let s = start + forest_size(oc.subrange(0, k - 1));
        lemma_diff_fit(oc[k - 1], nc[k - 1], s);
        lemma_all_fit_concat(diff_children(oc, nc, start, k - 1), diff_node(oc[k - 1], nc[k - 1], s));
    }
}

/// Every patch that a diff emits fits the old tree: its index names a node
/// of the old tree, and each attribute patch carries only its own kind.
pub proof fn diff_patches_fit(old_tree: NodeV, new_tree: NodeV)
    ensures
        forall|j: int| 0 <= j < diff_node(old_tree, new_tree, 0).len() ==> patch_fits(
            #[trigger] diff_node(old_tree, new_tree, 0)[j],
            tree_size(old_tree),
        ),
{
    lemma_diff_range(old_tree, new_tree, 0);
    lemma_diff_fit(old_tree, new_tree, 0);
}

/// Convergence: applying `diff(old, new)` to a live tree that mirrors `old`
/// yields a tree structurally equal to `new` (same tags and texts, same
/// attributes once merged by name, same children in order).
pub proof fn patching_converges(old_tree: NodeV, new_tree: NodeV)
    ensures
        shape(apply_patches(old_tree, diff_node(old_tree, new_tree, 0))) == shape(new_tree),
{
    lemma_converge(old_tree, new_tree, 0);
}

} // verus!
