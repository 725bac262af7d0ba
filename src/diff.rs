use vstd::prelude::*;
use crate::node::{
    AttrValue, Attribute, AttrV, Node, NodeV, ValueV, attrs_view, names_view, nodes_view,
    lookup, unique_names, merge_attrs, tree_size, forest_size, find_attr, merge_attributes,
    lemma_lookup_at, lemma_children_view, lemma_forest_size_push, lemma_forest_prefix_le,
};
use crate::patch::{Patch, PatchV, patches_view};

verus! {

/// Whether `a` of the new merged attributes is to be added: it has the kind
/// asked for, and the old merged attributes do not hold exactly this value.
pub open spec fn keep_added(o: Seq<AttrV>, a: AttrV, listeners: bool) -> bool {
    &&& (a.value is Listener) == listeners
    &&& lookup(o, a.name) != Some(a.value)
}

/// Whether `a` of the old merged attributes is to be removed. A plain
/// attribute goes when the new ones hold no plain value of its name; a
/// listener goes unless the new ones hold exactly the same listener.
pub open spec fn keep_removed(n: Seq<AttrV>, a: AttrV, listeners: bool) -> bool {
    if listeners {
        &&& a.value is Listener
        &&& lookup(n, a.name) != Some(a.value)
    } else {
        &&& a.value is Plain
        &&& !(lookup(n, a.name) matches Some(ValueV::Plain(_)))
    }
}

/// The attributes among the first `k` of `n` that are to be added.
pub open spec fn added(o: Seq<AttrV>, n: Seq<AttrV>, listeners: bool, k: int) -> Seq<AttrV>
    decreases k,
{
    if k <= 0 {
        Seq::empty()
    } else {
        let r = added(o, n, listeners, k - 1);
        if keep_added(o, n[k - 1], listeners) {
            r.push(n[k - 1])
        } else {
            r
        }
    }
}

/// The names among the first `k` of `o` that are to be removed.
pub open spec fn removed(o: Seq<AttrV>, n: Seq<AttrV>, listeners: bool, k: int) -> Seq<Seq<char>>
    decreases k,
{
    if k <= 0 {
        Seq::empty()
    } else {
        let r = removed(o, n, listeners, k - 1);
        if keep_removed(n, o[k - 1], listeners) {
            r.push(o[k - 1].name)
        } else {
            r
        }
    }
}

/// The attribute patches at `idx` between two merged attribute sequences:
/// removals first, then additions, each kind only when it is not empty.
pub open spec fn attr_patches(idx: nat, o: Seq<AttrV>, n: Seq<AttrV>) -> Seq<PatchV> {
    let rp = removed(o, n, false, o.len() as int);
    let rl = removed(o, n, true, o.len() as int);
    let ap = added(o, n, false, n.len() as int);
    let al = added(o, n, true, n.len() as int);
    (if rp.len() > 0 { seq![PatchV::RemoveAttributes(idx, rp)] } else { Seq::empty() })
        + (if rl.len() > 0 { seq![PatchV::RemoveEventListener(idx, rl)] } else { Seq::empty() })
        + (if ap.len() > 0 { seq![PatchV::AddAttributes(idx, ap)] } else { Seq::empty() })
        + (if al.len() > 0 { seq![PatchV::AddEventListener(idx, al)] } else { Seq::empty() })
}

/// The patch for a change in the number of children.
pub open spec fn length_patch(idx: nat, oc: Seq<NodeV>, nc: Seq<NodeV>) -> Seq<PatchV> {
    if nc.len() > oc.len() {
        seq![PatchV::AppendChildren(idx, nc.subrange(oc.len() as int, nc.len() as int))]
    } else if nc.len() < oc.len() {
        seq![PatchV::TruncateChildren(idx, nc.len())]
    } else {
        Seq::empty()
    }
}

/// The patches that turn the subtree `old`, whose root has pre-order index
/// `idx`, into `new`.
pub open spec fn diff_node(old: NodeV, new: NodeV, idx: nat) -> Seq<PatchV>
    decreases old, 0nat,
{
    match (old, new) {
        (
            NodeV::Element { tag: ot, attrs: oa, children: oc },
            NodeV::Element { tag: nt, attrs: na, children: nc },
        ) => {
            if ot == nt {
                let m = if oc.len() <= nc.len() { oc.len() } else { nc.len() };
                attr_patches(idx, merge_attrs(oa), merge_attrs(na)) + diff_children(
                    oc,
                    nc,
                    idx + 1,
                    m as int,
                ) + length_patch(idx, oc, nc)
            } else {
                seq![PatchV::Replace(idx, new)]
            }
        },
        (NodeV::Text(a), NodeV::Text(b)) => {
            if a == b {
                Seq::empty()
            } else {
                seq![PatchV::ChangeText(idx, b)]
            }
        },
        _ => seq![PatchV::Replace(idx, new)],
    }
}

/// The patches for the first `k` pairs of children, where the first old
/// child has pre-order index `start`.
pub open spec fn diff_children(oc: Seq<NodeV>, nc: Seq<NodeV>, start: nat, k: int) -> Seq<PatchV>
    decreases oc, k,
{
    if k <= 0 || k > oc.len() || k > nc.len() {
        Seq::empty()
    } else {
        diff_children(oc, nc, start, k - 1) + diff_node(
            oc[k - 1],
            nc[k - 1],
            start + forest_size(oc.subrange(0, k - 1)),
        )
    }
}

pub proof fn lemma_attrs_view_push(v: Seq<Attribute>, a: Attribute)
    ensures
        attrs_view(v.push(a)) == attrs_view(v).push(a@),
{
    assert(attrs_view(v.push(a)) =~= attrs_view(v).push(a@));
}

pub proof fn lemma_names_view_push(v: Seq<String>, a: String)
    ensures
        names_view(v.push(a)) == names_view(v).push(a@),
{
    assert(names_view(v.push(a)) =~= names_view(v).push(a@));
}

pub proof fn lemma_patches_view_push(v: Seq<Patch>, p: Patch)
    ensures
        patches_view(v.push(p)) == patches_view(v).push(p@),
{
    assert(patches_view(v.push(p)) =~= patches_view(v).push(p@));
}

/// The value under `name` in merged attributes.
fn lookup_value<'a>(m: &'a Vec<Attribute>, name: &String) -> (r: Option<&'a AttrValue>)
    requires
        unique_names(attrs_view(m@)),
    ensures
        match r {
            Some(v) => lookup(attrs_view(m@), name@) == Some(v@),
            None => lookup(attrs_view(m@), name@) is None,
        },
{
    match find_attr(m, name) {
        Some(i) => {
            proof {
                lemma_lookup_at(attrs_view(m@), i as int);
            }
            Some(&m[i].value)
        },
        None => None,
    }
}

/// The attributes of `n` that are to be added, of the kind asked for.
fn added_attrs(o: &Vec<Attribute>, n: &Vec<Attribute>, listeners: bool) -> (r: Vec<Attribute>)
    requires
        unique_names(attrs_view(o@)),
    ensures
        attrs_view(r@) == added(attrs_view(o@), attrs_view(n@), listeners, n@.len() as int),
{
    let ghost ov = attrs_view(o@);
    let ghost nv = attrs_view(n@);
    let mut r: Vec<Attribute> = Vec::new();
    let mut i: usize = 0;
    while i < n.len()
        invariant
            ov == attrs_view(o@),
            nv == attrs_view(n@),
            unique_names(ov),
            i <= n.len(),
            attrs_view(r@) == added(ov, nv, listeners, i as int),
        decreases n.len() - i,
    {
        let a = &n[i];
        let keep = if a.value.is_listener() != listeners {
            false
        } else {
            match lookup_value(o, &a.name) {
                Some(v) => !v.same_as(&a.value),
                None => true,
            }
        };
        assert(nv[i as int] == a@);
        assert(keep == keep_added(ov, nv[i as int], listeners));
        if keep {
            let c = a.copy();
            proof {
                lemma_attrs_view_push(r@, c);
            }
            r.push(c);
        }
        i = i + 1;
    }
    r
}

/// The names of `o` that are to be removed, of the kind asked for.
fn removed_names(o: &Vec<Attribute>, n: &Vec<Attribute>, listeners: bool) -> (r: Vec<String>)
    requires
        unique_names(attrs_view(n@)),
    ensures
        names_view(r@) == removed(attrs_view(o@), attrs_view(n@), listeners, o@.len() as int),
{
    let ghost ov = attrs_view(o@);
    let ghost nv = attrs_view(n@);
    let mut r: Vec<String> = Vec::new();
    let mut i: usize = 0;
    while i < o.len()
        invariant
            ov == attrs_view(o@),
            nv == attrs_view(n@),
            unique_names(nv),
            i <= o.len(),
            names_view(r@) == removed(ov, nv, listeners, i as int),
        decreases o.len() - i,
    {
        let a = &o[i];
        let found = lookup_value(n, &a.name);
        let keep = if listeners {
            a.value.is_listener() && match found {
                Some(v) => !v.same_as(&a.value),
                None => true,
            }
        } else {
            !a.value.is_listener() && match found {
                Some(v) => v.is_listener(),
                None => true,
            }
        };
        assert(ov[i as int] == a@);
        assert(keep == keep_removed(nv, ov[i as int], listeners));
        if keep {
            let c = a.name.clone();
            proof {
                lemma_names_view_push(r@, c);
            }
            r.push(c);
        }
        i = i + 1;
    }
    r
}

/// Appends the attribute patches at `idx` between two merged attribute lists.
fn push_attr_patches(idx: usize, o: &Vec<Attribute>, n: &Vec<Attribute>, patches: &mut Vec<Patch>)
    requires
        unique_names(attrs_view(o@)),
        unique_names(attrs_view(n@)),
    ensures
        patches_view(final(patches)@) == patches_view(old(patches)@) + attr_patches(
            idx as nat,
            attrs_view(o@),
            attrs_view(n@),
        ),
{
    let ghost ps0 = patches_view(patches@);
    let rp = removed_names(o, n, false);
    let rl = removed_names(o, n, true);
    let ap = added_attrs(o, n, false);
    let al = added_attrs(o, n, true);
    let ghost q1 = if rp@.len() > 0 { seq![PatchV::RemoveAttributes(idx as nat, names_view(rp@))] } else { Seq::empty() };
    let ghost q2 = if rl@.len() > 0 { seq![PatchV::RemoveEventListener(idx as nat, names_view(rl@))] } else { Seq::empty() };
    let ghost q3 = if ap@.len() > 0 { seq![PatchV::AddAttributes(idx as nat, attrs_view(ap@))] } else { Seq::empty() };
    let ghost q4 = if al@.len() > 0 { seq![PatchV::AddEventListener(idx as nat, attrs_view(al@))] } else { Seq::empty() };
    if rp.len() > 0 {
        let p = Patch::RemoveAttributes(idx, rp);
        proof { lemma_patches_view_push(patches@, p); }
        patches.push(p);
    }
    assert(patches_view(patches@) =~= ps0 + q1);
    if rl.len() > 0 {
        let p = Patch::RemoveEventListener(idx, rl);
        proof { lemma_patches_view_push(patches@, p); }
        patches.push(p);
    }
    assert(patches_view(patches@) =~= ps0 + q1 + q2);
    if ap.len() > 0 {
        let p = Patch::AddAttributes(idx, ap);
        proof { lemma_patches_view_push(patches@, p); }
        patches.push(p);
    }
    assert(patches_view(patches@) =~= ps0 + q1 + q2 + q3);
    if al.len() > 0 {
        let p = Patch::AddEventListener(idx, al);
        proof { lemma_patches_view_push(patches@, p); }
        patches.push(p);
    }
    assert(patches_view(patches@) =~= ps0 + q1 + q2 + q3 + q4);
    assert(q1 + q2 + q3 + q4 =~= attr_patches(idx as nat, attrs_view(o@), attrs_view(n@)));
    assert(ps0 + q1 + q2 + q3 + q4 =~= ps0 + (q1 + q2 + q3 + q4));
}

/// Appends the patches that turn `old_tree`, whose root has pre-order index
/// `*cur`, into `new_tree`; advances `*cur` past every node of `old_tree`.
fn diff_recursive(old_tree: &Node, new_tree: &Node, cur: &mut usize, patches: &mut Vec<Patch>)
    requires
        *old(cur) + tree_size(old_tree@) <= usize::MAX,
    ensures
        patches_view(final(patches)@) == patches_view(old(patches)@) + diff_node(
            old_tree@,
            new_tree@,
            *old(cur) as nat,
        ),
        *final(cur) == *old(cur) + tree_size(old_tree@),
    decreases old_tree,
{
    let idx = *cur;
    let ghost ps0 = patches_view(patches@);
    match (old_tree, new_tree) {
        (
            Node::Element { tag: ot, attrs: oa, children: oc },
            Node::Element { tag: nt, attrs: na, children: nc },
        ) => {
            proof {
                lemma_children_view(*ot, *oa, *oc);
                lemma_children_view(*nt, *na, *nc);
            }
            if *ot != *nt {
                let size = old_tree.node_count();
                let p = Patch::Replace(idx, new_tree.copy());
                proof { lemma_patches_view_push(patches@, p); }
                patches.push(p);
                *cur = idx + size;
                return;
            }
            let ghost ocv = nodes_view(oc@);
            let ghost ncv = nodes_view(nc@);
            let mo = merge_attributes(oa);
            let mn = merge_attributes(na);
            push_attr_patches(idx, &mo, &mn, patches);
            let ghost ps1 = patches_view(patches@);
            let m = if oc.len() <= nc.len() { oc.len() } else { nc.len() };
            *cur = idx + 1;
            let mut i: usize = 0;
            while i < m
                invariant
                    old_tree == (Node::Element { tag: *ot, attrs: *oa, children: *oc }),
                    ocv == nodes_view(oc@),
                    ncv == nodes_view(nc@),
                    tree_size(old_tree@) == 1 + forest_size(ocv),
                    idx + tree_size(old_tree@) <= usize::MAX,
                    m <= oc.len(),
                    m <= nc.len(),
                    i <= m,
                    *cur == idx + 1 + forest_size(ocv.subrange(0, i as int)),
                    patches_view(patches@) == ps1 + diff_children(ocv, ncv, (idx + 1) as nat, i as int),
                decreases m - i,
            {
                proof {
                    lemma_forest_size_push(ocv, i as int);
                    lemma_forest_prefix_le(ocv, i + 1);
                }
                assert(decreases_to!(old_tree => old_tree->children));
                assert(decreases_to!(old_tree->children => old_tree->children@));
                assert(decreases_to!(oc@ => oc@[i as int]));
                let ghost q = patches_view(patches@);
                diff_recursive(&oc[i], &nc[i], cur, patches);
                assert(patches_view(patches@) =~= ps1 + diff_children(ocv, ncv, (idx + 1) as nat, i + 1));
                i = i + 1;
            }
            let ghost ps2 = patches_view(patches@);
            if nc.len() > oc.len() {
                let mut extra: Vec<Node> = Vec::new();
                let mut j: usize = oc.len();
                while j < nc.len()
                    invariant
                        oc.len() <= j <= nc.len(),
                        ncv == nodes_view(nc@),
                        extra@.len() == j - oc.len(),
                        forall|k: int| 0 <= k < extra@.len() ==> extra@[k]@ == ncv[oc.len() + k],
                    decreases nc.len() - j,
                {
                    extra.push(nc[j].copy());
                    j = j + 1;
                }
                assert(nodes_view(extra@) =~= ncv.subrange(oc.len() as int, nc.len() as int));
                let p = Patch::AppendChildren(idx, extra);
                proof { lemma_patches_view_push(patches@, p); }
                patches.push(p);
            } else if nc.len() < oc.len() {
                let mut j: usize = m;
                while j < oc.len()
                    invariant
                        old_tree == (Node::Element { tag: *ot, attrs: *oa, children: *oc }),
                        ocv == nodes_view(oc@),
                        tree_size(old_tree@) == 1 + forest_size(ocv),
                        idx + tree_size(old_tree@) <= usize::MAX,
                        m <= j <= oc.len(),
                        *cur == idx + 1 + forest_size(ocv.subrange(0, j as int)),
                    decreases oc.len() - j,
                {
                    proof {
                        lemma_forest_size_push(ocv, j as int);
                        lemma_forest_prefix_le(ocv, j + 1);
                    }
                    assert(decreases_to!(old_tree => old_tree->children));
                    assert(decreases_to!(old_tree->children => old_tree->children@));
                    assert(decreases_to!(oc@ => oc@[j as int]));
                    let size = oc[j].node_count();
                    *cur = *cur + size;
                    j = j + 1;
                }
                let p = Patch::TruncateChildren(idx, nc.len());
                proof { lemma_patches_view_push(patches@, p); }
                patches.push(p);
            }
            assert(ocv.subrange(0, oc.len() as int) =~= ocv);
            assert(patches_view(patches@) =~= ps0 + diff_node(old_tree@, new_tree@, idx as nat));
        },
        (Node::Text(a), Node::Text(b)) => {
            if *a != *b {
                let p = Patch::ChangeText(idx, b.clone());
                proof { lemma_patches_view_push(patches@, p); }
                patches.push(p);
            } else {
                assert(patches_view(patches@) =~= ps0 + diff_node(old_tree@, new_tree@, idx as nat));
            }
            *cur = idx + 1;
        },
        _ => {
            let size = old_tree.node_count();
            let p = Patch::Replace(idx, new_tree.copy());
            proof { lemma_patches_view_push(patches@, p); }
            patches.push(p);
            *cur = idx + size;
        },
    }
}

/// The patches that turn a live tree mirroring `old_tree` into one mirroring
/// `new_tree`, in the pre-order of `old_tree`. Children are compared by position.
pub fn diff(old_tree: &Node, new_tree: &Node) -> (r: Vec<Patch>)
    requires
        tree_size(old_tree@) <= usize::MAX,
    ensures
        patches_view(r@) == diff_node(old_tree@, new_tree@, 0),
{
    let mut patches: Vec<Patch> = Vec::new();
    let mut cur: usize = 0;
    diff_recursive(old_tree, new_tree, &mut cur, &mut patches);
    assert(patches_view(patches@) =~= Seq::empty() + diff_node(old_tree@, new_tree@, 0));
    patches
}

} // verus!
