use vstd::prelude::*;
use crate::node::{
    Attribute, Node, NodeV, attrs_view, names_view, nodes_view, tree_size, forest_size,
    lemma_children_view, lemma_forest_size_push, lemma_forest_prefix_le, copy_attrs,
};
use crate::patch::{Patch, PatchV, patches_view};
use crate::apply::{payload_fits, patch_fits, drop_named, apply_one, apply_here, patch_tree, patch_forest, apply_patches, shape, attr_map};
use crate::node::{AttrV, lookup, has_name, unique_names, merge_attrs, merge_attributes, lemma_lookup_at};
use crate::attr_map_laws::{get, lemma_attr_map_merged, lemma_maps_equal_by_get};
use crate::diff::lemma_attrs_view_push;

verus! {

fn contains_name(names: &Vec<String>, x: &String) -> (r: bool)
    ensures
        r == names_view(names@).contains(x@),
{
    let mut i: usize = 0;
    while i < names.len()
        invariant
            i <= names.len(),
            forall|j: int| 0 <= j < i ==> names@[j]@ != x@,
        decreases names.len() - i,
    {
        if names[i] == *x {
            assert(names_view(names@)[i as int] == x@);
            return true;
        }
        i = i + 1;
    }
    assert(!names_view(names@).contains(x@)) by {
        if names_view(names@).contains(x@) {
            let j = choose|j: int| 0 <= j < names_view(names@).len() && names_view(names@)[j] == x@;
            assert(names@[j]@ == x@);
        }
    }
    false
}

fn without_names(attrs: Vec<Attribute>, names: &Vec<String>) -> (r: Vec<Attribute>)
    ensures
        attrs_view(r@) == drop_named(attrs_view(attrs@), names_view(names@)),
{
    let ghost av = attrs_view(attrs@);
    let ghost nv = names_view(names@);
    let mut r: Vec<Attribute> = Vec::new();
    let mut i: usize = 0;
    while i < attrs.len()
        invariant
            av == attrs_view(attrs@),
            nv == names_view(names@),
            i <= attrs.len(),
            attrs_view(r@) == drop_named(av.subrange(0, i as int), nv),
        decreases attrs.len() - i,
    {
        assert(av.subrange(0, i + 1).drop_last() =~= av.subrange(0, i as int));
        if !contains_name(names, &attrs[i].name) {
            let c = attrs[i].copy();
            proof {
                lemma_attrs_view_push(r@, c);
            }
            r.push(c);
        }
        i = i + 1;
    }
    assert(av.subrange(0, i as int) =~= av);
    r
}

fn with_attrs(mut attrs: Vec<Attribute>, extra: &Vec<Attribute>) -> (r: Vec<Attribute>)
    ensures
        attrs_view(r@) == attrs_view(attrs@) + attrs_view(extra@),
{
    let ghost a0 = attrs_view(attrs@);
    let mut i: usize = 0;
    while i < extra.len()
        invariant
            i <= extra.len(),
            attrs_view(attrs@) == a0 + attrs_view(extra@).subrange(0, i as int),
        decreases extra.len() - i,
    {
        let c = extra[i].copy();
        proof {
            lemma_attrs_view_push(attrs@, c);
        }
        attrs.push(c);
        assert(a0 + attrs_view(extra@).subrange(0, i + 1) =~= (a0 + attrs_view(extra@).subrange(
            0,
            i as int,
        )).push(c@));
        i = i + 1;
    }
    assert(attrs_view(extra@).subrange(0, i as int) =~= attrs_view(extra@));
    attrs
}

/// The effect of one patch on the node it targets.
fn apply_one_patch(t: Node, p: &Patch) -> (r: Node)
    ensures
        r@ == apply_one(t@, p@),
{
    match p {
        Patch::Replace(_, n) => n.copy(),
        Patch::ChangeText(_, s) => match t {
            Node::Text(_) => Node::Text(s.clone()),
            _ => t,
        },
        _ => match t {
            Node::Element { tag, attrs, children } => {
                proof {
                    lemma_children_view(tag, attrs, children);
                }
                match p {
                    Patch::AppendChildren(_, ns) => {
                        let mut children = children;
                        let ghost c0 = nodes_view(children@);
                        let mut i: usize = 0;
                        while i < ns.len()
                            invariant
                                i <= ns.len(),
                                children@.len() == c0.len() + i,
                                forall|j: int| 0 <= j < c0.len() ==> children@[j]@ == c0[j],
                                forall|j: int| 0 <= j < i ==> children@[c0.len() + j]@ == ns@[j]@,
                            decreases ns.len() - i,
                        {
                            children.push(ns[i].copy());
                            i = i + 1;
                        }
                        assert(nodes_view(children@) =~= c0 + nodes_view(ns@));
                        Node::element(tag, attrs, children)
                    },
                    Patch::TruncateChildren(_, k) => {
                        let mut children = children;
                        let ghost c0 = children@;
                        children.truncate(*k);
                        assert(*k <= c0.len() ==> nodes_view(children@) =~= nodes_view(c0).subrange(0, *k as int));
                        Node::element(tag, attrs, children)
                    },
                    Patch::AddAttributes(_, a) => Node::element(tag, with_attrs(attrs, a), children),
                    Patch::AddEventListener(_, a) => Node::element(tag, with_attrs(attrs, a), children),
                    Patch::RemoveAttributes(_, names) => Node::element(tag, without_names(attrs, names), children),
                    Patch::RemoveEventListener(_, names) => Node::element(tag, without_names(attrs, names), children),
                    Patch::Replace(_, n) => n.copy(),
                    Patch::ChangeText(_, _) => Node::element(tag, attrs, children),
                }
            },
            Node::Text(s) => Node::Text(s),
        },
    }
}

/// `t` after the patches of `ps` that target index `idx`, in order.
fn apply_at(t: Node, idx: usize, ps: &Vec<Patch>) -> (r: Node)
    ensures
        r@ == apply_here(t@, idx as nat, patches_view(ps@)),
{
    let ghost pv = patches_view(ps@);
    let ghost t0 = t@;
    let mut cur = t;
    let mut i: usize = 0;
    while i < ps.len()
        invariant
            pv == patches_view(ps@),
            i <= ps.len(),
            cur@ == apply_here(t0, idx as nat, pv.subrange(0, i as int)),
        decreases ps.len() - i,
    {
        assert(pv.subrange(0, i + 1).drop_last() =~= pv.subrange(0, i as int));
        assert(pv.subrange(0, i + 1).last() == ps@[i as int]@);
        if ps[i].node_idx() == idx {
            cur = apply_one_patch(cur, &ps[i]);
        }
        i = i + 1;
    }
    assert(pv.subrange(0, i as int) =~= pv);
    cur
}

fn patch_subtree(t: &Node, idx: usize, ps: &Vec<Patch>) -> (r: Node)
    requires
        idx + tree_size(t@) <= usize::MAX,
    ensures
        r@ == patch_tree(t@, idx as nat, patches_view(ps@)),
    decreases t,
{
    let ghost pv = patches_view(ps@);
    let inner = match t {
        Node::Element { tag, attrs, children } => {
            proof {
                lemma_children_view(*tag, *attrs, *children);
            }
            let ghost cv = nodes_view(children@);
            let mut kids: Vec<Node> = Vec::new();
            let mut start: usize = idx + 1;
            let mut i: usize = 0;
            while i < children.len()
                invariant
                    t == (Node::Element { tag: *tag, attrs: *attrs, children: *children }),
                    pv == patches_view(ps@),
                    cv == nodes_view(children@),
                    tree_size(t@) == 1 + forest_size(cv),
                    idx + tree_size(t@) <= usize::MAX,
                    i <= children.len(),
                    start == idx + 1 + forest_size(cv.subrange(0, i as int)),
                    nodes_view(kids@) == patch_forest(cv, (idx + 1) as nat, pv, i as int),
                decreases children.len() - i,
            {
                proof {
                    lemma_forest_size_push(cv, i as int);
                    lemma_forest_prefix_le(cv, i + 1);
                }
                assert(decreases_to!(t => t->children));
                assert(decreases_to!(t->children => t->children@));
                assert(decreases_to!(children@ => children@[i as int]));
                let k = patch_subtree(&children[i], start, ps);
                let ghost k0 = kids@;
                kids.push(k);
                assert(nodes_view(kids@) =~= nodes_view(k0).push(k@));
                let n = children[i].node_count();
                start = start + n;
                i = i + 1;
            }
            Node::element(tag.clone(), copy_attrs(attrs), kids)
        },
        Node::Text(s) => Node::Text(s.clone()),
    };
    apply_at(inner, idx, ps)
}

/// Why a patch sequence cannot be applied; each names the position of the
/// first offending patch in the sequence.
#[derive(Debug, PartialEq, Eq, Clone, Copy)]
pub enum ApplyError {
    /// The patch's index is past the last node of the tree.
    IndexNotFound(usize),
    /// An attribute patch carries the other kind of attribute.
    AttributeKindMismatch(usize),
}

fn payload_ok(p: &Patch) -> (r: bool)
    ensures
        r == payload_fits(p@),
{
    match p {
        Patch::AddAttributes(x, a) => {
            let mut i: usize = 0;
            while i < a.len()
                invariant
                    p@ == PatchV::AddAttributes(*x as nat, attrs_view(a@)),
                    i <= a.len(),
                    forall|j: int| 0 <= j < i ==> (#[trigger] attrs_view(a@)[j]).value is Plain,
                decreases a.len() - i,
            {
                if a[i].value.is_listener() {
                    assert(attrs_view(a@)[i as int] == a@[i as int]@);
                    return false;
                }
                i = i + 1;
            }
            true
        },
        Patch::AddEventListener(x, a) => {
            let mut i: usize = 0;
            while i < a.len()
                invariant
                    p@ == PatchV::AddEventListener(*x as nat, attrs_view(a@)),
                    i <= a.len(),
                    forall|j: int| 0 <= j < i ==> (#[trigger] attrs_view(a@)[j]).value is Listener,
                decreases a.len() - i,
            {
                if !a[i].value.is_listener() {
                    assert(attrs_view(a@)[i as int] == a@[i as int]@);
                    return false;
                }
                i = i + 1;
            }
            true
        },
        _ => true,
    }
}

/// Applies `patches`, whose indices were computed against `tree`, to a copy
/// of `tree`; each patch reaches the node its index names in `tree`. The
/// whole sequence is checked first: one patch that does not fit fails it.
pub fn apply(tree: &Node, patches: &Vec<Patch>) -> (r: Result<Node, ApplyError>)
    requires
        tree_size(tree@) <= usize::MAX,
    ensures
        match r {
            Ok(n) => (forall|j: int| 0 <= j < patches@.len() ==> patch_fits(#[trigger] patches@[j]@, tree_size(tree@)))
                && n@ == apply_patches(tree@, patches_view(patches@)),
            Err(ApplyError::IndexNotFound(j)) => j < patches@.len()
                && patches@[j as int]@.idx() >= tree_size(tree@)
                && forall|k: int| 0 <= k < j ==> patch_fits(#[trigger] patches@[k]@, tree_size(tree@)),
            Err(ApplyError::AttributeKindMismatch(j)) => j < patches@.len()
                && patches@[j as int]@.idx() < tree_size(tree@)
                && !payload_fits(patches@[j as int]@)
                && forall|k: int| 0 <= k < j ==> patch_fits(#[trigger] patches@[k]@, tree_size(tree@)),
        },
{
    let size = tree.node_count();
    let mut j: usize = 0;
    while j < patches.len()
        invariant
            size == tree_size(tree@),
            j <= patches.len(),
            forall|k: int| 0 <= k < j ==> patch_fits(#[trigger] patches@[k]@, tree_size(tree@)),
        decreases patches.len() - j,
    {
        if patches[j].node_idx() >= size {
            return Err(ApplyError::IndexNotFound(j));
        }
        if !payload_ok(&patches[j]) {
            return Err(ApplyError::AttributeKindMismatch(j));
        }
        j = j + 1;
    }
    Ok(patch_subtree(tree, 0, patches))
}

/// Whether every entry of `a` appears in `b` with the same value.
fn entries_in(a: &Vec<Attribute>, b: &Vec<Attribute>) -> (r: bool)
    requires
        unique_names(attrs_view(b@)),
    ensures
        r == (forall|i: int| 0 <= i < attrs_view(a@).len() ==> lookup(attrs_view(b@), #[trigger] attrs_view(a@)[i].name) == Some(attrs_view(a@)[i].value)),
{
    let ghost av = attrs_view(a@);
    let ghost bv = attrs_view(b@);
    let mut i: usize = 0;
    while i < a.len()
        invariant
            av == attrs_view(a@),
            bv == attrs_view(b@),
            unique_names(bv),
            i <= a.len(),
            forall|j: int| 0 <= j < i ==> lookup(bv, #[trigger] av[j].name) == Some(av[j].value),
        decreases a.len() - i,
    {
        assert(av[i as int] == a@[i as int]@);
        match crate::node::find_attr(b, &a[i].name) {
            Some(j) => {
                proof {
                    lemma_lookup_at(bv, j as int);
                }
                assert(bv[j as int] == b@[j as int]@);
                if !b[j].value.same_as(&a[i].value) {
                    assert(lookup(bv, av[i as int].name) != Some(av[i as int].value));
                    return false;
                }
            },
            None => {
                assert(lookup(bv, av[i as int].name) is None);
                return false;
            },
        }
        i = i + 1;
    }
    true
}

proof fn lemma_maps_agree(x: Seq<AttrV>, y: Seq<AttrV>)
    ensures
        (attr_map(x) == attr_map(y)) == (
            (forall|i: int| 0 <= i < merge_attrs(x).len() ==> lookup(merge_attrs(y), #[trigger] merge_attrs(x)[i].name) == Some(merge_attrs(x)[i].value))
            && (forall|i: int| 0 <= i < merge_attrs(y).len() ==> lookup(merge_attrs(x), #[trigger] merge_attrs(y)[i].name) == Some(merge_attrs(y)[i].value))),
{
    let a = merge_attrs(x);
    let b = merge_attrs(y);
    crate::node::lemma_merge_unique(x);
    crate::node::lemma_merge_unique(y);
    if attr_map(x) == attr_map(y) {
        assert forall|i: int| 0 <= i < a.len() implies lookup(b, #[trigger] a[i].name) == Some(a[i].value) by {
            lemma_attr_map_merged(x, a[i].name);
            lemma_attr_map_merged(y, a[i].name);
            lemma_lookup_at(a, i);
        }
        assert forall|i: int| 0 <= i < b.len() implies lookup(a, #[trigger] b[i].name) == Some(b[i].value) by {
            lemma_attr_map_merged(x, b[i].name);
            lemma_attr_map_merged(y, b[i].name);
            lemma_lookup_at(b, i);
        }
    } else {
        if (forall|i: int| 0 <= i < a.len() ==> lookup(b, #[trigger] a[i].name) == Some(a[i].value))
            && (forall|i: int| 0 <= i < b.len() ==> lookup(a, #[trigger] b[i].name) == Some(b[i].value)) {
            assert forall|k: Seq<char>| get(attr_map(x), k) == get(attr_map(y), k) by {
                lemma_attr_map_merged(x, k);
                lemma_attr_map_merged(y, k);
                if has_name(a, k) {
                    let i = choose|i: int| 0 <= i < a.len() && a[i].name == k;
                    lemma_lookup_at(a, i);
                } else if has_name(b, k) {
                    let i = choose|i: int| 0 <= i < b.len() && b[i].name == k;
                    lemma_lookup_at(b, i);
                }
            }
            lemma_maps_equal_by_get(attr_map(x), attr_map(y));
        }
    }
}

impl Node {
    /// Structural equality: same kinds, tags and texts, the same attributes
    /// once merged by name (in any order), and structurally equal children
    /// in order.
    pub fn same_structure(&self, other: &Node) -> (r: bool)
        ensures
            r == (shape(self@) == shape(other@)),
        decreases self,
    {
        match (self, other) {
            (
                Node::Element { tag: t1, attrs: a1, children: c1 },
                Node::Element { tag: t2, attrs: a2, children: c2 },
            ) => {
                proof {
                    lemma_children_view(*t1, *a1, *c1);
                    lemma_children_view(*t2, *a2, *c2);
                }
                if *t1 != *t2 {
                    return false;
                }
                let m1 = merge_attributes(a1);
                let m2 = merge_attributes(a2);
                let agree = entries_in(&m1, &m2) && entries_in(&m2, &m1);
                proof {
                    lemma_maps_agree(attrs_view(a1@), attrs_view(a2@));
                }
                if !agree {
                    assert(shape(self@)->attrs != shape(other@)->attrs);
                    return false;
                }
                if c1.len() != c2.len() {
                    assert(shape(self@)->children.len() != shape(other@)->children.len());
                    return false;
                }
                let mut i: usize = 0;
                while i < c1.len()
                    invariant
                        self == (Node::Element { tag: *t1, attrs: *a1, children: *c1 }),
                        self@ == (NodeV::Element { tag: t1@, attrs: attrs_view(a1@), children: nodes_view(c1@) }),
                        other@ == (NodeV::Element { tag: t2@, attrs: attrs_view(a2@), children: nodes_view(c2@) }),
                        c1.len() == c2.len(),
                        i <= c1.len(),
                        forall|j: int| 0 <= j < i ==> shape(#[trigger] c1@[j]@) == shape(c2@[j]@),
                    decreases c1.len() - i,
                {
                    assert(decreases_to!(self => self->children));
                    assert(decreases_to!(self->children => self->children@));
                    assert(decreases_to!(c1@ => c1@[i as int]));
                    if !c1[i].same_structure(&c2[i]) {
                        assert(shape(self@)->children[i as int] == shape(c1@[i as int]@));
                        assert(shape(other@)->children[i as int] == shape(c2@[i as int]@));
                        return false;
                    }
                    i = i + 1;
                }
                assert(shape(self@)->children =~= shape(other@)->children);
                true
            },
            (Node::Text(x), Node::Text(y)) => *x == *y,
            (Node::Element { .. }, Node::Text(_)) => false,
            (Node::Text(_), Node::Element { .. }) => false,
        }
    }
}

} // verus!
