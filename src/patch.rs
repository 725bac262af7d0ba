use vstd::prelude::*;
use crate::node::{Attribute, AttrV, Node, NodeV, attrs_view, names_view, nodes_view};

verus! {

/// One operation on a live tree. Each patch names its target by the target's
/// pre-order index in the old tree: the root is 0, and a node's children
/// follow it, each with all its descendants before the next sibling.
#[derive(Debug, PartialEq)]
pub enum Patch {
    /// Append these nodes to the target's children.
    AppendChildren(usize, Vec<Node>),
    /// Keep only the first `len` children of the target.
    TruncateChildren(usize, usize),
    /// Replace the whole subtree at the target.
    Replace(usize, Node),
    /// Set these plain attributes (names unique).
    AddAttributes(usize, Vec<Attribute>),
    /// Remove the plain attributes of these names.
    RemoveAttributes(usize, Vec<String>),
    /// Add these event listeners (names unique).
    AddEventListener(usize, Vec<Attribute>),
    /// Remove the event listeners of these names.
    RemoveEventListener(usize, Vec<String>),
    /// Set the text of a text node.
    ChangeText(usize, String),
}

/// Mathematical model of a patch.
pub enum PatchV {
    AppendChildren(nat, Seq<NodeV>),
    TruncateChildren(nat, nat),
    Replace(nat, NodeV),
    AddAttributes(nat, Seq<AttrV>),
    RemoveAttributes(nat, Seq<Seq<char>>),
    AddEventListener(nat, Seq<AttrV>),
    RemoveEventListener(nat, Seq<Seq<char>>),
    ChangeText(nat, Seq<char>),
}

impl PatchV {
    pub open spec fn idx(self) -> nat {
        match self {
            PatchV::AppendChildren(i, _) => i,
            PatchV::TruncateChildren(i, _) => i,
            PatchV::Replace(i, _) => i,
            PatchV::AddAttributes(i, _) => i,
            PatchV::RemoveAttributes(i, _) => i,
            PatchV::AddEventListener(i, _) => i,
            PatchV::RemoveEventListener(i, _) => i,
            PatchV::ChangeText(i, _) => i,
        }
    }
}

impl View for Patch {
    type V = PatchV;

    open spec fn view(&self) -> PatchV {
        match self {
            Patch::AppendChildren(i, ns) => PatchV::AppendChildren(*i as nat, nodes_view(ns@)),
            Patch::TruncateChildren(i, n) => PatchV::TruncateChildren(*i as nat, *n as nat),
            Patch::Replace(i, n) => PatchV::Replace(*i as nat, n@),
            Patch::AddAttributes(i, a) => PatchV::AddAttributes(*i as nat, attrs_view(a@)),
            Patch::RemoveAttributes(i, n) => PatchV::RemoveAttributes(*i as nat, names_view(n@)),
            Patch::AddEventListener(i, a) => PatchV::AddEventListener(*i as nat, attrs_view(a@)),
            Patch::RemoveEventListener(i, n) => PatchV::RemoveEventListener(
                *i as nat,
                names_view(n@),
            ),
            Patch::ChangeText(i, t) => PatchV::ChangeText(*i as nat, t@),
        }
    }
}

pub open spec fn patches_view(v: Seq<Patch>) -> Seq<PatchV> {
    Seq::new(v.len(), |i: int| v[i]@)
}

impl Patch {
    /// The pre-order index, in the old tree, of the node this patch applies to.
    pub fn node_idx(&self) -> (r: usize)
        ensures
            r == self@.idx(),
    {
        match self {
            Patch::AppendChildren(node_idx, _) => *node_idx,
            Patch::TruncateChildren(node_idx, _) => *node_idx,
            Patch::Replace(node_idx, _) => *node_idx,
            Patch::AddAttributes(node_idx, _) => *node_idx,
            Patch::RemoveAttributes(node_idx, _) => *node_idx,
            Patch::AddEventListener(node_idx, _) => *node_idx,
            Patch::RemoveEventListener(node_idx, _) => *node_idx,
            Patch::ChangeText(node_idx, _) => *node_idx,
        }
    }
}

} // verus!
