use vstd::prelude::*;

verus! {

/// The value of an attribute: a plain string, or the callbacks of an event
/// listener. A callback is named by an identifier; the host keeps the callable.
#[derive(Debug, PartialEq)]
pub enum AttrValue {
    Plain(String),
    Listener(Vec<u64>),
}

/// A named attribute of an element.
#[derive(Debug, PartialEq)]
pub struct Attribute {
    pub name: String,
    pub value: AttrValue,
}

/// A node of a virtual tree: an element with a tag, attributes and ordered
/// children, or a text leaf.
#[derive(Debug, PartialEq)]
pub enum Node {
    Element { tag: String, attrs: Vec<Attribute>, children: Vec<Node> },
    Text(String),
}

/// Mathematical model of an attribute value.
pub enum ValueV {
    Plain(Seq<char>),
    Listener(Seq<u64>),
}

/// Mathematical model of an attribute.
pub struct AttrV {
    pub name: Seq<char>,
    pub value: ValueV,
}

/// Mathematical model of a node.
pub enum NodeV {
    Element { tag: Seq<char>, attrs: Seq<AttrV>, children: Seq<NodeV> },
    Text(Seq<char>),
}

impl View for AttrValue {
    type V = ValueV;

    open spec fn view(&self) -> ValueV {
        match self {
            AttrValue::Plain(s) => ValueV::Plain(s@),
            AttrValue::Listener(cbs) => ValueV::Listener(cbs@),
        }
    }
}

impl View for Attribute {
    type V = AttrV;

    open spec fn view(&self) -> AttrV {
        AttrV { name: self.name@, value: self.value@ }
    }
}

pub open spec fn attrs_view(v: Seq<Attribute>) -> Seq<AttrV> {
    Seq::new(v.len(), |i: int| v[i]@)
}

pub open spec fn nodes_view(v: Seq<Node>) -> Seq<NodeV> {
    Seq::new(v.len(), |i: int| v[i]@)
}

pub open spec fn names_view(v: Seq<String>) -> Seq<Seq<char>> {
    Seq::new(v.len(), |i: int| v[i]@)
}

impl View for Node {
    type V = NodeV;

    open spec fn view(&self) -> NodeV
        decreases self,
    {
        match self {
            Node::Element { tag, attrs, children } => NodeV::Element {
                tag: tag@,
                attrs: attrs_view(attrs@),
                children: Seq::new(
                    children.len() as nat,
                    |i: int|
                        if 0 <= i < children.len() {
                            children@[i].view()
                        } else {
                            NodeV::Text(Seq::empty())
                        },
                ),
            },
            Node::Text(t) => NodeV::Text(t@),
        }
    }
}

pub proof fn lemma_children_view(tag: String, attrs: Vec<Attribute>, children: Vec<Node>)
    ensures
        (Node::Element { tag, attrs, children })@ == (NodeV::Element {
            tag: tag@,
            attrs: attrs_view(attrs@),
            children: nodes_view(children@),
        }),
{
    let n = Node::Element { tag, attrs, children };
    assert(n@->children =~= nodes_view(children@));
}

/// Number of nodes of a tree: the node itself and all its descendants.
pub open spec fn tree_size(t: NodeV) -> nat
    decreases t,
{
    match t {
        NodeV::Element { children, .. } => 1 + forest_size(children),
        NodeV::Text(_) => 1,
    }
}

/// Number of nodes of a sequence of trees.
pub open spec fn forest_size(cs: Seq<NodeV>) -> nat
    decreases cs,
{
    if cs.len() == 0 {
        0
    } else {
        forest_size(cs.subrange(0, cs.len() - 1)) + tree_size(cs[cs.len() - 1])
    }
}

/// Merging two values of one name: callbacks of two listeners are united,
/// otherwise the later value wins.
pub open spec fn merge_value(earlier: ValueV, later: ValueV) -> ValueV {
    match (earlier, later) {
        (ValueV::Listener(a), ValueV::Listener(b)) => ValueV::Listener(a + b),
        _ => later,
    }
}

pub open spec fn has_name(m: Seq<AttrV>, name: Seq<char>) -> bool {
    exists|i: int| 0 <= i < m.len() && m[i].name == name
}

pub open spec fn unique_names(m: Seq<AttrV>) -> bool {
    forall|i: int, j: int| 0 <= i < j < m.len() ==> m[i].name != m[j].name
}

/// The value under `name` in a sequence whose names are unique.
pub open spec fn lookup(m: Seq<AttrV>, name: Seq<char>) -> Option<ValueV> {
    if has_name(m, name) {
        Some(m[choose|i: int| 0 <= i < m.len() && m[i].name == name].value)
    } else {
        None
    }
}

/// Adds one attribute to a merged sequence: merges it into the entry of the
/// same name, or appends it.
pub open spec fn merge_into(m: Seq<AttrV>, a: AttrV) -> Seq<AttrV> {
    if has_name(m, a.name) {
        let i = choose|i: int| 0 <= i < m.len() && m[i].name == a.name;
        m.update(i, AttrV { name: a.name, value: merge_value(m[i].value, a.value) })
    } else {
        m.push(a)
    }
}

/// The merged form of a raw attribute sequence: one entry per name, in the
/// order of each name's first occurrence.
pub open spec fn merge_attrs(s: Seq<AttrV>) -> Seq<AttrV>
    decreases s.len(),
{
    if s.len() == 0 {
        Seq::empty()
    } else {
        merge_into(merge_attrs(s.drop_last()), s.last())
    }
}

pub proof fn lemma_lookup_at(m: Seq<AttrV>, i: int)
    requires
        unique_names(m),
        0 <= i < m.len(),
    ensures
        lookup(m, m[i].name) == Some(m[i].value),
{
    let j = choose|j: int| 0 <= j < m.len() && m[j].name == m[i].name;
    assert(i == j);
}

pub proof fn lemma_merge_unique(s: Seq<AttrV>)
    ensures
        unique_names(merge_attrs(s)),
    decreases s.len(),
{
    if s.len() > 0 {
        lemma_merge_unique(s.drop_last());
    }
}

/// Copies a string character for character.
fn copy_string(s: &String) -> (r: String)
    ensures
        r@ == s@,
{
    s.clone()
}

fn copy_ids(v: &Vec<u64>) -> (r: Vec<u64>)
    ensures
        r@ == v@,
{
    let mut r: Vec<u64> = Vec::new();
    for i in 0..v.len()
        invariant
            r@ == v@.subrange(0, i as int),
    {
        r.push(v[i]);
        assert(r@ =~= v@.subrange(0, i + 1));
    }
    assert(r@ =~= v@);
    r
}

impl AttrValue {
    pub fn copy(&self) -> (r: AttrValue)
        ensures
            r@ == self@,
    {
        match self {
            AttrValue::Plain(s) => AttrValue::Plain(copy_string(s)),
            AttrValue::Listener(v) => AttrValue::Listener(copy_ids(v)),
        }
    }

    /// Whether two values are equal: same text, or same callbacks in order.
    pub fn same_as(&self, other: &AttrValue) -> (r: bool)
        ensures
            r == (self@ == other@),
    {
        match (self, other) {
            (AttrValue::Plain(a), AttrValue::Plain(b)) => {
                let r = *a == *b;
                assert(r == (a@ == b@));
                r
            },
            (AttrValue::Listener(a), AttrValue::Listener(b)) => {
                if a.len() != b.len() {
                    assert(a@.len() != b@.len());
                    return false;
                }
                let mut i: usize = 0;
                while i < a.len()
                    invariant
                        self@ == ValueV::Listener(a@),
                        other@ == ValueV::Listener(b@),
                        a.len() == b.len(),
                        i <= a.len(),
                        a@.subrange(0, i as int) == b@.subrange(0, i as int),
                    decreases a.len() - i,
                {
                    if a[i] != b[i] {
                        assert(a@[i as int] != b@[i as int]);
                        assert(a@ != b@);
                        return false;
                    }
                    assert(a@.subrange(0, i + 1) =~= a@.subrange(0, i as int).push(a@[i as int]));
                    assert(b@.subrange(0, i + 1) =~= b@.subrange(0, i as int).push(b@[i as int]));
                    i = i + 1;
                }
                assert(a@ =~= a@.subrange(0, i as int));
                assert(b@ =~= b@.subrange(0, i as int));
                assert(a@ == b@);
                true
            },
            (AttrValue::Plain(_), AttrValue::Listener(_)) => false,
            (AttrValue::Listener(_), AttrValue::Plain(_)) => false,
        }
    }

    pub fn is_listener(&self) -> (r: bool)
        ensures
            r == (self@ is Listener),
    {
        match self {
            AttrValue::Plain(_) => false,
            AttrValue::Listener(_) => true,
        }
    }
}

impl Attribute {
    /// A plain attribute.
    pub fn new(name: String, value: String) -> (r: Attribute)
        ensures
            r@ == (AttrV { name: name@, value: ValueV::Plain(value@) }),
    {
        Attribute { name, value: AttrValue::Plain(value) }
    }

    /// An event-listener attribute with one callback.
    pub fn listener(name: String, callback: u64) -> (r: Attribute)
        ensures
            r@ == (AttrV { name: name@, value: ValueV::Listener(seq![callback]) }),
    {
        let mut cbs: Vec<u64> = Vec::new();
        cbs.push(callback);
        assert(cbs@ =~= seq![callback]);
        Attribute { name, value: AttrValue::Listener(cbs) }
    }

    pub fn copy(&self) -> (r: Attribute)
        ensures
            r@ == self@,
    {
        Attribute { name: copy_string(&self.name), value: self.value.copy() }
    }
}

pub fn copy_attrs(v: &Vec<Attribute>) -> (r: Vec<Attribute>)
    ensures
        attrs_view(r@) == attrs_view(v@),
{
    let mut r: Vec<Attribute> = Vec::new();
    let mut i: usize = 0;
    while i < v.len()
        invariant
            i <= v.len(),
            r@.len() == i,
            forall|j: int| 0 <= j < i ==> r@[j]@ == v@[j]@,
        decreases v.len() - i,
    {
        r.push(v[i].copy());
        i = i + 1;
    }
    assert(attrs_view(r@) =~= attrs_view(v@));
    r
}

pub proof fn lemma_forest_size_push(cs: Seq<NodeV>, i: int)
    requires
        0 <= i < cs.len(),
    ensures
        forest_size(cs.subrange(0, i + 1)) == forest_size(cs.subrange(0, i)) + tree_size(cs[i]),
{
    assert(cs.subrange(0, i + 1).subrange(0, i) =~= cs.subrange(0, i));
}

impl Node {
    /// A text node.
    pub fn text(s: String) -> (r: Node)
        ensures
            r@ == NodeV::Text(s@),
    {
        Node::Text(s)
    }

    /// An element node.
    pub fn element(tag: String, attrs: Vec<Attribute>, children: Vec<Node>) -> (r: Node)
        ensures
            r@ == (NodeV::Element {
                tag: tag@,
                attrs: attrs_view(attrs@),
                children: nodes_view(children@),
            }),
    {
        proof {
            lemma_children_view(tag, attrs, children);
        }
        Node::Element { tag, attrs, children }
    }

    /// A copy of the whole subtree.
    pub fn copy(&self) -> (r: Node)
        ensures
            r@ == self@,
        decreases self,
    {
        match self {
            Node::Element { tag, attrs, children } => {
                let mut cs: Vec<Node> = Vec::new();
                let mut i: usize = 0;
                while i < children.len()
                    invariant
                        self == (Node::Element { tag: *tag, attrs: *attrs, children: *children }),
                        i <= children.len(),
                        cs@.len() == i,
                        forall|j: int| 0 <= j < i ==> cs@[j]@ == children@[j]@,
                    decreases children.len() - i,
                {
                    assert(decreases_to!(self => self->children));
                    assert(decreases_to!(self->children => self->children@));
                    assert(decreases_to!(children@ => children@[i as int]));
                    cs.push(children[i].copy());
                    i = i + 1;
                }
                proof {
                    lemma_children_view(*tag, *attrs, *children);
                    assert(nodes_view(cs@) =~= nodes_view(children@));
                }
                Node::element(copy_string(tag), copy_attrs(attrs), cs)
            },
            Node::Text(t) => Node::Text(copy_string(t)),
        }
    }

    /// The number of nodes in this subtree.
    pub fn node_count(&self) -> (r: usize)
        requires
            tree_size(self@) <= usize::MAX,
        ensures
            r == tree_size(self@),
        decreases self,
    {
        match self {
            Node::Element { tag, attrs, children } => {
                proof {
                    lemma_children_view(*tag, *attrs, *children);
                }
                let ghost cv = nodes_view(children@);
                let mut total: usize = 1;
                let mut i: usize = 0;
                while i < children.len()
                    invariant
                        self == (Node::Element { tag: *tag, attrs: *attrs, children: *children }),
                        cv == nodes_view(children@),
                        tree_size(self@) == 1 + forest_size(cv),
                        tree_size(self@) <= usize::MAX,
                        i <= children.len(),
                        total == 1 + forest_size(cv.subrange(0, i as int)),
                    decreases children.len() - i,
                {
                    proof {
                        lemma_forest_size_push(cv, i as int);
                        lemma_forest_prefix_le(cv, i + 1);
                    }
                    assert(decreases_to!(self => self->children));
                    assert(decreases_to!(self->children => self->children@));
                    assert(decreases_to!(children@ => children@[i as int]));
                    let n = children[i].node_count();
                    total = total + n;
                    i = i + 1;
                }
                assert(cv.subrange(0, i as int) =~= cv);
                total
            },
            Node::Text(_) => 1,
        }
    }
}

pub proof fn lemma_forest_prefix_le(cs: Seq<NodeV>, n: int)
    requires
        0 <= n <= cs.len(),
    ensures
        forest_size(cs.subrange(0, n)) <= forest_size(cs),
    decreases cs.len() - n,
{
    if n < cs.len() {
        lemma_forest_size_push(cs, n);
        lemma_forest_prefix_le(cs, n + 1);
    } else {
        assert(cs.subrange(0, n) =~= cs);
    }
}

/// Position of the attribute named `name`, if any.
pub fn find_attr(m: &Vec<Attribute>, name: &String) -> (r: Option<usize>)
    ensures
        match r {
            Some(i) => i < m.len() && m@[i as int]@.name == name@ && forall|j: int|
                0 <= j < i ==> m@[j]@.name != name@,
            None => !has_name(attrs_view(m@), name@),
        },
{
    for i in 0..m.len()
        invariant
            forall|j: int| 0 <= j < i ==> m@[j]@.name != name@,
    {
        if m[i].name == *name {
            return Some(i);
        }
    }
    None
}

/// Normalizes a raw attribute sequence: one attribute per name, in order of
/// first occurrence; a later plain value replaces an earlier one, and the
/// callbacks of listeners of one name are joined.
pub fn merge_attributes(attrs: &Vec<Attribute>) -> (r: Vec<Attribute>)
    ensures
        attrs_view(r@) == merge_attrs(attrs_view(attrs@)),
        unique_names(attrs_view(r@)),
{
    let ghost s = attrs_view(attrs@);
    let mut r: Vec<Attribute> = Vec::new();
    for i in 0..attrs.len()
        invariant
            s == attrs_view(attrs@),
            attrs_view(r@) == merge_attrs(s.subrange(0, i as int)),
    {
        proof {
            lemma_merge_unique(s.subrange(0, i as int));
            assert(s.subrange(0, i + 1).drop_last() =~= s.subrange(0, i as int));
        }
        let a = &attrs[i];
        match find_attr(&r, &a.name) {
            Some(j) => {
                let merged = match (&r[j].value, &a.value) {
                    (AttrValue::Listener(x), AttrValue::Listener(y)) => {
                        let mut cbs = copy_ids(x);
                        let ghost x0 = cbs@;
                        for k in 0..y.len()
                            invariant
                                cbs@ == x0 + y@.subrange(0, k as int),
                        {
                            cbs.push(y[k]);
                            assert(cbs@ =~= x0 + y@.subrange(0, k + 1));
                        }
                        assert(y@.subrange(0, y@.len() as int) =~= y@);
                        AttrValue::Listener(cbs)
                    },
                    _ => a.value.copy(),
                };
                let ghost m = attrs_view(r@);
                proof {
                    let c = choose|c: int| 0 <= c < m.len() && m[c].name == s[i as int].name;
                    assert(m[j as int].name == s[i as int].name);
                    assert(c == j);
                }
                r.set(j, Attribute { name: copy_string(&a.name), value: merged });
                assert(attrs_view(r@) =~= merge_into(m, s[i as int]));
            },
            None => {
                let ghost m = attrs_view(r@);
                r.push(a.copy());
                assert(attrs_view(r@) =~= merge_into(m, s[i as int]));
            },
        }
    }
    assert(s.subrange(0, attrs.len() as int) =~= s);
    proof {
        lemma_merge_unique(s);
    }
    r
}

} // verus!
