use vstd::prelude::*;
use crate::node::{AttrV, ValueV, lookup, has_name, unique_names, merge_attrs, merge_value, lemma_merge_unique};
use crate::apply::{drop_named, insert_attr, insert_all, attr_map};
use crate::diff::{added, removed, keep_added, keep_removed};

verus! {

/// The value under `k` in a map, if any.
pub open spec fn get(m: Map<Seq<char>, ValueV>, k: Seq<char>) -> Option<ValueV> {
    if m.contains_key(k) {
        Some(m[k])
    } else {
        None
    }
}

pub proof fn lemma_maps_equal_by_get(a: Map<Seq<char>, ValueV>, b: Map<Seq<char>, ValueV>)
    requires
        forall|k: Seq<char>| get(a, k) == get(b, k),
    ensures
        a == b,
{
    assert forall|k: Seq<char>| a.contains_key(k) == b.contains_key(k) by {
        assert(get(a, k) == get(b, k));
    }
    assert forall|k: Seq<char>| a.contains_key(k) implies a[k] == b[k] by {
        assert(get(a, k) == get(b, k));
    }
    assert(a =~= b);
}

/// Appending a name absent from a sequence with unique names.
pub proof fn lemma_lookup_push(m: Seq<AttrV>, b: AttrV, k: Seq<char>)
    requires
        unique_names(m),
        !has_name(m, b.name),
    ensures
        unique_names(m.push(b)),
        has_name(m.push(b), k) == (k == b.name || has_name(m, k)),
        lookup(m.push(b), k) == if k == b.name { Some(b.value) } else { lookup(m, k) },
{
    let p = m.push(b);
    assert(p[m.len() as int] == b);
    assert forall|i: int, j: int| 0 <= i < j < p.len() implies p[i].name != p[j].name by {
        if j == m.len() {
            assert(m[i].name == p[i].name);
        } else {
            assert(p[i] == m[i] && p[j] == m[j]);
        }
    }
    if k == b.name {
        assert(p[m.len() as int].name == k);
        let i = choose|i: int| 0 <= i < p.len() && p[i].name == k;
        assert(i == m.len());
    } else {
        if has_name(m, k) {
            let j = choose|j: int| 0 <= j < m.len() && m[j].name == k;
            assert(p[j] == m[j]);
            let i = choose|i: int| 0 <= i < p.len() && p[i].name == k;
            assert(i == j);
        }
        if has_name(p, k) {
            let i = choose|i: int| 0 <= i < p.len() && p[i].name == k;
            assert(i < m.len());
            assert(p[i] == m[i]);
        }
    }
}

/// Updating the entry of one name in a sequence with unique names.
pub proof fn lemma_lookup_update(m: Seq<AttrV>, i: int, b: AttrV, k: Seq<char>)
    requires
        unique_names(m),
        0 <= i < m.len(),
        m[i].name == b.name,
    ensures
        unique_names(m.update(i, b)),
        has_name(m.update(i, b), k) == has_name(m, k),
        lookup(m.update(i, b), k) == if k == b.name { Some(b.value) } else { lookup(m, k) },
{
    let p = m.update(i, b);
    assert forall|x: int, y: int| 0 <= x < y < p.len() implies p[x].name != p[y].name by {
        assert(p[x].name == m[x].name);
        assert(p[y].name == m[y].name);
    }
    if has_name(m, k) {
        let j = choose|j: int| 0 <= j < m.len() && m[j].name == k;
        assert(p[j].name == k);
    }
    if has_name(p, k) {
        let j = choose|j: int| 0 <= j < p.len() && p[j].name == k;
        assert(m[j].name == k);
        if k == b.name {
            assert(j == i);
        } else {
            let c = choose|c: int| 0 <= c < m.len() && m[c].name == k;
            assert(c == j);
        }
    }
}

pub proof fn lemma_attr_map_push(s: Seq<AttrV>, a: AttrV)
    ensures
        attr_map(s.push(a)) == insert_attr(attr_map(s), a),
{
    assert(s.push(a).drop_last() =~= s);
}

/// The merged sequence and the merged map agree on every name.
pub proof fn lemma_attr_map_merged(s: Seq<AttrV>, k: Seq<char>)
    ensures
        get(attr_map(s), k) == lookup(merge_attrs(s), k),
    decreases s.len(),
{
    if s.len() == 0 {
        assert(!has_name(merge_attrs(s), k));
    } else {
        let s0 = s.drop_last();
        let a = s.last();
        let m0 = merge_attrs(s0);
        lemma_merge_unique(s0);
        lemma_attr_map_merged(s0, k);
        lemma_attr_map_merged(s0, a.name);
        lemma_attr_map_push(s0, a);
        assert(s0.push(a) =~= s);
        if has_name(m0, a.name) {
            let i = choose|i: int| 0 <= i < m0.len() && m0[i].name == a.name;
            let b = AttrV { name: a.name, value: merge_value(m0[i].value, a.value) };
            lemma_lookup_update(m0, i, b, k);
            crate::node::lemma_lookup_at(m0, i);
        } else {
            lemma_lookup_push(m0, a, k);
        }
    }
}

/// Dropping names from a raw sequence drops them from its merged map.
pub proof fn lemma_attr_map_drop(s: Seq<AttrV>, names: Seq<Seq<char>>)
    ensures
        attr_map(drop_named(s, names)) == attr_map(s).remove_keys(names.to_set()),
    decreases s.len(),
{
    if s.len() == 0 {
        assert(attr_map(s).remove_keys(names.to_set()) =~= attr_map(s));
    } else {
        let s0 = s.drop_last();
        let a = s.last();
        lemma_attr_map_drop(s0, names);
        lemma_attr_map_push(s0, a);
        assert(s0.push(a) =~= s);
        if names.contains(a.name) {
            assert(names.to_set().contains(a.name));
            assert(attr_map(s).remove_keys(names.to_set()) =~= attr_map(s0).remove_keys(names.to_set()));
        } else {
            lemma_attr_map_push(drop_named(s0, names), a);
            assert(!names.to_set().contains(a.name));
            assert(attr_map(drop_named(s, names)) =~= attr_map(s).remove_keys(names.to_set()));
        }
    }
}

pub proof fn lemma_insert_all_concat(m: Map<Seq<char>, ValueV>, s: Seq<AttrV>, t: Seq<AttrV>)
    ensures
        insert_all(m, s + t) == insert_all(insert_all(m, s), t),
    decreases t.len(),
{
    if t.len() == 0 {
        assert(s + t =~= s);
    } else {
        lemma_insert_all_concat(m, s, t.drop_last());
        assert((s + t).drop_last() =~= s + t.drop_last());
        assert((s + t).last() == t.last());
    }
}

/// Inserting unique names whose values replace what is there: plain values,
/// or names not yet in the map.
pub proof fn lemma_insert_all_fresh(m: Map<Seq<char>, ValueV>, t: Seq<AttrV>, k: Seq<char>)
    requires
        unique_names(t),
        forall|i: int| 0 <= i < t.len() ==> (#[trigger] t[i]).value is Plain || !m.contains_key(t[i].name),
    ensures
        get(insert_all(m, t), k) == if has_name(t, k) { lookup(t, k) } else { get(m, k) },
    decreases t.len(),
{
    if t.len() > 0 {
        let t0 = t.drop_last();
        let a = t.last();
        assert(a == t[t.len() - 1]);
        assert forall|i: int, j: int| 0 <= i < j < t0.len() implies t0[i].name != t0[j].name by {
            assert(t0[i] == t[i] && t0[j] == t[j]);
        }
        assert forall|i: int| 0 <= i < t0.len() implies (#[trigger] t0[i]).value is Plain || !m.contains_key(t0[i].name) by {
            assert(t0[i] == t[i]);
        }
        assert(!has_name(t0, a.name)) by {
            if has_name(t0, a.name) {
                let j = choose|j: int| 0 <= j < t0.len() && t0[j].name == a.name;
                assert(t[j] == t0[j]);
            }
        }
        lemma_insert_all_fresh(m, t0, k);
        lemma_insert_all_fresh(m, t0, a.name);
        assert(t0.push(a) =~= t);
        lemma_lookup_push(t0, a, k);
    }
}

/// Membership in the list of names to remove.
pub proof fn lemma_removed_contains(o: Seq<AttrV>, n: Seq<AttrV>, l: bool, k: int, x: Seq<char>)
    requires
        unique_names(o),
        0 <= k <= o.len(),
    ensures
        removed(o, n, l, k).contains(x) == (match lookup(o.subrange(0, k), x) {
            Some(v) => keep_removed(n, AttrV { name: x, value: v }, l),
            None => false,
        }),
        unique_names(o.subrange(0, k)),
    decreases k,
{
    let p = o.subrange(0, k);
    assert forall|i: int, j: int| 0 <= i < j < p.len() implies p[i].name != p[j].name by {
        assert(p[i] == o[i] && p[j] == o[j]);
    }
    if k == 0 {
        assert(!has_name(p, x));
    } else {
        lemma_removed_contains(o, n, l, k - 1, x);
        let ps0 = o.subrange(0, k - 1);
        let a = o[k - 1];
        assert(ps0.push(a) =~= p);
        assert(!has_name(ps0, a.name)) by {
            if has_name(ps0, a.name) {
                let j = choose|j: int| 0 <= j < ps0.len() && ps0[j].name == a.name;
                assert(ps0[j] == o[j]);
            }
        }
        lemma_lookup_push(ps0, a, x);
        let r0 = removed(o, n, l, k - 1);
        if keep_removed(n, a, l) {
            assert(r0.push(a.name).contains(x) == (r0.contains(x) || x == a.name)) by {
                if r0.push(a.name).contains(x) {
                    let j = choose|j: int| 0 <= j < r0.push(a.name).len() && r0.push(a.name)[j] == x;
                    if j < r0.len() {
                        assert(r0[j] == x);
                    }
                }
                if r0.contains(x) {
                    let j = choose|j: int| 0 <= j < r0.len() && r0[j] == x;
                    assert(r0.push(a.name)[j] == x);
                }
                if x == a.name {
                    assert(r0.push(a.name)[r0.len() as int] == x);
                }
            }
            if x == a.name {
                assert(lookup(ps0, x) is None);
            }
        }
    }
}

/// What the list of attributes to add holds, name by name.
pub proof fn lemma_added_lookup(o: Seq<AttrV>, n: Seq<AttrV>, l: bool, k: int, x: Seq<char>)
    requires
        unique_names(n),
        0 <= k <= n.len(),
    ensures
        lookup(added(o, n, l, k), x) == (match lookup(n.subrange(0, k), x) {
            Some(v) => if keep_added(o, AttrV { name: x, value: v }, l) { Some(v) } else { None },
            None => None,
        }),
        has_name(added(o, n, l, k), x) == (lookup(added(o, n, l, k), x) is Some),
        unique_names(added(o, n, l, k)),
        forall|i: int| 0 <= i < added(o, n, l, k).len() ==> ((#[trigger] added(o, n, l, k)[i]).value is Listener) == l,
        forall|i: int| 0 <= i < added(o, n, l, k).len() ==> has_name(n.subrange(0, k), (#[trigger] added(o, n, l, k)[i]).name),
    decreases k,
{
    let p = n.subrange(0, k);
    let r = added(o, n, l, k);
    assert forall|i: int, j: int| 0 <= i < j < p.len() implies p[i].name != p[j].name by {
        assert(p[i] == n[i] && p[j] == n[j]);
    }
    if k == 0 {
        assert(!has_name(p, x));
        assert(!has_name(r, x));
    } else {
        let ps0 = n.subrange(0, k - 1);
        let a = n[k - 1];
        let r0 = added(o, n, l, k - 1);
        lemma_added_lookup(o, n, l, k - 1, x);
        lemma_added_lookup(o, n, l, k - 1, a.name);
        assert(ps0.push(a) =~= p);
        assert(!has_name(ps0, a.name)) by {
            if has_name(ps0, a.name) {
                let j = choose|j: int| 0 <= j < ps0.len() && ps0[j].name == a.name;
                assert(ps0[j] == n[j]);
            }
        }
        lemma_lookup_push(ps0, a, x);
        assert forall|y: Seq<char>| has_name(ps0, y) implies has_name(p, y) by {
            let j = choose|j: int| 0 <= j < ps0.len() && ps0[j].name == y;
            assert(p[j] == ps0[j]);
        }
        if keep_added(o, a, l) {
            assert(!has_name(r0, a.name));
            lemma_lookup_push(r0, a, x);
            assert forall|i: int| 0 <= i < r.len() implies has_name(p, (#[trigger] r[i]).name) by {
                if i < r0.len() {
                    assert(r[i] == r0[i]);
                } else {
                    assert(p[k - 1] == a);
                }
            }
        }
    }
}

} // verus!
