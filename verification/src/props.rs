use vstd::prelude::*;

use crate::names::{lemma_sorted_insert, lemma_sorted_remove, lemma_str_total, lemma_str_trans, str_before, str_lt, strictly_sorted};
use crate::value::{copy_bytes, copy_string, str_eq, Value, ValueView};

verus! {

/// The contents of a property list: (name, value) pairs in order.
pub type PropsView = Seq<(Seq<char>, ValueView)>;

/// The contents of a property list held in a vector.
pub open spec fn props_view(v: Seq<(String, Value)>) -> PropsView {
    v.map_values(|p: (String, Value)| (p.0@, p.1@))
}

/// The property map a list stands for: a later pair wins over an earlier one of the
/// same name.
pub open spec fn props_map(s: PropsView) -> Map<Seq<char>, ValueView>
    decreases s.len(),
{
    if s.len() == 0 {
        Map::empty()
    } else {
        props_map(s.drop_last()).insert(s.last().0, s.last().1)
    }
}

/// No name occurs twice in the list.
pub open spec fn distinct_names(s: PropsView) -> bool {
    forall|i: int, j: int| 0 <= i < j < s.len() ==> s[i].0 != s[j].0
}

/// The names of a property list, in order.
pub open spec fn names_of(s: PropsView) -> Seq<Seq<char>> {
    s.map_values(|p: (Seq<char>, ValueView)| p.0)
}

/// The names come in the order of `String`, each once.
pub open spec fn names_sorted(s: PropsView) -> bool {
    strictly_sorted(names_of(s))
}

/// Inserting a pair whose name is not in the list adds it to the map.
pub proof fn lemma_props_map_insert(s: PropsView, pos: int, k: Seq<char>, v: ValueView)
    requires
        distinct_names(s),
        0 <= pos <= s.len(),
        forall|j: int| 0 <= j < s.len() ==> (#[trigger] s[j]).0 != k,
    ensures
        distinct_names(s.insert(pos, (k, v))),
        props_map(s.insert(pos, (k, v))) == props_map(s).insert(k, v),
{
    let t = s.insert(pos, (k, v));
    assert forall|i: int, j: int| 0 <= i < j < t.len() implies t[i].0 != t[j].0 by {
        let a = if i < pos { i } else if i == pos { -1 } else { i - 1 };
        let b = if j < pos { j } else if j == pos { -1 } else { j - 1 };
        if i != pos && j != pos {
            assert(t[i] == s[a] && t[j] == s[b]);
        } else if i == pos {
            assert(t[j] == s[b]);
        } else {
            assert(t[i] == s[a]);
        }
    }
    assert forall|x: Seq<char>| #[trigger] props_map(t).contains_key(x) == props_map(s).insert(k, v).contains_key(x) by {
        lemma_props_map_dom(t, x);
        lemma_props_map_dom(s, x);
        if exists|i: int| 0 <= i < t.len() && (#[trigger] t[i]).0 == x {
            let i = choose|i: int| 0 <= i < t.len() && (#[trigger] t[i]).0 == x;
            if i < pos {
                assert(s[i] == t[i]);
            } else if i > pos {
                assert(s[i - 1] == t[i]);
            }
        }
        if exists|i: int| 0 <= i < s.len() && (#[trigger] s[i]).0 == x {
            let i = choose|i: int| 0 <= i < s.len() && (#[trigger] s[i]).0 == x;
            if i < pos {
                assert(t[i] == s[i]);
            } else {
                assert(t[i + 1] == s[i]);
            }
        }
        if x == k {
            assert(t[pos].0 == k);
        }
    }
    assert forall|x: Seq<char>| #[trigger] props_map(t).contains_key(x) implies props_map(t)[x] == props_map(s).insert(k, v)[x] by {
        lemma_props_map_dom(t, x);
        let i = choose|i: int| 0 <= i < t.len() && (#[trigger] t[i]).0 == x;
        lemma_props_map_at(t, i);
        if i < pos {
            assert(s[i] == t[i]);
            lemma_props_map_at(s, i);
        } else if i > pos {
            assert(s[i - 1] == t[i]);
            lemma_props_map_at(s, i - 1);
        }
    }
    assert(props_map(t) =~= props_map(s).insert(k, v));
}

/// Whether the names of a property list come in the order of `String`, each once.
pub fn names_in_order(p: &Vec<(String, Value)>) -> (r: bool)
    ensures
        r == names_sorted(props_view(p@)),
{
    let ghost s = props_view(p@);
    let ghost n = names_of(s);
    if p.len() == 0 {
        assert(n.len() == 0);
        return true;
    }
    let mut i: usize = 1;
    while i < p.len()
        invariant
            1 <= i <= p@.len(),
            s == props_view(p@),
            n == names_of(s),
            n.len() == p@.len(),
            strictly_sorted(n.subrange(0, i as int)),
        decreases p@.len() - i,
    {
        proof {
            assert(n[i - 1] == p@[i - 1].0@);
            assert(n[i as int] == p@[i as int].0@);
        }
        if !str_lt(p[i - 1].0.as_str(), p[i].0.as_str()) {
            proof {
                assert(!str_before(n[i - 1], n[i as int]));
            }
            return false;
        }
        proof {
            let sub = n.subrange(0, i + 1);
            assert forall|a: int, b: int| 0 <= a < b < sub.len() implies str_before(#[trigger] sub[a], #[trigger] sub[b]) by {
                if b < i {
                    assert(sub[a] == n.subrange(0, i as int)[a] && sub[b] == n.subrange(0, i as int)[b]);
                } else if a < i - 1 {
                    assert(sub[a] == n.subrange(0, i as int)[a] && n[i - 1] == n.subrange(0, i as int)[i - 1]);
                    lemma_str_trans(n[a], n[i - 1], n[i as int]);
                }
            }
        }
        i = i + 1;
    }
    proof {
        assert(n.subrange(0, i as int) =~= n);
    }
    true
}

/// A name has a value in the map exactly where some pair of the list carries it.
pub proof fn lemma_props_map_dom(s: PropsView, k: Seq<char>)
    ensures
        props_map(s).contains_key(k) <==> exists|i: int| 0 <= i < s.len() && (#[trigger] s[i]).0 == k,
    decreases s.len(),
{
    if s.len() > 0 {
        lemma_props_map_dom(s.drop_last(), k);
        if props_map(s.drop_last()).contains_key(k) {
            let i = choose|i: int| 0 <= i < s.drop_last().len() && (#[trigger] s.drop_last()[i]).0 == k;
            assert(s[i] == s.drop_last()[i]);
        }
        if exists|i: int| 0 <= i < s.len() && (#[trigger] s[i]).0 == k {
            let i = choose|i: int| 0 <= i < s.len() && (#[trigger] s[i]).0 == k;
            if i < s.len() - 1 {
                assert(s.drop_last()[i] == s[i]);
            }
        }
    }
}

/// In a list without repeated names, each pair gives the map's value for its name.
pub proof fn lemma_props_map_at(s: PropsView, i: int)
    requires
        distinct_names(s),
        0 <= i < s.len(),
    ensures
        props_map(s).contains_key(s[i].0),
        props_map(s)[s[i].0] == s[i].1,
    decreases s.len(),
{
    if i < s.len() - 1 {
        let d = s.drop_last();
        assert(d[i] == s[i]);
        assert(distinct_names(d));
        lemma_props_map_at(d, i);
    }
}

/// Replacing the value of a pair replaces the map's value for its name.
pub proof fn lemma_props_map_update(s: PropsView, i: int, v: ValueView)
    requires
        distinct_names(s),
        0 <= i < s.len(),
    ensures
        props_map(s.update(i, (s[i].0, v))) == props_map(s).insert(s[i].0, v),
    decreases s.len(),
{
    let k = s[i].0;
    let t = s.update(i, (k, v));
    if i == s.len() - 1 {
        assert(t.drop_last() =~= s.drop_last());
        assert(props_map(t) =~= props_map(s).insert(k, v));
    } else {
        let d = s.drop_last();
        assert(distinct_names(d));
        assert(d[i] == s[i]);
        lemma_props_map_update(d, i, v);
        assert(t.drop_last() =~= d.update(i, (k, v)));
        assert(s.last().0 != k);
        assert(props_map(t) =~= props_map(s).insert(k, v));
    }
}

/// Removing a pair removes its name from the map.
pub proof fn lemma_props_map_remove(s: PropsView, i: int)
    requires
        distinct_names(s),
        0 <= i < s.len(),
    ensures
        props_map(s.remove(i)) == props_map(s).remove(s[i].0),
    decreases s.len(),
{
    let k = s[i].0;
    let d = s.drop_last();
    assert(distinct_names(d));
    if i == s.len() - 1 {
        assert(s.remove(i) =~= d);
        lemma_props_map_dom(d, k);
        assert(!props_map(d).contains_key(k)) by {
            if props_map(d).contains_key(k) {
                let j = choose|j: int| 0 <= j < d.len() && (#[trigger] d[j]).0 == k;
                assert(s[j] == d[j]);
            }
        }
        assert(props_map(s.remove(i)) =~= props_map(s).remove(k));
    } else {
        assert(d[i] == s[i]);
        lemma_props_map_remove(d, i);
        assert(s.remove(i).drop_last() =~= d.remove(i));
        assert(s.remove(i).last() == s.last());
        assert(s.last().0 != k);
        assert(props_map(s.remove(i)) =~= props_map(s).remove(k));
    }
}

/// A copy of a value.
pub fn copy_value(v: &Value) -> (r: Value)
    ensures
        r@ == v@,
{
    match v {
        Value::String(s) => Value::String(copy_string(s)),
        Value::Int(n) => Value::Int(*n),
        Value::Float(b) => Value::Float(*b),
        Value::Bool(b) => Value::Bool(*b),
        Value::Bytes(b) => Value::Bytes(copy_bytes(b)),
        Value::Vector(x) => Value::Vector(vstd::slice::slice_to_vec(x.as_slice())),
    }
}

/// A copy of a property list.
pub fn copy_props(p: &Vec<(String, Value)>) -> (r: Vec<(String, Value)>)
    ensures
        props_view(r@) == props_view(p@),
{
    let mut out: Vec<(String, Value)> = Vec::new();
    let mut i: usize = 0;
    while i < p.len()
        invariant
            i <= p@.len(),
            props_view(out@) == props_view(p@).subrange(0, i as int),
        decreases p@.len() - i,
    {
        let k = copy_string(&p[i].0);
        let v = copy_value(&p[i].1);
        let ghost pre = out@;
        let ghost kv = (k@, v@);
        out.push((k, v));
        proof {
            assert(kv == props_view(p@)[i as int]);
            assert(props_view(out@) =~= props_view(pre).push(kv));
            assert(props_view(out@) =~= props_view(p@).subrange(0, i + 1));
        }
        i = i + 1;
    }
    assert(props_view(out@) =~= props_view(p@));
    out
}

/// The position of the pair named `name`, if any.
pub fn find_property(p: &Vec<(String, Value)>, name: &str) -> (r: Option<usize>)
    ensures
        match r {
            Some(i) => i < p@.len() && p@[i as int].0@ == name@,
            None => forall|i: int| 0 <= i < p@.len() ==> (#[trigger] p@[i]).0@ != name@,
        },
{
    let mut i: usize = 0;
    while i < p.len()
        invariant
            i <= p@.len(),
            forall|j: int| 0 <= j < i ==> (#[trigger] p@[j]).0@ != name@,
        decreases p@.len() - i,
    {
        if str_eq(p[i].0.as_str(), name) {
            return Some(i);
        }
        i = i + 1;
    }
    None
}

/// The value of the property `name`, if the list has one.
pub fn get_property<'a>(p: &'a Vec<(String, Value)>, name: &str) -> (r: Option<&'a Value>)
    requires
        distinct_names(props_view(p@)),
    ensures
        match r {
            Some(v) => props_map(props_view(p@)).contains_key(name@) && props_map(props_view(p@))[name@] == v@,
            None => !props_map(props_view(p@)).contains_key(name@),
        },
{
    let ghost s = props_view(p@);
    match find_property(p, name) {
        Some(i) => {
            proof {
                assert(s[i as int].0 == name@);
                lemma_props_map_at(s, i as int);
            }
            Some(&p[i].1)
        },
        None => {
            proof {
                lemma_props_map_dom(s, name@);
                if props_map(s).contains_key(name@) {
                    let j = choose|j: int| 0 <= j < s.len() && (#[trigger] s[j]).0 == name@;
                    assert(p@[j].0@ == s[j].0);
                }
            }
            None
        },
    }
}

/// Gives the property `name` the value `value`, in place where it is present, at the end
/// where it is not.
pub fn set_property(p: &mut Vec<(String, Value)>, name: String, value: Value)
    requires
        distinct_names(props_view(old(p)@)),
    ensures
        distinct_names(props_view(final(p)@)),
        props_map(props_view(final(p)@)) == props_map(props_view(old(p)@)).insert(name@, value@),
        names_sorted(props_view(old(p)@)) ==> names_sorted(props_view(final(p)@)),
{
    let ghost s = props_view(p@);
    match find_property(p, name.as_str()) {
        Some(i) => {
            let ghost v = value@;
            p.set(i, (name, value));
            proof {
                assert(props_view(p@) =~= s.update(i as int, (s[i as int].0, v)));
                assert(names_of(props_view(p@)) =~= names_of(s));
                lemma_props_map_update(s, i as int, v);
            }
        },
        None => {
            let ghost k = name@;
            let ghost v = value@;
            let pos = insertion_point(p, name.as_str());
            p.insert(pos, (name, value));
            proof {
                assert(props_view(p@) =~= s.insert(pos as int, (k, v)));
                assert forall|j: int| 0 <= j < s.len() implies (#[trigger] s[j]).0 != k by {
                    assert(old(p)@[j].0@ == s[j].0);
                }
                lemma_props_map_insert(s, pos as int, k, v);
                assert(names_of(props_view(p@)) =~= names_of(s).insert(pos as int, k));
                if names_sorted(s) {
                    lemma_sorted_insert(names_of(s), pos as int, k);
                }
            }
        },
    }
}

/// Where a name not in the list goes to keep sorted names sorted: after every name before
/// it.
fn insertion_point(p: &Vec<(String, Value)>, name: &str) -> (r: usize)
    requires
        forall|j: int| 0 <= j < p@.len() ==> (#[trigger] p@[j]).0@ != name@,
    ensures
        r <= p@.len(),
        forall|j: int| 0 <= j < r ==> str_before(#[trigger] names_of(props_view(p@))[j], name@),
        names_sorted(props_view(p@)) ==> forall|j: int|
            r <= j < p@.len() ==> str_before(name@, #[trigger] names_of(props_view(p@))[j]),
{
    let ghost ns = names_of(props_view(p@));
    let mut i: usize = 0;
    while i < p.len() && str_lt(p[i].0.as_str(), name)
        invariant
            i <= p@.len(),
            ns == names_of(props_view(p@)),
            forall|j: int| 0 <= j < i ==> str_before(#[trigger] ns[j], name@),
        decreases p@.len() - i,
    {
        i = i + 1;
    }
    proof {
        if names_sorted(props_view(p@)) && i < p@.len() {
            assert(ns[i as int] == p@[i as int].0@);
            lemma_str_total(ns[i as int], name@);
            assert forall|j: int| i <= j < p@.len() implies str_before(name@, #[trigger] ns[j]) by {
                if j > i {
                    lemma_str_trans(name@, ns[i as int], ns[j]);
                }
            }
        }
    }
    i
}

/// Removes the property `name`, if present.
pub fn remove_property(p: &mut Vec<(String, Value)>, name: &str)
    requires
        distinct_names(props_view(old(p)@)),
    ensures
        distinct_names(props_view(final(p)@)),
        props_map(props_view(final(p)@)) == props_map(props_view(old(p)@)).remove(name@),
        names_sorted(props_view(old(p)@)) ==> names_sorted(props_view(final(p)@)),
{
    let ghost s = props_view(p@);
    match find_property(p, name) {
        Some(i) => {
            p.remove(i);
            proof {
                assert(props_view(p@) =~= s.remove(i as int));
                assert(names_of(props_view(p@)) =~= names_of(s).remove(i as int));
                if names_sorted(s) {
                    lemma_sorted_remove(names_of(s), i as int);
                }
                lemma_props_map_remove(s, i as int);
                assert forall|a: int, b: int| 0 <= a < b < props_view(p@).len() implies props_view(p@)[a].0
                    != props_view(p@)[b].0 by {
                    if a < i {
                        if b < i {
                        } else {
                            assert(props_view(p@)[b] == s[b + 1]);
                        }
                    } else {
                        assert(props_view(p@)[a] == s[a + 1]);
                        assert(props_view(p@)[b] == s[b + 1]);
                    }
                }
            }
        },
        None => {
            proof {
                lemma_props_map_dom(s, name@);
                if props_map(s).contains_key(name@) {
                    let j = choose|j: int| 0 <= j < s.len() && (#[trigger] s[j]).0 == name@;
                    assert(old(p)@[j].0@ == s[j].0);
                }
                assert(props_map(s).remove(name@) =~= props_map(s));
            }
        },
    }
}

/// The list of a property map given as pairs: each name once, in name order, with the
/// value of its last pair.
pub fn collect_properties(items: Vec<(String, Value)>) -> (r: Vec<(String, Value)>)
    ensures
        distinct_names(props_view(r@)),
        names_sorted(props_view(r@)),
        props_map(props_view(r@)) == props_map(props_view(items@)),
{
    let ghost all = props_view(items@);
    let mut out: Vec<(String, Value)> = Vec::new();
    assert(names_of(props_view(out@)) =~= Seq::<Seq<char>>::empty());
    let mut i: usize = 0;
    while i < items.len()
        invariant
            i <= items@.len(),
            all == props_view(items@),
            distinct_names(props_view(out@)),
            names_sorted(props_view(out@)),
            props_map(props_view(out@)) == props_map(all.subrange(0, i as int)),
        decreases items@.len() - i,
    {
        let k = copy_string(&items[i].0);
        let v = copy_value(&items[i].1);
        set_property(&mut out, k, v);
        proof {
            assert(all.subrange(0, i + 1).drop_last() =~= all.subrange(0, i as int));
        }
        i = i + 1;
    }
    assert(all.subrange(0, i as int) =~= all);
    out
}

} // verus!
