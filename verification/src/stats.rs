use vstd::prelude::*;
use vstd::utf8::encode_utf8;

use crate::error::HelixiteError;
use crate::names::{lemma_sorted_insert, lemma_str_total, lemma_str_trans, str_before, str_lt, strictly_sorted, strs_view};
use crate::index::properties::{registered_pairs, PropertyIndexRegistry, EDGE_TAG, NODE_TAG};
use crate::record::{parse_edge, parse_node};
use crate::storage::engine::{scan_result, Db, Entry, ReadTxn, Scan, StorageEngine, StoreView};
use crate::value::{copy_string, str_eq};
use crate::node::Node;
use crate::edge::Edge;

verus! {

/// How many nodes and edges carry one label.
#[derive(Debug, Clone, PartialEq, Eq)]
pub struct LabelStats {
    pub label: String,
    pub node_count: usize,
    pub edge_count: usize,
}

/// The registered property indexes, by label: the labels in order, each with its indexed
/// properties in order.
#[derive(Debug, Clone, PartialEq, Eq)]
pub struct IndexStats {
    pub node_properties: Vec<(String, Vec<String>)>,
    pub edge_properties: Vec<(String, Vec<String>)>,
}

/// What a store holds: how many nodes and edges, how many of each label, and which
/// property indexes are registered.
#[derive(Debug, Clone, PartialEq, Eq)]
pub struct GraphStats {
    pub node_count: usize,
    pub edge_count: usize,
    pub labels: Vec<LabelStats>,
    pub indexes: IndexStats,
}

/// How many times `l` occurs in `s`.
pub open spec fn count_label(s: Seq<Seq<char>>, l: Seq<char>) -> nat
    decreases s.len(),
{
    if s.len() == 0 {
        0
    } else {
        count_label(s.drop_last(), l) + if s.last() == l {
            1nat
        } else {
            0nat
        }
    }
}

/// `ls` are the labels of the records of `db` on `m`, each record once, as `label_of`
/// reads them.
pub open spec fn record_labels(m: StoreView, db: Db, ls: Seq<Seq<char>>) -> bool {
    exists|es: Seq<Entry>|
        #[trigger] scan_result(m, db, Scan::All, None, es) && es.len() == ls.len() && forall|i: int|
            0 <= i < es.len() ==> label_of(db, (#[trigger] es[i]).value@) == Some(ls[i])
}

/// The label of a node or edge record.
pub open spec fn label_of(db: Db, b: Seq<u8>) -> Option<Seq<char>> {
    if db == Db::Edges {
        match parse_edge(b) {
            Some(e) => Some(e.label),
            None => None,
        }
    } else {
        match parse_node(b) {
            Some(n) => Some(n.label),
            None => None,
        }
    }
}

/// The label counts `v` are those of the node labels `ns` and the edge labels `es`: one
/// row per label that occurs, in label order, with its counts.
pub open spec fn tally_ok(v: Seq<LabelStats>, ns: Seq<Seq<char>>, es: Seq<Seq<char>>) -> bool {
    &&& strictly_sorted(v.map_values(|s: LabelStats| s.label@))
    &&& forall|a: int|
        0 <= a < v.len() ==> (#[trigger] v[a]).node_count == count_label(ns, v[a].label@) && v[a].edge_count
            == count_label(es, v[a].label@) && count_label(ns, v[a].label@) + count_label(es, v[a].label@) > 0
    &&& forall|l: Seq<char>|
        count_label(ns, l) > 0 || count_label(es, l) > 0 ==> exists|a: int| 0 <= a < v.len() && (#[trigger] v[a]).label@ == l
}

/// The groups `g` are the (label, property) pairs `pairs`: one group per label that
/// occurs, in label order, with its properties in order.
pub open spec fn groups_ok(g: Seq<(String, Vec<String>)>, pairs: Set<(Seq<char>, Seq<char>)>) -> bool {
    &&& strictly_sorted(g.map_values(|x: (String, Vec<String>)| x.0@))
    &&& forall|a: int|
        0 <= a < g.len() ==> strictly_sorted(strs_view((#[trigger] g[a]).1@)) && g[a].1@.len() > 0
    &&& forall|lp: (Seq<char>, Seq<char>)|
        #[trigger] pairs.contains(lp) <==> exists|a: int, b: int|
            0 <= a < g.len() && 0 <= b < g[a].1@.len() && (#[trigger] g[a]).0@ == lp.0 && (#[trigger] g[a].1@[b])@ == lp.1
}

proof fn lemma_count_push(s: Seq<Seq<char>>, x: Seq<char>, l: Seq<char>)
    ensures
        count_label(s.push(x), l) == count_label(s, l) + if x == l {
            1nat
        } else {
            0nat
        },
{
    assert(s.push(x).drop_last() =~= s);
}

proof fn lemma_count_bound(s: Seq<Seq<char>>, l: Seq<char>)
    ensures
        count_label(s, l) <= s.len(),
    decreases s.len(),
{
    if s.len() > 0 {
        lemma_count_bound(s.drop_last(), l);
    }
}

/// Where `key` stands among strictly sorted `keys`: whether it is there, and the position
/// it is at or would be inserted at.
fn locate(keys: &Vec<String>, key: &str) -> (r: (bool, usize))
    requires
        strictly_sorted(strs_view(keys@)),
    ensures
        r.1 <= keys@.len(),
        forall|j: int| 0 <= j < r.1 ==> str_before(#[trigger] keys@[j]@, key@),
        r.0 ==> r.1 < keys@.len() && keys@[r.1 as int]@ == key@,
        !r.0 ==> forall|j: int| r.1 <= j < keys@.len() ==> str_before(key@, #[trigger] keys@[j]@),
        !r.0 ==> forall|j: int| 0 <= j < keys@.len() ==> (#[trigger] keys@[j])@ != key@,
{
    let ghost ks = strs_view(keys@);
    let mut i: usize = 0;
    while i < keys.len() && str_lt(keys[i].as_str(), key)
        invariant
            i <= keys@.len(),
            ks == strs_view(keys@),
            forall|j: int| 0 <= j < i ==> str_before(#[trigger] keys@[j]@, key@),
        decreases keys@.len() - i,
    {
        i = i + 1;
    }
    if i < keys.len() && str_eq(keys[i].as_str(), key) {
        return (true, i);
    }
    proof {
        assert forall|j: int| i <= j < keys@.len() implies str_before(key@, #[trigger] keys@[j]@) by {
            lemma_str_total(keys@[i as int]@, key@);
            if j > i {
                assert(ks[i as int] == keys@[i as int]@ && ks[j] == keys@[j]@);
                lemma_str_trans(key@, keys@[i as int]@, keys@[j]@);
            }
        }
        assert forall|j: int| 0 <= j < keys@.len() implies (#[trigger] keys@[j])@ != key@ by {
            lemma_str_total(key@, key@);
        }
    }
    (false, i)
}

/// Counts one more record labelled `label`: a node's where `node`, else an edge's.
fn tally(labels: &mut Vec<String>, counts: &mut Vec<(usize, usize)>, label: &String, node: bool, Ghost(ns): Ghost<Seq<Seq<char>>>, Ghost(es): Ghost<Seq<Seq<char>>>)
    requires
        tally_rows(old(labels)@, old(counts)@, ns, es),
        (if node { ns.len() } else { es.len() }) < usize::MAX,
    ensures
        tally_rows(final(labels)@, final(counts)@, if node { ns.push(label@) } else { ns }, if node { es } else { es.push(label@) }),
{
    let ghost ns2 = if node { ns.push(label@) } else { ns };
    let ghost es2 = if node { es } else { es.push(label@) };
    proof {
        assert forall|l: Seq<char>| count_label(ns2, l) == count_label(ns, l) + (if node && label@ == l { 1nat } else { 0nat })
            && count_label(es2, l) == count_label(es, l) + (if !node && label@ == l { 1nat } else { 0nat }) by {
            lemma_count_push(ns, label@, l);
            lemma_count_push(es, label@, l);
        }
        lemma_count_bound(ns, label@);
        lemma_count_bound(es, label@);
    }
    let (found, pos) = locate(labels, label.as_str());
    if found {
        let (n, e) = counts[pos];
        let row = if node { (n + 1, e) } else { (n, e + 1) };
        counts.set(pos, row);
        proof {
            assert forall|a: int| 0 <= a < labels@.len() && a != pos implies (#[trigger] labels@[a])@ != label@ by {
                let ks = strs_view(labels@);
                if a < pos {
                    assert(str_before(ks[a], ks[pos as int]));
                } else {
                    assert(str_before(ks[pos as int], ks[a]));
                }
                lemma_str_total(label@, label@);
            }
        }
    } else {
        proof {
            assert(count_label(ns, label@) == 0 && count_label(es, label@) == 0);
        }
        let ghost pre = strs_view(labels@);
        labels.insert(pos, copy_string(label));
        counts.insert(pos, if node { (1usize, 0usize) } else { (0usize, 1usize) });
        proof {
            let post = strs_view(labels@);
            assert(post =~= pre.insert(pos as int, label@));
            assert forall|i: int, j: int| 0 <= i < j < post.len() implies str_before(#[trigger] post[i], #[trigger] post[j]) by {
                if j < pos {
                    assert(post[i] == pre[i] && post[j] == pre[j]);
                } else if j == pos {
                    assert(post[i] == pre[i]);
                    assert(str_before(old(labels)@[i]@, label@));
                } else if i < pos {
                    assert(post[i] == pre[i] && post[j] == pre[j - 1]);
                } else if i == pos {
                    assert(post[j] == pre[j - 1]);
                    assert(str_before(label@, old(labels)@[j - 1]@));
                } else {
                    assert(post[i] == pre[i - 1] && post[j] == pre[j - 1]);
                }
            }
        }
    }
    proof {
        assert forall|l: Seq<char>| count_label(ns2, l) > 0 || count_label(es2, l) > 0 implies exists|a: int|
            0 <= a < labels@.len() && (#[trigger] labels@[a])@ == l by {
            if l != label@ {
                let a = choose|a: int| 0 <= a < old(labels)@.len() && (#[trigger] old(labels)@[a])@ == l;
                if !found && a >= pos {
                    assert(labels@[a + 1] == old(labels)@[a]);
                } else {
                    assert(labels@[a] == old(labels)@[a]);
                }
            } else {
                assert(labels@[pos as int]@ == label@);
            }
        }
        assert(labels@.len() == counts@.len());
        assert(strictly_sorted(strs_view(labels@)));
        assert forall|a: int| 0 <= a < labels@.len() implies (#[trigger] counts@[a]).0 == count_label(ns2, labels@[a]@) && counts@[a].1
            == count_label(es2, labels@[a]@) && count_label(ns2, labels@[a]@) + count_label(es2, labels@[a]@) > 0 by {
            if found {
                if a != pos {
                    assert(labels@[a] == old(labels)@[a]);
                }
            } else if a < pos {
                assert(labels@[a] == old(labels)@[a] && counts@[a] == old(counts)@[a]);
            } else if a > pos {
                assert(labels@[a] == old(labels)@[a - 1] && counts@[a] == old(counts)@[a - 1]);
                assert(old(labels)@[a - 1]@ != label@);
            }
        }
    }
}

/// The rows `labels` and `counts` are the label counts of the node labels `ns` and the
/// edge labels `es`.
pub open spec fn tally_rows(labels: Seq<String>, counts: Seq<(usize, usize)>, ns: Seq<Seq<char>>, es: Seq<Seq<char>>) -> bool {
    &&& labels.len() == counts.len()
    &&& strictly_sorted(strs_view(labels))
    &&& forall|a: int|
        0 <= a < labels.len() ==> (#[trigger] counts[a]).0 == count_label(ns, labels[a]@) && counts[a].1
            == count_label(es, labels[a]@) && count_label(ns, labels[a]@) + count_label(es, labels[a]@) > 0
    &&& forall|l: Seq<char>|
        count_label(ns, l) > 0 || count_label(es, l) > 0 ==> exists|a: int| 0 <= a < labels.len() && (#[trigger] labels[a])@ == l
}

/// The rows `labels` and `props` group the (label, property) pairs `pairs`: the labels in
/// order, each with its properties in order.
pub open spec fn group_rows(labels: Seq<String>, props: Seq<Vec<String>>, pairs: Set<(Seq<char>, Seq<char>)>) -> bool {
    &&& labels.len() == props.len()
    &&& strictly_sorted(strs_view(labels))
    &&& forall|a: int| 0 <= a < props.len() ==> strictly_sorted(strs_view((#[trigger] props[a])@)) && props[a]@.len() > 0
    &&& forall|lp: (Seq<char>, Seq<char>)|
        #[trigger] pairs.contains(lp) <==> exists|a: int, b: int|
            0 <= a < labels.len() && 0 <= b < props[a]@.len() && (#[trigger] labels[a])@ == lp.0 && (#[trigger] props[a]@[b])@ == lp.1
}

/// Adds the pair (`label`, `property`) to the groups.
fn add_pair(labels: &mut Vec<String>, props: &mut Vec<Vec<String>>, label: &String, property: &String, Ghost(pairs): Ghost<Set<(Seq<char>, Seq<char>)>>)
    requires
        group_rows(old(labels)@, old(props)@, pairs),
    ensures
        group_rows(final(labels)@, final(props)@, pairs.insert((label@, property@))),
{
    let ghost l0 = labels@;
    let ghost p0 = props@;
    let (found, pos) = locate(labels, label.as_str());
    if found {
        let mut ps = props.remove(pos);
        let ghost q0 = ps@;
        let (present, at) = locate(&ps, property.as_str());
        if !present {
            ps.insert(at, copy_string(property));
            proof {
                assert(strs_view(ps@) =~= strs_view(q0).insert(at as int, property@));
                lemma_sorted_insert(strs_view(q0), at as int, property@);
            }
        }
        props.insert(pos, ps);
        proof {
            assert(props@ =~= p0.update(pos as int, ps));
            assert forall|a: int| 0 <= a < labels@.len() && a != pos implies (#[trigger] labels@[a])@ != label@ by {
                let ks = strs_view(labels@);
                if a < pos {
                    assert(str_before(ks[a], ks[pos as int]));
                } else {
                    assert(str_before(ks[pos as int], ks[a]));
                }
                lemma_str_total(label@, label@);
            }
            assert forall|lp: (Seq<char>, Seq<char>)|
                #[trigger] pairs.insert((label@, property@)).contains(lp) <==> exists|a: int, b: int|
                    0 <= a < labels@.len() && 0 <= b < props@[a]@.len() && (#[trigger] labels@[a])@ == lp.0 && (#[trigger] props@[a]@[b])@ == lp.1 by {
                if pairs.contains(lp) {
                    let (a, b) = choose|a: int, b: int|
                        0 <= a < l0.len() && 0 <= b < p0[a]@.len() && (#[trigger] l0[a])@ == lp.0 && (#[trigger] p0[a]@[b])@ == lp.1;
                    if a == pos {
                        if !present {
                            if b < at {
                                assert(props@[a]@[b] == q0[b]);
                            } else {
                                assert(props@[a]@[b + 1] == q0[b]);
                            }
                        } else {
                            assert(props@[a]@[b] == q0[b]);
                        }
                    } else {
                        assert(props@[a] == p0[a]);
                    }
                }
                if lp == (label@, property@) {
                    if present {
                        assert(props@[pos as int]@[at as int]@ == property@);
                    } else {
                        assert(props@[pos as int]@[at as int]@ == property@);
                    }
                }
                if exists|a: int, b: int|
                    0 <= a < labels@.len() && 0 <= b < props@[a]@.len() && (#[trigger] labels@[a])@ == lp.0 && (#[trigger] props@[a]@[b])@ == lp.1 {
                    let (a, b) = choose|a: int, b: int|
                        0 <= a < labels@.len() && 0 <= b < props@[a]@.len() && (#[trigger] labels@[a])@ == lp.0 && (#[trigger] props@[a]@[b])@ == lp.1;
                    if a == pos {
                        if !present {
                            if b < at {
                                assert(props@[a]@[b] == q0[b]);
                                assert(pairs.contains(lp));
                            } else if b > at {
                                assert(props@[a]@[b] == q0[b - 1]);
                                assert(pairs.contains(lp));
                            }
                        } else {
                            assert(props@[a]@[b] == q0[b]);
                            assert(pairs.contains(lp));
                        }
                    } else {
                        assert(props@[a] == p0[a]);
                        assert(pairs.contains(lp));
                    }
                }
            }
        }
    } else {
        let mut ps: Vec<String> = Vec::new();
        ps.push(copy_string(property));
        labels.insert(pos, copy_string(label));
        props.insert(pos, ps);
        proof {
            assert(strs_view(labels@) =~= strs_view(l0).insert(pos as int, label@));
            lemma_sorted_insert(strs_view(l0), pos as int, label@);
            assert(strictly_sorted(strs_view(ps@)));
            assert forall|lp: (Seq<char>, Seq<char>)|
                #[trigger] pairs.insert((label@, property@)).contains(lp) <==> exists|a: int, b: int|
                    0 <= a < labels@.len() && 0 <= b < props@[a]@.len() && (#[trigger] labels@[a])@ == lp.0 && (#[trigger] props@[a]@[b])@ == lp.1 by {
                if pairs.contains(lp) {
                    let (a, b) = choose|a: int, b: int|
                        0 <= a < l0.len() && 0 <= b < p0[a]@.len() && (#[trigger] l0[a])@ == lp.0 && (#[trigger] p0[a]@[b])@ == lp.1;
                    if a < pos {
                        assert(labels@[a] == l0[a] && props@[a] == p0[a]);
                        assert(props@[a]@[b]@ == lp.1 && labels@[a]@ == lp.0);
                    } else {
                        assert(labels@[a + 1] == l0[a] && props@[a + 1] == p0[a]);
                        assert(props@[a + 1]@[b]@ == lp.1 && labels@[a + 1]@ == lp.0);
                    }
                }
                if lp == (label@, property@) {
                    assert(props@[pos as int]@[0]@ == property@ && labels@[pos as int]@ == label@);
                }
                if exists|a: int, b: int|
                    0 <= a < labels@.len() && 0 <= b < props@[a]@.len() && (#[trigger] labels@[a])@ == lp.0 && (#[trigger] props@[a]@[b])@ == lp.1 {
                    let (a, b) = choose|a: int, b: int|
                        0 <= a < labels@.len() && 0 <= b < props@[a]@.len() && (#[trigger] labels@[a])@ == lp.0 && (#[trigger] props@[a]@[b])@ == lp.1;
                    if a < pos {
                        assert(labels@[a] == l0[a] && props@[a] == p0[a]);
                        assert(pairs.contains(lp));
                    } else if a > pos {
                        assert(labels@[a] == l0[a - 1] && props@[a] == p0[a - 1]);
                        assert(pairs.contains(lp));
                    }
                }
            }
            assert forall|a: int| 0 <= a < props@.len() implies strictly_sorted(strs_view((#[trigger] props@[a])@)) && props@[a]@.len() > 0 by {
                if a < pos {
                    assert(props@[a] == p0[a]);
                } else if a > pos {
                    assert(props@[a] == p0[a - 1]);
                }
            }
        }
    }
}

/// A copy of a list of strings.
fn copy_strs(v: &Vec<String>) -> (r: Vec<String>)
    ensures
        strs_view(r@) == strs_view(v@),
{
    let mut out: Vec<String> = Vec::new();
    let mut i: usize = 0;
    while i < v.len()
        invariant
            i <= v@.len(),
            out@.len() == i,
            strs_view(out@) == strs_view(v@).subrange(0, i as int),
        decreases v@.len() - i,
    {
        let ghost pre = out@;
        let c = copy_string(&v[i]);
        out.push(c);
        proof {
            assert forall|j: int| 0 <= j < i + 1 implies #[trigger] strs_view(out@)[j] == strs_view(v@).subrange(0, i + 1)[j] by {
                if j < i {
                    assert(out@[j] == pre[j]);
                    assert(strs_view(pre)[j] == strs_view(v@).subrange(0, i as int)[j]);
                }
            }
        }
        i = i + 1;
        assert(strs_view(out@) =~= strs_view(v@).subrange(0, i as int));
    }
    assert(strs_view(v@).subrange(0, i as int) =~= strs_view(v@));
    out
}

/// The registered pairs grouped by label.
fn index_groups(reg: &PropertyIndexRegistry) -> (r: Vec<(String, Vec<String>)>)
    ensures
        groups_ok(r@, reg.pairs()),
{
    let entries = reg.entries();
    let mut labels: Vec<String> = Vec::new();
    let mut props: Vec<Vec<String>> = Vec::new();
    let mut i: usize = 0;
    proof {
        assert(group_rows(labels@, props@, Set::empty()));
        assert(Set::new(|lp: (Seq<char>, Seq<char>)| exists|j: int| 0 <= j < 0 && (#[trigger] entries@[j]).0@ == lp.0 && entries@[j].1@ == lp.1) =~= Set::empty());
    }
    while i < entries.len()
        invariant
            i <= entries@.len(),
            group_rows(labels@, props@, Set::new(|lp: (Seq<char>, Seq<char>)| exists|j: int| 0 <= j < i && (#[trigger] entries@[j]).0@ == lp.0 && entries@[j].1@ == lp.1)),
        decreases entries@.len() - i,
    {
        let ghost before = Set::new(|lp: (Seq<char>, Seq<char>)| exists|j: int| 0 <= j < i && (#[trigger] entries@[j]).0@ == lp.0 && entries@[j].1@ == lp.1);
        add_pair(&mut labels, &mut props, &entries[i].0, &entries[i].1, Ghost(before));
        proof {
            let after = Set::new(|lp: (Seq<char>, Seq<char>)| exists|j: int| 0 <= j < i + 1 && (#[trigger] entries@[j]).0@ == lp.0 && entries@[j].1@ == lp.1);
            assert forall|lp: (Seq<char>, Seq<char>)| #[trigger] after.contains(lp) == before.insert((entries@[i as int].0@, entries@[i as int].1@)).contains(lp) by {
                if after.contains(lp) {
                    let j = choose|j: int| 0 <= j < i + 1 && (#[trigger] entries@[j]).0@ == lp.0 && entries@[j].1@ == lp.1;
                    if j < i {
                        assert(before.contains(lp));
                    }
                }
                if before.contains(lp) {
                    let j = choose|j: int| 0 <= j < i && (#[trigger] entries@[j]).0@ == lp.0 && entries@[j].1@ == lp.1;
                    assert(after.contains(lp));
                }
            }
            assert(after =~= before.insert((entries@[i as int].0@, entries@[i as int].1@)));
        }
        i = i + 1;
    }
    proof {
        assert(Set::new(|lp: (Seq<char>, Seq<char>)| exists|j: int| 0 <= j < i && (#[trigger] entries@[j]).0@ == lp.0 && entries@[j].1@ == lp.1) =~= reg.pairs());
    }
    let mut out: Vec<(String, Vec<String>)> = Vec::new();
    let mut k: usize = 0;
    while k < labels.len()
        invariant
            k <= labels@.len(),
            labels@.len() == props@.len(),
            out@.len() == k,
            forall|a: int| 0 <= a < k ==> (#[trigger] out@[a]).0@ == labels@[a]@ && strs_view(out@[a].1@) == strs_view(props@[a]@),
        decreases labels@.len() - k,
    {
        out.push((copy_string(&labels[k]), copy_strs(&props[k])));
        k = k + 1;
    }
    proof {
        let pairs = reg.pairs();
        assert(out@.map_values(|x: (String, Vec<String>)| x.0@) =~= strs_view(labels@));
        assert forall|a: int| 0 <= a < out@.len() implies strictly_sorted(strs_view((#[trigger] out@[a]).1@)) && out@[a].1@.len() > 0 by {
            assert(strs_view(out@[a].1@).len() == strs_view(props@[a]@).len());
        }
        assert forall|lp: (Seq<char>, Seq<char>)| #[trigger] pairs.contains(lp) <==> exists|a: int, b: int|
            0 <= a < out@.len() && 0 <= b < out@[a].1@.len() && (#[trigger] out@[a]).0@ == lp.0 && (#[trigger] out@[a].1@[b])@ == lp.1 by {
            if pairs.contains(lp) {
                let (a, b) = choose|a: int, b: int|
                    0 <= a < labels@.len() && 0 <= b < props@[a]@.len() && (#[trigger] labels@[a])@ == lp.0 && (#[trigger] props@[a]@[b])@ == lp.1;
                assert(strs_view(out@[a].1@)[b] == strs_view(props@[a]@)[b]);
                assert(out@[a].1@[b]@ == lp.1);
            }
            if exists|a: int, b: int|
                0 <= a < out@.len() && 0 <= b < out@[a].1@.len() && (#[trigger] out@[a]).0@ == lp.0 && (#[trigger] out@[a].1@[b])@ == lp.1 {
                let (a, b) = choose|a: int, b: int|
                    0 <= a < out@.len() && 0 <= b < out@[a].1@.len() && (#[trigger] out@[a]).0@ == lp.0 && (#[trigger] out@[a].1@[b])@ == lp.1;
                assert(strs_view(out@[a].1@)[b] == strs_view(props@[a]@)[b]);
                assert(props@[a]@[b]@ == lp.1 && labels@[a]@ == lp.0);
            }
        }
    }
    out
}

/// `st` is what the store `m` holds: its node and edge records, how many of each label,
/// and its registered property indexes grouped by label.
pub open spec fn stats_of(m: StoreView, st: GraphStats) -> bool {
    exists|ns: Seq<Seq<char>>, es: Seq<Seq<char>>|
        #![trigger record_labels(m, Db::Nodes, ns), record_labels(m, Db::Edges, es)]
        record_labels(m, Db::Nodes, ns) && record_labels(m, Db::Edges, es) && st.node_count == ns.len()
            && st.edge_count == es.len() && tally_ok(st.labels@, ns, es)
            && groups_ok(st.indexes.node_properties@, registered_pairs(m, seq![NODE_TAG]))
            && groups_ok(st.indexes.edge_properties@, registered_pairs(m, seq![EDGE_TAG]))
}

/// Every node and edge record stored in `m` reads.
pub open spec fn records_read(m: StoreView) -> bool {
    &&& forall|k: Seq<u8>| #[trigger] m.contains_key((Db::Nodes, k)) ==> parse_node(m[(Db::Nodes, k)]) is Some
    &&& forall|k: Seq<u8>| #[trigger] m.contains_key((Db::Edges, k)) ==> parse_edge(m[(Db::Edges, k)]) is Some
}

/// Tallies the labels of the records of `db` that `entries` hold into the rows.
fn tally_records(
    labels: &mut Vec<String>,
    counts: &mut Vec<(usize, usize)>,
    entries: &Vec<Entry>,
    db: Db,
    Ghost(ns): Ghost<Seq<Seq<char>>>,
    Ghost(es): Ghost<Seq<Seq<char>>>,
) -> (r: Result<Ghost<Seq<Seq<char>>>, HelixiteError>)
    requires
        tally_rows(old(labels)@, old(counts)@, ns, es),
        db == Db::Nodes ==> ns.len() == 0,
        db == Db::Edges ==> es.len() == 0,
        db == Db::Nodes || db == Db::Edges,
    ensures
        r matches Ok(g) ==> g@.len() == entries@.len() && (forall|i: int|
            0 <= i < entries@.len() ==> label_of(db, (#[trigger] entries@[i]).value@) == Some(g@[i]))
            && tally_rows(final(labels)@, final(counts)@, if db == Db::Nodes { g@ } else { ns }, if db == Db::Nodes { es } else { g@ }),
        r is Ok <==> forall|i: int| 0 <= i < entries@.len() ==> label_of(db, (#[trigger] entries@[i]).value@) is Some,
        r matches Err(e) ==> (e matches HelixiteError::Codec(msg) && msg@ == (if db == Db::Edges { "corrupt edge record"@ } else { "corrupt node record"@ })),
{
    let ghost mut got: Seq<Seq<char>> = Seq::empty();
    let mut i: usize = 0;
    while i < entries.len()
        invariant
            i <= entries@.len(),
            got.len() == i,
            db == Db::Nodes || db == Db::Edges,
            forall|j: int| 0 <= j < i ==> label_of(db, (#[trigger] entries@[j]).value@) == Some(got[j]),
            tally_rows(labels@, counts@, if db == Db::Nodes { got } else { ns }, if db == Db::Nodes { es } else { got }),
        decreases entries@.len() - i,
    {
        let label = if db == Db::Edges {
            match Edge::from_record(entries[i].value.as_slice()) {
                Some(e) => e.label,
                None => {
                    proof {
                        assert(label_of(db, entries@[i as int].value@) is None);
                    }
                    return Err(HelixiteError::Codec("corrupt edge record".to_owned()));
                },
            }
        } else {
            match Node::from_record(entries[i].value.as_slice()) {
                Some(n) => n.label,
                None => {
                    proof {
                        assert(label_of(db, entries@[i as int].value@) is None);
                    }
                    return Err(HelixiteError::Codec("corrupt node record".to_owned()));
                },
            }
        };
        let node = db == Db::Nodes;
        tally(labels, counts, &label, node, Ghost(if node { got } else { ns }), Ghost(if node { es } else { got }));
        proof {
            got = got.push(label@);
        }
        i = i + 1;
    }
    Ok(Ghost(got))
}

impl GraphStats {
    /// What the store holds, read in one transaction: how many nodes and edges, how many
    /// of each label, in label order, and the registered property indexes by label; a
    /// codec error where a record does not read.
    pub fn load<S: StorageEngine>(storage: &S) -> (r: Result<GraphStats, HelixiteError>)
        ensures
            r matches Ok(st) ==> stats_of(storage.contents(), st),
            storage.reliable() && records_read(storage.contents()) ==> r is Ok,
    {
        let txn = storage.read_txn()?;
        let ghost m = txn.contents();
        let mut labels: Vec<String> = Vec::new();
        let mut counts: Vec<(usize, usize)> = Vec::new();
        let nodes = txn.scan(Db::Nodes, &Scan::All, None)?;
        proof {
            assert forall|i: int| 0 <= i < nodes@.len() implies #[trigger] m.contains_key((Db::Nodes, nodes@[i].key@)) by {}
        }
        let Ghost(ns) = tally_records(&mut labels, &mut counts, &nodes, Db::Nodes, Ghost(Seq::empty()), Ghost(Seq::empty()))?;
        let edges = txn.scan(Db::Edges, &Scan::All, None)?;
        proof {
            assert forall|i: int| 0 <= i < edges@.len() implies #[trigger] m.contains_key((Db::Edges, edges@[i].key@)) by {}
        }
        let Ghost(es) = tally_records(&mut labels, &mut counts, &edges, Db::Edges, Ghost(ns), Ghost(Seq::empty()))?;
        let mut rows: Vec<LabelStats> = Vec::new();
        let mut k: usize = 0;
        while k < labels.len()
            invariant
                k <= labels@.len(),
                labels@.len() == counts@.len(),
                rows@.len() == k,
                forall|a: int| 0 <= a < k ==> (#[trigger] rows@[a]).label@ == labels@[a]@ && rows@[a].node_count == counts@[a].0
                    && rows@[a].edge_count == counts@[a].1,
            decreases labels@.len() - k,
        {
            rows.push(LabelStats { label: copy_string(&labels[k]), node_count: counts[k].0, edge_count: counts[k].1 });
            k = k + 1;
        }
        let node_registry = PropertyIndexRegistry::load_nodes_from_txn(&txn)?;
        let edge_registry = PropertyIndexRegistry::load_edges_from_txn(&txn)?;
        let st = GraphStats {
            node_count: nodes.len(),
            edge_count: edges.len(),
            labels: rows,
            indexes: IndexStats { node_properties: index_groups(&node_registry), edge_properties: index_groups(&edge_registry) },
        };
        proof {
            assert(st.labels@.map_values(|s: LabelStats| s.label@) =~= strs_view(labels@));
            assert(record_labels(m, Db::Nodes, ns));
            assert(record_labels(m, Db::Edges, es));
            assert forall|l: Seq<char>| count_label(ns, l) > 0 || count_label(es, l) > 0 implies exists|a: int|
                0 <= a < st.labels@.len() && (#[trigger] st.labels@[a]).label@ == l by {
                let a = choose|a: int| 0 <= a < labels@.len() && (#[trigger] labels@[a])@ == l;
                assert(st.labels@[a].label@ == l);
            }
            assert forall|a: int| 0 <= a < st.labels@.len() implies (#[trigger] st.labels@[a]).node_count == count_label(ns, st.labels@[a].label@)
                && st.labels@[a].edge_count == count_label(es, st.labels@[a].label@)
                && count_label(ns, st.labels@[a].label@) + count_label(es, st.labels@[a].label@) > 0 by {
                assert(counts@[a].0 == count_label(ns, labels@[a]@));
            }
            assert(tally_ok(st.labels@, ns, es));
        }
        Ok(st)
    }
}

} // verus!
