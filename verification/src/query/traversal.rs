use vstd::prelude::*;
use vstd::string::StringSliceAdditionalSpecFns;
use vstd::utf8::encode_utf8;

use crate::edge::{Direction, Edge, EdgeView};
use crate::error::{join4, HelixiteError};
use crate::id::{EdgeId, NodeId};
use crate::index::edges::{adjacency_prefix, decode_adjacency_key, EdgeIndex};
use crate::index::labels::fits;
use crate::index::properties::{
    decode_property_key, registration_key, value_fits, value_prefix_of, EdgePropertyIndex,
    PropertyIndexMetadata, EDGE_TAG,
};
use crate::node::Node;
use crate::query::ids::{ascending, contains_id, insert_ascending, keep_in, lemma_keep_in, retain_in, take_at_most};
use crate::storage::engine::{in_scan, scan_result, Db, Entry, ReadTxn, Scan, StoreView};
use crate::txn::{read_edge, read_node, stored_edge, stored_node};
use crate::value::{Value, ValueView};

verus! {

/// The adjacency database followed in a direction.
pub open spec fn adjacency_db(d: Direction) -> Db {
    match d {
        Direction::Out => Db::OutEdges,
        Direction::In => Db::InEdges,
    }
}

/// A limit of 0 still lets one item through: the check comes after an item is taken.
pub open spec fn effective_limit(limit: Option<usize>) -> Option<usize> {
    match limit {
        Some(l) => if l == 0 {
            Some(1)
        } else {
            Some(l)
        },
        None => None,
    }
}

/// The bytes of an optional label.
pub open spec fn label_bytes(label: Option<Seq<char>>) -> Option<Seq<u8>> {
    match label {
        Some(l) => Some(encode_utf8(l)),
        None => None,
    }
}

/// The content of an optional label.
pub open spec fn opt_label(label: Option<&str>) -> Option<Seq<char>> {
    match label {
        Some(l) => Some(l@),
        None => None,
    }
}

/// The node at the far end of an edge followed in `d`.
pub open spec fn target_of(e: EdgeView, d: Direction) -> NodeId {
    match d {
        Direction::Out => e.to,
        Direction::In => e.from,
    }
}

/// `keys` are keys of `db` in `m` under `prefix`, each once, at most `limit` of them,
/// and every such key where fewer than `limit` were taken.
pub open spec fn scanned_keys(m: StoreView, db: Db, prefix: Seq<u8>, limit: Option<usize>, keys: Seq<Seq<u8>>) -> bool {
    &&& forall|i: int| 0 <= i < keys.len() ==> m.contains_key((db, #[trigger] keys[i])) && prefix.is_prefix_of(keys[i])
    &&& forall|i: int, j: int| 0 <= i < j < keys.len() ==> keys[i] != keys[j]
    &&& match limit {
        Some(l) => keys.len() <= l,
        None => true,
    }
    &&& (match limit {
        Some(l) => keys.len() < l,
        None => true,
    }) ==> forall|k: Seq<u8>| m.contains_key((db, k)) && prefix.is_prefix_of(k) ==> #[trigger] keys.contains(k)
}

/// `ids` are the edge ids that the adjacency keys of `node` in direction `d` (of one label
/// where one is given) hold, as a scan lists them up to the limit.
pub open spec fn adjacent_ids(m: StoreView, node: NodeId, d: Direction, label: Option<Seq<char>>, limit: Option<usize>, ids: Seq<u64>) -> bool {
    exists|keys: Seq<Seq<u8>>|
        #[trigger] scanned_keys(m, adjacency_db(d), adjacency_prefix(node, label_bytes(label)), effective_limit(limit), keys)
            && keys.len() == ids.len() && forall|i: int| 0 <= i < keys.len() ==> decode_adjacency_key(#[trigger] keys[i]) == Some(ids[i])
}

/// The edge ids that well-formed adjacency keys of `node` in direction `d` hold.
pub open spec fn adjacency_set(m: StoreView, node: NodeId, d: Direction, label: Option<Seq<char>>) -> Set<u64> {
    Set::new(
        |id: u64|
            exists|k: Seq<u8>|
                #![trigger m.contains_key((adjacency_db(d), k))]
                m.contains_key((adjacency_db(d), k)) && adjacency_prefix(node, label_bytes(label)).is_prefix_of(k)
                    && decode_adjacency_key(k) == Some(id),
    )
}

/// The edge ids that the edge property index of (label, property) holds for the value.
pub open spec fn filter_set(m: StoreView, label: Seq<char>, f: (Seq<char>, ValueView)) -> Set<u64> {
    match value_prefix_of(EDGE_TAG, encode_utf8(label), encode_utf8(f.0), f.1) {
        None => Set::empty(),
        Some(p) => Set::new(
            |id: u64|
                exists|k: Seq<u8>|
                    #![trigger m.contains_key((Db::Properties, k))]
                    m.contains_key((Db::Properties, k)) && p.is_prefix_of(k) && decode_property_key(k) == Some(id),
        ),
    }
}

/// The edge ids that every filter's index holds; none without filters.
pub open spec fn filters_set(m: StoreView, label: Seq<char>, fs: Seq<(Seq<char>, ValueView)>) -> Set<u64>
    decreases fs.len(),
{
    if fs.len() == 0 {
        Set::empty()
    } else if fs.len() == 1 {
        filter_set(m, label, fs[0])
    } else {
        filters_set(m, label, fs.drop_last()).intersect(filter_set(m, label, fs.last()))
    }
}

/// The contents of a list of filters.
pub open spec fn filters_view(fs: Seq<(String, Value)>) -> Seq<(Seq<char>, ValueView)> {
    fs.map_values(|f: (String, Value)| (f.0@, f.1@))
}

/// `ids` are the ascending edge ids of `node` in direction `d` under `label` that every
/// filter's index holds, up to the limit.
pub open spec fn filtered_ids(m: StoreView, node: NodeId, d: Direction, label: Seq<char>, fs: Seq<(Seq<char>, ValueView)>, limit: Option<usize>, ids: Seq<u64>) -> bool {
    exists|all: Seq<u64>|
        #[trigger] ascending(all) && all.to_set() == filters_set(m, label, fs).intersect(adjacency_set(m, node, d, Some(label)))
            && ids == match effective_limit(limit) {
            Some(l) => take_at_most(all, l as int),
            None => all,
        }
}

/// The edge ids of `node` in direction `d` under `label` (where given): as the adjacency
/// scan lists them without filters, as the filtered ids with them.
pub open spec fn traversal_ids(m: StoreView, node: NodeId, d: Direction, label: Option<Seq<char>>, fs: Seq<(Seq<char>, ValueView)>, limit: Option<usize>, ids: Seq<u64>) -> bool {
    if fs.len() == 0 {
        adjacent_ids(m, node, d, label, limit, ids)
    } else {
        label matches Some(l) && filtered_ids(m, node, d, l, fs, limit, ids)
    }
}

/// The edges stored under `ids`, in order.
pub open spec fn edges_at(m: StoreView, ids: Seq<u64>, es: Seq<Edge>) -> bool {
    es.len() == ids.len() && forall|i: int| 0 <= i < ids.len() ==> stored_edge(m, #[trigger] ids[i]) == Some(es[i]@)
}

/// The nodes at the far ends of the edges stored under `ids`, in order.
pub open spec fn targets_at(m: StoreView, ids: Seq<u64>, d: Direction, ns: Seq<Node>) -> bool {
    ns.len() == ids.len() && forall|i: int|
        0 <= i < ids.len() ==> (stored_edge(m, #[trigger] ids[i]) matches Some(e) && stored_node(m, target_of(e, d)) == Some(ns[i]@))
}

/// Every adjacency key of `node` in direction `d` (of one label where one is given)
/// reads as an edge id.
pub open spec fn adjacency_keys_read(m: StoreView, node: NodeId, d: Direction, label: Option<Seq<char>>) -> bool {
    forall|k: Seq<u8>|
        #![trigger m.contains_key((adjacency_db(d), k))]
        m.contains_key((adjacency_db(d), k)) && adjacency_prefix(node, label_bytes(label)).is_prefix_of(k)
            ==> decode_adjacency_key(k) is Some
}

/// The record of the edge stored under `id` reads, and so does that of the node at its
/// far end in direction `d`.
pub open spec fn target_reads(m: StoreView, id: u64, d: Direction) -> bool {
    match stored_edge(m, id) {
        Some(e) => stored_node(m, target_of(e, d)) is Some,
        None => false,
    }
}

/// The prefix of the adjacency keys followed.
fn adjacency_scan_prefix(node_id: NodeId, direction: Direction, label: Option<&str>) -> (r: Vec<u8>)
    requires
        label matches Some(l) ==> fits(l),
    ensures
        r@ == adjacency_prefix(node_id, label_bytes(opt_label(label))),
{
    match direction {
        Direction::Out => EdgeIndex::out_prefix(node_id, label),
        Direction::In => EdgeIndex::in_prefix(node_id, label),
    }
}

/// The entries a scan gives, read as the list of their keys.
proof fn lemma_scan_keys(m: StoreView, db: Db, scan: Scan, p: Seq<u8>, limit: Option<usize>, es: Seq<Entry>)
    requires
        scan_result(m, db, scan, limit, es),
        scan matches Scan::Prefix(q) && q@ == p,
    ensures
        scanned_keys(m, db, p, limit, es.map_values(|e: Entry| e.key@)),
{
    let keys = es.map_values(|e: Entry| e.key@);
    assert forall|i: int| 0 <= i < keys.len() implies m.contains_key((db, #[trigger] keys[i])) && p.is_prefix_of(keys[i]) by {
        assert(keys[i] == es[i].key@);
        assert(in_scan(scan, es[i].key@));
    }
    assert forall|i: int, j: int| 0 <= i < j < keys.len() implies keys[i] != keys[j] by {
        assert(keys[i] == es[i].key@ && keys[j] == es[j].key@);
    }
    if (match limit {
        Some(l) => keys.len() < l,
        None => true,
    }) {
        assert forall|k: Seq<u8>| m.contains_key((db, k)) && p.is_prefix_of(k) implies #[trigger] keys.contains(k) by {
            assert(in_scan(scan, k));
            let i = choose|i: int| 0 <= i < es.len() && es[i].key@ == k;
            assert(keys[i] == k);
        }
    }
}

/// The edge ids along the adjacency of `node_id` in `direction`, of one label where one
/// is given, at most `limit` of them (a limit of 0 lets one through); a storage error
/// where a key taken does not read.
pub fn adjacent_edge_ids<T: ReadTxn>(txn: &T, node_id: NodeId, direction: Direction, label: Option<&str>, limit: Option<usize>) -> (r: Result<Vec<EdgeId>, HelixiteError>)
    requires
        label matches Some(l) ==> fits(l),
    ensures
        r matches Ok(ids) ==> adjacent_ids(txn.contents(), node_id, direction, opt_label(label), limit, ids@),
        txn.infallible() ==> (r matches Err(e) ==> (e matches HelixiteError::Storage(msg) && msg@ == "corrupt edge adjacency key"@)),
        txn.infallible() && adjacency_keys_read(txn.contents(), node_id, direction, opt_label(label)) ==> r is Ok,
{
    let ghost m = txn.contents();
    let prefix = adjacency_scan_prefix(node_id, direction, label);
    let ghost p = prefix@;
    let db = match direction {
        Direction::Out => Db::OutEdges,
        Direction::In => Db::InEdges,
    };
    let eff = match limit {
        Some(l) => if l == 0 {
            Some(1)
        } else {
            Some(l)
        },
        None => None,
    };
    let scan = Scan::Prefix(prefix);
    let entries = txn.scan(db, &scan, eff)?;
    let ghost keys = entries@.map_values(|e: Entry| e.key@);
    proof {
        lemma_scan_keys(m, db, scan, p, eff, entries@);
    }
    let mut ids: Vec<EdgeId> = Vec::new();
    let mut i: usize = 0;
    while i < entries.len()
        invariant
            i <= entries@.len(),
            keys == entries@.map_values(|e: Entry| e.key@),
            ids@.len() == i,
            forall|j: int| 0 <= j < i ==> decode_adjacency_key(#[trigger] keys[j]) == Some(ids@[j]),
            scanned_keys(m, db, p, eff, keys),
            m == txn.contents(),
            db == adjacency_db(direction),
            p == adjacency_prefix(node_id, label_bytes(opt_label(label))),
        decreases entries@.len() - i,
    {
        assert(keys[i as int] == entries@[i as int].key@);
        match EdgeIndex::decode_edge_id(entries[i].key.as_slice()) {
            Some(id) => ids.push(id),
            None => {
                proof {
                    assert(m.contains_key((db, keys[i as int])) && p.is_prefix_of(keys[i as int]));
                }
                return Err(HelixiteError::Storage("corrupt edge adjacency key".to_owned()));
            },
        }
        i = i + 1;
    }
    proof {
        assert(scanned_keys(m, db, p, eff, keys) && keys.len() == ids@.len() && forall|j: int|
            0 <= j < keys.len() ==> decode_adjacency_key(#[trigger] keys[j]) == Some(ids@[j]));
    }
    Ok(ids)
}

/// The number of adjacency keys of `node_id` in `direction`, of one label where one is
/// given.
pub fn count_adjacent<T: ReadTxn>(txn: &T, node_id: NodeId, direction: Direction, label: Option<&str>) -> (r: Result<usize, HelixiteError>)
    requires
        label matches Some(l) ==> fits(l),
    ensures
        txn.infallible() ==> r is Ok,
        r matches Ok(n) ==> exists|keys: Seq<Seq<u8>>|
            #[trigger] scanned_keys(txn.contents(), adjacency_db(direction), adjacency_prefix(node_id, label_bytes(opt_label(label))), None, keys)
                && keys.len() == n,
{
    let ghost m = txn.contents();
    let prefix = adjacency_scan_prefix(node_id, direction, label);
    let ghost p = prefix@;
    let db = match direction {
        Direction::Out => Db::OutEdges,
        Direction::In => Db::InEdges,
    };
    let scan = Scan::Prefix(prefix);
    let entries = txn.scan(db, &scan, None)?;
    proof {
        lemma_scan_keys(m, db, scan, p, None, entries@);
        assert(entries@.map_values(|e: Entry| e.key@).len() == entries@.len());
    }
    Ok(entries.len())
}

/// The edges stored under `ids`, in order; not found or a codec error for the first that
/// is missing or does not read.
pub fn load_edges<T: ReadTxn>(txn: &T, ids: &Vec<EdgeId>) -> (r: Result<Vec<Edge>, HelixiteError>)
    ensures
        r matches Ok(es) ==> edges_at(txn.contents(), ids@, es@),
        txn.infallible() && (forall|i: int| 0 <= i < ids@.len() ==> stored_edge(txn.contents(), #[trigger] ids@[i]) is Some) ==> r is Ok,
{
    let mut out: Vec<Edge> = Vec::new();
    let mut i: usize = 0;
    while i < ids.len()
        invariant
            i <= ids@.len(),
            out@.len() == i,
            forall|j: int| 0 <= j < i ==> stored_edge(txn.contents(), #[trigger] ids@[j]) == Some(out@[j]@),
        decreases ids@.len() - i,
    {
        let e = read_edge(txn, ids[i])?;
        out.push(e);
        i = i + 1;
    }
    Ok(out)
}

/// The nodes at the far ends of the edges stored under `ids`, in order.
pub fn load_targets<T: ReadTxn>(txn: &T, ids: &Vec<EdgeId>, direction: Direction) -> (r: Result<Vec<Node>, HelixiteError>)
    ensures
        r matches Ok(ns) ==> targets_at(txn.contents(), ids@, direction, ns@),
        txn.infallible() && (forall|i: int| 0 <= i < ids@.len() ==> target_reads(txn.contents(), #[trigger] ids@[i], direction)) ==> r is Ok,
{
    let mut out: Vec<Node> = Vec::new();
    let mut i: usize = 0;
    while i < ids.len()
        invariant
            i <= ids@.len(),
            out@.len() == i,
            forall|j: int|
                0 <= j < i ==> (stored_edge(txn.contents(), #[trigger] ids@[j]) matches Some(e) && stored_node(txn.contents(), target_of(e, direction)) == Some(out@[j]@)),
        decreases ids@.len() - i,
    {
        let e = read_edge(txn, ids[i])?;
        let target = EdgeIndex::decode_target_from_edge(&e, direction);
        let n = read_node(txn, target)?;
        out.push(n);
        i = i + 1;
    }
    Ok(out)
}

/// The ascending edge ids that the edge property index of (label, property) holds for
/// `value`; none where the value is not indexable.
pub(crate) fn filter_ids<T: ReadTxn>(txn: &T, label: &str, property: &str, value: &Value) -> (r: Result<Vec<u64>, HelixiteError>)
    requires
        fits(label),
        fits(property),
        value_fits(value@),
    ensures
        txn.infallible() ==> r is Ok,
        r matches Ok(ids) ==> ascending(ids@) && ids@.to_set() == filter_set(txn.contents(), label@, (property@, value@)),
{
    let ghost m = txn.contents();
    let prefix = match EdgePropertyIndex::lookup_prefix(label, property, value) {
        Some(p) => p,
        None => {
            let v: Vec<u64> = Vec::new();
            assert(v@.to_set() =~= Set::<u64>::empty());
            return Ok(v);
        },
    };
    let ghost p = prefix@;
    let scan = Scan::Prefix(prefix);
    let entries = txn.scan(Db::Properties, &scan, None)?;
    let mut ids: Vec<u64> = Vec::new();
    let mut i: usize = 0;
    while i < entries.len()
        invariant
            i <= entries@.len(),
            m == txn.contents(),
            scan_result(m, Db::Properties, scan, None, entries@),
            scan matches Scan::Prefix(q) && q@ == p,
            ascending(ids@),
            forall|id: u64| #[trigger] ids@.to_set().contains(id) <==> exists|j: int|
                0 <= j < i && decode_property_key((#[trigger] entries@[j]).key@) == Some(id),
        decreases entries@.len() - i,
    {
        let ghost pre = ids@;
        if let Some(id) = EdgePropertyIndex::decode_edge_id(entries[i].key.as_slice()) {
            insert_ascending(&mut ids, id);
        }
        proof {
            assert forall|id: u64| #[trigger] ids@.to_set().contains(id) <==> exists|j: int|
                0 <= j < i + 1 && decode_property_key((#[trigger] entries@[j]).key@) == Some(id) by {
                if exists|j: int| 0 <= j < i + 1 && decode_property_key((#[trigger] entries@[j]).key@) == Some(id) {
                    let j = choose|j: int| 0 <= j < i + 1 && decode_property_key((#[trigger] entries@[j]).key@) == Some(id);
                    if j < i {
                        assert(pre.to_set().contains(id));
                    }
                }
                if pre.to_set().contains(id) {
                    let j = choose|j: int| 0 <= j < i && decode_property_key((#[trigger] entries@[j]).key@) == Some(id);
                    assert(0 <= j < i + 1);
                }
            }
        }
        i = i + 1;
    }
    proof {
        let target = filter_set(m, label@, (property@, value@));
        assert forall|id: u64| #[trigger] ids@.to_set().contains(id) == target.contains(id) by {
            if ids@.to_set().contains(id) {
                let j = choose|j: int| 0 <= j < i && decode_property_key((#[trigger] entries@[j]).key@) == Some(id);
                let k = entries@[j].key@;
                assert(m.contains_key((Db::Properties, k)));
                assert(in_scan(scan, k));
            }
            if target.contains(id) {
                let k = choose|k: Seq<u8>|
                    #![trigger m.contains_key((Db::Properties, k))]
                    m.contains_key((Db::Properties, k)) && p.is_prefix_of(k) && decode_property_key(k) == Some(id);
                assert(m.contains_key((Db::Properties, k)));
                let j = choose|j: int| 0 <= j < entries@.len() && entries@[j].key@ == k;
                assert(decode_property_key(entries@[j].key@) == Some(id));
            }
        }
        assert(ids@.to_set() =~= target);
    }
    Ok(ids)
}

/// The ascending edge ids that well-formed adjacency keys of `node_id` in `direction`
/// under `label` hold.
fn adjacency_ids_ascending<T: ReadTxn>(txn: &T, node_id: NodeId, direction: Direction, label: &str) -> (r: Result<Vec<u64>, HelixiteError>)
    requires
        fits(label),
    ensures
        txn.infallible() ==> r is Ok,
        r matches Ok(ids) ==> ascending(ids@) && ids@.to_set() == adjacency_set(txn.contents(), node_id, direction, Some(label@)),
{
    let ghost m = txn.contents();
    let prefix = adjacency_scan_prefix(node_id, direction, Some(label));
    let ghost p = prefix@;
    let db = match direction {
        Direction::Out => Db::OutEdges,
        Direction::In => Db::InEdges,
    };
    let scan = Scan::Prefix(prefix);
    let entries = txn.scan(db, &scan, None)?;
    let mut ids: Vec<u64> = Vec::new();
    let mut i: usize = 0;
    while i < entries.len()
        invariant
            i <= entries@.len(),
            m == txn.contents(),
            db == adjacency_db(direction),
            scan_result(m, db, scan, None, entries@),
            scan matches Scan::Prefix(q) && q@ == p,
            ascending(ids@),
            forall|id: u64| #[trigger] ids@.to_set().contains(id) <==> exists|j: int|
                0 <= j < i && decode_adjacency_key((#[trigger] entries@[j]).key@) == Some(id),
        decreases entries@.len() - i,
    {
        let ghost pre = ids@;
        if let Some(id) = EdgeIndex::decode_edge_id(entries[i].key.as_slice()) {
            insert_ascending(&mut ids, id);
        }
        proof {
            assert forall|id: u64| #[trigger] ids@.to_set().contains(id) <==> exists|j: int|
                0 <= j < i + 1 && decode_adjacency_key((#[trigger] entries@[j]).key@) == Some(id) by {
                if exists|j: int| 0 <= j < i + 1 && decode_adjacency_key((#[trigger] entries@[j]).key@) == Some(id) {
                    let j = choose|j: int| 0 <= j < i + 1 && decode_adjacency_key((#[trigger] entries@[j]).key@) == Some(id);
                    if j < i {
                        assert(pre.to_set().contains(id));
                    }
                }
                if pre.to_set().contains(id) {
                    let j = choose|j: int| 0 <= j < i && decode_adjacency_key((#[trigger] entries@[j]).key@) == Some(id);
                    assert(0 <= j < i + 1);
                }
            }
        }
        i = i + 1;
    }
    proof {
        let target = adjacency_set(m, node_id, direction, Some(label@));
        assert forall|id: u64| #[trigger] ids@.to_set().contains(id) == target.contains(id) by {
            if ids@.to_set().contains(id) {
                let j = choose|j: int| 0 <= j < i && decode_adjacency_key((#[trigger] entries@[j]).key@) == Some(id);
                let k = entries@[j].key@;
                assert(m.contains_key((db, k)));
                assert(in_scan(scan, k));
            }
            if target.contains(id) {
                let k = choose|k: Seq<u8>|
                    #![trigger m.contains_key((adjacency_db(direction), k))]
                    m.contains_key((adjacency_db(direction), k)) && p.is_prefix_of(k) && decode_adjacency_key(k) == Some(id);
                assert(m.contains_key((db, k)));
                let j = choose|j: int| 0 <= j < entries@.len() && entries@[j].key@ == k;
                assert(decode_adjacency_key(entries@[j].key@) == Some(id));
            }
        }
        assert(ids@.to_set() =~= target);
    }
    Ok(ids)
}

/// The ascending edge ids of `node_id` in `direction` under `label` that every filter's
/// index holds, at most `limit` of them; not found where a filter's property of the label
/// has no edge property index.
pub fn filtered_edge_ids<T: ReadTxn>(
    txn: &T,
    node_id: NodeId,
    direction: Direction,
    label: &str,
    filters: &Vec<(String, Value)>,
    limit: Option<usize>,
) -> (r: Result<Vec<u64>, HelixiteError>)
    requires
        fits(label),
        filters@.len() > 0,
        forall|i: int| 0 <= i < filters@.len() ==> encode_utf8((#[trigger] filters@[i]).0@).len() <= u32::MAX && value_fits(filters@[i].1@),
    ensures
        r matches Ok(ids) ==> filtered_ids(txn.contents(), node_id, direction, label@, filters_view(filters@), limit, ids@),
        txn.infallible() && (exists|i: int| 0 <= i < filters@.len() && !txn.contents().contains_key(
            (Db::Metadata, registration_key(EDGE_TAG, encode_utf8(label@), encode_utf8((#[trigger] filters@[i]).0@))),
        )) ==> r matches Err(HelixiteError::IndexNotFound(_)),
        txn.infallible() && (forall|i: int| 0 <= i < filters@.len() ==> txn.contents().contains_key(
            (Db::Metadata, registration_key(EDGE_TAG, encode_utf8(label@), encode_utf8((#[trigger] filters@[i]).0@))),
        )) ==> r is Ok,
{
    let ghost m = txn.contents();
    let ghost fv = filters_view(filters@);
    let mut i: usize = 0;
    while i < filters.len()
        invariant
            i <= filters@.len(),
            m == txn.contents(),
            fits(label),
            forall|j: int| 0 <= j < filters@.len() ==> encode_utf8((#[trigger] filters@[j]).0@).len() <= u32::MAX && value_fits(filters@[j].1@),
            txn.infallible() ==> forall|j: int| 0 <= j < i ==> m.contains_key(
                (Db::Metadata, registration_key(EDGE_TAG, encode_utf8(label@), encode_utf8((#[trigger] filters@[j]).0@))),
            ),
        decreases filters@.len() - i,
    {
        let property = filters[i].0.as_str();
        let key = PropertyIndexMetadata::edge_key(label, property);
        if txn.get(Db::Metadata, key.as_slice())?.is_none() {
            return Err(HelixiteError::IndexNotFound(join4("no edge property index for ", label, "::", property)));
        }
        i = i + 1;
    }
    let mut candidates = filter_ids(txn, label, filters[0].0.as_str(), &filters[0].1)?;
    proof {
        assert(fv[0] == (filters@[0].0@, filters@[0].1@));
        assert(filters_set(m, label@, fv.subrange(0, 1)) == filter_set(m, label@, fv[0]));
    }
    let mut k: usize = 1;
    while k < filters.len()
        invariant
            1 <= k <= filters@.len(),
            m == txn.contents(),
            fits(label),
            fv == filters_view(filters@),
            forall|j: int| 0 <= j < filters@.len() ==> encode_utf8((#[trigger] filters@[j]).0@).len() <= u32::MAX && value_fits(filters@[j].1@),
            ascending(candidates@),
            candidates@.to_set() == filters_set(m, label@, fv.subrange(0, k as int)),
        decreases filters@.len() - k,
    {
        let next = filter_ids(txn, label, filters[k].0.as_str(), &filters[k].1)?;
        let ghost pre = candidates@;
        candidates = retain_in(&candidates, &next);
        proof {
            lemma_keep_in(pre, next@);
            let sub = fv.subrange(0, k + 1);
            assert(sub.drop_last() =~= fv.subrange(0, k as int));
            assert(sub.last() == fv[k as int]);
            assert(fv[k as int] == (filters@[k as int].0@, filters@[k as int].1@));
            assert(candidates@.to_set() =~= filters_set(m, label@, sub));
        }
        k = k + 1;
    }
    proof {
        assert(fv.subrange(0, k as int) =~= fv);
    }
    let adjacent = adjacency_ids_ascending(txn, node_id, direction, label)?;
    let ghost cands = candidates@;
    let all = retain_in(&candidates, &adjacent);
    proof {
        lemma_keep_in(cands, adjacent@);
        assert(all@.to_set() =~= filters_set(m, label@, fv).intersect(adjacency_set(m, node_id, direction, Some(label@))));
    }
    let eff = match limit {
        Some(l) => if l == 0 {
            Some(1usize)
        } else {
            Some(l)
        },
        None => None,
    };
    let result = match eff {
        Some(l) => {
            if all.len() <= l {
                all
            } else {
                let mut out: Vec<u64> = Vec::new();
                let mut j: usize = 0;
                while j < l
                    invariant
                        j <= l,
                        l < all@.len(),
                        out@ == all@.subrange(0, j as int),
                    decreases l - j,
                {
                    out.push(all[j]);
                    j = j + 1;
                    assert(out@ =~= all@.subrange(0, j as int));
                }
                out
            }
        },
        None => all,
    };
    proof {
        assert(ascending(all@) && all@.to_set() == filters_set(m, label@, fv).intersect(adjacency_set(m, node_id, direction, Some(label@))));
    }
    Ok(result)
}

/// An added edge is found by traversal: from its source going out and from its target
/// coming in, under its label and under any label.
pub proof fn law_added_edge_is_traversable(
    m: StoreView,
    f: StoreView,
    id: EdgeId,
    from: NodeId,
    to: NodeId,
    label: Seq<char>,
    ps: crate::props::PropsView,
    reg: Set<(Seq<char>, Seq<char>)>,
)
    requires
        crate::txn::edge_added(m, f, id, from, to, label, ps, reg),
        encode_utf8(label).len() <= u32::MAX,
    ensures
        adjacency_set(f, from, Direction::Out, Some(label)).contains(id),
        adjacency_set(f, to, Direction::In, Some(label)).contains(id),
        adjacency_set(f, from, Direction::Out, None).contains(id),
        adjacency_set(f, to, Direction::In, None).contains(id),
{
    let lb = encode_utf8(label);
    let (eid, m1) = crate::storage::ids::id_allocation(m, crate::storage::ids::next_edge_id_key()).unwrap();
    let base = crate::index::edges::adjacency_inserted(
        m1.insert((Db::Edges, crate::index::codec::be64(id)), crate::record::edge_record(EdgeView { id, from, to, label, properties: ps })),
        from,
        to,
        lb,
        id,
    );
    let keys = crate::index::maintain::prop_keys(EDGE_TAG, reg, label, id, ps, None);
    let ko = crate::index::edges::adjacency_key(from, lb, id);
    let ki = crate::index::edges::adjacency_key(to, lb, id);
    crate::storage::bulk::lemma_put_keys(base, Db::Properties, keys, (Db::OutEdges, ko));
    crate::storage::bulk::lemma_put_keys(base, Db::Properties, keys, (Db::InEdges, ki));
    crate::index::edges::law_adjacency_key_roundtrip(from, lb, id);
    crate::index::edges::law_adjacency_key_roundtrip(to, lb, id);
    crate::index::edges::law_adjacency_prefix(from, lb, from, lb, id);
    crate::index::edges::law_adjacency_prefix(to, lb, to, lb, id);
    assert(f.contains_key((Db::OutEdges, ko)));
    assert(f.contains_key((Db::InEdges, ki)));
    assert(f.contains_key((adjacency_db(Direction::Out), ko)));
    assert(f.contains_key((adjacency_db(Direction::In), ki)));
}

/// An erased edge is no longer found by traversal under its label, from its source going
/// out nor from its target coming in.
pub proof fn law_erased_edge_not_traversable(m: StoreView, reg: Set<(Seq<char>, Seq<char>)>, e: EdgeView)
    requires
        encode_utf8(e.label).len() <= u32::MAX,
    ensures
        !adjacency_set(crate::txn::edge_erased(m, reg, e), e.from, Direction::Out, Some(e.label)).contains(e.id),
        !adjacency_set(crate::txn::edge_erased(m, reg, e), e.to, Direction::In, Some(e.label)).contains(e.id),
{
    let t = crate::txn::edge_erased(m, reg, e);
    let lb = encode_utf8(e.label);
    let base = crate::index::edges::adjacency_removed(m, e.from, e.to, lb, e.id);
    let keys = crate::index::maintain::prop_keys(EDGE_TAG, reg, e.label, e.id, e.properties, None);
    assert forall|k: Seq<u8>|
        #![trigger t.contains_key((Db::OutEdges, k))]
        t.contains_key((Db::OutEdges, k)) && adjacency_prefix(e.from, Some(lb)).is_prefix_of(k) implies decode_adjacency_key(k) != Some(e.id) by {
        crate::storage::bulk::lemma_del_keys(base, Db::Properties, keys, (Db::OutEdges, k));
        if decode_adjacency_key(k) == Some(e.id) {
            let (n, l) = crate::index::edges::lemma_adjacency_key_parts(k);
            crate::index::edges::law_adjacency_prefix(e.from, lb, n, l, e.id);
        }
    }
    assert forall|k: Seq<u8>|
        #![trigger t.contains_key((Db::InEdges, k))]
        t.contains_key((Db::InEdges, k)) && adjacency_prefix(e.to, Some(lb)).is_prefix_of(k) implies decode_adjacency_key(k) != Some(e.id) by {
        crate::storage::bulk::lemma_del_keys(base, Db::Properties, keys, (Db::InEdges, k));
        if decode_adjacency_key(k) == Some(e.id) {
            let (n, l) = crate::index::edges::lemma_adjacency_key_parts(k);
            crate::index::edges::law_adjacency_prefix(e.to, lb, n, l, e.id);
        }
    }
}

/// A relabelled edge is found by traversal under its new label and no longer under its
/// old one, from its source going out and from its target coming in.
pub proof fn law_relabelled_edge_is_traversed(
    m: StoreView,
    f: StoreView,
    cur: EdgeView,
    ps: crate::props::PropsView,
    id: EdgeId,
    ops: Seq<crate::mutation::MutOpView>,
    reg: Set<(Seq<char>, Seq<char>)>,
)
    requires
        crate::txn::edge_changed(m, f, cur, ps, id, ops, reg),
        crate::mutation::apply_ops_spec((cur.label, crate::props::props_map(cur.properties)), ops).0 != cur.label,
        encode_utf8(cur.label).len() <= u32::MAX,
        encode_utf8(crate::mutation::apply_ops_spec((cur.label, crate::props::props_map(cur.properties)), ops).0).len() <= u32::MAX,
    ensures
        ({
            let label = crate::mutation::apply_ops_spec((cur.label, crate::props::props_map(cur.properties)), ops).0;
            &&& adjacency_set(f, cur.from, Direction::Out, Some(label)).contains(id)
            &&& adjacency_set(f, cur.to, Direction::In, Some(label)).contains(id)
            &&& !adjacency_set(f, cur.from, Direction::Out, Some(cur.label)).contains(id)
            &&& !adjacency_set(f, cur.to, Direction::In, Some(cur.label)).contains(id)
        }),
{
    let (label, map) = crate::mutation::apply_ops_spec((cur.label, crate::props::props_map(cur.properties)), ops);
    let ob = encode_utf8(cur.label);
    let nb = encode_utf8(label);
    vstd::utf8::encode_utf8_decode_utf8(cur.label);
    vstd::utf8::encode_utf8_decode_utf8(label);
    assert(ob != nb);
    let updated = EdgeView { id, from: cur.from, to: cur.to, label, properties: ps };
    let moved = crate::index::edges::adjacency_inserted(
        crate::index::edges::adjacency_removed(m, cur.from, cur.to, ob, id),
        cur.from,
        cur.to,
        nb,
        id,
    );
    let dk = crate::index::maintain::prop_keys(EDGE_TAG, reg, cur.label, cur.id, cur.properties, None);
    let pk = crate::index::maintain::prop_keys(EDGE_TAG, reg, label, id, ps, None);
    let rk = crate::index::property_indexes::edge_rekeyed(moved, reg, cur, updated);
    assert forall|db: Db, k: Seq<u8>| db != Db::Properties && db != Db::Edges implies
        (#[trigger] f.contains_key((db, k)) <==> moved.contains_key((db, k))) by {
        crate::storage::bulk::lemma_del_keys(moved, Db::Properties, dk, (db, k));
        crate::storage::bulk::lemma_put_keys(crate::storage::bulk::del_keys(moved, Db::Properties, dk), Db::Properties, pk, (db, k));
    }
    crate::index::edges::law_adjacency_key_roundtrip(cur.from, nb, id);
    crate::index::edges::law_adjacency_key_roundtrip(cur.to, nb, id);
    crate::index::edges::law_adjacency_prefix(cur.from, nb, cur.from, nb, id);
    crate::index::edges::law_adjacency_prefix(cur.to, nb, cur.to, nb, id);
    let ko = crate::index::edges::adjacency_key(cur.from, nb, id);
    let ki = crate::index::edges::adjacency_key(cur.to, nb, id);
    assert(f.contains_key((Db::OutEdges, ko)));
    assert(f.contains_key((Db::InEdges, ki)));
    assert(f.contains_key((adjacency_db(Direction::Out), ko)));
    assert(f.contains_key((adjacency_db(Direction::In), ki)));
    assert forall|k: Seq<u8>|
        #![trigger f.contains_key((Db::OutEdges, k))]
        f.contains_key((Db::OutEdges, k)) && adjacency_prefix(cur.from, Some(ob)).is_prefix_of(k) implies decode_adjacency_key(k) != Some(id) by {
        assert(f.contains_key((Db::OutEdges, k)) == moved.contains_key((Db::OutEdges, k)));
        if decode_adjacency_key(k) == Some(id) {
            let (n, l) = crate::index::edges::lemma_adjacency_key_parts(k);
            crate::index::edges::law_adjacency_prefix(cur.from, ob, n, l, id);
            crate::index::edges::law_adjacency_prefix(cur.from, nb, cur.from, ob, id);
            assert(k == crate::index::edges::adjacency_key(cur.from, ob, id));
            assert(crate::index::edges::adjacency_key(cur.from, ob, id) != crate::index::edges::adjacency_key(cur.from, nb, id));
        }
    }
    assert forall|k: Seq<u8>|
        #![trigger f.contains_key((Db::InEdges, k))]
        f.contains_key((Db::InEdges, k)) && adjacency_prefix(cur.to, Some(ob)).is_prefix_of(k) implies decode_adjacency_key(k) != Some(id) by {
        assert(f.contains_key((Db::InEdges, k)) == moved.contains_key((Db::InEdges, k)));
        if decode_adjacency_key(k) == Some(id) {
            let (n, l) = crate::index::edges::lemma_adjacency_key_parts(k);
            crate::index::edges::law_adjacency_prefix(cur.to, ob, n, l, id);
            crate::index::edges::law_adjacency_prefix(cur.to, nb, cur.to, ob, id);
            assert(k == crate::index::edges::adjacency_key(cur.to, ob, id));
            assert(crate::index::edges::adjacency_key(cur.to, ob, id) != crate::index::edges::adjacency_key(cur.to, nb, id));
        }
    }
}

/// A traversal with a limit of `l`, at least 1, lists at most `l` edges, and lists every
/// edge it matches where fewer than `l` come: without filters, the edge of every adjacency
/// key of the node in its direction (of its label where one is given); with filters, every
/// such edge that each filter's index holds.
pub proof fn law_traversal_limit(
    m: StoreView,
    node: NodeId,
    d: Direction,
    label: Option<Seq<char>>,
    fs: Seq<(Seq<char>, ValueView)>,
    l: usize,
    ids: Seq<u64>,
)
    requires
        l >= 1,
        traversal_ids(m, node, d, label, fs, Some(l), ids),
    ensures
        ids.len() <= l,
        fs.len() == 0 && ids.len() < l ==> forall|k: Seq<u8>|
            #![trigger m.contains_key((adjacency_db(d), k))]
            m.contains_key((adjacency_db(d), k)) && adjacency_prefix(node, label_bytes(label)).is_prefix_of(k)
                ==> exists|i: int| 0 <= i < ids.len() && decode_adjacency_key(k) == Some(#[trigger] ids[i]),
        fs.len() > 0 && ids.len() < l ==> (label matches Some(lb) && forall|id: u64|
            #[trigger] filters_set(m, lb, fs).intersect(adjacency_set(m, node, d, label)).contains(id) ==> ids.contains(id)),
{
    if fs.len() == 0 {
        let keys = choose|keys: Seq<Seq<u8>>|
            #[trigger] scanned_keys(m, adjacency_db(d), adjacency_prefix(node, label_bytes(label)), effective_limit(Some(l)), keys)
                && keys.len() == ids.len() && forall|i: int| 0 <= i < keys.len() ==> decode_adjacency_key(#[trigger] keys[i]) == Some(ids[i]);
        if ids.len() < l {
            assert forall|k: Seq<u8>|
                #![trigger m.contains_key((adjacency_db(d), k))]
                m.contains_key((adjacency_db(d), k)) && adjacency_prefix(node, label_bytes(label)).is_prefix_of(k)
                    implies exists|i: int| 0 <= i < ids.len() && decode_adjacency_key(k) == Some(#[trigger] ids[i]) by {
                assert(keys.contains(k));
                let i = choose|i: int| 0 <= i < keys.len() && keys[i] == k;
                assert(decode_adjacency_key(keys[i]) == Some(ids[i]));
            }
        }
    } else {
        let lb = label->0;
        let all = choose|all: Seq<u64>|
            #[trigger] ascending(all) && all.to_set() == filters_set(m, lb, fs).intersect(adjacency_set(m, node, d, Some(lb)))
                && ids == match effective_limit(Some(l)) {
                Some(n) => take_at_most(all, n as int),
                None => all,
            };
        if ids.len() < l {
            assert(ids == all);
            assert forall|id: u64|
                #[trigger] filters_set(m, lb, fs).intersect(adjacency_set(m, node, d, label)).contains(id) implies ids.contains(id) by {
                assert(all.to_set().contains(id));
            }
        }
    }
}

} // verus!
