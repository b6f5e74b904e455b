use vstd::prelude::*;
use vstd::string::StringSliceAdditionalSpecFns;
use vstd::utf8::encode_utf8;

use crate::edge::{Edge, EdgeView};
use crate::error::HelixiteError;
use crate::id::{EdgeId, NodeId};
use crate::index::codec::{be64, u64_to_be_bytes};
use crate::index::edges::{adjacency_inserted, adjacency_removed, EdgeIndex};
use crate::index::labels::fits;
use crate::index::vector::hnsw::vector_levels_wf;
use crate::index::maintain::{
    dims_ok, node_indexed, pending, prop_keys, props_key_fit, NodeIndexes,
};
use crate::index::property_indexes::EdgePropertyIndexes;
use crate::index::properties::{registered_pairs, PropertyIndexRegistry, EDGE_TAG, NODE_TAG};
use crate::index::vector::{inserts_view, VectorInsert};
use crate::node::{Node, NodeView};
use crate::props::{collect_properties, distinct_names, props_map, props_view, PropsView};
use crate::record::{edge_record, node_record, parse_edge, parse_node, props_fit, value_fits_record};
use crate::storage::bulk::{del_keys, put_keys};
use crate::storage::engine::{lookup, Db, ReadTxn as StoreRead, StoreView, WriteTxn as StoreWrite};
use crate::storage::ids::{id_allocation, next_edge_id_key, next_node_id_key, IdAllocator};
use crate::mutation::{apply_ops, apply_ops_spec, ops_view, Changes, MutOp, MutOpView};
use crate::value::{Value, ValueView};

verus! {

/// The node stored under `id` in `m`, where its record reads.
pub open spec fn stored_node(m: StoreView, id: NodeId) -> Option<NodeView> {
    match lookup(m, Db::Nodes, be64(id)) {
        Some(b) => parse_node(b),
        None => None,
    }
}

/// The edge stored under `id` in `m`, where its record reads.
pub open spec fn stored_edge(m: StoreView, id: EdgeId) -> Option<EdgeView> {
    match lookup(m, Db::Edges, be64(id)) {
        Some(b) => parse_edge(b),
        None => None,
    }
}

/// A label and a property list can be stored and indexed: every length fits its field.
pub open spec fn storable(label: Seq<char>, ps: PropsView) -> bool {
    &&& encode_utf8(label).len() <= u32::MAX
    &&& props_key_fit(ps)
    &&& props_fit(ps)
}

/// The node stored under `id` reads, and its label and properties can be stored and
/// indexed.
pub open spec fn node_storable(m: StoreView, id: NodeId) -> bool {
    match stored_node(m, id) {
        Some(n) => storable(n.label, n.properties),
        None => false,
    }
}

/// The edge stored under `id` reads, and its label and properties can be stored and
/// indexed.
pub open spec fn edge_storable(m: StoreView, id: EdgeId) -> bool {
    match stored_edge(m, id) {
        Some(e) => storable(e.label, e.properties),
        None => false,
    }
}

/// The changes `ops` to the node or edge `cur` give a label and properties that can be
/// stored and indexed.
pub open spec fn change_ok(cur_label: Seq<char>, cur_props: PropsView, ops: Seq<MutOpView>) -> bool {
    let s = apply_ops_spec((cur_label, props_map(cur_props)), ops);
    &&& storable(cur_label, cur_props)
    &&& storable_map(s.0, s.1)
}

/// After the changes `ops` to `cur`, each vector has the dimension of its index under
/// the new label.
pub open spec fn change_dims_ok(m: StoreView, cur_label: Seq<char>, cur_props: PropsView, ops: Seq<MutOpView>) -> bool {
    let s = apply_ops_spec((cur_label, props_map(cur_props)), ops);
    dims_ok_map(m, s.0, s.1)
}

/// The node stored under `id` reads and the changes `ops` to it can be applied, its
/// vectors matching their indexes.
pub open spec fn node_change_ok(m: StoreView, id: NodeId, ops: Seq<MutOpView>) -> bool {
    match stored_node(m, id) {
        Some(cur) => change_ok(cur.label, cur.properties, ops) && change_dims_ok(m, cur.label, cur.properties, ops),
        None => false,
    }
}

/// The edge stored under `id` reads and the changes `ops` to it can be applied; where
/// `check_dims`, its vectors match the indexes of its new label as a node's would.
pub open spec fn edge_change_ok(m: StoreView, id: EdgeId, ops: Seq<MutOpView>, check_dims: bool) -> bool {
    match stored_edge(m, id) {
        Some(cur) => change_ok(cur.label, cur.properties, ops) && (check_dims ==> change_dims_ok(m, cur.label, cur.properties, ops)),
        None => false,
    }
}

/// A label and a property map can be stored and indexed: every length fits its field.
pub open spec fn storable_map(label: Seq<char>, pm: Map<Seq<char>, ValueView>) -> bool {
    &&& encode_utf8(label).len() <= u32::MAX
    &&& forall|k: Seq<char>|
        #[trigger] pm.contains_key(k) ==> encode_utf8(k).len() <= u32::MAX && crate::index::properties::value_fits(pm[k])
            && value_fits_record(pm[k])
}

/// Each vector of a property map has the dimension of the vector index of its label and
/// name, where there is one.
pub open spec fn dims_ok_map(m: StoreView, label: Seq<char>, pm: Map<Seq<char>, ValueView>) -> bool {
    forall|k: Seq<char>|
        #[trigger] pm.contains_key(k) ==> match pm[k] {
            ValueView::Vector(x) => match crate::index::vector::meta_of(m, label, k) {
                Some(meta) => x.len() == meta.dimension,
                None => true,
            },
            _ => true,
        }
}

/// For a list without repeated names, what holds of each pair holds of its map.
pub proof fn lemma_map_checks(m: StoreView, label: Seq<char>, ps: PropsView)
    requires
        distinct_names(ps),
    ensures
        storable(label, ps) <==> storable_map(label, props_map(ps)),
        dims_ok(m, label, ps) <==> dims_ok_map(m, label, props_map(ps)),
{
    let pm = props_map(ps);
    assert forall|i: int| 0 <= i < ps.len() implies pm.contains_key((#[trigger] ps[i]).0) && pm[ps[i].0] == ps[i].1 by {
        crate::props::lemma_props_map_at(ps, i);
    }
    assert forall|k: Seq<char>| #[trigger] pm.contains_key(k) implies exists|i: int| 0 <= i < ps.len() && ps[i].0 == k && pm[k] == ps[i].1 by {
        crate::props::lemma_props_map_dom(ps, k);
        let i = choose|i: int| 0 <= i < ps.len() && (#[trigger] ps[i]).0 == k;
        crate::props::lemma_props_map_at(ps, i);
    }
    if storable_map(label, pm) {
        assert forall|i: int| 0 <= i < ps.len() implies encode_utf8((#[trigger] ps[i]).0).len() <= u32::MAX
            && crate::index::properties::value_fits(ps[i].1) by {
            assert(pm.contains_key(ps[i].0));
        }
        assert forall|i: int| 0 <= i < ps.len() implies encode_utf8((#[trigger] ps[i]).0).len() <= u32::MAX
            && value_fits_record(ps[i].1) by {
            assert(pm.contains_key(ps[i].0));
        }
    }
    if storable(label, ps) {
        assert forall|k: Seq<char>| #[trigger] pm.contains_key(k) implies encode_utf8(k).len() <= u32::MAX
            && crate::index::properties::value_fits(pm[k]) && value_fits_record(pm[k]) by {
            let i = choose|i: int| 0 <= i < ps.len() && ps[i].0 == k && pm[k] == ps[i].1;
            assert(encode_utf8((ps[i]).0).len() <= u32::MAX && crate::index::properties::value_fits(ps[i].1));
            assert(value_fits_record(ps[i].1));
        }
    }
    if dims_ok_map(m, label, pm) {
        assert forall|i: int| 0 <= i < ps.len() implies match (#[trigger] ps[i]).1 {
            ValueView::Vector(x) => match crate::index::vector::meta_of(m, label, ps[i].0) {
                Some(meta) => x.len() == meta.dimension,
                None => true,
            },
            _ => true,
        } by {
            assert(pm.contains_key(ps[i].0));
        }
    }
    if dims_ok(m, label, ps) {
        assert forall|k: Seq<char>| #[trigger] pm.contains_key(k) implies match pm[k] {
            ValueView::Vector(x) => match crate::index::vector::meta_of(m, label, k) {
                Some(meta) => x.len() == meta.dimension,
                None => true,
            },
            _ => true,
        } by {
            let i = choose|i: int| 0 <= i < ps.len() && ps[i].0 == k && pm[k] == ps[i].1;
            assert(match (ps[i]).1 {
                ValueView::Vector(x) => match crate::index::vector::meta_of(m, label, ps[i].0) {
                    Some(meta) => x.len() == meta.dimension,
                    None => true,
                },
                _ => true,
            });
        }
    }
}

/// The contents after adding the node `id`: its id allocated, its record stored under
/// it, its label entry and the keys of its registered properties stored.
pub open spec fn node_added(
    m: StoreView,
    f: StoreView,
    id: NodeId,
    label: Seq<char>,
    ps: PropsView,
    reg: Set<(Seq<char>, Seq<char>)>,
) -> bool {
    &&& id_allocation(m, next_node_id_key()) matches Some((nid, m1)) && nid == id && f == node_indexed(
        m1.insert((Db::Nodes, be64(id)), node_record(NodeView { id, label, properties: ps })),
        label,
        id,
        ps,
        reg,
    )
}

/// The contents after adding the edge `id` from `from` to `to`: its id allocated, its
/// record stored, its adjacency entries and the keys of its registered properties stored.
pub open spec fn edge_added(
    m: StoreView,
    f: StoreView,
    id: EdgeId,
    from: NodeId,
    to: NodeId,
    label: Seq<char>,
    ps: PropsView,
    reg: Set<(Seq<char>, Seq<char>)>,
) -> bool {
    &&& id_allocation(m, next_edge_id_key()) matches Some((eid, m1)) && eid == id && f == put_keys(
        adjacency_inserted(
            m1.insert((Db::Edges, be64(id)), edge_record(EdgeView { id, from, to, label, properties: ps })),
            from,
            to,
            encode_utf8(label),
            id,
        ),
        Db::Properties,
        prop_keys(EDGE_TAG, reg, label, id, ps, None),
    )
}

/// The contents after erasing the edge `e`: its adjacency entries, the keys of its
/// registered properties and its record go.
pub open spec fn edge_erased(m: StoreView, reg: Set<(Seq<char>, Seq<char>)>, e: EdgeView) -> StoreView {
    del_keys(
        adjacency_removed(m, e.from, e.to, encode_utf8(e.label), e.id),
        Db::Properties,
        prop_keys(EDGE_TAG, reg, e.label, e.id, e.properties, None),
    ).remove((Db::Edges, be64(e.id)))
}

/// What erasing the edge that an adjacency key names does: nothing where the key does
/// not read or no record is stored under its edge id; the edge is erased where its record
/// reads (a record that does not read is an error, and has no step).
pub open spec fn edge_step(mid: StoreView, f: StoreView, reg: Set<(Seq<char>, Seq<char>)>, k: Seq<u8>) -> bool {
    match crate::index::edges::decode_adjacency_key(k) {
        None => f == mid,
        Some(eid) => match lookup(mid, Db::Edges, be64(eid)) {
            None => f == mid,
            Some(b) => match parse_edge(b) {
                Some(e) => f == edge_erased(mid, reg, e),
                None => false,
            },
        },
    }
}

/// Every stored edge record reads, and its label and properties can be stored and
/// indexed.
pub open spec fn edges_sound(m: StoreView) -> bool {
    forall|k: Seq<u8>|
        #[trigger] m.contains_key((Db::Edges, k)) ==> (parse_edge(m[(Db::Edges, k)]) matches Some(e) && storable(e.label, e.properties))
}

/// Erasing an edge keeps every other stored edge record as it was.
pub proof fn lemma_erased_sound(m: StoreView, reg: Set<(Seq<char>, Seq<char>)>, e: EdgeView)
    requires
        edges_sound(m),
    ensures
        edges_sound(edge_erased(m, reg, e)),
{
    let a = adjacency_removed(m, e.from, e.to, encode_utf8(e.label), e.id);
    let keys = prop_keys(EDGE_TAG, reg, e.label, e.id, e.properties, None);
    let f = edge_erased(m, reg, e);
    assert forall|k: Seq<u8>| #[trigger] f.contains_key((Db::Edges, k)) implies (parse_edge(f[(Db::Edges, k)]) matches Some(x)
        && storable(x.label, x.properties)) by {
        crate::storage::bulk::lemma_del_keys(a, Db::Properties, keys, (Db::Edges, k));
        assert(m.contains_key((Db::Edges, k)));
    }
}

/// `states` walk through erasing the edges that `keys` name, one key at a time.
pub open spec fn edge_chain(states: Seq<StoreView>, reg: Set<(Seq<char>, Seq<char>)>, keys: Seq<Seq<u8>>) -> bool {
    &&& states.len() == keys.len() + 1
    &&& forall|i: int| #![trigger keys[i]] 0 <= i < keys.len() ==> edge_step(states[i], states[i + 1], reg, keys[i])
}

/// `keys` are the keys of `db` in `m` that start with `prefix`, each once.
pub open spec fn keys_scanned(m: StoreView, db: Db, prefix: Seq<u8>, keys: Seq<Seq<u8>>) -> bool {
    &&& forall|i: int, j: int| 0 <= i < j < keys.len() ==> keys[i] != keys[j]
    &&& forall|k: Seq<u8>| #[trigger] keys.contains(k) <==> (m.contains_key((db, k)) && prefix.is_prefix_of(k))
}

/// `f` is what deleting the node `node` (stored under `id`) leaves of `m`: each edge that
/// leaves it, then each edge that enters it, is erased; its index entries go; its record
/// goes.
pub open spec fn node_deleted(
    m: StoreView,
    f: StoreView,
    inf: bool,
    id: NodeId,
    node: NodeView,
    nreg: Set<(Seq<char>, Seq<char>)>,
    ereg: Set<(Seq<char>, Seq<char>)>,
) -> bool {
    exists|s1: Seq<StoreView>, k1: Seq<Seq<u8>>, s2: Seq<StoreView>, k2: Seq<Seq<u8>>, mid: StoreView|
        #[trigger] edge_chain(s1, ereg, k1) && #[trigger] edge_chain(s2, ereg, k2) && keys_scanned(m, Db::OutEdges, be64(id), k1)
            && s1[0] == m && keys_scanned(s1.last(), Db::InEdges, be64(id), k2) && s2[0] == s1.last()
            && #[trigger] crate::index::maintain::node_unindexed(s2.last(), mid, inf, node.label, node.id, node.properties, nreg)
            && f == mid.remove((Db::Nodes, be64(node.id)))
}

/// Whether a label and a property list can be stored and indexed.
pub fn storable_check(label: &str, p: &Vec<(String, Value)>) -> (r: bool)
    ensures
        r == storable(label@, props_view(p@)),
{
    if label.as_bytes().len() > 0xffff_ffffusize {
        return false;
    }
    let ghost ps = props_view(p@);
    let mut i: usize = 0;
    while i < p.len()
        invariant
            i <= p@.len(),
            ps == props_view(p@),
            forall|j: int|
                0 <= j < i ==> encode_utf8((#[trigger] ps[j]).0).len() <= u32::MAX && crate::index::properties::value_fits(ps[j].1)
                    && value_fits_record(ps[j].1),
        decreases p@.len() - i,
    {
        proof {
            assert(ps[i as int] == (p@[i as int].0@, p@[i as int].1@));
        }
        let name_ok = p[i].0.as_str().as_bytes().len() <= 0xffff_ffffusize;
        let key_ok = crate::index::property_indexes::index_key_fits(&p[i].1);
        let rec_ok = match &p[i].1 {
            Value::String(s) => s.as_str().as_bytes().len() <= 0xffff_ffffusize,
            Value::Bytes(b) => b.len() <= 0xffff_ffffusize,
            Value::Vector(x) => x.len() <= 0x3fff_ffffusize,
            _ => true,
        };
        if !(name_ok && key_ok && rec_ok) {
            return false;
        }
        i = i + 1;
    }
    true
}

/// Reads a node's record.
pub fn read_node<T: StoreRead>(txn: &T, id: NodeId) -> (r: Result<Node, HelixiteError>)
    ensures
        txn.infallible() && lookup(txn.contents(), Db::Nodes, be64(id)) is None ==> r == Err::<Node, HelixiteError>(HelixiteError::NodeNotFound(id)),
        txn.infallible() && stored_node(txn.contents(), id) is Some ==> r is Ok,
        txn.infallible() && lookup(txn.contents(), Db::Nodes, be64(id)) is Some && stored_node(txn.contents(), id) is None
            ==> (r matches Err(HelixiteError::Codec(msg)) && msg@ == "malformed node record"@),
        r matches Ok(n) ==> stored_node(txn.contents(), id) == Some(n@) && distinct_names(n@.properties) && crate::props::names_sorted(n@.properties),
{
    let key = u64_to_be_bytes(id);
    let bytes = match txn.get(Db::Nodes, key.as_slice())? {
        Some(b) => b,
        None => return Err(HelixiteError::NodeNotFound(id)),
    };
    match Node::from_record(bytes.as_slice()) {
        Some(n) => Ok(n),
        None => Err(HelixiteError::Codec("malformed node record".to_owned())),
    }
}

/// Reads an edge's record.
pub fn read_edge<T: StoreRead>(txn: &T, id: EdgeId) -> (r: Result<Edge, HelixiteError>)
    ensures
        txn.infallible() && lookup(txn.contents(), Db::Edges, be64(id)) is None ==> r == Err::<Edge, HelixiteError>(HelixiteError::EdgeNotFound(id)),
        txn.infallible() && stored_edge(txn.contents(), id) is Some ==> r is Ok,
        txn.infallible() && lookup(txn.contents(), Db::Edges, be64(id)) is Some && stored_edge(txn.contents(), id) is None
            ==> (r matches Err(HelixiteError::Codec(msg)) && msg@ == "malformed edge record"@),
        r matches Ok(e) ==> stored_edge(txn.contents(), id) == Some(e@) && distinct_names(e@.properties) && crate::props::names_sorted(e@.properties),
{
    let key = u64_to_be_bytes(id);
    let bytes = match txn.get(Db::Edges, key.as_slice())? {
        Some(b) => b,
        None => return Err(HelixiteError::EdgeNotFound(id)),
    };
    match Edge::from_record(bytes.as_slice()) {
        Some(e) => Ok(e),
        None => Err(HelixiteError::Codec("malformed edge record".to_owned())),
    }
}

/// A transaction for reading the graph.
pub struct ReadTxn<T: StoreRead> {
    txn: T,
}

impl<T: StoreRead> ReadTxn<T> {
    /// What the transaction sees.
    pub closed spec fn contents(&self) -> StoreView {
        self.txn.contents()
    }

    /// The transaction's reads never fail.
    pub closed spec fn infallible(&self) -> bool {
        self.txn.infallible()
    }

    /// Reads the graph through a storage transaction.
    pub fn new(txn: T) -> (r: Self)
        ensures
            r.contents() == txn.contents(),
            r.infallible() == txn.infallible(),
    {
        ReadTxn { txn }
    }

    /// The node stored under `id`: not found where there is none, a codec error where
    /// its record does not read.
    pub fn get_node(&self, id: NodeId) -> (r: Result<Node, HelixiteError>)
        ensures
            self.infallible() && lookup(self.contents(), Db::Nodes, be64(id)) is None ==> r == Err::<Node, HelixiteError>(HelixiteError::NodeNotFound(id)),
            self.infallible() && stored_node(self.contents(), id) is Some ==> r is Ok,
            self.infallible() && lookup(self.contents(), Db::Nodes, be64(id)) is Some && stored_node(self.contents(), id) is None
                ==> (r matches Err(HelixiteError::Codec(msg)) && msg@ == "malformed node record"@),
            r matches Ok(n) ==> stored_node(self.contents(), id) == Some(n@),
    {
        read_node(&self.txn, id)
    }

    /// The edge stored under `id`: not found where there is none, a codec error where
    /// its record does not read.
    pub fn get_edge(&self, id: EdgeId) -> (r: Result<Edge, HelixiteError>)
        ensures
            self.infallible() && lookup(self.contents(), Db::Edges, be64(id)) is None ==> r == Err::<Edge, HelixiteError>(HelixiteError::EdgeNotFound(id)),
            self.infallible() && stored_edge(self.contents(), id) is Some ==> r is Ok,
            self.infallible() && lookup(self.contents(), Db::Edges, be64(id)) is Some && stored_edge(self.contents(), id) is None
                ==> (r matches Err(HelixiteError::Codec(msg)) && msg@ == "malformed edge record"@),
            r matches Ok(e) ==> stored_edge(self.contents(), id) == Some(e@),
    {
        read_edge(&self.txn, id)
    }
}

/// A transaction for changing the graph.
pub struct WriteTxn<T: StoreWrite> {
    txn: T,
}

impl<T: StoreWrite> WriteTxn<T> {
    /// What the transaction sees, its own writes included.
    pub closed spec fn contents(&self) -> StoreView {
        self.txn.contents()
    }

    /// The transaction's reads and writes never fail.
    pub closed spec fn infallible(&self) -> bool {
        self.txn.infallible()
    }

    /// Changes the graph through a storage transaction.
    pub fn new(txn: T) -> (r: Self)
        ensures
            r.contents() == txn.contents(),
            r.infallible() == txn.infallible(),
    {
        WriteTxn { txn }
    }

    /// The storage transaction, to be committed.
    pub fn into_inner(self) -> (r: T)
        ensures
            r.contents() == self.contents(),
            r.infallible() == self.infallible(),
    {
        self.txn
    }

    /// The node stored under `id`, as `ReadTxn::get_node` reads it.
    pub fn get_node(&self, id: NodeId) -> (r: Result<Node, HelixiteError>)
        ensures
            self.infallible() && lookup(self.contents(), Db::Nodes, be64(id)) is None ==> r == Err::<Node, HelixiteError>(HelixiteError::NodeNotFound(id)),
            self.infallible() && stored_node(self.contents(), id) is Some ==> r is Ok,
            self.infallible() && lookup(self.contents(), Db::Nodes, be64(id)) is Some && stored_node(self.contents(), id) is None
                ==> (r matches Err(HelixiteError::Codec(msg)) && msg@ == "malformed node record"@),
            r matches Ok(n) ==> stored_node(self.contents(), id) == Some(n@),
    {
        read_node(&self.txn, id)
    }

    /// The edge stored under `id`, as `ReadTxn::get_edge` reads it.
    pub fn get_edge(&self, id: EdgeId) -> (r: Result<Edge, HelixiteError>)
        ensures
            self.infallible() && lookup(self.contents(), Db::Edges, be64(id)) is None ==> r == Err::<Edge, HelixiteError>(HelixiteError::EdgeNotFound(id)),
            self.infallible() && stored_edge(self.contents(), id) is Some ==> r is Ok,
            self.infallible() && lookup(self.contents(), Db::Edges, be64(id)) is Some && stored_edge(self.contents(), id) is None
                ==> (r matches Err(HelixiteError::Codec(msg)) && msg@ == "malformed edge record"@),
            r matches Ok(e) ==> stored_edge(self.contents(), id) == Some(e@),
    {
        read_edge(&self.txn, id)
    }

    /// Adds a node with `label` and the properties given as pairs (a later pair wins
    /// over an earlier one of the same name): checks its vectors against their indexes,
    /// allocates its id, stores its record and indexes it. Gives back the id and the
    /// inserts of its vectors into their indexes, which the caller carries out before it
    /// commits.
    pub fn add_node(&mut self, label: String, properties: Vec<(String, Value)>) -> (r: Result<(NodeId, Vec<VectorInsert>), HelixiteError>)
        ensures
            final(self).infallible() == old(self).infallible(),
            r matches Ok((id, ins)) ==> exists|ps: PropsView|
                #[trigger] distinct_names(ps) && props_map(ps) == props_map(props_view(properties@))
                    && storable(label@, ps) && (old(self).infallible() ==> dims_ok(old(self).contents(), label@, ps)) && node_added(
                    old(self).contents(),
                    final(self).contents(),
                    id,
                    label@,
                    ps,
                    registered_pairs(old(self).contents(), seq![NODE_TAG]),
                ) && (old(self).infallible() ==> inserts_view(ins@) == pending(final(self).contents(), label@, id, ps)),
            r matches Ok((id, _)) ==> stored_node(final(self).contents(), id) matches Some(n) && n.id == id
                && n.label == label@ && props_map(n.properties) == props_map(props_view(properties@)),
            old(self).infallible() && !storable_map(label@, props_map(props_view(properties@)))
                ==> (r matches Err(HelixiteError::Storage(msg)) && msg@ == "label or property too large to store"@),
            old(self).infallible() && storable_map(label@, props_map(props_view(properties@)))
                && dims_ok_map(old(self).contents(), label@, props_map(props_view(properties@)))
                && id_allocation(old(self).contents(), next_node_id_key()) is Some ==> r is Ok,
            old(self).infallible() && storable_map(label@, props_map(props_view(properties@)))
                && !dims_ok_map(old(self).contents(), label@, props_map(props_view(properties@)))
                ==> r matches Err(HelixiteError::InvalidVectorDim { .. }),
            old(self).infallible() && r is Err ==> final(self).contents() == old(self).contents(),
    {
        let ghost input = props_view(properties@);
        let props = collect_properties(properties);
        proof {
            lemma_map_checks(self.txn.contents(), label@, props_view(props@));
        }
        if !storable_check(label.as_str(), &props) {
            return Err(HelixiteError::Storage("label or property too large to store".to_owned()));
        }
        let ghost m = self.txn.contents();
        let ghost ps = props_view(props@);
        let count: usize = props.len();
        assert(ps.len() == count && count <= u64::MAX);
        NodeIndexes::validate_from_txn(&self.txn, label.as_str(), &props)?;
        let registered = PropertyIndexRegistry::load_nodes_from_txn(&self.txn)?;
        let id = IdAllocator::next_node_id(&mut self.txn)?;
        let ghost m1 = self.txn.contents();
        let node = Node { id, label, properties: props };
        let bytes = node.to_record();
        let key = u64_to_be_bytes(id);
        self.txn.put(Db::Nodes, key.as_slice(), bytes.as_slice())?;
        let ghost m2 = self.txn.contents();
        let ins = NodeIndexes::insert(&mut self.txn, node.label.as_str(), id, &node.properties, &registered)?;
        proof {
            let nv = NodeView { id, label: node.label@, properties: ps };
            assert(node@ == nv);
            assert(m2 == m1.insert((Db::Nodes, be64(id)), node_record(nv)));
            crate::record::law_node_record_roundtrip(nv);
            let f = self.txn.contents();
            let lk = (Db::Labels, crate::index::labels::label_key(encode_utf8(nv.label), id));
            let keys = prop_keys(NODE_TAG, registered.pairs(), nv.label, id, ps, None);
            crate::storage::bulk::lemma_put_keys(m2.insert(lk, Seq::empty()), Db::Properties, keys, (Db::Nodes, be64(id)));
            assert(lookup(f, Db::Nodes, be64(id)) == Some(node_record(nv)));
            assert(distinct_names(ps));
            assert(props_map(ps) == props_map(input));
            assert(storable(node.label@, ps));
            assert(node_added(m, f, id, node.label@, ps, registered.pairs()));
        }
        Ok((id, ins))
    }
}

/// Erases the edge stored under `eid`, where there is one.
fn delete_edge_record<T: StoreWrite>(txn: &mut T, registered: &PropertyIndexRegistry, eid: EdgeId) -> (r: Result<(), HelixiteError>)
    ensures
        final(txn).infallible() == old(txn).infallible(),
        r is Ok ==> (match lookup(old(txn).contents(), Db::Edges, be64(eid)) {
            None => final(txn).contents() == old(txn).contents(),
            Some(b) => parse_edge(b) matches Some(e) && final(txn).contents() == edge_erased(old(txn).contents(), registered.pairs(), e),
        }),
        r is Ok && vector_levels_wf(old(txn).contents()) ==> vector_levels_wf(final(txn).contents()),
        old(txn).infallible() && edges_sound(old(txn).contents()) ==> r is Ok,
        old(txn).infallible() && lookup(old(txn).contents(), Db::Edges, be64(eid)) is Some && stored_edge(old(txn).contents(), eid) is None
            ==> (r matches Err(HelixiteError::Codec(msg)) && msg@ == "malformed edge record"@),
        r is Ok && edges_sound(old(txn).contents()) ==> edges_sound(final(txn).contents()),
{
    let key = u64_to_be_bytes(eid);
    let bytes = match txn.get(Db::Edges, key.as_slice())? {
        Some(b) => b,
        None => return Ok(()),
    };
    let edge = match Edge::from_record(bytes.as_slice()) {
        Some(e) => e,
        None => return Err(HelixiteError::Codec("malformed edge record".to_owned())),
    };
    erase_edge(txn, registered, &edge)
}

/// Erases an edge: its adjacency entries, its property keys, its record.
fn erase_edge<T: StoreWrite>(txn: &mut T, registered: &PropertyIndexRegistry, edge: &Edge) -> (r: Result<(), HelixiteError>)
    ensures
        final(txn).infallible() == old(txn).infallible(),
        old(txn).infallible() && storable(edge@.label, edge@.properties) ==> r is Ok,
        !storable(edge@.label, edge@.properties) ==> (r matches Err(HelixiteError::Storage(msg)) && msg@ == "label or property too large to store"@),
        old(txn).infallible() && r is Err ==> final(txn).contents() == old(txn).contents(),
        r is Ok && edges_sound(old(txn).contents()) ==> edges_sound(final(txn).contents()),
        r is Ok ==> final(txn).contents() == edge_erased(old(txn).contents(), registered.pairs(), edge@),
        r is Ok && vector_levels_wf(old(txn).contents()) ==> vector_levels_wf(final(txn).contents()),
{
    if !storable_check(edge.label.as_str(), &edge.properties) {
        return Err(HelixiteError::Storage("label or property too large to store".to_owned()));
    }
    EdgeIndex::delete(txn, edge.from, edge.to, edge.label.as_str(), edge.id)?;
    EdgePropertyIndexes::delete(txn, registered, edge)?;
    let key = u64_to_be_bytes(edge.id);
    txn.delete(Db::Edges, key.as_slice())?;
    proof {
        let m = old(txn).contents();
        let f = txn.contents();
        let a = adjacency_removed(m, edge.from, edge.to, encode_utf8(edge@.label), edge.id);
        let keys = prop_keys(EDGE_TAG, registered.pairs(), edge@.label, edge.id, edge@.properties, None);
        if edges_sound(m) {
            lemma_erased_sound(m, registered.pairs(), edge@);
        }
        if vector_levels_wf(m) {
            assert forall|k: Seq<u8>| #[trigger] f.contains_key((Db::VectorIndexes, k)) implies m.contains_key((Db::VectorIndexes, k))
                && f[(Db::VectorIndexes, k)] == m[(Db::VectorIndexes, k)] by {
                crate::storage::bulk::lemma_del_keys(a, Db::Properties, keys, (Db::VectorIndexes, k));
            }
            lemma_levels_kept(m, f);
        }
    }
    Ok(())
}

/// Contents whose vector index keys are among those of `a`, with the same values, keep
/// every stored level well formed.
pub proof fn lemma_levels_kept(a: StoreView, b: StoreView)
    requires
        vector_levels_wf(a),
        forall|k: Seq<u8>| #[trigger] b.contains_key((Db::VectorIndexes, k)) ==> a.contains_key((Db::VectorIndexes, k))
            && b[(Db::VectorIndexes, k)] == a[(Db::VectorIndexes, k)],
    ensures
        vector_levels_wf(b),
{
    assert forall|k: Seq<u8>|
        #[trigger] b.contains_key((Db::VectorIndexes, k)) && k.len() > 0 && k[0] == crate::index::vector::keys::LVL_PREFIX
            implies b[(Db::VectorIndexes, k)].len() >= 1 by {
        assert(a.contains_key((Db::VectorIndexes, k)));
    }
}

/// Erases every edge whose adjacency key in `db` starts with `prefix`.
fn delete_adjacent<T: StoreWrite>(txn: &mut T, registered: &PropertyIndexRegistry, db: Db, prefix: Vec<u8>) -> (r: Result<(), HelixiteError>)
    ensures
        final(txn).infallible() == old(txn).infallible(),
        r is Ok ==> exists|states: Seq<StoreView>, keys: Seq<Seq<u8>>|
            #[trigger] edge_chain(states, registered.pairs(), keys) && keys_scanned(old(txn).contents(), db, prefix@, keys)
                && states[0] == old(txn).contents() && states.last() == final(txn).contents(),
        r is Ok && vector_levels_wf(old(txn).contents()) ==> vector_levels_wf(final(txn).contents()),
        old(txn).infallible() && edges_sound(old(txn).contents()) ==> r is Ok,
        r is Ok && edges_sound(old(txn).contents()) ==> edges_sound(final(txn).contents()),
{
    let ghost m = txn.contents();
    let ghost p = prefix@;
    let scan = crate::storage::engine::Scan::Prefix(prefix);
    let entries = txn.scan(db, &scan, None)?;
    let ghost keys = entries@.map_values(|e: crate::storage::engine::Entry| e.key@);
    proof {
        assert forall|k: Seq<u8>| #[trigger] keys.contains(k) <==> (m.contains_key((db, k)) && p.is_prefix_of(k)) by {
            if keys.contains(k) {
                let i = choose|i: int| 0 <= i < keys.len() && keys[i] == k;
                assert(keys[i] == entries@[i].key@);
                assert(crate::storage::engine::in_scan(scan, entries@[i].key@));
            }
            if m.contains_key((db, k)) && p.is_prefix_of(k) {
                let i = choose|i: int| 0 <= i < entries@.len() && entries@[i].key@ == k;
                assert(keys[i] == k);
            }
        }
        assert forall|i: int, j: int| 0 <= i < j < keys.len() implies keys[i] != keys[j] by {
            assert(keys[i] == entries@[i].key@ && keys[j] == entries@[j].key@);
        }
    }
    let ghost mut states: Seq<StoreView> = seq![m];
    let mut i: usize = 0;
    while i < entries.len()
        invariant
            i <= entries@.len(),
            keys == entries@.map_values(|e: crate::storage::engine::Entry| e.key@),
            txn.infallible() == old(txn).infallible(),
            m == old(txn).contents(),
            edge_chain(states, registered.pairs(), keys.subrange(0, i as int)),
            states[0] == m,
            states[i as int] == txn.contents(),
            vector_levels_wf(m) ==> vector_levels_wf(txn.contents()),
            edges_sound(m) ==> edges_sound(txn.contents()),
        decreases entries@.len() - i,
    {
        let ghost pre = txn.contents();
        let ghost ki = keys[i as int];
        assert(ki == entries@[i as int].key@);
        match EdgeIndex::decode_edge_id(entries[i].key.as_slice()) {
            Some(eid) => {
                delete_edge_record(txn, registered, eid)?;
            },
            None => {},
        }
        proof {
            assert(edge_step(pre, txn.contents(), registered.pairs(), ki));
            let sub = keys.subrange(0, i + 1);
            let old_states = states;
            states = states.push(txn.contents());
            assert forall|j: int| #![trigger sub[j]] 0 <= j < sub.len() implies edge_step(states[j], states[j + 1], registered.pairs(), sub[j]) by {
                if j < i {
                    assert(sub[j] == keys.subrange(0, i as int)[j]);
                    assert(states[j] == old_states[j] && states[j + 1] == old_states[j + 1]);
                }
            }
        }
        i = i + 1;
    }
    proof {
        assert(keys.subrange(0, i as int) =~= keys);
        assert(edge_chain(states, registered.pairs(), keys) && keys_scanned(m, db, p, keys) && states[0] == m
            && states.last() == txn.contents());
    }
    Ok(())
}

impl<T: StoreWrite> WriteTxn<T> {
    /// Adds an edge from `from` to `to` with `label` and the properties given as pairs:
    /// both nodes must be stored; allocates its id, stores its record, its adjacency
    /// entries and the keys of its registered properties.
    pub fn add_edge(&mut self, from: NodeId, to: NodeId, label: String, properties: Vec<(String, Value)>) -> (r: Result<EdgeId, HelixiteError>)
        ensures
            final(self).infallible() == old(self).infallible(),
            old(self).infallible() && lookup(old(self).contents(), Db::Nodes, be64(from)) is None ==> r == Err::<EdgeId, HelixiteError>(HelixiteError::NodeNotFound(from)),
            old(self).infallible() && lookup(old(self).contents(), Db::Nodes, be64(from)) is Some
                && lookup(old(self).contents(), Db::Nodes, be64(to)) is None ==> r == Err::<EdgeId, HelixiteError>(HelixiteError::NodeNotFound(to)),
            r matches Ok(id) ==> lookup(old(self).contents(), Db::Nodes, be64(from)) is Some
                && lookup(old(self).contents(), Db::Nodes, be64(to)) is Some,
            r matches Ok(id) ==> exists|ps: PropsView|
                #[trigger] distinct_names(ps) && props_map(ps) == props_map(props_view(properties@))
                    && storable(label@, ps) && edge_added(
                    old(self).contents(),
                    final(self).contents(),
                    id,
                    from,
                    to,
                    label@,
                    ps,
                    registered_pairs(old(self).contents(), seq![EDGE_TAG]),
                ),
            r matches Ok(id) ==> stored_edge(final(self).contents(), id) matches Some(e) && e.id == id && e.from == from
                && e.to == to && e.label == label@ && props_map(e.properties) == props_map(props_view(properties@)),
            old(self).infallible() && lookup(old(self).contents(), Db::Nodes, be64(from)) is Some
                && lookup(old(self).contents(), Db::Nodes, be64(to)) is Some && !storable_map(label@, props_map(props_view(properties@)))
                ==> (r matches Err(HelixiteError::Storage(msg)) && msg@ == "label or property too large to store"@),
            old(self).infallible() && lookup(old(self).contents(), Db::Nodes, be64(from)) is Some
                && lookup(old(self).contents(), Db::Nodes, be64(to)) is Some && storable_map(label@, props_map(props_view(properties@)))
                && id_allocation(old(self).contents(), next_edge_id_key()) is Some ==> r is Ok,
            old(self).infallible() && r is Err ==> final(self).contents() == old(self).contents(),
    {
        let from_key = u64_to_be_bytes(from);
        if self.txn.get(Db::Nodes, from_key.as_slice())?.is_none() {
            return Err(HelixiteError::NodeNotFound(from));
        }
        let to_key = u64_to_be_bytes(to);
        if self.txn.get(Db::Nodes, to_key.as_slice())?.is_none() {
            return Err(HelixiteError::NodeNotFound(to));
        }
        let ghost input = props_view(properties@);
        let props = collect_properties(properties);
        proof {
            lemma_map_checks(self.txn.contents(), label@, props_view(props@));
        }
        if !storable_check(label.as_str(), &props) {
            return Err(HelixiteError::Storage("label or property too large to store".to_owned()));
        }
        let ghost m = self.txn.contents();
        let ghost ps = props_view(props@);
        let count: usize = props.len();
        assert(ps.len() == count && count <= u64::MAX);
        let registered = PropertyIndexRegistry::load_edges_from_txn(&self.txn)?;
        let id = IdAllocator::next_edge_id(&mut self.txn)?;
        let ghost m1 = self.txn.contents();
        let edge = Edge { id, from, to, label, properties: props };
        let bytes = edge.to_record();
        let key = u64_to_be_bytes(id);
        self.txn.put(Db::Edges, key.as_slice(), bytes.as_slice())?;
        let ghost m2 = self.txn.contents();
        EdgeIndex::insert(&mut self.txn, from, to, edge.label.as_str(), id)?;
        let ghost m3 = self.txn.contents();
        EdgePropertyIndexes::insert(&mut self.txn, &registered, &edge)?;
        proof {
            let ev = EdgeView { id, from, to, label: edge.label@, properties: ps };
            assert(edge@ == ev);
            crate::record::law_edge_record_roundtrip(ev);
            let f = self.txn.contents();
            let keys = prop_keys(EDGE_TAG, registered.pairs(), ev.label, id, ps, None);
            crate::storage::bulk::lemma_put_keys(m3, Db::Properties, keys, (Db::Edges, be64(id)));
            assert(lookup(f, Db::Edges, be64(id)) == Some(edge_record(ev)));
            assert(distinct_names(ps));
            assert(props_map(ps) == props_map(input));
            assert(storable(edge.label@, ps));
            assert(edge_added(m, f, id, from, to, edge.label@, ps, registered.pairs()));
        }
        Ok(id)
    }

    /// Deletes the edge stored under `id`: its adjacency entries, its property keys and
    /// its record.
    pub fn delete_edge(&mut self, id: EdgeId) -> (r: Result<(), HelixiteError>)
        ensures
            final(self).infallible() == old(self).infallible(),
            old(self).infallible() && lookup(old(self).contents(), Db::Edges, be64(id)) is None ==> r == Err::<(), HelixiteError>(HelixiteError::EdgeNotFound(id)),
            r is Ok ==> (stored_edge(old(self).contents(), id) matches Some(e) && final(self).contents() == edge_erased(
                old(self).contents(),
                registered_pairs(old(self).contents(), seq![EDGE_TAG]),
                e,
            )),
            old(self).infallible() && lookup(old(self).contents(), Db::Edges, be64(id)) is Some && stored_edge(old(self).contents(), id) is None
                ==> (r matches Err(HelixiteError::Codec(msg)) && msg@ == "malformed edge record"@),
            old(self).infallible() && stored_edge(old(self).contents(), id) is Some ==> (r is Ok <==> edge_storable(old(self).contents(), id)),
            old(self).infallible() && r is Err ==> final(self).contents() == old(self).contents(),
    {
        let edge = read_edge(&self.txn, id)?;
        let registered = PropertyIndexRegistry::load_edges_from_txn(&self.txn)?;
        erase_edge(&mut self.txn, &registered, &edge)
    }

    /// Deletes the node stored under `id`: every edge that leaves it, then every edge
    /// that enters it, its index entries, and its record.
    pub fn delete_node(&mut self, id: NodeId) -> (r: Result<(), HelixiteError>)
        requires
            crate::index::vector::hnsw::vector_levels_wf(old(self).contents()),
        ensures
            final(self).infallible() == old(self).infallible(),
            old(self).infallible() && lookup(old(self).contents(), Db::Nodes, be64(id)) is None ==> r == Err::<(), HelixiteError>(HelixiteError::NodeNotFound(id)),
            r is Ok ==> (stored_node(old(self).contents(), id) matches Some(n) && node_deleted(
                old(self).contents(),
                final(self).contents(),
                old(self).infallible(),
                id,
                n,
                registered_pairs(old(self).contents(), seq![NODE_TAG]),
                registered_pairs(old(self).contents(), seq![EDGE_TAG]),
            )),
            r is Ok ==> (stored_node(old(self).contents(), id) matches Some(n) ==> (n.id == id ==> stored_node(final(self).contents(), id) is None)),
            old(self).infallible() && lookup(old(self).contents(), Db::Nodes, be64(id)) is Some && stored_node(old(self).contents(), id) is None
                ==> (r matches Err(HelixiteError::Codec(msg)) && msg@ == "malformed node record"@),
            old(self).infallible() && stored_node(old(self).contents(), id) is Some && !node_storable(old(self).contents(), id)
                ==> (r matches Err(HelixiteError::Storage(msg)) && msg@ == "label or property too large to store"@),
            old(self).infallible() && edges_sound(old(self).contents()) && node_storable(old(self).contents(), id) ==> r is Ok,
            old(self).infallible() && !node_storable(old(self).contents(), id) ==> final(self).contents() == old(self).contents(),
            old(self).infallible() && edges_sound(old(self).contents()) && r is Err ==> final(self).contents() == old(self).contents(),
    {
        let node = read_node(&self.txn, id)?;
        let node_registry = PropertyIndexRegistry::load_nodes_from_txn(&self.txn)?;
        let edge_registry = PropertyIndexRegistry::load_edges_from_txn(&self.txn)?;
        if !storable_check(node.label.as_str(), &node.properties) {
            return Err(HelixiteError::Storage("label or property too large to store".to_owned()));
        }
        let ghost m = self.txn.contents();
        delete_adjacent(&mut self.txn, &edge_registry, Db::OutEdges, EdgeIndex::out_prefix(id, None))?;
        let ghost m1 = self.txn.contents();
        delete_adjacent(&mut self.txn, &edge_registry, Db::InEdges, EdgeIndex::in_prefix(id, None))?;
        let ghost m2 = self.txn.contents();
        NodeIndexes::delete(&mut self.txn, &node, &node_registry)?;
        let ghost m3 = self.txn.contents();
        let key = u64_to_be_bytes(node.id);
        self.txn.delete(Db::Nodes, key.as_slice())?;
        proof {
            let (s1, k1) = choose|s1: Seq<StoreView>, k1: Seq<Seq<u8>>|
                #[trigger] edge_chain(s1, edge_registry.pairs(), k1) && keys_scanned(m, Db::OutEdges, be64(id), k1)
                    && s1[0] == m && s1.last() == m1;
            let (s2, k2) = choose|s2: Seq<StoreView>, k2: Seq<Seq<u8>>|
                #[trigger] edge_chain(s2, edge_registry.pairs(), k2) && keys_scanned(m1, Db::InEdges, be64(id), k2)
                    && s2[0] == m1 && s2.last() == m2;
            assert(crate::index::maintain::node_unindexed(m2, m3, old(self).infallible(), node@.label, node@.id, node@.properties, node_registry.pairs()));
            assert(self.txn.contents() == m3.remove((Db::Nodes, be64(node@.id))));
            assert(edge_chain(s1, edge_registry.pairs(), k1) && edge_chain(s2, edge_registry.pairs(), k2)
                && keys_scanned(m, Db::OutEdges, be64(id), k1) && s1[0] == m && keys_scanned(s1.last(), Db::InEdges, be64(id), k2)
                && s2[0] == s1.last() && crate::index::maintain::node_unindexed(s2.last(), m3, old(self).infallible(), node@.label, node@.id, node@.properties, node_registry.pairs())
                && self.txn.contents() == m3.remove((Db::Nodes, be64(node@.id))));
            assert(node_deleted(m, self.txn.contents(), old(self).infallible(), id, node@, node_registry.pairs(), edge_registry.pairs()));
        }
        Ok(())
    }
}

impl<T: StoreWrite> WriteTxn<T> {
    /// Applies changes to the node stored under `id`: reads it, applies the changes in
    /// order, checks its vectors, re-indexes it and stores its new record. Gives back the
    /// inserts of its changed vectors into their indexes.
    pub fn apply_node_changes(&mut self, id: NodeId, ops: &Vec<MutOp>) -> (r: Result<Vec<VectorInsert>, HelixiteError>)
        requires
            vector_levels_wf(old(self).contents()),
        ensures
            final(self).infallible() == old(self).infallible(),
            old(self).infallible() && lookup(old(self).contents(), Db::Nodes, be64(id)) is None ==> (r matches Err(HelixiteError::NodeNotFound(x)) && x == id),
            r matches Ok(ins) ==> (stored_node(old(self).contents(), id) matches Some(cur) && node_change_done(
                old(self).contents(),
                final(self).contents(),
                inserts_view(ins@),
                old(self).infallible(),
                id,
                cur,
                ops_view(ops@),
                registered_pairs(old(self).contents(), seq![NODE_TAG]),
            )),
            r is Ok ==> (stored_node(old(self).contents(), id) matches Some(cur) && stored_node(final(self).contents(), id) matches Some(n)
                && n.id == id && (n.label, props_map(n.properties)) == apply_ops_spec((cur.label, props_map(cur.properties)), ops_view(ops@))),
            old(self).infallible() && node_change_ok(old(self).contents(), id, ops_view(ops@)) ==> r is Ok,
    {
        let current = read_node(&self.txn, id)?;
        let mut label = crate::value::copy_string(&current.label);
        let mut properties = crate::props::copy_props(&current.properties);
        apply_ops(&mut label, &mut properties, ops);
        proof {
            lemma_map_checks(self.txn.contents(), label@, props_view(properties@));
        }
        if !storable_check(label.as_str(), &properties) || !storable_check(current.label.as_str(), &current.properties) {
            return Err(HelixiteError::Storage("label or property too large to store".to_owned()));
        }
        let ghost m = self.txn.contents();
        let ghost ps = props_view(properties@);
        let count: usize = properties.len();
        assert(ps.len() == count && count <= u64::MAX);
        NodeIndexes::validate_from_txn(&self.txn, label.as_str(), &properties)?;
        let registered = PropertyIndexRegistry::load_nodes_from_txn(&self.txn)?;
        let ins = NodeIndexes::replace(
            &mut self.txn,
            current.label.as_str(),
            label.as_str(),
            id,
            &current.properties,
            &properties,
            &registered,
        )?;
        let ghost mid = self.txn.contents();
        let updated = Node { id, label, properties };
        let bytes = updated.to_record();
        let key = u64_to_be_bytes(id);
        self.txn.put(Db::Nodes, key.as_slice(), bytes.as_slice())?;
        proof {
            crate::record::law_node_record_roundtrip(updated@);
            assert(node_changed(m, self.txn.contents(), mid, current@, ps, id, ops_view(ops@)));
            assert(updated@.label == apply_ops_spec((current@.label, props_map(current@.properties)), ops_view(ops@)).0);
            assert(crate::index::maintain::node_reindexed(m, mid, inserts_view(ins@), old(self).infallible(), current@.label,
                updated@.label, id, current@.properties, ps, registered.pairs()));
            assert(registered.pairs() == registered_pairs(old(self).contents(), seq![NODE_TAG]));
            assert(stored_node(old(self).contents(), id) == Some(current@));
            assert(node_change_done(m, self.txn.contents(), inserts_view(ins@), old(self).infallible(), id, current@, ops_view(ops@), registered.pairs()));
        }
        Ok(ins)
    }

    /// Applies changes to the edge stored under `id`: reads it, applies the changes in
    /// order, where `check_dims` checks its vectors as a node's would be, moves its
    /// adjacency entries where its label changes, moves its property keys and stores its
    /// new record.
    pub fn apply_edge_changes(&mut self, id: EdgeId, ops: &Vec<MutOp>, check_dims: bool) -> (r: Result<(), HelixiteError>)
        ensures
            final(self).infallible() == old(self).infallible(),
            old(self).infallible() && lookup(old(self).contents(), Db::Edges, be64(id)) is None ==> (r matches Err(HelixiteError::EdgeNotFound(x)) && x == id),
            r is Ok ==> (stored_edge(old(self).contents(), id) matches Some(cur) && edge_change_done(
                old(self).contents(),
                final(self).contents(),
                id,
                cur,
                ops_view(ops@),
                registered_pairs(old(self).contents(), seq![EDGE_TAG]),
            )),
            r is Ok ==> (stored_edge(old(self).contents(), id) matches Some(cur) && stored_edge(final(self).contents(), id) matches Some(e)
                && e.id == id && e.from == cur.from && e.to == cur.to
                && (e.label, props_map(e.properties)) == apply_ops_spec((cur.label, props_map(cur.properties)), ops_view(ops@))),
            old(self).infallible() && edge_change_ok(old(self).contents(), id, ops_view(ops@), check_dims) ==> r is Ok,
    {
        let current = read_edge(&self.txn, id)?;
        let mut label = crate::value::copy_string(&current.label);
        let mut properties = crate::props::copy_props(&current.properties);
        apply_ops(&mut label, &mut properties, ops);
        proof {
            lemma_map_checks(self.txn.contents(), label@, props_view(properties@));
        }
        if !storable_check(label.as_str(), &properties) || !storable_check(current.label.as_str(), &current.properties) {
            return Err(HelixiteError::Storage("label or property too large to store".to_owned()));
        }
        let ghost m = self.txn.contents();
        let ghost ps = props_view(properties@);
        let count: usize = properties.len();
        assert(ps.len() == count && count <= u64::MAX);
        if check_dims {
            NodeIndexes::validate_from_txn(&self.txn, label.as_str(), &properties)?;
        }
        let registered = PropertyIndexRegistry::load_edges_from_txn(&self.txn)?;
        if !crate::value::str_eq(label.as_str(), current.label.as_str()) {
            EdgeIndex::replace_label(&mut self.txn, current.from, current.to, current.label.as_str(), label.as_str(), id)?;
        }
        let ghost m1 = self.txn.contents();
        let updated = Edge { id, from: current.from, to: current.to, label, properties };
        EdgePropertyIndexes::replace(&mut self.txn, &registered, &current, &updated)?;
        let bytes = updated.to_record();
        let key = u64_to_be_bytes(id);
        self.txn.put(Db::Edges, key.as_slice(), bytes.as_slice())?;
        proof {
            crate::record::law_edge_record_roundtrip(updated@);
            assert(registered.pairs() == registered_pairs(old(self).contents(), seq![EDGE_TAG]));
            assert(stored_edge(old(self).contents(), id) == Some(current@));
            assert(m == old(self).contents());
            assert(edge_changed(m, self.txn.contents(), current@, ps, id, ops_view(ops@), registered.pairs()));
            assert(edge_change_done(m, self.txn.contents(), id, current@, ops_view(ops@), registered.pairs()));
        }
        Ok(())
    }
}

impl<T: StoreWrite> WriteTxn<T> {
    /// Changes to the node stored under `id`, to apply inside this transaction.
    pub fn node(&mut self, id: NodeId) -> (r: NodeMut<'_, T>)
        ensures
            *r.txn == *old(self),
            *final(self) == *final(r.txn),
            r.id == id,
            ops_view(r.changes.ops@) == Seq::<MutOpView>::empty(),
    {
        NodeMut { txn: self, id, changes: Changes::new() }
    }

    /// Changes to the edge stored under `id`, to apply inside this transaction.
    pub fn edge(&mut self, id: EdgeId) -> (r: EdgeMut<'_, T>)
        ensures
            *r.txn == *old(self),
            *final(self) == *final(r.txn),
            r.id == id,
            ops_view(r.changes.ops@) == Seq::<MutOpView>::empty(),
    {
        EdgeMut { txn: self, id, changes: Changes::new() }
    }
}

/// Changes to one node, applied together inside a transaction.
pub struct NodeMut<'a, T: StoreWrite> {
    pub txn: &'a mut WriteTxn<T>,
    pub id: NodeId,
    pub changes: Changes,
}

impl<'a, T: StoreWrite> NodeMut<'a, T> {
    /// Also sets the label.
    pub fn set_label(self, label: String) -> (r: Self)
        ensures
            r.id == self.id,
            *r.txn == *old(self.txn),
            *final(r.txn) == *final(self.txn),
            ops_view(r.changes.ops@) == ops_view(self.changes.ops@).push(MutOpView::SetLabel(label@)),
    {
        let NodeMut { txn, id, changes } = self;
        NodeMut { txn, id, changes: changes.push(MutOp::SetLabel(label)) }
    }

    /// Also sets a property.
    pub fn set_property(self, key: String, value: Value) -> (r: Self)
        ensures
            r.id == self.id,
            *r.txn == *old(self.txn),
            *final(r.txn) == *final(self.txn),
            ops_view(r.changes.ops@) == ops_view(self.changes.ops@).push(MutOpView::SetProperty(key@, value@)),
    {
        let NodeMut { txn, id, changes } = self;
        NodeMut { txn, id, changes: changes.push(MutOp::SetProperty(key, value)) }
    }

    /// Also removes a property.
    pub fn remove_property(self, key: String) -> (r: Self)
        ensures
            r.id == self.id,
            *r.txn == *old(self.txn),
            *final(r.txn) == *final(self.txn),
            ops_view(r.changes.ops@) == ops_view(self.changes.ops@).push(MutOpView::RemoveProperty(key@)),
    {
        let NodeMut { txn, id, changes } = self;
        NodeMut { txn, id, changes: changes.push(MutOp::RemoveProperty(key)) }
    }

    /// Also replaces every property by the given pairs.
    pub fn replace_properties(self, properties: Vec<(String, Value)>) -> (r: Self)
        ensures
            r.id == self.id,
            *r.txn == *old(self.txn),
            *final(r.txn) == *final(self.txn),
            ops_view(r.changes.ops@) == ops_view(self.changes.ops@).push(
                MutOpView::ReplaceProperties(props_view(properties@)),
            ),
    {
        let NodeMut { txn, id, changes } = self;
        NodeMut { txn, id, changes: changes.push(MutOp::ReplaceProperties(properties)) }
    }

    /// Applies the changes in order to the stored node, as `apply_node_changes` does;
    /// gives back the inserts of its changed vectors into their indexes.
    pub fn apply(self) -> (r: Result<Vec<VectorInsert>, HelixiteError>)
        requires
            vector_levels_wf(self.txn.contents()),
        ensures
            final(self.txn).infallible() == old(self.txn).infallible(),
            r matches Ok(ins) ==> (stored_node(old(self.txn).contents(), self.id) matches Some(cur) && node_change_done(
                old(self.txn).contents(),
                final(self.txn).contents(),
                inserts_view(ins@),
                old(self.txn).infallible(),
                self.id,
                cur,
                ops_view(self.changes.ops@),
                registered_pairs(old(self.txn).contents(), seq![NODE_TAG]),
            )),
            old(self.txn).infallible() && lookup(old(self.txn).contents(), Db::Nodes, be64(self.id)) is None
                ==> (r matches Err(HelixiteError::NodeNotFound(x)) && x == self.id),
            old(self.txn).infallible() && node_change_ok(old(self.txn).contents(), self.id, ops_view(self.changes.ops@)) ==> r is Ok,
            r is Ok ==> (stored_node(old(self.txn).contents(), self.id) matches Some(cur) && stored_node(final(self.txn).contents(), self.id) matches Some(n)
                && n.id == self.id && (n.label, props_map(n.properties)) == apply_ops_spec((cur.label, props_map(cur.properties)), ops_view(self.changes.ops@))),
    {
        let NodeMut { txn, id, changes } = self;
        txn.apply_node_changes(id, &changes.ops)
    }
}

/// Changes to one edge, applied together inside a transaction.
pub struct EdgeMut<'a, T: StoreWrite> {
    pub txn: &'a mut WriteTxn<T>,
    pub id: EdgeId,
    pub changes: Changes,
}

impl<'a, T: StoreWrite> EdgeMut<'a, T> {
    /// Also sets the label.
    pub fn set_label(self, label: String) -> (r: Self)
        ensures
            r.id == self.id,
            *r.txn == *old(self.txn),
            *final(r.txn) == *final(self.txn),
            ops_view(r.changes.ops@) == ops_view(self.changes.ops@).push(MutOpView::SetLabel(label@)),
    {
        let EdgeMut { txn, id, changes } = self;
        EdgeMut { txn, id, changes: changes.push(MutOp::SetLabel(label)) }
    }

    /// Also sets a property.
    pub fn set_property(self, key: String, value: Value) -> (r: Self)
        ensures
            r.id == self.id,
            *r.txn == *old(self.txn),
            *final(r.txn) == *final(self.txn),
            ops_view(r.changes.ops@) == ops_view(self.changes.ops@).push(MutOpView::SetProperty(key@, value@)),
    {
        let EdgeMut { txn, id, changes } = self;
        EdgeMut { txn, id, changes: changes.push(MutOp::SetProperty(key, value)) }
    }

    /// Also removes a property.
    pub fn remove_property(self, key: String) -> (r: Self)
        ensures
            r.id == self.id,
            *r.txn == *old(self.txn),
            *final(r.txn) == *final(self.txn),
            ops_view(r.changes.ops@) == ops_view(self.changes.ops@).push(MutOpView::RemoveProperty(key@)),
    {
        let EdgeMut { txn, id, changes } = self;
        EdgeMut { txn, id, changes: changes.push(MutOp::RemoveProperty(key)) }
    }

    /// Also replaces every property by the given pairs.
    pub fn replace_properties(self, properties: Vec<(String, Value)>) -> (r: Self)
        ensures
            r.id == self.id,
            *r.txn == *old(self.txn),
            *final(r.txn) == *final(self.txn),
            ops_view(r.changes.ops@) == ops_view(self.changes.ops@).push(
                MutOpView::ReplaceProperties(props_view(properties@)),
            ),
    {
        let EdgeMut { txn, id, changes } = self;
        EdgeMut { txn, id, changes: changes.push(MutOp::ReplaceProperties(properties)) }
    }

    /// Applies the changes in order to the stored edge, as `apply_edge_changes` does.
    pub fn apply(self) -> (r: Result<(), HelixiteError>)
        ensures
            final(self.txn).infallible() == old(self.txn).infallible(),
            r is Ok ==> (stored_edge(old(self.txn).contents(), self.id) matches Some(cur) && edge_change_done(
                old(self.txn).contents(),
                final(self.txn).contents(),
                self.id,
                cur,
                ops_view(self.changes.ops@),
                registered_pairs(old(self.txn).contents(), seq![EDGE_TAG]),
            )),
            old(self.txn).infallible() && lookup(old(self.txn).contents(), Db::Edges, be64(self.id)) is None
                ==> (r matches Err(HelixiteError::EdgeNotFound(x)) && x == self.id),
            old(self.txn).infallible() && edge_change_ok(old(self.txn).contents(), self.id, ops_view(self.changes.ops@), true) ==> r is Ok,
            r is Ok ==> (stored_edge(old(self.txn).contents(), self.id) matches Some(cur) && stored_edge(final(self.txn).contents(), self.id) matches Some(e)
                && e.id == self.id && e.from == cur.from && e.to == cur.to
                && (e.label, props_map(e.properties)) == apply_ops_spec((cur.label, props_map(cur.properties)), ops_view(self.changes.ops@))),
    {
        let EdgeMut { txn, id, changes } = self;
        txn.apply_edge_changes(id, &changes.ops, true)
    }
}

/// `f` and the queued inserts `q` are a node's change: some property list `ps` and
/// contents `mid` with the node re-indexed from `cur` into `mid`, and its new record
/// stored over `mid`.
pub open spec fn node_change_done(
    m: StoreView,
    f: StoreView,
    q: Seq<crate::index::vector::VectorInsertView>,
    inf: bool,
    id: NodeId,
    cur: NodeView,
    ops: Seq<MutOpView>,
    reg: Set<(Seq<char>, Seq<char>)>,
) -> bool {
    exists|ps: PropsView, mid: StoreView|
        #[trigger] node_changed(m, f, mid, cur, ps, id, ops) && crate::index::maintain::node_reindexed(
            m,
            mid,
            q,
            inf,
            cur.label,
            apply_ops_spec((cur.label, props_map(cur.properties)), ops).0,
            id,
            cur.properties,
            ps,
            reg,
        )
}

/// `f` is an edge's change from `cur`, for some new property list.
pub open spec fn edge_change_done(
    m: StoreView,
    f: StoreView,
    id: EdgeId,
    cur: EdgeView,
    ops: Seq<MutOpView>,
    reg: Set<(Seq<char>, Seq<char>)>,
) -> bool {
    exists|ps: PropsView| #[trigger] edge_changed(m, f, cur, ps, id, ops, reg)
}

/// `f` is a node's change: its new label and property list `ps` are what the changes make
/// of `cur`, its names each once in order and storable, and `f` is `mid` with its new
/// record.
pub open spec fn node_changed(
    m: StoreView,
    f: StoreView,
    mid: StoreView,
    cur: NodeView,
    ps: PropsView,
    id: NodeId,
    ops: Seq<MutOpView>,
) -> bool {
    let (label, map) = apply_ops_spec((cur.label, props_map(cur.properties)), ops);
    &&& distinct_names(ps)
    &&& crate::props::names_sorted(ps)
    &&& props_map(ps) == map
    &&& storable(label, ps)
    &&& f == mid.insert((Db::Nodes, be64(id)), node_record(NodeView { id, label, properties: ps }))
}

/// `f` is an edge's change: its new label and property list `ps` are what the changes
/// make of `cur`; its adjacency entries move where the label changes, its property keys
/// move, and its new record is stored.
pub open spec fn edge_changed(
    m: StoreView,
    f: StoreView,
    cur: EdgeView,
    ps: PropsView,
    id: EdgeId,
    ops: Seq<MutOpView>,
    reg: Set<(Seq<char>, Seq<char>)>,
) -> bool {
    let (label, map) = apply_ops_spec((cur.label, props_map(cur.properties)), ops);
    let updated = EdgeView { id, from: cur.from, to: cur.to, label, properties: ps };
    let moved = if label != cur.label {
        adjacency_inserted(
            adjacency_removed(m, cur.from, cur.to, encode_utf8(cur.label), id),
            cur.from,
            cur.to,
            encode_utf8(label),
            id,
        )
    } else {
        m
    };
    &&& distinct_names(ps)
    &&& crate::props::names_sorted(ps)
    &&& props_map(ps) == map
    &&& storable(label, ps)
    &&& f == crate::index::property_indexes::edge_rekeyed(moved, reg, cur, updated).insert(
        (Db::Edges, be64(id)),
        edge_record(updated),
    )
}

/// Node ids count up: where one node is added and then another, the second gets the id
/// after the first, unless that is the largest number.
pub proof fn law_added_nodes_count_up(
    m: StoreView,
    f: StoreView,
    g: StoreView,
    id1: NodeId,
    id2: NodeId,
    l1: Seq<char>,
    l2: Seq<char>,
    ps1: PropsView,
    ps2: PropsView,
    reg1: Set<(Seq<char>, Seq<char>)>,
    reg2: Set<(Seq<char>, Seq<char>)>,
)
    requires
        node_added(m, f, id1, l1, ps1, reg1),
        node_added(f, g, id2, l2, ps2, reg2),
        id1 + 1 < u64::MAX,
    ensures
        id2 == id1 + 1,
{
    let key = next_node_id_key();
    let (a, m1) = id_allocation(m, key).unwrap();
    let m2 = m1.insert((Db::Nodes, be64(id1)), node_record(NodeView { id: id1, label: l1, properties: ps1 }));
    let m3 = m2.insert((Db::Labels, crate::index::labels::label_key(encode_utf8(l1), id1)), Seq::empty());
    crate::storage::bulk::lemma_put_keys(
        m3,
        Db::Properties,
        prop_keys(NODE_TAG, reg1, l1, id1, ps1, None),
        (Db::Metadata, key),
    );
    assert(lookup(f, Db::Metadata, key) == lookup(m1, Db::Metadata, key));
    crate::storage::ids::law_ids_count_up(m, key);
}

} // verus!
