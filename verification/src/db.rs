use vstd::prelude::*;
use vstd::string::StringSliceAdditionalSpecFns;

use crate::config::Config;
use crate::edge::{Edge, EdgeView};
use crate::error::HelixiteError;
use crate::id::{EdgeId, NodeId};
use crate::index::codec::be64;
use crate::index::properties::{registered_pairs, EDGE_TAG, NODE_TAG};
use crate::index::vector::hnsw::vector_levels_wf;
use crate::mutation::{ops_view, Changes, MutOp, MutOpView};
use crate::node::{Node, NodeView};
use crate::props::{props_map, props_view};
use crate::storage::engine::{lookup, Db, ReadTxn as StoreRead, StorageEngine, StoreView, WriteTxn as StoreWrite};
use crate::index::vector::{inserts_view, VectorInsert};
use crate::storage::ids::{id_allocation, next_edge_id_key, next_node_id_key};
use crate::txn::{
    dims_ok_map, edge_added, edge_change_done, edge_change_ok, edge_erased, edge_storable, edges_sound, node_change_done,
    node_change_ok, node_deleted, node_storable, storable_map, stored_edge, stored_node, ReadTxn, WriteTxn,
};
use crate::value::Value;

verus! {

/// The store `s` holds exactly the contents `t` of a committed transaction: its writes
/// and its deletions.
pub open spec fn committed(t: StoreView, s: StoreView) -> bool {
    s == t
}

/// The edge stored under `id` in `m` reads, with these ends, label and properties.
pub open spec fn edge_is(m: StoreView, id: EdgeId, from: NodeId, to: NodeId, label: Seq<char>, props: Map<Seq<char>, crate::value::ValueView>) -> bool {
    match stored_edge(m, id) {
        Some(e) => e.id == id && e.from == from && e.to == to && e.label == label && props_map(e.properties) == props,
        None => false,
    }
}

/// What a committed transaction stored reads back from the store: its nodes and edges.
pub proof fn law_committed_reads(t: StoreView, s: StoreView, node: NodeId, edge: EdgeId)
    requires
        committed(t, s),
    ensures
        stored_node(t, node) is Some ==> stored_node(s, node) == stored_node(t, node),
        stored_edge(t, edge) is Some ==> stored_edge(s, edge) == stored_edge(t, edge),
{
    if stored_node(t, node) is Some {
        assert(t.contains_key((Db::Nodes, be64(node))));
    }
    if stored_edge(t, edge) is Some {
        assert(t.contains_key((Db::Edges, be64(edge))));
    }
}

/// `t` is what adding the edge `id` from `from` to `to` with `label` and the properties
/// `props` (as pairs, a later pair winning) leaves of `m`.
pub open spec fn edge_added_into(m: StoreView, t: StoreView, id: EdgeId, from: NodeId, to: NodeId, label: Seq<char>, props: Seq<(String, Value)>) -> bool {
    exists|ps: crate::props::PropsView|
        #[trigger] crate::props::distinct_names(ps) && props_map(ps) == props_map(props_view(props)) && edge_added(
            m,
            t,
            id,
            from,
            to,
            label,
            ps,
            registered_pairs(m, seq![EDGE_TAG]),
        )
}

/// `t` is what deleting the edge stored under `id` leaves of `m`.
pub open spec fn edge_deleted_into(m: StoreView, t: StoreView, id: EdgeId) -> bool {
    match stored_edge(m, id) {
        Some(e) => t == edge_erased(m, registered_pairs(m, seq![EDGE_TAG]), e),
        None => false,
    }
}

/// `t` is what deleting the node stored under `id` leaves of `m`.
pub open spec fn node_deleted_into(m: StoreView, t: StoreView, inf: bool, id: NodeId) -> bool {
    match stored_node(m, id) {
        Some(n) => node_deleted(m, t, inf, id, n, registered_pairs(m, seq![NODE_TAG]), registered_pairs(m, seq![EDGE_TAG])),
        None => false,
    }
}

/// `t` is what applying the changes `ops` to the edge stored under `id` leaves of `m`.
pub open spec fn edge_changed_into(m: StoreView, t: StoreView, id: EdgeId, ops: Seq<MutOpView>) -> bool {
    match stored_edge(m, id) {
        Some(cur) => edge_change_done(m, t, id, cur, ops, registered_pairs(m, seq![EDGE_TAG])),
        None => false,
    }
}

/// A graph database over a storage engine.
pub struct Helixite<S: StorageEngine> {
    path: String,
    storage: S,
}

impl<S: StorageEngine> Helixite<S> {
    /// What the database holds.
    pub closed spec fn contents(&self) -> StoreView {
        self.storage.contents()
    }

    /// The path the database was opened at.
    pub closed spec fn location(&self) -> Seq<char> {
        self.path@
    }

    /// The engine the database runs on.
    pub closed spec fn engine(&self) -> S {
        self.storage
    }

    /// A database at `path` over `storage`.
    pub fn new(path: String, storage: S) -> (r: Self)
        ensures
            r.contents() == storage.contents(),
            r.engine() == storage,
            r.location() == path@,
    {
        Helixite { path, storage }
    }

    /// The path the database was opened at.
    pub fn path(&self) -> (r: &str)
        ensures
            r@ == self.location(),
    {
        self.path.as_str()
    }

    /// The engine the database runs on.
    pub fn storage(&self) -> (r: &S)
        ensures
            *r == self.engine(),
    {
        &self.storage
    }

    /// The engine the database runs on, for running a transaction on it directly.
    pub fn storage_mut(&mut self) -> (r: &mut S)
        ensures
            *r == old(self).engine(),
            final(self).engine() == *final(r),
            final(self).location() == old(self).location(),
    {
        &mut self.storage
    }

    /// The node stored under `id`, read in a transaction of its own.
    pub fn get_node(&self, id: NodeId) -> (r: Result<Node, HelixiteError>)
        ensures
            r matches Ok(n) ==> stored_node(self.contents(), id) == Some(n@),
            r matches Ok(n) ==> crate::props::names_sorted(n@.properties),
            self.engine().reliable() && stored_node(self.contents(), id) is Some ==> r is Ok,
            self.engine().reliable() && lookup(self.contents(), Db::Nodes, be64(id)) is None
                ==> r == Err::<Node, HelixiteError>(HelixiteError::NodeNotFound(id)),
            self.engine().reliable() && lookup(self.contents(), Db::Nodes, be64(id)) is Some && stored_node(self.contents(), id) is None
                ==> (r matches Err(HelixiteError::Codec(msg)) && msg@ == "malformed node record"@),
    {
        let txn = ReadTxn::new(self.storage.read_txn()?);
        txn.get_node(id)
    }

    /// The edge stored under `id`, read in a transaction of its own.
    pub fn get_edge(&self, id: EdgeId) -> (r: Result<Edge, HelixiteError>)
        ensures
            r matches Ok(e) ==> stored_edge(self.contents(), id) == Some(e@),
            r matches Ok(e) ==> crate::props::names_sorted(e@.properties),
            self.engine().reliable() && stored_edge(self.contents(), id) is Some ==> r is Ok,
            self.engine().reliable() && lookup(self.contents(), Db::Edges, be64(id)) is None
                ==> r == Err::<Edge, HelixiteError>(HelixiteError::EdgeNotFound(id)),
            self.engine().reliable() && lookup(self.contents(), Db::Edges, be64(id)) is Some && stored_edge(self.contents(), id) is None
                ==> (r matches Err(HelixiteError::Codec(msg)) && msg@ == "malformed edge record"@),
    {
        let txn = ReadTxn::new(self.storage.read_txn()?);
        txn.get_edge(id)
    }

    /// Adds an edge in a transaction of its own, committed where it succeeds.
    pub fn add_edge(&mut self, from: NodeId, to: NodeId, label: String, properties: Vec<(String, Value)>) -> (r: Result<EdgeId, HelixiteError>)
        ensures
            final(self).location() == old(self).location(),
            old(self).engine().reliable() ==> final(self).engine().reliable(),
            r is Err ==> final(self).contents() == old(self).contents(),
            r matches Ok(id) ==> edge_is(final(self).contents(), id, from, to, label@, props_map(props_view(properties@))),
            r matches Ok(id) ==> exists|t: StoreView|
                #[trigger] committed(t, final(self).contents()) && edge_added_into(old(self).contents(), t, id, from, to, label@, properties@),
            old(self).engine().reliable() && lookup(old(self).contents(), Db::Nodes, be64(from)) is None
                ==> r == Err::<EdgeId, HelixiteError>(HelixiteError::NodeNotFound(from)),
            old(self).engine().reliable() && lookup(old(self).contents(), Db::Nodes, be64(from)) is Some
                && lookup(old(self).contents(), Db::Nodes, be64(to)) is None ==> r == Err::<EdgeId, HelixiteError>(HelixiteError::NodeNotFound(to)),
            old(self).engine().reliable() && lookup(old(self).contents(), Db::Nodes, be64(from)) is Some
                && lookup(old(self).contents(), Db::Nodes, be64(to)) is Some && !storable_map(label@, props_map(props_view(properties@)))
                ==> (r matches Err(HelixiteError::Storage(msg)) && msg@ == "label or property too large to store"@),
            old(self).engine().reliable() && lookup(old(self).contents(), Db::Nodes, be64(from)) is Some
                && lookup(old(self).contents(), Db::Nodes, be64(to)) is Some && storable_map(label@, props_map(props_view(properties@)))
                && id_allocation(old(self).contents(), next_edge_id_key()) is Some ==> r is Ok,
    {
        let ghost input = props_view(properties@);
        let mut txn = WriteTxn::new(self.storage.write_txn()?);
        let id = txn.add_edge(from, to, label, properties)?;
        let inner = txn.into_inner();
        let ghost t = inner.contents();
        assert(edge_added_into(old(self).contents(), t, id, from, to, label@, properties@));
        self.storage.commit(inner)?;
        proof {
            assert(committed(t, self.storage.contents()));
            assert(committed(t, self.contents()));
            assert(t.contains_key((Db::Edges, be64(id))));
            assert(lookup(self.storage.contents(), Db::Edges, be64(id)) == lookup(t, Db::Edges, be64(id)));
        }
        Ok(id)
    }

    /// Deletes an edge in a transaction of its own, committed where it succeeds.
    pub fn delete_edge(&mut self, id: EdgeId) -> (r: Result<(), HelixiteError>)
        ensures
            final(self).location() == old(self).location(),
            old(self).engine().reliable() ==> final(self).engine().reliable(),
            r is Err ==> final(self).contents() == old(self).contents(),
            r is Ok ==> exists|t: StoreView|
                #[trigger] committed(t, final(self).engine().contents()) && edge_deleted_into(old(self).engine().contents(), t, id),
            old(self).engine().reliable() && lookup(old(self).contents(), Db::Edges, be64(id)) is None
                ==> r == Err::<(), HelixiteError>(HelixiteError::EdgeNotFound(id)),
            old(self).engine().reliable() && lookup(old(self).contents(), Db::Edges, be64(id)) is Some && stored_edge(old(self).contents(), id) is None
                ==> (r matches Err(HelixiteError::Codec(msg)) && msg@ == "malformed edge record"@),
            old(self).engine().reliable() && stored_edge(old(self).contents(), id) is Some
                ==> (r is Ok <==> edge_storable(old(self).contents(), id)),
    {
        let mut txn = WriteTxn::new(self.storage.write_txn()?);
        txn.delete_edge(id)?;
        let inner = txn.into_inner();
        let ghost t = inner.contents();
        assert(edge_deleted_into(old(self).engine().contents(), t, id));
        self.storage.commit(inner)?;
        assert(committed(t, self.storage.contents()));
        assert(committed(t, self.engine().contents()));
        assert(exists|x: StoreView| #[trigger] committed(x, self.engine().contents()) && edge_deleted_into(old(self).engine().contents(), x, id));
        Ok(())
    }

    /// Deletes a node, with its edges and index entries, in a transaction of its own,
    /// committed where it succeeds.
    pub fn delete_node(&mut self, id: NodeId) -> (r: Result<(), HelixiteError>)
        requires
            vector_levels_wf(old(self).contents()),
        ensures
            final(self).location() == old(self).location(),
            old(self).engine().reliable() ==> final(self).engine().reliable(),
            r is Err ==> final(self).contents() == old(self).contents(),
            r is Ok ==> exists|t: StoreView, inf: bool|
                #[trigger] committed(t, final(self).engine().contents()) && #[trigger] node_deleted_into(old(self).engine().contents(), t, inf, id),
            old(self).engine().reliable() && lookup(old(self).contents(), Db::Nodes, be64(id)) is None
                ==> r == Err::<(), HelixiteError>(HelixiteError::NodeNotFound(id)),
            old(self).engine().reliable() && lookup(old(self).contents(), Db::Nodes, be64(id)) is Some && stored_node(old(self).contents(), id) is None
                ==> (r matches Err(HelixiteError::Codec(msg)) && msg@ == "malformed node record"@),
            old(self).engine().reliable() && stored_node(old(self).contents(), id) is Some && !node_storable(old(self).contents(), id)
                ==> (r matches Err(HelixiteError::Storage(msg)) && msg@ == "label or property too large to store"@),
            old(self).engine().reliable() && edges_sound(old(self).contents()) && node_storable(old(self).contents(), id) ==> r is Ok,
    {
        let mut txn = WriteTxn::new(self.storage.write_txn()?);
        let ghost inf = txn.infallible();
        txn.delete_node(id)?;
        let inner = txn.into_inner();
        let ghost t = inner.contents();
        assert(node_deleted_into(old(self).engine().contents(), t, inf, id));
        self.storage.commit(inner)?;
        assert(committed(t, self.storage.contents()));
        assert(committed(t, self.engine().contents()));
        assert(exists|x: StoreView, b: bool| #[trigger] committed(x, self.engine().contents()) && #[trigger] node_deleted_into(old(self).engine().contents(), x, b, id));
        Ok(())
    }

    /// Changes to the edge stored under `id`, to be applied together.
    pub fn edge_mut(&mut self, id: EdgeId) -> (r: EdgeCommand<'_, S>)
        ensures
            r.id == id,
            ops_view(r.changes.ops@) == Seq::<MutOpView>::empty(),
            *r.db == *old(self),
            *final(self) == *final(r.db),
    {
        EdgeCommand { db: self, id, changes: Changes::new() }
    }

    /// Adds a node with `label` and the properties given as pairs (a later pair wins over
    /// an earlier one of the same name) in a write transaction of its own, and gives it
    /// back, uncommitted, with the node's id and the inserts of its vectors into their
    /// indexes: those are made in it before it is committed.
    pub fn add_node(&mut self, label: String, properties: Vec<(String, Value)>) -> (r: Result<(S::Txn, NodeId, Vec<VectorInsert>), HelixiteError>)
        ensures
            *final(self) == *old(self),
            r matches Ok((t, id, _)) ==> stored_node(t.contents(), id) matches Some(n) && n.id == id
                && n.label == label@ && props_map(n.properties) == props_map(props_view(properties@)),
            r matches Ok((t, id, ins)) ==> exists|ps: crate::props::PropsView|
                #[trigger] crate::props::distinct_names(ps) && props_map(ps) == props_map(props_view(properties@))
                    && crate::txn::node_added(
                    old(self).contents(),
                    t.contents(),
                    id,
                    label@,
                    ps,
                    registered_pairs(old(self).contents(), seq![NODE_TAG]),
                ) && (t.infallible() ==> inserts_view(ins@) == crate::index::maintain::pending(t.contents(), label@, id, ps)),
            old(self).engine().reliable() && !storable_map(label@, props_map(props_view(properties@)))
                ==> (r matches Err(HelixiteError::Storage(msg)) && msg@ == "label or property too large to store"@),
            old(self).engine().reliable() && storable_map(label@, props_map(props_view(properties@)))
                && dims_ok_map(old(self).contents(), label@, props_map(props_view(properties@)))
                && id_allocation(old(self).contents(), next_node_id_key()) is Some ==> r is Ok,
            old(self).engine().reliable() && storable_map(label@, props_map(props_view(properties@)))
                && !dims_ok_map(old(self).contents(), label@, props_map(props_view(properties@)))
                ==> r matches Err(HelixiteError::InvalidVectorDim { .. }),
    {
        let mut txn = WriteTxn::new(self.storage.write_txn()?);
        let (id, ins) = txn.add_node(label, properties)?;
        Ok((txn.into_inner(), id, ins))
    }

    /// Creates the vector index of (label, property), as the index manager does: gives
    /// back its write transaction, uncommitted, with the inserts of the label's vectors.
    pub fn create_vector_index(&mut self, label: &str, property: &str, dimension: usize, config: crate::index::vector::HnswConfig) -> (r: Result<(S::Txn, Vec<VectorInsert>), HelixiteError>)
        requires
            crate::index::labels::fits(label),
            crate::index::labels::fits(property),
        ensures
            *final(self) == *old(self),
            config.similarity == crate::index::vector::similarity::SimilarityKind::Custom ==> (r matches Err(HelixiteError::Codec(msg))
                && msg@ == "custom similarity cannot be used with persisted indexes"@),
            r matches Ok((t, ins)) ==> crate::index::vector::index_created(old(self).contents(), t.contents(), ins@, label@, property@, dimension, config),
            old(self).engine().reliable() && config.similarity != crate::index::vector::similarity::SimilarityKind::Custom
                && !crate::index::vector::has_meta(old(self).contents(), label@, property@)
                && crate::index::property_indexes::labeled_records_read(old(self).contents(), label@) ==> r is Ok,
            old(self).engine().reliable() && config.similarity != crate::index::vector::similarity::SimilarityKind::Custom
                && crate::index::vector::has_meta(old(self).contents(), label@, property@) ==> (r matches Err(HelixiteError::DuplicateKey(msg))
                && msg@ == "vector index "@ + label@ + "::"@ + property@ + " already exists"@),
    {
        VectorIndexManager { storage: &mut self.storage }.create(label, property, dimension, config)
    }

    /// Changes to the node stored under `id`, applied together.
    pub fn node_mut(&mut self, id: NodeId) -> (r: NodeCommand<'_, S>)
        ensures
            r.id == id,
            ops_view(r.changes.ops@) == Seq::<MutOpView>::empty(),
            *r.db == *old(self),
            *final(self) == *final(r.db),
    {
        NodeCommand { db: self, id, changes: Changes::new() }
    }

    /// Queries that start at the node `id`.
    pub fn node(&self, id: NodeId) -> (r: crate::query::single::NodeRefQuery<'_, S>)
        ensures
            *r.storage == self.engine(),
            r.node_id == id,
    {
        crate::query::single::NodeRefQuery::new(&self.storage, id)
    }

    /// A query over the nodes of the database, matching every node until narrowed.
    pub fn nodes(&self) -> (r: crate::query::nodes::NodeQuery<'_, S>)
        ensures
            *r.storage == self.engine(),
            r.label is None,
            r.filters@.len() == 0,
    {
        crate::query::nodes::NodeQuery::new(&self.storage)
    }

    /// The index management of the database.
    pub fn indexes(&mut self) -> (r: IndexManager<'_, S>)
        ensures
            *r.storage == old(self).engine(),
            final(self).engine() == *final(r.storage),
            final(self).location() == old(self).location(),
    {
        IndexManager { storage: &mut self.storage }
    }
}

/// Changes to one edge, applied together in a transaction of their own.
pub struct EdgeCommand<'a, S: StorageEngine> {
    pub db: &'a mut Helixite<S>,
    pub id: EdgeId,
    pub changes: Changes,
}

impl<'a, S: StorageEngine> EdgeCommand<'a, S> {
    /// Also sets the label.
    pub fn set_label(self, label: String) -> (r: Self)
        ensures
            r.id == self.id,
            *r.db == *old(self.db),
            *final(r.db) == *final(self.db),
            ops_view(r.changes.ops@) == ops_view(self.changes.ops@).push(MutOpView::SetLabel(label@)),
    {
        let EdgeCommand { db, id, changes } = self;
        EdgeCommand { db, id, changes: changes.push(MutOp::SetLabel(label)) }
    }

    /// Also sets a property.
    pub fn set_property(self, key: String, value: Value) -> (r: Self)
        ensures
            r.id == self.id,
            *r.db == *old(self.db),
            *final(r.db) == *final(self.db),
            ops_view(r.changes.ops@) == ops_view(self.changes.ops@).push(MutOpView::SetProperty(key@, value@)),
    {
        let EdgeCommand { db, id, changes } = self;
        EdgeCommand { db, id, changes: changes.push(MutOp::SetProperty(key, value)) }
    }

    /// Also removes a property.
    pub fn remove_property(self, key: String) -> (r: Self)
        ensures
            r.id == self.id,
            *r.db == *old(self.db),
            *final(r.db) == *final(self.db),
            ops_view(r.changes.ops@) == ops_view(self.changes.ops@).push(MutOpView::RemoveProperty(key@)),
    {
        let EdgeCommand { db, id, changes } = self;
        EdgeCommand { db, id, changes: changes.push(MutOp::RemoveProperty(key)) }
    }

    /// Also replaces every property by the given pairs.
    pub fn replace_properties(self, properties: Vec<(String, Value)>) -> (r: Self)
        ensures
            r.id == self.id,
            *r.db == *old(self.db),
            *final(r.db) == *final(self.db),
            ops_view(r.changes.ops@) == ops_view(self.changes.ops@).push(
                MutOpView::ReplaceProperties(props_view(properties@)),
            ),
    {
        let EdgeCommand { db, id, changes } = self;
        EdgeCommand { db, id, changes: changes.push(MutOp::ReplaceProperties(properties)) }
    }

    /// Applies the changes in a transaction of their own, committed where it succeeds.
    pub fn apply(self) -> (r: Result<(), HelixiteError>)
        ensures
            final(self.db).location() == old(self.db).location(),
            old(self.db).engine().reliable() ==> final(self.db).engine().reliable(),
            r is Err ==> final(self.db).contents() == old(self.db).contents(),
            r is Ok ==> (stored_edge(old(self.db).contents(), self.id) matches Some(cur) && stored_edge(final(self.db).contents(), self.id) matches Some(e)
                && e.id == self.id && e.from == cur.from && e.to == cur.to
                && (e.label, props_map(e.properties)) == crate::mutation::apply_ops_spec((cur.label, props_map(cur.properties)), ops_view(self.changes.ops@))),
            r is Ok ==> exists|t: StoreView|
                #[trigger] committed(t, final(self.db).engine().contents()) && edge_changed_into(old(self.db).engine().contents(), t, self.id, ops_view(self.changes.ops@)),
            old(self.db).engine().reliable() && lookup(old(self.db).contents(), Db::Edges, be64(self.id)) is None
                ==> (r matches Err(HelixiteError::EdgeNotFound(x)) && x == self.id),
            old(self.db).engine().reliable() && edge_change_ok(old(self.db).contents(), self.id, ops_view(self.changes.ops@), false) ==> r is Ok,
    {
        let ghost m0 = self.db.engine().contents();
        let EdgeCommand { db, id, changes } = self;
        let mut txn = WriteTxn::new(db.storage.write_txn()?);
        txn.apply_edge_changes(id, &changes.ops, false)?;
        let inner = txn.into_inner();
        let ghost t = inner.contents();
        assert(edge_changed_into(m0, t, id, ops_view(changes.ops@)));
        db.storage.commit(inner)?;
        assert(committed(t, db.storage.contents()));
        assert(committed(t, db.engine().contents()));
        assert(exists|x: StoreView| #[trigger] committed(x, db.engine().contents()) && edge_changed_into(m0, x, id, ops_view(changes.ops@)));
        Ok(())
    }
}

/// Changes to one node, applied together in a transaction of their own.
pub struct NodeCommand<'a, S: StorageEngine> {
    pub db: &'a mut Helixite<S>,
    pub id: NodeId,
    pub changes: Changes,
}

/// `t` with the queued inserts `q` is what applying the changes `ops` to the node stored
/// under `id` leaves of `m`.
pub open spec fn node_changed_into(m: StoreView, t: StoreView, q: Seq<crate::index::vector::VectorInsertView>, inf: bool, id: NodeId, ops: Seq<MutOpView>) -> bool {
    match stored_node(m, id) {
        Some(cur) => node_change_done(m, t, q, inf, id, cur, ops, registered_pairs(m, seq![NODE_TAG])),
        None => false,
    }
}

impl<'a, S: StorageEngine> NodeCommand<'a, S> {
    /// Also sets the label.
    pub fn set_label(self, label: String) -> (r: Self)
        ensures
            r.id == self.id,
            *r.db == *old(self.db),
            *final(r.db) == *final(self.db),
            ops_view(r.changes.ops@) == ops_view(self.changes.ops@).push(MutOpView::SetLabel(label@)),
    {
        let NodeCommand { db, id, changes } = self;
        NodeCommand { db, id, changes: changes.push(MutOp::SetLabel(label)) }
    }

    /// Also sets a property.
    pub fn set_property(self, key: String, value: Value) -> (r: Self)
        ensures
            r.id == self.id,
            *r.db == *old(self.db),
            *final(r.db) == *final(self.db),
            ops_view(r.changes.ops@) == ops_view(self.changes.ops@).push(MutOpView::SetProperty(key@, value@)),
    {
        let NodeCommand { db, id, changes } = self;
        NodeCommand { db, id, changes: changes.push(MutOp::SetProperty(key, value)) }
    }

    /// Also removes a property.
    pub fn remove_property(self, key: String) -> (r: Self)
        ensures
            r.id == self.id,
            *r.db == *old(self.db),
            *final(r.db) == *final(self.db),
            ops_view(r.changes.ops@) == ops_view(self.changes.ops@).push(MutOpView::RemoveProperty(key@)),
    {
        let NodeCommand { db, id, changes } = self;
        NodeCommand { db, id, changes: changes.push(MutOp::RemoveProperty(key)) }
    }

    /// Also replaces every property by the given pairs.
    pub fn replace_properties(self, properties: Vec<(String, Value)>) -> (r: Self)
        ensures
            r.id == self.id,
            *r.db == *old(self.db),
            *final(r.db) == *final(self.db),
            ops_view(r.changes.ops@) == ops_view(self.changes.ops@).push(
                MutOpView::ReplaceProperties(props_view(properties@)),
            ),
    {
        let NodeCommand { db, id, changes } = self;
        NodeCommand { db, id, changes: changes.push(MutOp::ReplaceProperties(properties)) }
    }

    /// Applies the changes in a write transaction of their own and gives it back,
    /// uncommitted, with the inserts of the node's changed vectors into their indexes:
    /// those are made in it before it is committed.
    pub fn apply(self) -> (r: Result<(S::Txn, Vec<VectorInsert>), HelixiteError>)
        requires
            vector_levels_wf(self.db.contents()),
        ensures
            *final(self.db) == *old(self.db),
            r matches Ok((t, ins)) ==> node_changed_into(old(self.db).contents(), t.contents(), inserts_view(ins@), t.infallible(), self.id, ops_view(self.changes.ops@)),
            r matches Ok((t, _)) ==> (stored_node(old(self.db).contents(), self.id) matches Some(cur) && stored_node(t.contents(), self.id) matches Some(n)
                && n.id == self.id && (n.label, props_map(n.properties)) == crate::mutation::apply_ops_spec((cur.label, props_map(cur.properties)), ops_view(self.changes.ops@))),
            old(self.db).engine().reliable() && lookup(old(self.db).contents(), Db::Nodes, be64(self.id)) is None
                ==> (r matches Err(HelixiteError::NodeNotFound(x)) && x == self.id),
            old(self.db).engine().reliable() && node_change_ok(old(self.db).contents(), self.id, ops_view(self.changes.ops@)) ==> r is Ok,
    {
        let NodeCommand { db, id, changes } = self;
        let mut txn = WriteTxn::new(db.storage.write_txn()?);
        let ins = txn.apply_node_changes(id, &changes.ops)?;
        let inner = txn.into_inner();
        Ok((inner, ins))
    }
}

/// Changes to one node of a database, applied together.
pub type NodeMutation<'a, S> = NodeCommand<'a, S>;

/// Changes to one node of a database, applied together.
pub type NodeMutBuilder<'a, S> = NodeCommand<'a, S>;

/// Changes to one edge of a database, applied together.
pub type EdgeMutation<'a, S> = EdgeCommand<'a, S>;

/// Changes to one edge of a database, applied together.
pub type EdgeMutBuilder<'a, S> = EdgeCommand<'a, S>;

/// Creates and drops the indexes of a database.
pub struct IndexManager<'a, S: StorageEngine> {
    pub storage: &'a mut S,
}

/// Drops vector indexes.
pub struct VectorIndexManager<'a, S: StorageEngine> {
    pub storage: &'a mut S,
}

/// Creates and drops node property indexes.
pub struct NodeIndexManager<'a, S: StorageEngine> {
    pub storage: &'a mut S,
}

/// Creates and drops edge property indexes.
pub struct EdgeIndexManager<'a, S: StorageEngine> {
    pub storage: &'a mut S,
}

impl<'a, S: StorageEngine> IndexManager<'a, S> {
    /// Index management over `storage`.
    pub fn new(storage: &'a mut S) -> (r: Self)
        ensures
            *r.storage == *old(storage),
            *final(storage) == *final(r.storage),
    {
        IndexManager { storage }
    }

    /// The management of vector indexes.
    pub fn vectors(self) -> (r: VectorIndexManager<'a, S>)
        ensures
            *r.storage == *old(self.storage),
            *final(r.storage) == *final(self.storage),
    {
        VectorIndexManager { storage: self.storage }
    }

    /// The management of node property indexes.
    pub fn nodes(self) -> (r: NodeIndexManager<'a, S>)
        ensures
            *r.storage == *old(self.storage),
            *final(r.storage) == *final(self.storage),
    {
        NodeIndexManager { storage: self.storage }
    }

    /// The management of edge property indexes.
    pub fn edges(self) -> (r: EdgeIndexManager<'a, S>)
        ensures
            *r.storage == *old(self.storage),
            *final(r.storage) == *final(self.storage),
    {
        EdgeIndexManager { storage: self.storage }
    }
}

impl<'a, S: StorageEngine> VectorIndexManager<'a, S> {
    /// Creates the vector index of (label, property) in a write transaction of its own
    /// and gives it back, uncommitted, with the inserts that bring the label's nodes
    /// holding a vector under the property into the index: those are made in it before
    /// it is committed.
    pub fn create(self, label: &str, property: &str, dimension: usize, config: crate::index::vector::HnswConfig) -> (r: Result<(S::Txn, Vec<VectorInsert>), HelixiteError>)
        requires
            crate::index::labels::fits(label),
            crate::index::labels::fits(property),
        ensures
            *final(self.storage) == *old(self.storage),
            config.similarity == crate::index::vector::similarity::SimilarityKind::Custom ==> (r matches Err(HelixiteError::Codec(msg))
                && msg@ == "custom similarity cannot be used with persisted indexes"@),
            r matches Ok((t, ins)) ==> crate::index::vector::index_created(old(self.storage).contents(), t.contents(), ins@, label@, property@, dimension, config),
            old(self.storage).reliable() && config.similarity != crate::index::vector::similarity::SimilarityKind::Custom
                && !crate::index::vector::has_meta(old(self.storage).contents(), label@, property@)
                && crate::index::property_indexes::labeled_records_read(old(self.storage).contents(), label@) ==> r is Ok,
            old(self.storage).reliable() && config.similarity != crate::index::vector::similarity::SimilarityKind::Custom
                && crate::index::vector::has_meta(old(self.storage).contents(), label@, property@) ==> (r matches Err(HelixiteError::DuplicateKey(msg))
                && msg@ == "vector index "@ + label@ + "::"@ + property@ + " already exists"@),
    {
        if config.similarity == crate::index::vector::similarity::SimilarityKind::Custom {
            return Err(HelixiteError::Codec("custom similarity cannot be used with persisted indexes".to_owned()));
        }
        let mut txn = self.storage.write_txn()?;
        let ins = crate::index::vector::VectorIndex::create(&mut txn, label, property, dimension, config)?;
        Ok((txn, ins))
    }

    /// Drops the vector index of (label, property) in a transaction of its own,
    /// committed where it succeeds.
    pub fn drop(self, label: &str, property: &str) -> (r: Result<(), HelixiteError>)
        requires
            crate::index::labels::fits(label),
            crate::index::labels::fits(property),
        ensures
            r is Err ==> final(self.storage).contents() == old(self.storage).contents(),
            old(self.storage).reliable() ==> final(self.storage).reliable(),
            old(self.storage).reliable() && crate::index::vector::has_meta(old(self.storage).contents(), label@, property@) ==> r is Ok,
            old(self.storage).reliable() && !crate::index::vector::has_meta(old(self.storage).contents(), label@, property@)
                ==> (r matches Err(HelixiteError::IndexNotFound(msg)) && msg@ == "vector index "@ + label@ + "::"@ + property@),
            r is Ok ==> exists|t: StoreView|
                #[trigger] committed(t, final(self.storage).contents()) && t
                    == crate::index::vector::index_dropped(old(self.storage).contents(), label.spec_bytes(), property.spec_bytes()),
    {
        let mut txn = self.storage.write_txn()?;
        crate::index::vector::VectorIndex::drop(&mut txn, label, property)?;
        let ghost t = txn.contents();
        self.storage.commit(txn)?;
        assert(committed(t, self.storage.contents()));
        Ok(())
    }
}

impl<'a, S: StorageEngine> NodeIndexManager<'a, S> {
    /// Creates the node property index of (label, property) in a transaction of its
    /// own, committed where it succeeds.
    pub fn create_property(self, label: &str, property: &str) -> (r: Result<(), HelixiteError>)
        requires
            crate::index::labels::fits(label),
            crate::index::labels::fits(property),
        ensures
            r is Err ==> final(self.storage).contents() == old(self.storage).contents(),
            old(self.storage).reliable() ==> final(self.storage).reliable(),
            old(self.storage).reliable() && !crate::index::property_indexes::node_label_used(old(self.storage).contents(), label@)
                ==> (r matches Err(HelixiteError::LabelNotFound(l)) && l@ == label@),
            old(self.storage).reliable() && crate::index::property_indexes::node_label_used(old(self.storage).contents(), label@)
                && old(self.storage).contents().contains_key((Db::Metadata, crate::index::properties::registration_key(NODE_TAG, label.spec_bytes(), property.spec_bytes())))
                ==> (r matches Err(HelixiteError::DuplicateKey(msg)) && msg@ == "node property index "@ + label@ + "::"@ + property@ + " already exists"@),
            old(self.storage).reliable() && crate::index::property_indexes::node_label_used(old(self.storage).contents(), label@)
                && !old(self.storage).contents().contains_key((Db::Metadata, crate::index::properties::registration_key(NODE_TAG, label.spec_bytes(), property.spec_bytes())))
                && crate::index::property_indexes::node_backfill_ok(old(self.storage).contents(), label@, property@) ==> r is Ok,
            r is Ok ==> exists|t: StoreView|
                #[trigger] committed(t, final(self.storage).contents()) && t == crate::index::property_indexes::put_set(
                    old(self.storage).contents(),
                    Db::Properties,
                    crate::index::property_indexes::node_backfill_keys(old(self.storage).contents(), label@, property@),
                ).insert(
                    (Db::Metadata, crate::index::properties::registration_key(NODE_TAG, label.spec_bytes(), property.spec_bytes())),
                    Seq::empty(),
                ),
    {
        let mut txn = self.storage.write_txn()?;
        crate::index::property_indexes::NodePropertyIndexes::create(&mut txn, label, property)?;
        let ghost t = txn.contents();
        self.storage.commit(txn)?;
        assert(committed(t, self.storage.contents()));
        Ok(())
    }

    /// Drops the node property index of (label, property) in a transaction of its own,
    /// committed where it succeeds.
    pub fn drop_property(self, label: &str, property: &str) -> (r: Result<(), HelixiteError>)
        requires
            crate::index::labels::fits(label),
            crate::index::labels::fits(property),
        ensures
            r is Err ==> final(self.storage).contents() == old(self.storage).contents(),
            old(self.storage).reliable() ==> final(self.storage).reliable(),
            old(self.storage).reliable() && old(self.storage).contents().contains_key((Db::Metadata, crate::index::properties::registration_key(NODE_TAG, label.spec_bytes(), property.spec_bytes())))
                ==> r is Ok,
            old(self.storage).reliable() && !old(self.storage).contents().contains_key((Db::Metadata, crate::index::properties::registration_key(NODE_TAG, label.spec_bytes(), property.spec_bytes())))
                ==> (r matches Err(HelixiteError::IndexNotFound(msg)) && msg@ == "node property index "@ + label@ + "::"@ + property@),
            r is Ok ==> exists|t: StoreView|
                #[trigger] committed(t, final(self.storage).contents()) && t == crate::storage::bulk::remove_where(
                    old(self.storage).contents(),
                    Db::Properties,
                    |k: Seq<u8>| crate::index::properties::registration_key(NODE_TAG, label.spec_bytes(), property.spec_bytes()).is_prefix_of(k),
                ).remove((Db::Metadata, crate::index::properties::registration_key(NODE_TAG, label.spec_bytes(), property.spec_bytes()))),
    {
        let mut txn = self.storage.write_txn()?;
        crate::index::property_indexes::NodePropertyIndexes::drop(&mut txn, label, property)?;
        let ghost t = txn.contents();
        self.storage.commit(txn)?;
        assert(committed(t, self.storage.contents()));
        Ok(())
    }
}

impl<'a, S: StorageEngine> EdgeIndexManager<'a, S> {
    /// Creates the edge property index of (label, property) in a transaction of its
    /// own, committed where it succeeds.
    pub fn create_property(self, label: &str, property: &str) -> (r: Result<(), HelixiteError>)
        requires
            crate::index::labels::fits(label),
            crate::index::labels::fits(property),
        ensures
            r is Err ==> final(self.storage).contents() == old(self.storage).contents(),
            old(self.storage).reliable() ==> final(self.storage).reliable(),
            old(self.storage).reliable() && !crate::index::property_indexes::edge_label_used(old(self.storage).contents(), label@)
                ==> (r matches Err(HelixiteError::LabelNotFound(l)) && l@ == label@),
            old(self.storage).reliable() && crate::index::property_indexes::edge_label_used(old(self.storage).contents(), label@)
                && old(self.storage).contents().contains_key((Db::Metadata, crate::index::properties::registration_key(EDGE_TAG, label.spec_bytes(), property.spec_bytes())))
                ==> (r matches Err(HelixiteError::DuplicateKey(msg)) && msg@ == "edge property index "@ + label@ + "::"@ + property@ + " already exists"@),
            old(self.storage).reliable() && crate::index::property_indexes::edge_label_used(old(self.storage).contents(), label@)
                && !old(self.storage).contents().contains_key((Db::Metadata, crate::index::properties::registration_key(EDGE_TAG, label.spec_bytes(), property.spec_bytes())))
                && crate::index::property_indexes::edge_backfill_ok(old(self.storage).contents(), label@, property@) ==> r is Ok,
            r is Ok ==> exists|t: StoreView|
                #[trigger] committed(t, final(self.storage).contents()) && t == crate::index::property_indexes::put_set(
                    old(self.storage).contents(),
                    Db::Properties,
                    crate::index::property_indexes::edge_backfill_keys(old(self.storage).contents(), label@, property@),
                ).insert(
                    (Db::Metadata, crate::index::properties::registration_key(EDGE_TAG, label.spec_bytes(), property.spec_bytes())),
                    Seq::empty(),
                ),
    {
        let mut txn = self.storage.write_txn()?;
        crate::index::property_indexes::EdgePropertyIndexes::create(&mut txn, label, property)?;
        let ghost t = txn.contents();
        self.storage.commit(txn)?;
        assert(committed(t, self.storage.contents()));
        Ok(())
    }

    /// Drops the edge property index of (label, property) in a transaction of its own,
    /// committed where it succeeds.
    pub fn drop_property(self, label: &str, property: &str) -> (r: Result<(), HelixiteError>)
        requires
            crate::index::labels::fits(label),
            crate::index::labels::fits(property),
        ensures
            r is Err ==> final(self.storage).contents() == old(self.storage).contents(),
            old(self.storage).reliable() ==> final(self.storage).reliable(),
            old(self.storage).reliable() && old(self.storage).contents().contains_key((Db::Metadata, crate::index::properties::registration_key(EDGE_TAG, label.spec_bytes(), property.spec_bytes())))
                ==> r is Ok,
            old(self.storage).reliable() && !old(self.storage).contents().contains_key((Db::Metadata, crate::index::properties::registration_key(EDGE_TAG, label.spec_bytes(), property.spec_bytes())))
                ==> (r matches Err(HelixiteError::IndexNotFound(msg)) && msg@ == "edge property index "@ + label@ + "::"@ + property@),
            r is Ok ==> exists|t: StoreView|
                #[trigger] committed(t, final(self.storage).contents()) && t == crate::storage::bulk::remove_where(
                    old(self.storage).contents(),
                    Db::Properties,
                    |k: Seq<u8>| crate::index::properties::registration_key(EDGE_TAG, label.spec_bytes(), property.spec_bytes()).is_prefix_of(k),
                ).remove((Db::Metadata, crate::index::properties::registration_key(EDGE_TAG, label.spec_bytes(), property.spec_bytes()))),
    {
        let mut txn = self.storage.write_txn()?;
        crate::index::property_indexes::EdgePropertyIndexes::drop(&mut txn, label, property)?;
        let ghost t = txn.contents();
        self.storage.commit(txn)?;
        assert(committed(t, self.storage.contents()));
        Ok(())
    }
}

/// Builds a database from settings.
pub struct HelixiteBuilder {
    pub config: Config,
}

impl Default for HelixiteBuilder {
    fn default() -> (r: Self)
        ensures
            r.config.map_size == 1024 * 1024 * 1024,
            r.config.max_dbs == 32,
            r.config.max_readers == 126,
    {
        HelixiteBuilder { config: Config::default() }
    }
}

/// Builds a database over an engine given to it.
pub struct HelixiteStorageBuilder<S: StorageEngine> {
    pub storage: S,
}

impl HelixiteBuilder {
    /// A builder with the default settings.
    pub fn new() -> (r: Self)
        ensures
            r.config.map_size == 1024 * 1024 * 1024,
            r.config.max_dbs == 32,
            r.config.max_readers == 126,
    {
        Self::default()
    }

    /// The builder with the settings `config`.
    pub fn config(self, config: Config) -> (r: Self)
        ensures
            r.config == config,
    {
        HelixiteBuilder { config }
    }

    /// A builder that opens a database over `storage`.
    pub fn storage<S: StorageEngine>(self, storage: S) -> (r: HelixiteStorageBuilder<S>)
        ensures
            r.storage == storage,
    {
        HelixiteStorageBuilder { storage }
    }
}

impl<S: StorageEngine> HelixiteStorageBuilder<S> {
    /// The database at `path` over the engine given to the builder.
    pub fn open(self, path: &str) -> (r: Result<Helixite<S>, HelixiteError>)
        ensures
            r matches Ok(db) && db.contents() == self.storage.contents() && db.location() == path@,
    {
        Ok(Helixite { path: path.to_owned(), storage: self.storage })
    }
}

} // verus!
