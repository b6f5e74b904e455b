use vstd::prelude::*;
use vstd::string::StringSliceAdditionalSpecFns;
use vstd::utf8::encode_utf8;

use crate::edge::{Direction, Edge};
use crate::error::HelixiteError;
use crate::id::{EdgeId, NodeId};
use crate::index::labels::fits;
use crate::index::properties::value_fits;
use crate::node::Node;
use crate::query::pagination::{after_cursor, deref_cursor, page_from, resume_at, Cursor, CursorKind, Page};
use crate::query::traversal::{
    adjacent_edge_ids, count_adjacent, edges_at, filtered_edge_ids, filters_view, load_edges,
    load_targets, targets_at, traversal_ids,
};
use crate::storage::engine::{ReadTxn, StorageEngine, StoreView};
use crate::value::Value;

verus! {

/// A label and filters can stand in index keys.
pub open spec fn query_fits(label: Option<String>, filters: Seq<(String, Value)>) -> bool {
    &&& label matches Some(l) ==> encode_utf8(l@).len() <= u32::MAX
    &&& forall|i: int| 0 <= i < filters.len() ==> encode_utf8((#[trigger] filters[i]).0@).len() <= u32::MAX
        && value_fits(filters[i].1@)
}

/// Whether a label and filters can stand in index keys.
pub(crate) fn query_fits_check(label: &Option<String>, filters: &Vec<(String, Value)>) -> (r: bool)
    ensures
        r == query_fits(*label, filters@),
{
    if let Some(l) = label {
        if l.as_str().as_bytes().len() > 0xffff_ffffusize {
            return false;
        }
    }
    let mut i: usize = 0;
    while i < filters.len()
        invariant
            i <= filters@.len(),
            forall|j: int| 0 <= j < i ==> encode_utf8((#[trigger] filters@[j]).0@).len() <= u32::MAX && value_fits(filters@[j].1@),
        decreases filters@.len() - i,
    {
        if filters[i].0.as_str().as_bytes().len() > 0xffff_ffffusize || !crate::index::property_indexes::index_key_fits(&filters[i].1) {
            return false;
        }
        i = i + 1;
    }
    true
}

/// The content of an optional label.
pub open spec fn label_view(label: Option<String>) -> Option<Seq<char>> {
    match label {
        Some(l) => Some(l@),
        None => None,
    }
}

/// A traversal from `node` in direction `d` reads: without filters, its adjacency keys
/// read; with filters, a label is given and every filter's edge property index under it
/// is registered.
pub open spec fn traversal_reads(m: StoreView, node: NodeId, d: Direction, label: Option<String>, fs: Seq<(String, Value)>) -> bool {
    if fs.len() == 0 {
        crate::query::traversal::adjacency_keys_read(m, node, d, label_view(label))
    } else {
        match label {
            Some(l) => forall|i: int|
                0 <= i < fs.len() ==> m.contains_key(
                    (crate::storage::engine::Db::Metadata, crate::index::properties::registration_key(
                        crate::index::properties::EDGE_TAG,
                        encode_utf8(l@),
                        encode_utf8((#[trigger] fs[i]).0@),
                    )),
                ),
            None => false,
        }
    }
}

/// The cursor `after` is refused by every listing of a traversal's edges: it does not
/// read as an edge cursor, or it names no edge that a listing holds.
pub open spec fn cursor_refused(m: StoreView, node: NodeId, d: Direction, label: Option<String>, fs: Seq<(String, Value)>, after: Option<String>) -> bool {
    ||| (after is Some && after_cursor(after) is None)
    ||| (after_cursor(after) is Some && forall|ids: Seq<EdgeId>|
        #[trigger] traversal_ids(m, node, d, label_view(label), filters_view(fs), None, ids)
            ==> resume_at(ids, after_cursor(after), CursorKind::Edge) is None)
}

/// Every edge id that a traversal lists is held by an adjacency key of the node in its
/// direction, of its label where one is given.
pub proof fn lemma_traversal_adjacent(
    m: StoreView,
    node: NodeId,
    d: Direction,
    label: Option<Seq<char>>,
    fs: Seq<(Seq<char>, crate::value::ValueView)>,
    limit: Option<usize>,
    ids: Seq<u64>,
)
    requires
        traversal_ids(m, node, d, label, fs, limit, ids),
    ensures
        forall|i: int| 0 <= i < ids.len() ==> crate::query::traversal::adjacency_set(m, node, d, label).contains(#[trigger] ids[i]),
{
    if fs.len() == 0 {
        let keys = choose|keys: Seq<Seq<u8>>|
            #[trigger] crate::query::traversal::scanned_keys(
                m,
                crate::query::traversal::adjacency_db(d),
                crate::index::edges::adjacency_prefix(node, crate::query::traversal::label_bytes(label)),
                crate::query::traversal::effective_limit(limit),
                keys,
            ) && keys.len() == ids.len() && forall|i: int|
                0 <= i < keys.len() ==> crate::index::edges::decode_adjacency_key(#[trigger] keys[i]) == Some(ids[i]);
        assert forall|i: int| 0 <= i < ids.len() implies crate::query::traversal::adjacency_set(m, node, d, label).contains(#[trigger] ids[i]) by {
            assert(m.contains_key((crate::query::traversal::adjacency_db(d), keys[i])));
            assert(crate::index::edges::decode_adjacency_key(keys[i]) == Some(ids[i]));
        }
    } else {
        let l = label->0;
        let all = choose|all: Seq<u64>|
            #[trigger] crate::query::ids::ascending(all) && all.to_set() == crate::query::traversal::filters_set(m, l, fs).intersect(
                crate::query::traversal::adjacency_set(m, node, d, Some(l)),
            ) && ids == match crate::query::traversal::effective_limit(limit) {
                Some(n) => crate::query::ids::take_at_most(all, n as int),
                None => all,
            };
        assert forall|i: int| 0 <= i < ids.len() implies crate::query::traversal::adjacency_set(m, node, d, label).contains(#[trigger] ids[i]) by {
            assert(ids[i] == all[i]);
            assert(all.to_set().contains(all[i]));
        }
    }
}

/// Queries that start at one node.
pub struct NodeRefQuery<'a, S: StorageEngine> {
    pub storage: &'a S,
    pub node_id: NodeId,
}

/// The edges of one node in one direction, of one label where one is given, filtered by
/// edge property values, up to a limit or page by page.
pub struct TraversalQuery<'a, S: StorageEngine> {
    pub storage: &'a S,
    pub node_id: NodeId,
    pub direction: Direction,
    pub label: Option<String>,
    pub filters: Vec<(String, Value)>,
    pub limit: Option<usize>,
    pub after: Option<String>,
}

/// One hop of a traversal over several hops.
pub struct Hop {
    pub direction: Direction,
    pub label: Option<String>,
}

/// A traversal over several hops from a set of start nodes.
pub struct MultiHopTraversalQuery<'a, S: StorageEngine> {
    pub storage: &'a S,
    pub start: Vec<NodeId>,
    pub hops: Vec<Hop>,
}

impl<'a, S: StorageEngine> NodeRefQuery<'a, S> {
    /// Queries that start at `node_id`.
    pub fn new(storage: &'a S, node_id: NodeId) -> (r: Self)
        ensures
            r.storage == storage,
            r.node_id == node_id,
    {
        NodeRefQuery { storage, node_id }
    }

    fn traversal(self, direction: Direction, label: Option<String>) -> (r: TraversalQuery<'a, S>)
        ensures
            r.storage == self.storage && r.node_id == self.node_id && r.direction == direction && r.label == label
                && r.filters@.len() == 0 && r.limit is None && r.after is None,
    {
        TraversalQuery {
            storage: self.storage,
            node_id: self.node_id,
            direction,
            label,
            filters: Vec::new(),
            limit: None,
            after: None,
        }
    }

    /// The outgoing edges labelled `label`.
    pub fn outgoing(self, label: String) -> (r: TraversalQuery<'a, S>)
        ensures
            r.storage == self.storage && r.node_id == self.node_id && r.direction == Direction::Out
                && r.label == Some(label) && r.filters@.len() == 0 && r.limit is None && r.after is None,
    {
        self.traversal(Direction::Out, Some(label))
    }

    /// The incoming edges labelled `label`.
    pub fn incoming(self, label: String) -> (r: TraversalQuery<'a, S>)
        ensures
            r.storage == self.storage && r.node_id == self.node_id && r.direction == Direction::In
                && r.label == Some(label) && r.filters@.len() == 0 && r.limit is None && r.after is None,
    {
        self.traversal(Direction::In, Some(label))
    }

    /// Every outgoing edge.
    pub fn outgoing_any(self) -> (r: TraversalQuery<'a, S>)
        ensures
            r.storage == self.storage && r.node_id == self.node_id && r.direction == Direction::Out
                && r.label is None && r.filters@.len() == 0 && r.limit is None && r.after is None,
    {
        self.traversal(Direction::Out, None)
    }

    /// Every incoming edge.
    pub fn incoming_any(self) -> (r: TraversalQuery<'a, S>)
        ensures
            r.storage == self.storage && r.node_id == self.node_id && r.direction == Direction::In
                && r.label is None && r.filters@.len() == 0 && r.limit is None && r.after is None,
    {
        self.traversal(Direction::In, None)
    }

    fn hops(self, direction: Direction, label: Option<String>) -> (r: MultiHopTraversalQuery<'a, S>)
        ensures
            r.storage == self.storage,
            r.start@ == seq![self.node_id],
            r.hops@.len() == 1 && r.hops@[0].direction == direction && r.hops@[0].label == label,
    {
        let mut start: Vec<NodeId> = Vec::new();
        start.push(self.node_id);
        let mut hops: Vec<Hop> = Vec::new();
        hops.push(Hop { direction, label });
        MultiHopTraversalQuery { storage: self.storage, start, hops }
    }

    /// A traversal whose first hop follows outgoing edges labelled `label`.
    pub fn then_outgoing(self, label: String) -> (r: MultiHopTraversalQuery<'a, S>)
        ensures
            r.storage == self.storage,
            r.start@ == seq![self.node_id],
            r.hops@.len() == 1 && r.hops@[0].direction == Direction::Out && r.hops@[0].label == Some(label),
    {
        self.hops(Direction::Out, Some(label))
    }

    /// A traversal whose first hop follows incoming edges labelled `label`.
    pub fn then_incoming(self, label: String) -> (r: MultiHopTraversalQuery<'a, S>)
        ensures
            r.storage == self.storage,
            r.start@ == seq![self.node_id],
            r.hops@.len() == 1 && r.hops@[0].direction == Direction::In && r.hops@[0].label == Some(label),
    {
        self.hops(Direction::In, Some(label))
    }

    /// A traversal whose first hop follows every outgoing edge.
    pub fn then_outgoing_any(self) -> (r: MultiHopTraversalQuery<'a, S>)
        ensures
            r.storage == self.storage,
            r.start@ == seq![self.node_id],
            r.hops@.len() == 1 && r.hops@[0].direction == Direction::Out && r.hops@[0].label is None,
    {
        self.hops(Direction::Out, None)
    }

    /// A traversal whose first hop follows every incoming edge.
    pub fn then_incoming_any(self) -> (r: MultiHopTraversalQuery<'a, S>)
        ensures
            r.storage == self.storage,
            r.start@ == seq![self.node_id],
            r.hops@.len() == 1 && r.hops@[0].direction == Direction::In && r.hops@[0].label is None,
    {
        self.hops(Direction::In, None)
    }
}

impl<'a, S: StorageEngine> MultiHopTraversalQuery<'a, S> {
    /// The traversal with one more hop, following outgoing edges labelled `label`.
    pub fn then_outgoing(self, label: String) -> (r: Self)
        ensures
            r.storage == self.storage && r.start == self.start,
            r.hops@.len() == self.hops@.len() + 1,
            forall|i: int| 0 <= i < self.hops@.len() ==> r.hops@[i] == self.hops@[i],
            r.hops@.last().direction == Direction::Out && r.hops@.last().label == Some(label),
    {
        let mut q = self;
        q.hops.push(Hop { direction: Direction::Out, label: Some(label) });
        q
    }

    /// The traversal with one more hop, following incoming edges labelled `label`.
    pub fn then_incoming(self, label: String) -> (r: Self)
        ensures
            r.storage == self.storage && r.start == self.start,
            r.hops@.len() == self.hops@.len() + 1,
            forall|i: int| 0 <= i < self.hops@.len() ==> r.hops@[i] == self.hops@[i],
            r.hops@.last().direction == Direction::In && r.hops@.last().label == Some(label),
    {
        let mut q = self;
        q.hops.push(Hop { direction: Direction::In, label: Some(label) });
        q
    }

    /// The traversal with one more hop, following every outgoing edge.
    pub fn then_outgoing_any(self) -> (r: Self)
        ensures
            r.storage == self.storage && r.start == self.start,
            r.hops@.len() == self.hops@.len() + 1,
            forall|i: int| 0 <= i < self.hops@.len() ==> r.hops@[i] == self.hops@[i],
            r.hops@.last().direction == Direction::Out && r.hops@.last().label is None,
    {
        let mut q = self;
        q.hops.push(Hop { direction: Direction::Out, label: None });
        q
    }

    /// The traversal with one more hop, following every incoming edge.
    pub fn then_incoming_any(self) -> (r: Self)
        ensures
            r.storage == self.storage && r.start == self.start,
            r.hops@.len() == self.hops@.len() + 1,
            forall|i: int| 0 <= i < self.hops@.len() ==> r.hops@[i] == self.hops@[i],
            r.hops@.last().direction == Direction::In && r.hops@.last().label is None,
    {
        let mut q = self;
        q.hops.push(Hop { direction: Direction::In, label: None });
        q
    }
}

impl<'a, S: StorageEngine> TraversalQuery<'a, S> {
    /// Also requires the edge property `property` to equal `value`.
    pub fn eq(self, property: String, value: Value) -> (r: Self)
        ensures
            r.storage == self.storage && r.node_id == self.node_id && r.direction == self.direction
                && r.label == self.label && r.limit == self.limit && r.after == self.after,
            r.filters@ == self.filters@.push((property, value)),
    {
        let mut q = self;
        q.filters.push((property, value));
        q
    }

    /// At most `n` results.
    pub fn limit(self, n: usize) -> (r: Self)
        ensures
            r.storage == self.storage && r.node_id == self.node_id && r.direction == self.direction
                && r.label == self.label && r.filters == self.filters && r.after == self.after,
            r.limit == Some(n),
    {
        TraversalQuery { limit: Some(n), ..self }
    }

    /// Pages start after the result the cursor names.
    pub fn after(self, cursor: String) -> (r: Self)
        ensures
            r.storage == self.storage && r.node_id == self.node_id && r.direction == self.direction
                && r.label == self.label && r.filters == self.filters && r.limit == self.limit,
            r.after == Some(cursor),
    {
        TraversalQuery { after: Some(cursor), ..self }
    }

    /// The edge ids the query lists, read in `txn`.
    fn ids<T: ReadTxn>(&self, txn: &T, limit: Option<usize>) -> (r: Result<Vec<EdgeId>, HelixiteError>)
        requires
            query_fits(self.label, self.filters@),
        ensures
            r matches Ok(ids) ==> traversal_ids(txn.contents(), self.node_id, self.direction, label_view(self.label), filters_view(self.filters@), limit, ids@),
            self.filters@.len() > 0 && self.label is None ==> (r matches Err(HelixiteError::IndexNotFound(msg))
                && msg@ == "edge property filter requires a label"@),
            txn.infallible() && traversal_reads(txn.contents(), self.node_id, self.direction, self.label, self.filters@) ==> r is Ok,
    {
        if self.filters.len() == 0 {
            let label = match &self.label {
                Some(l) => Some(l.as_str()),
                None => None,
            };
            proof {
                assert(crate::query::traversal::opt_label(label) == label_view(self.label));
            }
            adjacent_edge_ids(txn, self.node_id, self.direction, label, limit)
        } else {
            match &self.label {
                Some(l) => filtered_edge_ids(txn, self.node_id, self.direction, l.as_str(), &self.filters, limit),
                None => Err(HelixiteError::IndexNotFound("edge property filter requires a label".to_owned())),
            }
        }
    }

    /// The edges the query lists, in one read transaction.
    pub fn edges(self) -> (r: Result<Vec<Edge>, HelixiteError>)
        ensures
            self.after is Some ==> (r matches Err(HelixiteError::InvalidConfig(msg)) && msg@ == "after() requires page()"@),
            r matches Ok(es) ==> exists|ids: Seq<EdgeId>|
                #[trigger] traversal_ids(self.storage.contents(), self.node_id, self.direction, label_view(self.label), filters_view(self.filters@), self.limit, ids)
                    && edges_at(self.storage.contents(), ids, es@),
            self.after is None && self.storage.reliable() && query_fits(self.label, self.filters@)
                && traversal_reads(self.storage.contents(), self.node_id, self.direction, self.label, self.filters@)
                && (forall|id: u64| #[trigger] crate::query::traversal::adjacency_set(self.storage.contents(), self.node_id, self.direction, label_view(self.label)).contains(id)
                    ==> crate::txn::stored_edge(self.storage.contents(), id) is Some) ==> r is Ok,
    {
        if self.after.is_some() {
            return Err(HelixiteError::InvalidConfig("after() requires page()".to_owned()));
        }
        if !query_fits_check(&self.label, &self.filters) {
            return Err(HelixiteError::Storage("label or property too large to store".to_owned()));
        }
        let txn = self.storage.read_txn()?;
        let ids = self.ids(&txn, self.limit)?;
        proof {
            lemma_traversal_adjacent(txn.contents(), self.node_id, self.direction, label_view(self.label), filters_view(self.filters@), self.limit, ids@);
        }
        load_edges(&txn, &ids)
    }

    /// The nodes at the far ends of the edges the query lists, in one read transaction.
    pub fn nodes(self) -> (r: Result<Vec<Node>, HelixiteError>)
        ensures
            self.after is Some ==> (r matches Err(HelixiteError::InvalidConfig(msg)) && msg@ == "after() requires page()"@),
            r matches Ok(ns) ==> exists|ids: Seq<EdgeId>|
                #[trigger] traversal_ids(self.storage.contents(), self.node_id, self.direction, label_view(self.label), filters_view(self.filters@), self.limit, ids)
                    && targets_at(self.storage.contents(), ids, self.direction, ns@),
            self.after is None && self.storage.reliable() && query_fits(self.label, self.filters@)
                && traversal_reads(self.storage.contents(), self.node_id, self.direction, self.label, self.filters@)
                && (forall|id: u64| #[trigger] crate::query::traversal::adjacency_set(self.storage.contents(), self.node_id, self.direction, label_view(self.label)).contains(id)
                    ==> crate::query::traversal::target_reads(self.storage.contents(), id, self.direction)) ==> r is Ok,
    {
        if self.after.is_some() {
            return Err(HelixiteError::InvalidConfig("after() requires page()".to_owned()));
        }
        if !query_fits_check(&self.label, &self.filters) {
            return Err(HelixiteError::Storage("label or property too large to store".to_owned()));
        }
        let txn = self.storage.read_txn()?;
        let ids = self.ids(&txn, self.limit)?;
        proof {
            lemma_traversal_adjacent(txn.contents(), self.node_id, self.direction, label_view(self.label), filters_view(self.filters@), self.limit, ids@);
        }
        load_targets(&txn, &ids, self.direction)
    }

    /// The first edge the query lists, if any.
    pub fn first_edge(self) -> (r: Result<Option<Edge>, HelixiteError>)
        ensures
            self.after is Some ==> r is Err,
            r matches Ok(Some(e)) ==> exists|ids: Seq<EdgeId>|
                #[trigger] traversal_ids(self.storage.contents(), self.node_id, self.direction, label_view(self.label), filters_view(self.filters@), Some(1usize), ids)
                    && ids.len() >= 1 && crate::txn::stored_edge(self.storage.contents(), ids[0]) == Some(e@),
            r matches Ok(None) ==> exists|ids: Seq<EdgeId>|
                #[trigger] traversal_ids(self.storage.contents(), self.node_id, self.direction, label_view(self.label), filters_view(self.filters@), Some(1usize), ids)
                    && ids.len() == 0,
            self.after is None && self.storage.reliable() && query_fits(self.label, self.filters@)
                && traversal_reads(self.storage.contents(), self.node_id, self.direction, self.label, self.filters@)
                && (forall|id: u64| #[trigger] crate::query::traversal::adjacency_set(self.storage.contents(), self.node_id, self.direction, label_view(self.label)).contains(id)
                    ==> crate::txn::stored_edge(self.storage.contents(), id) is Some) ==> r is Ok,
    {
        let mut es = self.limit(1).edges()?;
        if es.len() == 0 {
            Ok(None)
        } else {
            Ok(Some(es.swap_remove(0)))
        }
    }

    /// The node at the far end of the first edge the query lists, if any.
    pub fn first_node(self) -> (r: Result<Option<Node>, HelixiteError>)
        ensures
            self.after is Some ==> r is Err,
            r matches Ok(None) ==> exists|ids: Seq<EdgeId>|
                #[trigger] traversal_ids(self.storage.contents(), self.node_id, self.direction, label_view(self.label), filters_view(self.filters@), Some(1usize), ids)
                    && ids.len() == 0,
            r matches Ok(Some(n)) ==> exists|ids: Seq<EdgeId>, ns: Seq<Node>|
                #[trigger] traversal_ids(self.storage.contents(), self.node_id, self.direction, label_view(self.label), filters_view(self.filters@), Some(1usize), ids)
                    && #[trigger] targets_at(self.storage.contents(), ids, self.direction, ns) && ns.len() >= 1 && ns[0]@ == n@,
            self.after is None && self.storage.reliable() && query_fits(self.label, self.filters@)
                && traversal_reads(self.storage.contents(), self.node_id, self.direction, self.label, self.filters@)
                && (forall|id: u64| #[trigger] crate::query::traversal::adjacency_set(self.storage.contents(), self.node_id, self.direction, label_view(self.label)).contains(id)
                    ==> crate::query::traversal::target_reads(self.storage.contents(), id, self.direction)) ==> r is Ok,
    {
        let mut ns = self.limit(1).nodes()?;
        if ns.len() == 0 {
            Ok(None)
        } else {
            let ghost all = ns@;
            let n = ns.swap_remove(0);
            assert(all[0] == n);
            Ok(Some(n))
        }
    }

    /// How many edges the query lists, with no limit.
    pub fn count(self) -> (r: Result<usize, HelixiteError>)
        ensures
            self.after is Some ==> (r matches Err(HelixiteError::InvalidConfig(msg)) && msg@ == "after() requires page()"@),
            self.filters@.len() > 0 ==> (r matches Ok(n) ==> exists|ids: Seq<EdgeId>|
                #[trigger] traversal_ids(self.storage.contents(), self.node_id, self.direction, label_view(self.label), filters_view(self.filters@), None, ids)
                    && ids.len() == n),
            self.filters@.len() == 0 ==> (r matches Ok(n) ==> exists|keys: Seq<Seq<u8>>|
                #[trigger] crate::query::traversal::scanned_keys(
                    self.storage.contents(),
                    crate::query::traversal::adjacency_db(self.direction),
                    crate::index::edges::adjacency_prefix(self.node_id, crate::query::traversal::label_bytes(label_view(self.label))),
                    None,
                    keys,
                ) && keys.len() == n),
    {
        if self.after.is_some() {
            return Err(HelixiteError::InvalidConfig("after() requires page()".to_owned()));
        }
        if !query_fits_check(&self.label, &self.filters) {
            return Err(HelixiteError::Storage("label or property too large to store".to_owned()));
        }
        let txn = self.storage.read_txn()?;
        if self.filters.len() == 0 {
            let label = match &self.label {
                Some(l) => Some(l.as_str()),
                None => None,
            };
            proof {
                assert(crate::query::traversal::opt_label(label) == label_view(self.label));
            }
            count_adjacent(&txn, self.node_id, self.direction, label)
        } else {
            let ids = self.ids(&txn, None)?;
            Ok(ids.len())
        }
    }

    /// The edge ids of one page.
    fn page_ids<T: ReadTxn>(&self, txn: &T, size: usize) -> (r: Result<Page<u64>, HelixiteError>)
        requires
            query_fits(self.label, self.filters@),
        ensures
            r matches Ok(p) ==> exists|ids: Seq<EdgeId>, start: int|
                #[trigger] traversal_ids(txn.contents(), self.node_id, self.direction, label_view(self.label), filters_view(self.filters@), None, ids)
                    && resume_at(ids, after_cursor(self.after), CursorKind::Edge) == Some(start)
                    && p.items@ == (#[trigger] page_from(ids, start, size, CursorKind::Edge)).0
                    && match (p.next_cursor, page_from(ids, start, size, CursorKind::Edge).1) {
                        (Some(c), Some(t)) => c@ == t,
                        (None, None) => true,
                        _ => false,
                    },
            txn.infallible() && traversal_reads(txn.contents(), self.node_id, self.direction, self.label, self.filters@)
                && (self.after is Some ==> after_cursor(self.after) is Some) && (forall|ids: Seq<EdgeId>|
                #[trigger] traversal_ids(txn.contents(), self.node_id, self.direction, label_view(self.label), filters_view(self.filters@), None, ids)
                    ==> resume_at(ids, after_cursor(self.after), CursorKind::Edge) is Some) ==> r is Ok,
            r is Ok ==> (self.after is Some ==> after_cursor(self.after) is Some),
            txn.infallible() && traversal_reads(txn.contents(), self.node_id, self.direction, self.label, self.filters@)
                && cursor_refused(txn.contents(), self.node_id, self.direction, self.label, self.filters@, self.after)
                ==> r matches Err(HelixiteError::InvalidCursor(_)),
    {
        let ids = self.ids(txn, None)?;
        let after = match &self.after {
            Some(s) => Some(Cursor::decode_edge(s.as_str())?),
            None => None,
        };
        let page = match &after {
            Some(c) => Page::from_iter(ids, size, Some(c), CursorKind::Edge)?,
            None => Page::from_iter(ids, size, None, CursorKind::Edge)?,
        };
        Ok(page)
    }

    /// One page of the edges the query lists, after the cursor where one is given.
    pub fn edges_page(self, size: usize) -> (r: Result<Page<Edge>, HelixiteError>)
        ensures
            self.limit is Some ==> (r matches Err(HelixiteError::InvalidConfig(msg)) && msg@ == "limit() cannot be used with page()"@),
            self.limit is None && size == 0 ==> (r matches Err(HelixiteError::InvalidConfig(msg)) && msg@ == "page size must be greater than 0"@),
            r matches Ok(p) ==> exists|ids: Seq<EdgeId>, start: int|
                #[trigger] traversal_ids(self.storage.contents(), self.node_id, self.direction, label_view(self.label), filters_view(self.filters@), None, ids)
                    && resume_at(ids, after_cursor(self.after), CursorKind::Edge) == Some(start)
                    && edges_at(self.storage.contents(), (#[trigger] page_from(ids, start, size, CursorKind::Edge)).0, p.items@)
                    && match (p.next_cursor, page_from(ids, start, size, CursorKind::Edge).1) {
                        (Some(c), Some(t)) => c@ == t,
                        (None, None) => true,
                        _ => false,
                    },
            r is Ok ==> (self.after is Some ==> after_cursor(self.after) is Some),
            self.limit is None && size > 0 && query_fits(self.label, self.filters@) && self.storage.reliable()
                && traversal_reads(self.storage.contents(), self.node_id, self.direction, self.label, self.filters@)
                && cursor_refused(self.storage.contents(), self.node_id, self.direction, self.label, self.filters@, self.after)
                ==> r matches Err(HelixiteError::InvalidCursor(_)),
    {
        if self.limit.is_some() {
            return Err(HelixiteError::InvalidConfig("limit() cannot be used with page()".to_owned()));
        }
        if size == 0 {
            return Err(HelixiteError::InvalidConfig("page size must be greater than 0".to_owned()));
        }
        if !query_fits_check(&self.label, &self.filters) {
            return Err(HelixiteError::Storage("label or property too large to store".to_owned()));
        }
        let txn = self.storage.read_txn()?;
        let page = self.page_ids(&txn, size)?;
        let items = load_edges(&txn, &page.items)?;
        Ok(Page { items, next_cursor: page.next_cursor })
    }

    /// One page of the nodes at the far ends of the edges the query lists.
    pub fn nodes_page(self, size: usize) -> (r: Result<Page<Node>, HelixiteError>)
        ensures
            self.limit is Some ==> (r matches Err(HelixiteError::InvalidConfig(msg)) && msg@ == "limit() cannot be used with page()"@),
            self.limit is None && size == 0 ==> (r matches Err(HelixiteError::InvalidConfig(msg)) && msg@ == "page size must be greater than 0"@),
            r matches Ok(p) ==> exists|ids: Seq<EdgeId>, start: int|
                #[trigger] traversal_ids(self.storage.contents(), self.node_id, self.direction, label_view(self.label), filters_view(self.filters@), None, ids)
                    && resume_at(ids, after_cursor(self.after), CursorKind::Edge) == Some(start)
                    && targets_at(self.storage.contents(), (#[trigger] page_from(ids, start, size, CursorKind::Edge)).0, self.direction, p.items@)
                    && match (p.next_cursor, page_from(ids, start, size, CursorKind::Edge).1) {
                        (Some(c), Some(t)) => c@ == t,
                        (None, None) => true,
                        _ => false,
                    },
            r is Ok ==> (self.after is Some ==> after_cursor(self.after) is Some),
            self.limit is None && size > 0 && query_fits(self.label, self.filters@) && self.storage.reliable()
                && traversal_reads(self.storage.contents(), self.node_id, self.direction, self.label, self.filters@)
                && cursor_refused(self.storage.contents(), self.node_id, self.direction, self.label, self.filters@, self.after)
                ==> r matches Err(HelixiteError::InvalidCursor(_)),
    {
        if self.limit.is_some() {
            return Err(HelixiteError::InvalidConfig("limit() cannot be used with page()".to_owned()));
        }
        if size == 0 {
            return Err(HelixiteError::InvalidConfig("page size must be greater than 0".to_owned()));
        }
        if !query_fits_check(&self.label, &self.filters) {
            return Err(HelixiteError::Storage("label or property too large to store".to_owned()));
        }
        let txn = self.storage.read_txn()?;
        let page = self.page_ids(&txn, size)?;
        let items = load_targets(&txn, &page.items, self.direction)?;
        Ok(Page { items, next_cursor: page.next_cursor })
    }
}

} // verus!
