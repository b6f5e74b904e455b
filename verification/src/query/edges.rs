use vstd::prelude::*;

use crate::edge::Edge;
use crate::error::{join4, HelixiteError};
use crate::id::EdgeId;
use crate::index::labels::fits;
use crate::index::properties::{registration_key, PropertyIndexMetadata, EDGE_TAG};
use crate::query::ids::{ascending, lemma_keep_in, retain_in, take_at_most};
use crate::query::nodes::{record_ids, record_keys_read, scan_record_ids};
use crate::query::pagination::{after_cursor, page_from, resume_at, Cursor, CursorKind, Page};
use crate::query::single::{label_view, query_fits, query_fits_check};
use crate::query::traversal::{edges_at, filter_ids, filter_set, filters_set, filters_view, load_edges};
use crate::storage::engine::{Db, ReadTxn, StorageEngine, StoreView};
use crate::txn::{read_edge, stored_edge};
use crate::value::{str_eq, Value};

verus! {

/// The edge stored under `id` carries `label`.
pub open spec fn edge_labelled(m: StoreView, id: u64, label: Seq<char>) -> bool {
    match stored_edge(m, id) {
        Some(e) => e.label == label,
        None => false,
    }
}

/// The set of edge ids a query matches: every stored edge without filters, those that
/// every filter's index holds with them, narrowed to the edges of the label where one is
/// given.
pub open spec fn edge_query_set(m: StoreView, label: Option<Seq<char>>, fs: Seq<(Seq<char>, crate::value::ValueView)>) -> Set<u64> {
    let base = if fs.len() == 0 {
        record_ids(m, Db::Edges)
    } else {
        match label {
            Some(l) => filters_set(m, l, fs),
            None => Set::empty(),
        }
    };
    match label {
        Some(l) => base.filter(|id: u64| edge_labelled(m, id, l)),
        None => base,
    }
}

/// The edge ids a query starts from: every stored edge without filters, those that
/// every filter's index holds with them under the label with filters.
pub open spec fn edge_base(m: StoreView, label: Option<Seq<char>>, fs: Seq<(Seq<char>, crate::value::ValueView)>) -> Set<u64> {
    if fs.len() == 0 {
        record_ids(m, Db::Edges)
    } else {
        match label {
            Some(l) => filters_set(m, l, fs),
            None => Set::empty(),
        }
    }
}

/// An edge query over `m` reads: its label and values fit index keys; without filters
/// every edge key reads, with filters a label is given and the filters' indexes are
/// registered as far as they are checked; and the record of every edge it starts from
/// is stored and reads.
pub open spec fn edge_query_reads(m: StoreView, label: Option<String>, fs: Seq<(String, Value)>) -> bool {
    &&& query_fits(label, fs)
    &&& if fs.len() == 0 {
        record_keys_read(m, Db::Edges)
    } else {
        match label {
            Some(l) => registered_up_to_unindexable(m, l@, fs),
            None => false,
        }
    }
    &&& forall|id: u64| #[trigger] edge_base(m, label_view(label), filters_view(fs)).contains(id) ==> stored_edge(m, id) is Some
}

/// `ids` are the ascending ids of the matching edges, the first `n` of them under a limit
/// of `n`.
pub open spec fn edge_query_ids(m: StoreView, label: Option<Seq<char>>, fs: Seq<(Seq<char>, crate::value::ValueView)>, limit: Option<usize>, ids: Seq<u64>) -> bool {
    exists|all: Seq<u64>|
        #[trigger] ascending(all) && all.to_set() == edge_query_set(m, label, fs) && ids == match limit {
            Some(n) => take_at_most(all, n as int),
            None => all,
        }
}

/// Edges selected by label and by indexed property values.
pub struct EdgeQuery<'a, S: StorageEngine> {
    pub storage: &'a S,
    pub label: Option<String>,
    pub filters: Vec<(String, Value)>,
    pub limit: Option<usize>,
    pub after: Option<String>,
}

/// The index of the filter's property under `label` is registered.
pub open spec fn filter_registered(m: StoreView, label: Seq<char>, f: (String, Value)) -> bool {
    m.contains_key((Db::Metadata, registration_key(EDGE_TAG, vstd::utf8::encode_utf8(label), vstd::utf8::encode_utf8(f.0@))))
}

/// Every filter's index is registered under `label`, up to the first filter whose value
/// cannot be indexed.
pub open spec fn registered_up_to_unindexable(m: StoreView, label: Seq<char>, fs: Seq<(String, Value)>) -> bool {
    forall|i: int|
        0 <= i < fs.len() && (forall|j: int| 0 <= j < i ==> crate::value::indexed_view((#[trigger] fs[j]).1@) is Some)
            ==> filter_registered(m, label, #[trigger] fs[i])
}

/// The ascending edge ids that every filter's index holds, with every filter's index
/// registered for `label`, checked in order; none as soon as a filter's value cannot be
/// indexed.
fn edge_filter_ids<T: ReadTxn>(txn: &T, label: &str, filters: &Vec<(String, Value)>) -> (r: Result<Vec<u64>, HelixiteError>)
    requires
        fits(label),
        filters@.len() > 0,
        query_fits(None, filters@),
    ensures
        r matches Ok(ids) ==> ascending(ids@) && ids@.to_set() == filters_set(txn.contents(), label@, filters_view(filters@)),
        r is Ok ==> registered_up_to_unindexable(txn.contents(), label@, filters@),
        txn.infallible() && registered_up_to_unindexable(txn.contents(), label@, filters@) ==> r is Ok,
{
    let ghost m = txn.contents();
    let ghost fv = filters_view(filters@);
    let mut result: Vec<u64> = Vec::new();
    let mut k: usize = 0;
    while k < filters.len()
        invariant
            k <= filters@.len(),
            filters@.len() > 0,
            m == txn.contents(),
            fits(label),
            fv == filters_view(filters@),
            query_fits(None, filters@),
            ascending(result@),
            k > 0 ==> result@.to_set() == filters_set(m, label@, fv.subrange(0, k as int)),
            forall|j: int| 0 <= j < k ==> crate::value::indexed_view((#[trigger] filters@[j]).1@) is Some && filter_registered(m, label@, filters@[j]),
        decreases filters@.len() - k,
    {
        let property = filters[k].0.as_str();
        let key = PropertyIndexMetadata::edge_key(label, property);
        proof {
            if txn.infallible() && registered_up_to_unindexable(m, label@, filters@) {
                assert(filter_registered(m, label@, filters@[k as int]));
            }
        }
        if txn.get(Db::Metadata, key.as_slice())?.is_none() {
            return Err(HelixiteError::IndexNotFound(join4("no edge property index for ", label, "::", property)));
        }
        if filters[k].1.to_indexed_value().is_none() {
            proof {
                assert(fv[k as int] == (filters@[k as int].0@, filters@[k as int].1@));
                lemma_filters_set_empty(m, label@, fv, k as int);
                assert(filter_registered(m, label@, filters@[k as int]));
                assert forall|i: int| 0 <= i < filters@.len() && (forall|j: int| 0 <= j < i ==> crate::value::indexed_view((#[trigger] filters@[j]).1@) is Some)
                    implies filter_registered(m, label@, #[trigger] filters@[i]) by {
                    if i > k {
                        assert(crate::value::indexed_view(filters@[k as int].1@) is Some);
                    }
                }
            }
            let none: Vec<u64> = Vec::new();
            proof {
                assert(none@.to_set() =~= Set::<u64>::empty());
            }
            return Ok(none);
        }
        let next = filter_ids(txn, label, property, &filters[k].1)?;
        proof {
            assert(fv[k as int] == (filters@[k as int].0@, filters@[k as int].1@));
        }
        if k == 0 {
            result = next;
            proof {
                assert(fv.subrange(0, 1).len() == 1);
                assert(fv.subrange(0, 1)[0] == fv[0]);
            }
        } else {
            let ghost pre = result@;
            result = retain_in(&result, &next);
            proof {
                lemma_keep_in(pre, next@);
                let sub = fv.subrange(0, k + 1);
                assert(sub.drop_last() =~= fv.subrange(0, k as int));
                assert(sub.last() == fv[k as int]);
                assert(result@.to_set() =~= filters_set(m, label@, sub));
            }
        }
        k = k + 1;
    }
    proof {
        assert(fv.subrange(0, k as int) =~= fv);
    }
    Ok(result)
}

/// Where one filter's index holds nothing, neither does the intersection of all.
proof fn lemma_filters_set_empty(m: StoreView, label: Seq<char>, fs: Seq<(Seq<char>, crate::value::ValueView)>, k: int)
    requires
        0 <= k < fs.len(),
        filter_set(m, label, fs[k]) == Set::<u64>::empty(),
    ensures
        filters_set(m, label, fs) == Set::<u64>::empty(),
    decreases fs.len(),
{
    if fs.len() == 1 {
    } else if k == fs.len() - 1 {
        assert(filters_set(m, label, fs) =~= Set::<u64>::empty());
    } else {
        assert(fs.drop_last()[k] == fs[k]);
        lemma_filters_set_empty(m, label, fs.drop_last(), k);
        assert(filters_set(m, label, fs) =~= Set::<u64>::empty());
    }
}

/// The ids of ascending `ids` whose stored edge carries `label`, in their order.
fn retain_label<T: ReadTxn>(txn: &T, ids: Vec<u64>, label: &str) -> (r: Result<Vec<u64>, HelixiteError>)
    requires
        ascending(ids@),
    ensures
        r matches Ok(out) ==> ascending(out@) && out@.to_set() == ids@.to_set().filter(
            |id: u64| edge_labelled(txn.contents(), id, label@),
        ),
        txn.infallible() && (forall|i: int| 0 <= i < ids@.len() ==> stored_edge(txn.contents(), #[trigger] ids@[i]) is Some) ==> r is Ok,
{
    let ghost m = txn.contents();
    let mut out: Vec<u64> = Vec::new();
    let mut i: usize = 0;
    while i < ids.len()
        invariant
            i <= ids@.len(),
            m == txn.contents(),
            ascending(ids@),
            ascending(out@),
            forall|j: int| 0 <= j < out@.len() ==> exists|k: int| 0 <= k < i && #[trigger] out@[j] == ids@[k],
            out@.to_set() == ids@.subrange(0, i as int).to_set().filter(|id: u64| edge_labelled(m, id, label@)),
        decreases ids@.len() - i,
    {
        let ghost pre = out@;
        let id = ids[i];
        let e = read_edge(txn, id)?;
        let keep = str_eq(e.label.as_str(), label);
        if keep {
            proof {
                assert forall|a: int, b: int| 0 <= a < b < pre.len() + 1 implies #[trigger] pre.push(id)[a] < #[trigger] pre.push(id)[b] by {
                    if b == pre.len() {
                        let k = choose|k: int| 0 <= k < i && #[trigger] pre[a] == ids@[k];
                        assert(pre.push(id)[a] == pre[a]);
                        assert(ids@[k] < ids@[i as int]);
                    }
                }
            }
            out.push(id);
        }
        proof {
            let s = ids@.subrange(0, i + 1);
            assert(s =~= ids@.subrange(0, i as int).push(id));
            ids@.subrange(0, i as int).lemma_push_to_set_commute(id);
            if keep {
                pre.lemma_push_to_set_commute(id);
                assert(out@ == pre.push(id));
            }
            assert forall|j: int| 0 <= j < out@.len() implies exists|k: int| 0 <= k < i + 1 && #[trigger] out@[j] == ids@[k] by {
                if j < pre.len() {
                    assert(out@[j] == pre[j]);
                    let k = choose|k: int| 0 <= k < i && #[trigger] pre[j] == ids@[k];
                    assert(out@[j] == ids@[k]);
                } else {
                    assert(out@[j] == ids@[i as int]);
                }
            }
            assert(out@.to_set() =~= s.to_set().filter(|x: u64| edge_labelled(m, x, label@)));
        }
        i = i + 1;
    }
    proof {
        assert(ids@.subrange(0, i as int) =~= ids@);
    }
    Ok(out)
}

impl<'a, S: StorageEngine> EdgeQuery<'a, S> {
    /// Every edge of the store, until narrowed.
    pub fn new(storage: &'a S) -> (r: Self)
        ensures
            r.storage == storage,
            r.label is None,
            r.filters@.len() == 0,
            r.limit is None,
            r.after is None,
    {
        EdgeQuery { storage, label: None, filters: Vec::new(), limit: None, after: None }
    }

    /// Only edges labelled `label`.
    pub fn label(self, label: String) -> (r: Self)
        ensures
            r.storage == self.storage && r.filters == self.filters && r.limit == self.limit && r.after == self.after,
            r.label == Some(label),
    {
        EdgeQuery { label: Some(label), ..self }
    }

    /// Only edges whose indexed property `property` equals `value`.
    pub fn eq(self, property: String, value: Value) -> (r: Self)
        ensures
            r.storage == self.storage && r.label == self.label && r.limit == self.limit && r.after == self.after,
            r.filters@ == self.filters@.push((property, value)),
    {
        let mut q = self;
        q.filters.push((property, value));
        q
    }

    /// At most `n` edges.
    pub fn limit(self, n: usize) -> (r: Self)
        ensures
            r.storage == self.storage && r.label == self.label && r.filters == self.filters && r.after == self.after,
            r.limit == Some(n),
    {
        EdgeQuery { limit: Some(n), ..self }
    }

    /// Pages start after the edge the cursor names.
    pub fn after(self, cursor: String) -> (r: Self)
        ensures
            r.storage == self.storage && r.label == self.label && r.filters == self.filters && r.limit == self.limit,
            r.after == Some(cursor),
    {
        EdgeQuery { after: Some(cursor), ..self }
    }

    /// The ascending ids of the matching edges, read in `txn`, cut to `limit`.
    fn resolve_ordered_ids<T: ReadTxn>(&self, txn: &T, limit: Option<usize>) -> (r: Result<Vec<EdgeId>, HelixiteError>)
        requires
            query_fits(self.label, self.filters@),
        ensures
            r matches Ok(ids) ==> edge_query_ids(txn.contents(), label_view(self.label), filters_view(self.filters@), limit, ids@),
            self.filters@.len() > 0 && self.label is None ==> (r matches Err(HelixiteError::IndexNotFound(msg))
                && msg@ == "edge property filter requires a label"@),
            r is Ok && self.filters@.len() > 0 ==> (self.label matches Some(l) && registered_up_to_unindexable(txn.contents(), l@, self.filters@)),
            txn.infallible() && edge_query_reads(txn.contents(), self.label, self.filters@) ==> r is Ok,
    {
        let ghost m = txn.contents();
        let ghost fv = filters_view(self.filters@);
        let base = if self.filters.len() == 0 {
            scan_record_ids(txn, Db::Edges)?
        } else {
            match &self.label {
                Some(l) => edge_filter_ids(txn, l.as_str(), &self.filters)?,
                None => {
                    return Err(HelixiteError::IndexNotFound("edge property filter requires a label".to_owned()));
                },
            }
        };
        proof {
            assert(base@.to_set() == edge_base(m, label_view(self.label), fv));
            assert forall|i: int| 0 <= i < base@.len() implies base@.to_set().contains(#[trigger] base@[i]) by {}
        }
        let all = match &self.label {
            Some(l) => retain_label(txn, base, l.as_str())?,
            None => base,
        };
        proof {
            assert(all@.to_set() =~= edge_query_set(m, label_view(self.label), fv));
        }
        let ids = match limit {
            Some(n) => {
                let mut out: Vec<u64> = Vec::new();
                let mut i: usize = 0;
                while i < all.len() && i < n
                    invariant
                        i <= all@.len(),
                        i <= n,
                        out@ == all@.subrange(0, i as int),
                    decreases all@.len() - i,
                {
                    out.push(all[i]);
                    i = i + 1;
                    assert(out@ =~= all@.subrange(0, i as int));
                }
                proof {
                    if all@.len() <= n {
                        assert(out@ =~= all@);
                    }
                }
                out
            },
            None => all,
        };
        proof {
            assert(ascending(all@));
        }
        Ok(ids)
    }

    /// The matching edges in ascending id order, at most the limit, in one read
    /// transaction.
    pub fn collect(self) -> (r: Result<Vec<Edge>, HelixiteError>)
        ensures
            self.after is Some ==> (r matches Err(HelixiteError::InvalidConfig(msg)) && msg@ == "after() requires page()"@),
            self.after is None && self.filters@.len() > 0 && self.label is None ==> r is Err,
            r matches Ok(es) ==> exists|ids: Seq<EdgeId>|
                #[trigger] edge_query_ids(self.storage.contents(), label_view(self.label), filters_view(self.filters@), self.limit, ids)
                    && edges_at(self.storage.contents(), ids, es@),
            r is Ok && self.filters@.len() > 0 ==> (self.label matches Some(l) && registered_up_to_unindexable(self.storage.contents(), l@, self.filters@)),
            self.after is None && self.storage.reliable() && edge_query_reads(self.storage.contents(), self.label, self.filters@) ==> r is Ok,
    {
        if self.after.is_some() {
            return Err(HelixiteError::InvalidConfig("after() requires page()".to_owned()));
        }
        if !query_fits_check(&self.label, &self.filters) {
            return Err(HelixiteError::Storage("label or property too large to store".to_owned()));
        }
        let txn = self.storage.read_txn()?;
        let ids = self.resolve_ordered_ids(&txn, self.limit)?;
        proof {
            let m = txn.contents();
            let fv = filters_view(self.filters@);
            let all = choose|all: Seq<u64>|
                #[trigger] ascending(all) && all.to_set() == edge_query_set(m, label_view(self.label), fv) && ids@ == match self.limit {
                    Some(n) => take_at_most(all, n as int),
                    None => all,
                };
            assert forall|i: int| 0 <= i < ids@.len() implies edge_base(m, label_view(self.label), fv).contains(#[trigger] ids@[i]) by {
                assert(ids@[i] == all[i]);
                assert(all.to_set().contains(all[i]));
            }
        }
        load_edges(&txn, &ids)
    }

    /// The first matching edge, if any.
    pub fn first(self) -> (r: Result<Option<Edge>, HelixiteError>)
        ensures
            self.after is Some ==> r is Err,
            r matches Ok(Some(e)) ==> exists|ids: Seq<EdgeId>|
                #[trigger] edge_query_ids(self.storage.contents(), label_view(self.label), filters_view(self.filters@), Some(1usize), ids)
                    && ids.len() == 1 && stored_edge(self.storage.contents(), ids[0]) == Some(e@),
            r matches Ok(None) ==> exists|ids: Seq<EdgeId>|
                #[trigger] edge_query_ids(self.storage.contents(), label_view(self.label), filters_view(self.filters@), Some(1usize), ids)
                    && ids.len() == 0,
            self.after is None && self.storage.reliable() && edge_query_reads(self.storage.contents(), self.label, self.filters@) ==> r is Ok,
    {
        let mut es = self.limit(1).collect()?;
        if es.len() == 0 {
            Ok(None)
        } else {
            proof {
                let ids = choose|ids: Seq<EdgeId>|
                    #[trigger] edge_query_ids(self.storage.contents(), label_view(self.label), filters_view(self.filters@), Some(1usize), ids)
                        && edges_at(self.storage.contents(), ids, es@);
                let all = choose|all: Seq<u64>|
                    #[trigger] ascending(all) && all.to_set() == edge_query_set(self.storage.contents(), label_view(self.label), filters_view(self.filters@))
                        && ids == take_at_most(all, 1);
                assert(ids.len() <= 1);
            }
            Ok(Some(es.swap_remove(0)))
        }
    }

    /// The ascending ids of the matching edges, at most the limit, in one read
    /// transaction.
    pub fn ids(self) -> (r: Result<Vec<EdgeId>, HelixiteError>)
        ensures
            self.after is Some ==> (r matches Err(HelixiteError::InvalidConfig(msg)) && msg@ == "after() requires page()"@),
            self.after is None && self.filters@.len() > 0 && self.label is None ==> r is Err,
            r matches Ok(ids) ==> edge_query_ids(self.storage.contents(), label_view(self.label), filters_view(self.filters@), self.limit, ids@),
            r is Ok && self.filters@.len() > 0 ==> (self.label matches Some(l) && registered_up_to_unindexable(self.storage.contents(), l@, self.filters@)),
    {
        if self.after.is_some() {
            return Err(HelixiteError::InvalidConfig("after() requires page()".to_owned()));
        }
        if !query_fits_check(&self.label, &self.filters) {
            return Err(HelixiteError::Storage("label or property too large to store".to_owned()));
        }
        let txn = self.storage.read_txn()?;
        self.resolve_ordered_ids(&txn, self.limit)
    }

    /// How many edges match, with no limit, in one read transaction.
    pub fn count(self) -> (r: Result<usize, HelixiteError>)
        ensures
            self.after is Some ==> (r matches Err(HelixiteError::InvalidConfig(msg)) && msg@ == "after() requires page()"@),
            r matches Ok(n) ==> exists|ids: Seq<EdgeId>|
                #[trigger] edge_query_ids(self.storage.contents(), label_view(self.label), filters_view(self.filters@), None, ids)
                    && ids.len() == n,
            r is Ok && self.filters@.len() > 0 ==> (self.label matches Some(l) && registered_up_to_unindexable(self.storage.contents(), l@, self.filters@)),
    {
        if self.after.is_some() {
            return Err(HelixiteError::InvalidConfig("after() requires page()".to_owned()));
        }
        if !query_fits_check(&self.label, &self.filters) {
            return Err(HelixiteError::Storage("label or property too large to store".to_owned()));
        }
        let txn = self.storage.read_txn()?;
        let ids = self.resolve_ordered_ids(&txn, None)?;
        Ok(ids.len())
    }

    /// One page of the matching edges, after the cursor where one is given.
    pub fn page(self, size: usize) -> (r: Result<Page<Edge>, HelixiteError>)
        ensures
            self.limit is Some ==> (r matches Err(HelixiteError::InvalidConfig(msg)) && msg@ == "limit() cannot be used with page()"@),
            self.limit is None && size == 0 ==> (r matches Err(HelixiteError::InvalidConfig(msg)) && msg@ == "page size must be greater than 0"@),
            r matches Ok(p) ==> exists|ids: Seq<EdgeId>, start: int|
                #[trigger] edge_query_ids(self.storage.contents(), label_view(self.label), filters_view(self.filters@), None, ids)
                    && resume_at(ids, after_cursor(self.after), CursorKind::Edge) == Some(start)
                    && edges_at(self.storage.contents(), (#[trigger] page_from(ids, start, size, CursorKind::Edge)).0, p.items@)
                    && match (p.next_cursor, page_from(ids, start, size, CursorKind::Edge).1) {
                        (Some(c), Some(t)) => c@ == t,
                        (None, None) => true,
                        _ => false,
                    },
            r is Ok ==> (self.after is Some ==> after_cursor(self.after) is Some),
            self.limit is None && size > 0 && self.storage.reliable() && edge_query_reads(self.storage.contents(), self.label, self.filters@)
                && ((self.after is Some && after_cursor(self.after) is None) || (after_cursor(self.after) is Some && forall|ids: Seq<EdgeId>|
                    #[trigger] edge_query_ids(self.storage.contents(), label_view(self.label), filters_view(self.filters@), None, ids)
                        ==> resume_at(ids, after_cursor(self.after), CursorKind::Edge) is None))
                ==> r matches Err(HelixiteError::InvalidCursor(_)),
    {
        if self.limit.is_some() {
            return Err(HelixiteError::InvalidConfig("limit() cannot be used with page()".to_owned()));
        }
        if size == 0 {
            return Err(HelixiteError::InvalidConfig("page size must be greater than 0".to_owned()));
        }
        if !query_fits_check(&self.label, &self.filters) {
            return Err(HelixiteError::Storage("label or property too large to store".to_owned()));
        }
        let txn = self.storage.read_txn()?;
        let ids = self.resolve_ordered_ids(&txn, None)?;
        let after = match &self.after {
            Some(s) => Some(Cursor::decode_edge(s.as_str())?),
            None => None,
        };
        let page = match &after {
            Some(c) => Page::from_iter(ids, size, Some(c), CursorKind::Edge)?,
            None => Page::from_iter(ids, size, None, CursorKind::Edge)?,
        };
        let items = load_edges(&txn, &page.items)?;
        Ok(Page { items, next_cursor: page.next_cursor })
    }
}

} // verus!
