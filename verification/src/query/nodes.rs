use vstd::prelude::*;
use vstd::string::StringSliceAdditionalSpecFns;
use vstd::utf8::encode_utf8;

use crate::error::{join4, HelixiteError};
use crate::id::NodeId;
use crate::index::codec::{be64, field, from_be64, u64_from_be_bytes};
use crate::index::labels::{decode_label_key, fits, LabelIndex};
use crate::index::properties::{
    decode_property_key, registration_key, value_fits, value_prefix_of, NodePropertyIndex,
    PropertyIndexMetadata, NODE_TAG,
};
use crate::node::Node;
use crate::query::ids::{ascending, insert_ascending, keep_in, lemma_keep_in, retain_in, take_at_most};
use crate::query::traversal::filters_view;
use crate::storage::engine::{in_scan, scan_result, Db, ReadTxn, Scan, StorageEngine, StoreView};
use crate::txn::{read_node, stored_node};
use crate::value::{Value, ValueView};

verus! {

/// The node ids recorded under `label` in the label index.
pub open spec fn label_ids(m: StoreView, label: Seq<char>) -> Set<u64> {
    Set::new(
        |id: u64|
            exists|k: Seq<u8>|
                #![trigger m.contains_key((Db::Labels, k))]
                m.contains_key((Db::Labels, k)) && field(encode_utf8(label)).is_prefix_of(k) && decode_label_key(k) == Some(id),
    )
}

/// The ids under which the records of `db` are stored.
pub open spec fn record_ids(m: StoreView, db: Db) -> Set<u64> {
    Set::new(
        |id: u64|
            exists|k: Seq<u8>|
                #![trigger m.contains_key((db, k))]
                m.contains_key((db, k)) && k.len() == 8 && from_be64(k) == id,
    )
}

/// The ids under which node records are stored.
pub open spec fn all_node_ids(m: StoreView) -> Set<u64> {
    record_ids(m, Db::Nodes)
}

/// The node ids that the node property index of (label, property) holds for the value.
pub open spec fn node_filter_set(m: StoreView, label: Seq<char>, f: (Seq<char>, ValueView)) -> Set<u64> {
    match value_prefix_of(NODE_TAG, encode_utf8(label), encode_utf8(f.0), f.1) {
        None => Set::empty(),
        Some(p) => Set::new(
            |id: u64|
                exists|k: Seq<u8>|
                    #![trigger m.contains_key((Db::Properties, k))]
                    m.contains_key((Db::Properties, k)) && p.is_prefix_of(k) && decode_property_key(k) == Some(id),
        ),
    }
}

/// The node ids that every filter's index holds; none without filters.
pub open spec fn node_filters_set(m: StoreView, label: Seq<char>, fs: Seq<(Seq<char>, ValueView)>) -> Set<u64>
    decreases fs.len(),
{
    if fs.len() == 0 {
        Set::empty()
    } else if fs.len() == 1 {
        node_filter_set(m, label, fs[0])
    } else {
        node_filters_set(m, label, fs.drop_last()).intersect(node_filter_set(m, label, fs.last()))
    }
}

/// The set of node ids a query matches: every stored node, or the nodes of its label,
/// or the nodes of its label that every filter's index holds.
pub open spec fn matched_ids(m: StoreView, label: Option<Seq<char>>, fs: Seq<(Seq<char>, ValueView)>) -> Set<u64> {
    if fs.len() == 0 {
        match label {
            Some(l) => label_ids(m, l),
            None => all_node_ids(m),
        }
    } else {
        match label {
            Some(l) => node_filters_set(m, l, fs).intersect(label_ids(m, l)),
            None => Set::empty(),
        }
    }
}

/// Every key of the label index under `label` reads as a node id.
pub open spec fn label_keys_read(m: StoreView, label: Seq<char>) -> bool {
    forall|k: Seq<u8>|
        #![trigger m.contains_key((Db::Labels, k))]
        m.contains_key((Db::Labels, k)) && field(encode_utf8(label)).is_prefix_of(k) ==> decode_label_key(k) is Some
}

/// Every key of `db` is eight bytes, an id.
pub open spec fn record_keys_read(m: StoreView, db: Db) -> bool {
    forall|k: Seq<u8>| #![trigger m.contains_key((db, k))] m.contains_key((db, k)) ==> k.len() == 8
}

/// Every key of the property index under the prefix of the value reads as an id.
pub open spec fn property_keys_read(m: StoreView, prefix: Option<Seq<u8>>) -> bool {
    match prefix {
        None => true,
        Some(p) => forall|k: Seq<u8>|
            #![trigger m.contains_key((Db::Properties, k))]
            m.contains_key((Db::Properties, k)) && p.is_prefix_of(k) ==> decode_property_key(k) is Some,
    }
}

/// A query over `m` with `label` and the filters `fs` reads: its label and values fit
/// index keys, and the keys it scans read. With filters, a label is given, every filter's
/// property of the label is indexed, and the keys under each filter's value and under the
/// label read; without, the keys under the label, or every node key, read.
pub open spec fn query_reads(m: StoreView, label: Option<String>, fs: Seq<(String, Value)>) -> bool {
    &&& crate::query::single::query_fits(label, fs)
    &&& if fs.len() == 0 {
        match label {
            Some(l) => label_keys_read(m, l@),
            None => record_keys_read(m, Db::Nodes),
        }
    } else {
        match label {
            Some(l) => label_keys_read(m, l@) && forall|i: int|
                #![trigger fs[i]]
                0 <= i < fs.len() ==> m.contains_key(
                    (Db::Metadata, registration_key(NODE_TAG, encode_utf8(l@), encode_utf8(fs[i].0@))),
                ) && property_keys_read(m, value_prefix_of(NODE_TAG, encode_utf8(l@), encode_utf8(fs[i].0@), fs[i].1@)),
            None => false,
        }
    }
}

/// Nodes selected by label and by indexed property values.
pub struct NodeQuery<'a, S: StorageEngine> {
    pub storage: &'a S,
    pub label: Option<String>,
    pub filters: Vec<(String, Value)>,
}

/// The ascending ids of the nodes the label index lists under `label`; a storage error
/// where a key does not read.
fn scan_label_ids<T: ReadTxn>(txn: &T, label: &str) -> (r: Result<Vec<u64>, HelixiteError>)
    requires
        fits(label),
    ensures
        r matches Ok(ids) ==> ascending(ids@) && ids@.to_set() == label_ids(txn.contents(), label@),
        txn.infallible() ==> (r is Ok <==> label_keys_read(txn.contents(), label@)),
{
    let ghost m = txn.contents();
    let prefix = LabelIndex::prefix(label);
    let ghost p = prefix@;
    let scan = Scan::Prefix(prefix);
    let entries = txn.scan(Db::Labels, &scan, None)?;
    let mut ids: Vec<u64> = Vec::new();
    let mut i: usize = 0;
    while i < entries.len()
        invariant
            i <= entries@.len(),
            m == txn.contents(),
            p == field(encode_utf8(label@)),
            scan_result(m, Db::Labels, scan, None, entries@),
            scan matches Scan::Prefix(q) && q@ == p,
            ascending(ids@),
            forall|j: int| 0 <= j < i ==> decode_label_key((#[trigger] entries@[j]).key@) is Some,
            forall|id: u64| #[trigger] ids@.to_set().contains(id) <==> exists|j: int|
                0 <= j < i && decode_label_key((#[trigger] entries@[j]).key@) == Some(id),
        decreases entries@.len() - i,
    {
        let ghost pre = ids@;
        match LabelIndex::decode_node_id(entries[i].key.as_slice()) {
            Some(id) => insert_ascending(&mut ids, id),
            None => {
                proof {
                    let k = entries@[i as int].key@;
                    assert(m.contains_key((Db::Labels, k)));
                    assert(in_scan(scan, k));
                    assert(!label_keys_read(m, label@));
                }
                return Err(HelixiteError::Storage("corrupt label index key".to_owned()));
            },
        }
        proof {
            assert forall|id: u64| #[trigger] ids@.to_set().contains(id) <==> exists|j: int|
                0 <= j < i + 1 && decode_label_key((#[trigger] entries@[j]).key@) == Some(id) by {
                if exists|j: int| 0 <= j < i + 1 && decode_label_key((#[trigger] entries@[j]).key@) == Some(id) {
                    let j = choose|j: int| 0 <= j < i + 1 && decode_label_key((#[trigger] entries@[j]).key@) == Some(id);
                    if j < i {
                        assert(pre.to_set().contains(id));
                    }
                }
                if pre.to_set().contains(id) {
                    let j = choose|j: int| 0 <= j < i && decode_label_key((#[trigger] entries@[j]).key@) == Some(id);
                    assert(0 <= j < i + 1);
                }
            }
        }
        i = i + 1;
    }
    proof {
        let target = label_ids(m, label@);
        assert forall|id: u64| #[trigger] ids@.to_set().contains(id) == target.contains(id) by {
            if ids@.to_set().contains(id) {
                let j = choose|j: int| 0 <= j < i && decode_label_key((#[trigger] entries@[j]).key@) == Some(id);
                let k = entries@[j].key@;
                assert(m.contains_key((Db::Labels, k)));
                assert(in_scan(scan, k));
            }
            if target.contains(id) {
                let k = choose|k: Seq<u8>|
                    #![trigger m.contains_key((Db::Labels, k))]
                    m.contains_key((Db::Labels, k)) && p.is_prefix_of(k) && decode_label_key(k) == Some(id);
                assert(m.contains_key((Db::Labels, k)));
                let j = choose|j: int| 0 <= j < entries@.len() && entries@[j].key@ == k;
                assert(decode_label_key(entries@[j].key@) == Some(id));
            }
        }
        assert(ids@.to_set() =~= target);
        assert forall|k: Seq<u8>|
            #![trigger m.contains_key((Db::Labels, k))]
            m.contains_key((Db::Labels, k)) && field(encode_utf8(label@)).is_prefix_of(k) implies decode_label_key(k) is Some by {
            let j = choose|j: int| 0 <= j < entries@.len() && entries@[j].key@ == k;
            assert(decode_label_key(entries@[j].key@) is Some);
        }
    }
    Ok(ids)
}

/// The ascending ids under which the records of `db` are stored; a storage error where a
/// key is not eight bytes.
pub fn scan_record_ids<T: ReadTxn>(txn: &T, db: Db) -> (r: Result<Vec<u64>, HelixiteError>)
    ensures
        r matches Ok(ids) ==> ascending(ids@) && ids@.to_set() == record_ids(txn.contents(), db),
        txn.infallible() ==> (r is Ok <==> record_keys_read(txn.contents(), db)),
{
    let ghost m = txn.contents();
    let scan = Scan::All;
    let entries = txn.scan(db, &scan, None)?;
    let mut ids: Vec<u64> = Vec::new();
    let mut i: usize = 0;
    while i < entries.len()
        invariant
            i <= entries@.len(),
            m == txn.contents(),
            scan == Scan::All,
            scan_result(m, db, scan, None, entries@),
            ascending(ids@),
            forall|j: int| 0 <= j < i ==> (#[trigger] entries@[j]).key@.len() == 8,
            forall|id: u64| #[trigger] ids@.to_set().contains(id) <==> exists|j: int|
                0 <= j < i && (#[trigger] entries@[j]).key@.len() == 8 && from_be64(entries@[j].key@) == id,
        decreases entries@.len() - i,
    {
        let ghost pre = ids@;
        let key = entries[i].key.as_slice();
        if key.len() != 8 {
            proof {
                let k = entries@[i as int].key@;
                assert(m.contains_key((db, k)));
                assert(!record_keys_read(m, db));
            }
            return Err(HelixiteError::Storage(
                if db == Db::Edges { "corrupt edge key".to_owned() } else { "corrupt node key".to_owned() },
            ));
        }
        let id = u64_from_be_bytes(key);
        insert_ascending(&mut ids, id);
        proof {
            assert forall|x: u64| #[trigger] ids@.to_set().contains(x) <==> exists|j: int|
                0 <= j < i + 1 && (#[trigger] entries@[j]).key@.len() == 8 && from_be64(entries@[j].key@) == x by {
                if exists|j: int| 0 <= j < i + 1 && (#[trigger] entries@[j]).key@.len() == 8 && from_be64(entries@[j].key@) == x {
                    let j = choose|j: int| 0 <= j < i + 1 && (#[trigger] entries@[j]).key@.len() == 8 && from_be64(entries@[j].key@) == x;
                    if j < i {
                        assert(pre.to_set().contains(x));
                    }
                }
                if pre.to_set().contains(x) {
                    let j = choose|j: int| 0 <= j < i && (#[trigger] entries@[j]).key@.len() == 8 && from_be64(entries@[j].key@) == x;
                    assert(0 <= j < i + 1);
                }
            }
        }
        i = i + 1;
    }
    proof {
        let target = record_ids(m, db);
        assert forall|id: u64| #[trigger] ids@.to_set().contains(id) == target.contains(id) by {
            if ids@.to_set().contains(id) {
                let j = choose|j: int| 0 <= j < i && (#[trigger] entries@[j]).key@.len() == 8 && from_be64(entries@[j].key@) == id;
                assert(m.contains_key((db, entries@[j].key@)));
            }
            if target.contains(id) {
                let k = choose|k: Seq<u8>|
                    #![trigger m.contains_key((db, k))]
                    m.contains_key((db, k)) && k.len() == 8 && from_be64(k) == id;
                assert(m.contains_key((db, k)));
                let j = choose|j: int| 0 <= j < entries@.len() && entries@[j].key@ == k;
                assert(entries@[j].key@.len() == 8 && from_be64(entries@[j].key@) == id);
            }
        }
        assert(ids@.to_set() =~= target);
        assert forall|k: Seq<u8>| #![trigger m.contains_key((db, k))] m.contains_key((db, k)) implies k.len() == 8 by {
            let j = choose|j: int| 0 <= j < entries@.len() && entries@[j].key@ == k;
            assert(entries@[j].key@.len() == 8);
        }
    }
    Ok(ids)
}

/// The ascending node ids that the node property index of (label, property) holds for
/// `value`; a storage error where a key does not read.
fn scan_property_ids<T: ReadTxn>(txn: &T, label: &str, property: &str, value: &Value) -> (r: Result<Vec<u64>, HelixiteError>)
    requires
        fits(label),
        fits(property),
        value_fits(value@),
    ensures
        r matches Ok(ids) ==> ascending(ids@) && ids@.to_set() == node_filter_set(txn.contents(), label@, (property@, value@)),
        txn.infallible() ==> (r is Ok <==> property_keys_read(
            txn.contents(),
            value_prefix_of(NODE_TAG, encode_utf8(label@), encode_utf8(property@), value@),
        )),
{
    let ghost m = txn.contents();
    let prefix = match NodePropertyIndex::lookup_prefix(label, property, value) {
        Some(p) => p,
        None => {
            let v: Vec<u64> = Vec::new();
            assert(v@.to_set() =~= Set::<u64>::empty());
            return Ok(v);
        },
    };
    let ghost p = prefix@;
    let scan = Scan::Prefix(prefix);
    let entries = txn.scan(Db::Properties, &scan, None)?;
    let mut ids: Vec<u64> = Vec::new();
    let mut i: usize = 0;
    while i < entries.len()
        invariant
            i <= entries@.len(),
            m == txn.contents(),
            scan_result(m, Db::Properties, scan, None, entries@),
            scan matches Scan::Prefix(q) && q@ == p,
            Some(p) == value_prefix_of(NODE_TAG, encode_utf8(label@), encode_utf8(property@), value@),
            ascending(ids@),
            forall|j: int| 0 <= j < i ==> decode_property_key((#[trigger] entries@[j]).key@) is Some,
            forall|id: u64| #[trigger] ids@.to_set().contains(id) <==> exists|j: int|
                0 <= j < i && decode_property_key((#[trigger] entries@[j]).key@) == Some(id),
        decreases entries@.len() - i,
    {
        let ghost pre = ids@;
        match NodePropertyIndex::decode_node_id(entries[i].key.as_slice()) {
            Some(id) => insert_ascending(&mut ids, id),
            None => {
                proof {
                    let k = entries@[i as int].key@;
                    assert(m.contains_key((Db::Properties, k)));
                    assert(in_scan(scan, k));
                    assert(!property_keys_read(m, Some(p)));
                }
                return Err(HelixiteError::Storage("corrupt property index key".to_owned()));
            },
        }
        proof {
            assert forall|id: u64| #[trigger] ids@.to_set().contains(id) <==> exists|j: int|
                0 <= j < i + 1 && decode_property_key((#[trigger] entries@[j]).key@) == Some(id) by {
                if exists|j: int| 0 <= j < i + 1 && decode_property_key((#[trigger] entries@[j]).key@) == Some(id) {
                    let j = choose|j: int| 0 <= j < i + 1 && decode_property_key((#[trigger] entries@[j]).key@) == Some(id);
                    if j < i {
                        assert(pre.to_set().contains(id));
                    }
                }
                if pre.to_set().contains(id) {
                    let j = choose|j: int| 0 <= j < i && decode_property_key((#[trigger] entries@[j]).key@) == Some(id);
                    assert(0 <= j < i + 1);
                }
            }
        }
        i = i + 1;
    }
    proof {
        let target = node_filter_set(m, label@, (property@, value@));
        assert forall|id: u64| #[trigger] ids@.to_set().contains(id) == target.contains(id) by {
            if ids@.to_set().contains(id) {
                let j = choose|j: int| 0 <= j < i && decode_property_key((#[trigger] entries@[j]).key@) == Some(id);
                let k = entries@[j].key@;
                assert(m.contains_key((Db::Properties, k)));
                assert(in_scan(scan, k));
            }
            if target.contains(id) {
                let k = choose|k: Seq<u8>|
                    #![trigger m.contains_key((Db::Properties, k))]
                    m.contains_key((Db::Properties, k)) && p.is_prefix_of(k) && decode_property_key(k) == Some(id);
                assert(m.contains_key((Db::Properties, k)));
                let j = choose|j: int| 0 <= j < entries@.len() && entries@[j].key@ == k;
                assert(decode_property_key(entries@[j].key@) == Some(id));
            }
        }
        assert(ids@.to_set() =~= target);
        assert forall|k: Seq<u8>|
            #![trigger m.contains_key((Db::Properties, k))]
            m.contains_key((Db::Properties, k)) && p.is_prefix_of(k) implies decode_property_key(k) is Some by {
            let j = choose|j: int| 0 <= j < entries@.len() && entries@[j].key@ == k;
            assert(decode_property_key(entries@[j].key@) is Some);
        }
    }
    Ok(ids)
}

impl<'a, S: StorageEngine> NodeQuery<'a, S> {
    /// Every node of the store, until narrowed.
    pub fn new(storage: &'a S) -> (r: Self)
        ensures
            r.storage == storage,
            r.label is None,
            r.filters@.len() == 0,
    {
        NodeQuery { storage, label: None, filters: Vec::new() }
    }

    /// Only nodes labelled `label`.
    pub fn label(self, label: String) -> (r: Self)
        ensures
            r.storage == self.storage && r.filters == self.filters,
            r.label == Some(label),
    {
        NodeQuery { label: Some(label), ..self }
    }

    /// Only nodes whose indexed property `property` equals `value`.
    pub fn where_eq(self, property: String, value: Value) -> (r: Self)
        ensures
            r.storage == self.storage && r.label == self.label,
            r.filters@ == self.filters@.push((property, value)),
    {
        let mut q = self;
        q.filters.push((property, value));
        q
    }

    /// The ascending ids of the matching nodes, read in `txn`: without filters, every
    /// stored node or the nodes of the label; with filters, a label is needed and every
    /// filter's property of the label must be indexed.
    pub fn resolve_ordered_ids<T: ReadTxn>(&self, txn: &T) -> (r: Result<Vec<NodeId>, HelixiteError>)
        ensures
            r matches Ok(ids) ==> ascending(ids@) && ids@.to_set() == matched_ids(
                txn.contents(),
                crate::query::single::label_view(self.label),
                filters_view(self.filters@),
            ),
            self.filters@.len() > 0 && self.label is None ==> (r matches Err(HelixiteError::IndexNotFound(msg))
                && msg@ == "property filter requires a label"@),
            r is Ok && self.filters@.len() > 0 ==> (self.label matches Some(l) && forall|i: int|
                0 <= i < self.filters@.len() ==> #[trigger] txn.contents().contains_key(
                    (Db::Metadata, registration_key(NODE_TAG, encode_utf8(l@), encode_utf8(self.filters@[i].0@))),
                )),
            txn.infallible() && crate::query::single::query_fits(self.label, self.filters@) && (self.label matches Some(l) && exists|i: int|
                0 <= i < self.filters@.len() && !(#[trigger] txn.contents().contains_key(
                    (Db::Metadata, registration_key(NODE_TAG, encode_utf8(l@), encode_utf8(self.filters@[i].0@))),
                ))) ==> r matches Err(HelixiteError::IndexNotFound(_)),
            txn.infallible() && query_reads(txn.contents(), self.label, self.filters@) ==> r is Ok,
    {
        let ghost m = txn.contents();
        let ghost ok = txn.infallible() && query_reads(m, self.label, self.filters@);
        if !crate::query::single::query_fits_check(&self.label, &self.filters) {
            if self.filters.len() > 0 && self.label.is_none() {
                return Err(HelixiteError::IndexNotFound("property filter requires a label".to_owned()));
            }
            return Err(HelixiteError::Storage("label or property too large to store".to_owned()));
        }
        if self.filters.len() == 0 {
            return match &self.label {
                Some(label) => scan_label_ids(txn, label.as_str()),
                None => scan_record_ids(txn, Db::Nodes),
            };
        }
        let label = match &self.label {
            Some(l) => l.as_str(),
            None => {
                return Err(HelixiteError::IndexNotFound("property filter requires a label".to_owned()));
            },
        };
        let ghost fv = filters_view(self.filters@);
        let mut i: usize = 0;
        while i < self.filters.len()
            invariant
                i <= self.filters@.len(),
                fits(label),
                self.label matches Some(l) && l@ == label@,
                m == txn.contents(),
                forall|j: int| 0 <= j < self.filters@.len() ==> encode_utf8((#[trigger] self.filters@[j]).0@).len() <= u32::MAX && value_fits(self.filters@[j].1@),
                forall|j: int| 0 <= j < i ==> #[trigger] m.contains_key(
                    (Db::Metadata, registration_key(NODE_TAG, encode_utf8(label@), encode_utf8(self.filters@[j].0@))),
                ),
                ok == (txn.infallible() && query_reads(m, self.label, self.filters@)),
            decreases self.filters@.len() - i,
        {
            let property = self.filters[i].0.as_str();
            proof {
                assert(encode_utf8(self.filters@[i as int].0@).len() <= u32::MAX);
                if ok {
                    assert(m.contains_key(
                        (Db::Metadata, registration_key(NODE_TAG, encode_utf8(label@), encode_utf8(self.filters@[i as int].0@))),
                    ));
                }
            }
            let key = PropertyIndexMetadata::node_key(label, property);
            if txn.get(Db::Metadata, key.as_slice())?.is_none() {
                return Err(HelixiteError::IndexNotFound(join4("no property index for ", label, "::", property)));
            }
            i = i + 1;
        }
        proof {
            assert(encode_utf8(self.filters@[0].0@).len() <= u32::MAX && value_fits(self.filters@[0].1@));
            if ok {
                assert(property_keys_read(m, value_prefix_of(NODE_TAG, encode_utf8(label@), encode_utf8(self.filters@[0].0@), self.filters@[0].1@)));
            }
        }
        let mut result = scan_property_ids(txn, label, self.filters[0].0.as_str(), &self.filters[0].1)?;
        proof {
            assert(fv[0] == (self.filters@[0].0@, self.filters@[0].1@));
            assert(node_filters_set(m, label@, fv.subrange(0, 1)) == node_filter_set(m, label@, fv[0]));
        }
        let mut k: usize = 1;
        while k < self.filters.len()
            invariant
                1 <= k <= self.filters@.len(),
                m == txn.contents(),
                self.label matches Some(l) && l@ == label@,
                forall|j: int| 0 <= j < self.filters@.len() ==> #[trigger] m.contains_key(
                    (Db::Metadata, registration_key(NODE_TAG, encode_utf8(label@), encode_utf8(self.filters@[j].0@))),
                ),
                fits(label),
                fv == filters_view(self.filters@),
                forall|j: int| 0 <= j < self.filters@.len() ==> encode_utf8((#[trigger] self.filters@[j]).0@).len() <= u32::MAX && value_fits(self.filters@[j].1@),
                ascending(result@),
                result@.to_set() == node_filters_set(m, label@, fv.subrange(0, k as int)),
                ok == (txn.infallible() && query_reads(m, self.label, self.filters@)),
            decreases self.filters@.len() - k,
        {
            proof {
                if ok {
                    assert(property_keys_read(m, value_prefix_of(NODE_TAG, encode_utf8(label@), encode_utf8(self.filters@[k as int].0@), self.filters@[k as int].1@)));
                }
            }
            let next = scan_property_ids(txn, label, self.filters[k].0.as_str(), &self.filters[k].1)?;
            let ghost pre = result@;
            result = retain_in(&result, &next);
            proof {
                lemma_keep_in(pre, next@);
                let sub = fv.subrange(0, k + 1);
                assert(sub.drop_last() =~= fv.subrange(0, k as int));
                assert(sub.last() == fv[k as int]);
                assert(fv[k as int] == (self.filters@[k as int].0@, self.filters@[k as int].1@));
                assert(result@.to_set() =~= node_filters_set(m, label@, sub));
            }
            k = k + 1;
        }
        proof {
            assert(fv.subrange(0, k as int) =~= fv);
        }
        let labelled = scan_label_ids(txn, label)?;
        let ghost pre = result@;
        let ids = retain_in(&result, &labelled);
        proof {
            lemma_keep_in(pre, labelled@);
            assert(ids@.to_set() =~= node_filters_set(m, label@, fv).intersect(label_ids(m, label@)));
        }
        Ok(ids)
    }

    /// The ascending ids of the matching nodes, in one read transaction.
    pub fn ids(self) -> (r: Result<Vec<NodeId>, HelixiteError>)
        ensures
            self.storage.reliable() && query_reads(self.storage.contents(), self.label, self.filters@) ==> r is Ok,
            self.storage.reliable() && self.filters@.len() > 0 && self.label is None ==> (r matches Err(HelixiteError::IndexNotFound(msg))
                && msg@ == "property filter requires a label"@),
            r matches Ok(ids) ==> ascending(ids@) && ids@.to_set() == matched_ids(
                self.storage.contents(),
                crate::query::single::label_view(self.label),
                filters_view(self.filters@),
            ),
            r is Ok && self.filters@.len() > 0 ==> (self.label matches Some(l) && forall|i: int|
                0 <= i < self.filters@.len() ==> #[trigger] self.storage.contents().contains_key(
                    (Db::Metadata, registration_key(NODE_TAG, encode_utf8(l@), encode_utf8(self.filters@[i].0@))),
                )),
    {
        let txn = self.storage.read_txn()?;
        self.resolve_ordered_ids(&txn)
    }

    /// The matching nodes, in ascending id order, in one read transaction.
    pub fn collect(self) -> (r: Result<Vec<Node>, HelixiteError>)
        ensures
            self.storage.reliable() && query_reads(self.storage.contents(), self.label, self.filters@) && (forall|id: u64|
                #[trigger] matched_ids(self.storage.contents(), crate::query::single::label_view(self.label), filters_view(self.filters@)).contains(id)
                    ==> stored_node(self.storage.contents(), id) is Some) ==> r is Ok,
            self.storage.reliable() && self.filters@.len() > 0 && self.label is None ==> (r matches Err(HelixiteError::IndexNotFound(msg))
                && msg@ == "property filter requires a label"@),
            r matches Ok(ns) ==> exists|ids: Seq<NodeId>|
                #[trigger] ascending(ids) && ids.to_set() == matched_ids(
                    self.storage.contents(),
                    crate::query::single::label_view(self.label),
                    filters_view(self.filters@),
                ) && ns@.len() == ids.len() && forall|i: int|
                    0 <= i < ids.len() ==> stored_node(self.storage.contents(), #[trigger] ids[i]) == Some(ns@[i]@),
            r is Ok && self.filters@.len() > 0 ==> (self.label matches Some(l) && forall|i: int|
                0 <= i < self.filters@.len() ==> #[trigger] self.storage.contents().contains_key(
                    (Db::Metadata, registration_key(NODE_TAG, encode_utf8(l@), encode_utf8(self.filters@[i].0@))),
                )),
    {
        let txn = self.storage.read_txn()?;
        let ids = self.resolve_ordered_ids(&txn)?;
        let ghost all_read = txn.infallible() && forall|id: u64|
            #[trigger] matched_ids(txn.contents(), crate::query::single::label_view(self.label), filters_view(self.filters@)).contains(id)
                ==> stored_node(txn.contents(), id) is Some;
        let mut out: Vec<Node> = Vec::new();
        let mut i: usize = 0;
        while i < ids.len()
            invariant
                i <= ids@.len(),
                out@.len() == i,
                forall|j: int| 0 <= j < i ==> stored_node(txn.contents(), #[trigger] ids@[j]) == Some(out@[j]@),
                ids@.to_set() == matched_ids(txn.contents(), crate::query::single::label_view(self.label), filters_view(self.filters@)),
                txn.contents() == self.storage.contents(),
                self.storage.reliable() ==> txn.infallible(),
                all_read == (txn.infallible() && forall|id: u64|
                    #[trigger] matched_ids(txn.contents(), crate::query::single::label_view(self.label), filters_view(self.filters@)).contains(id)
                        ==> stored_node(txn.contents(), id) is Some),
            decreases ids@.len() - i,
        {
            proof {
                assert(ids@.to_set().contains(ids@[i as int]));
            }
            let n = read_node(&txn, ids[i])?;
            out.push(n);
            i = i + 1;
        }
        Ok(out)
    }

    /// How many nodes match, in one read transaction.
    pub fn count(self) -> (r: Result<usize, HelixiteError>)
        ensures
            self.storage.reliable() && query_reads(self.storage.contents(), self.label, self.filters@) ==> r is Ok,
            self.storage.reliable() && self.filters@.len() > 0 && self.label is None ==> (r matches Err(HelixiteError::IndexNotFound(msg))
                && msg@ == "property filter requires a label"@),
            r matches Ok(n) ==> exists|ids: Seq<NodeId>|
                #[trigger] ascending(ids) && ids.to_set() == matched_ids(
                    self.storage.contents(),
                    crate::query::single::label_view(self.label),
                    filters_view(self.filters@),
                ) && ids.len() == n,
            r is Ok && self.filters@.len() > 0 ==> (self.label matches Some(l) && forall|i: int|
                0 <= i < self.filters@.len() ==> #[trigger] self.storage.contents().contains_key(
                    (Db::Metadata, registration_key(NODE_TAG, encode_utf8(l@), encode_utf8(self.filters@[i].0@))),
                )),
    {
        let ids = self.ids()?;
        Ok(ids.len())
    }

    /// The ids a vector search found, in its order, that the query's filters also match,
    /// at most `k` of them; without filters, the first `k` found. A search needs a label.
    pub fn retain_search_results<T: ReadTxn>(&self, txn: &T, found: Vec<NodeId>, k: usize) -> (r: Result<Vec<NodeId>, HelixiteError>)
        ensures
            self.label is None ==> (r matches Err(HelixiteError::Storage(msg)) && msg@ == "vector search requires a label"@),
            r matches Ok(ids) ==> (self.filters@.len() == 0 ==> ids@ == take_at_most(found@, k as int)),
            r matches Ok(ids) ==> (self.filters@.len() > 0 ==> exists|matched: Seq<NodeId>|
                #[trigger] ascending(matched) && matched.to_set() == matched_ids(
                    txn.contents(),
                    crate::query::single::label_view(self.label),
                    filters_view(self.filters@),
                ) && ids@ == take_at_most(keep_in(found@, matched), k as int)),
    {
        if self.label.is_none() {
            return Err(HelixiteError::Storage("vector search requires a label".to_owned()));
        }
        let kept = if self.filters.len() == 0 {
            found
        } else {
            let matched = self.resolve_ordered_ids(txn)?;
            retain_in(&found, &matched)
        };
        let ghost all = kept@;
        let mut out: Vec<NodeId> = Vec::new();
        let mut i: usize = 0;
        while i < kept.len() && i < k
            invariant
                i <= kept@.len(),
                i <= k,
                out@ == kept@.subrange(0, i as int),
            decreases kept@.len() - i,
        {
            out.push(kept[i]);
            i = i + 1;
            assert(out@ =~= kept@.subrange(0, i as int));
        }
        proof {
            if kept@.len() <= k {
                assert(out@ =~= kept@);
            }
        }
        Ok(out)
    }

    /// How many results to ask a vector search for: `k`, or ten times `k` where filters
    /// will narrow them.
    pub fn search_breadth(&self, k: usize) -> (r: usize)
        requires
            self.filters@.len() > 0 ==> 10 * k <= usize::MAX,
        ensures
            self.filters@.len() == 0 ==> r == k,
            self.filters@.len() > 0 ==> r == 10 * k,
    {
        if self.filters.len() == 0 {
            k
        } else {
            k * 10
        }
    }
}

/// Creating the node property index of (label, property) makes a lookup of a value find
/// every node of the label that holds that value under the property.
pub proof fn law_created_index_finds_nodes(m: StoreView, label: Seq<char>, property: Seq<char>, id: u64, v: ValueView)
    requires
        crate::index::property_indexes::node_target(m, label, property, id, v),
        crate::value::index_key_of(v) is Some,
        encode_utf8(label).len() <= u32::MAX,
        encode_utf8(property).len() <= u32::MAX,
        crate::value::index_key_of(v).unwrap().len() <= u32::MAX,
    ensures
        node_filter_set(
            crate::index::property_indexes::put_set(m, Db::Properties, crate::index::property_indexes::node_backfill_keys(m, label, property)),
            label,
            (property, v),
        ).contains(id),
{
    let lb = encode_utf8(label);
    let pb = encode_utf8(property);
    let vk = crate::value::index_key_of(v).unwrap();
    let k = crate::index::properties::property_key(NODE_TAG, lb, pb, vk, id);
    let t = crate::index::property_indexes::put_set(m, Db::Properties, crate::index::property_indexes::node_backfill_keys(m, label, property));
    crate::index::properties::lemma_property_key_layout(NODE_TAG, lb, pb, vk, id);
    assert(crate::index::property_indexes::node_backfill_keys(m, label, property).contains(k));
    assert(t.contains_key((Db::Properties, k)));
    let p = crate::index::properties::property_value_prefix(NODE_TAG, lb, pb, vk);
    assert(k =~= p + be64(id));
    assert(p.is_prefix_of(k));
}

/// A pair of `ps` whose (label, name) is registered and whose value is indexable has its
/// key among the keys the pairs take part with.
proof fn lemma_prop_keys_hold(reg: Set<(Seq<char>, Seq<char>)>, label: Seq<char>, id: u64, ps: crate::props::PropsView, i: int)
    requires
        0 <= i < ps.len(),
        reg.contains((label, ps[i].0)),
        crate::index::properties::property_key_of(NODE_TAG, encode_utf8(label), encode_utf8(ps[i].0), ps[i].1, id) is Some,
    ensures
        crate::index::maintain::prop_keys(NODE_TAG, reg, label, id, ps, None).contains(
            crate::index::properties::property_key_of(NODE_TAG, encode_utf8(label), encode_utf8(ps[i].0), ps[i].1, id).unwrap(),
        ),
    decreases ps.len(),
{
    let key = crate::index::properties::property_key_of(NODE_TAG, encode_utf8(label), encode_utf8(ps[i].0), ps[i].1, id).unwrap();
    let keys = crate::index::maintain::prop_keys(NODE_TAG, reg, label, id, ps, None);
    if i == ps.len() - 1 {
        assert(keys[keys.len() - 1] == key);
    } else {
        lemma_prop_keys_hold(reg, label, id, ps.drop_last(), i);
        let rest = crate::index::maintain::prop_keys(NODE_TAG, reg, label, id, ps.drop_last(), None);
        let j = choose|j: int| 0 <= j < rest.len() && rest[j] == key;
        assert(keys[j] == key);
    }
}

/// A node added with a registered property holding an indexable value is found by a
/// lookup of that value.
pub proof fn law_added_node_is_found(
    m: StoreView,
    f: StoreView,
    id: u64,
    label: Seq<char>,
    ps: crate::props::PropsView,
    reg: Set<(Seq<char>, Seq<char>)>,
    i: int,
)
    requires
        crate::txn::node_added(m, f, id, label, ps, reg),
        0 <= i < ps.len(),
        reg.contains((label, ps[i].0)),
        crate::value::index_key_of(ps[i].1) is Some,
        encode_utf8(label).len() <= u32::MAX,
        encode_utf8(ps[i].0).len() <= u32::MAX,
        crate::value::index_key_of(ps[i].1).unwrap().len() <= u32::MAX,
    ensures
        node_filter_set(f, label, ps[i]).contains(id),
{
    let lb = encode_utf8(label);
    let pb = encode_utf8(ps[i].0);
    let vk = crate::value::index_key_of(ps[i].1).unwrap();
    let k = crate::index::properties::property_key(NODE_TAG, lb, pb, vk, id);
    lemma_prop_keys_hold(reg, label, id, ps, i);
    let (nid, m1) = crate::storage::ids::id_allocation(m, crate::storage::ids::next_node_id_key()).unwrap();
    let base = m1.insert((Db::Nodes, be64(id)), crate::record::node_record(crate::node::NodeView { id, label, properties: ps }));
    let keys = crate::index::maintain::prop_keys(NODE_TAG, reg, label, id, ps, None);
    crate::storage::bulk::lemma_put_keys(
        base.insert((Db::Labels, crate::index::labels::label_key(lb, id)), Seq::empty()),
        Db::Properties,
        keys,
        (Db::Properties, k),
    );
    assert(f.contains_key((Db::Properties, k)));
    crate::index::properties::lemma_property_key_layout(NODE_TAG, lb, pb, vk, id);
    let p = crate::index::properties::property_value_prefix(NODE_TAG, lb, pb, vk);
    assert(k =~= p + be64(id));
    assert(p.is_prefix_of(k));
}

/// A node added with a label is among the nodes of that label.
pub proof fn law_added_node_has_label(m: StoreView, f: StoreView, id: u64, label: Seq<char>, ps: crate::props::PropsView, reg: Set<(Seq<char>, Seq<char>)>)
    requires
        crate::txn::node_added(m, f, id, label, ps, reg),
        encode_utf8(label).len() <= u32::MAX,
    ensures
        label_ids(f, label).contains(id),
{
    let lb = encode_utf8(label);
    let k = crate::index::labels::label_key(lb, id);
    let (nid, m1) = crate::storage::ids::id_allocation(m, crate::storage::ids::next_node_id_key()).unwrap();
    let base = m1.insert((Db::Nodes, be64(id)), crate::record::node_record(crate::node::NodeView { id, label, properties: ps }));
    let keys = crate::index::maintain::prop_keys(NODE_TAG, reg, label, id, ps, None);
    crate::storage::bulk::lemma_put_keys(base.insert((Db::Labels, k), Seq::empty()), Db::Properties, keys, (Db::Labels, k));
    assert(f.contains_key((Db::Labels, k)));
    crate::index::codec::lemma_take_field(lb, be64(id));
    crate::index::codec::lemma_take_u64(id, Seq::empty());
    assert(be64(id) + Seq::<u8>::empty() =~= be64(id));
    assert(field(lb).is_prefix_of(k));
}

} // verus!
