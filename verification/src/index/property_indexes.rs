use vstd::prelude::*;
use vstd::string::StringSliceAdditionalSpecFns;
use vstd::utf8::encode_utf8;

use crate::edge::Edge;
use crate::error::{join4, join5, HelixiteError};
use crate::index::codec::{be64, field, u64_to_be_bytes};
use crate::index::edges::wrote;
use crate::index::labels::{decode_label_key, fits, LabelIndex};
use crate::index::maintain::{other_map, prop_keys, props_key_fit, write_property_keys};
use crate::index::properties::{
    build_property_key, property_key_of, registration_key, value_fits, EdgePropertyIndex,
    NodePropertyIndex, PropertyIndexMetadata, PropertyIndexRegistry, EDGE_TAG, NODE_TAG,
};
use crate::node::Node;
use crate::props::{distinct_names, get_property, props_map, props_view};
use crate::record::{parse_edge, parse_node};
use crate::storage::bulk::{del_keys, delete_prefix, put_keys, remove_where};
use crate::storage::engine::{in_scan, lookup, scan_result, Db, ReadTxn, Scan, StoreView, WriteTxn};
use crate::value::{index_key_of, Value, ValueView};

verus! {

/// The contents with an empty value stored under every key of `db` in `s`.
pub open spec fn put_set(m: StoreView, db: Db, s: Set<Seq<u8>>) -> StoreView {
    Map::new(
        |k: (Db, Seq<u8>)| m.contains_key(k) || (k.0 == db && s.contains(k.1)),
        |k: (Db, Seq<u8>)| if k.0 == db && s.contains(k.1) {
            Seq::<u8>::empty()
        } else {
            m[k]
        },
    )
}

/// A node that creating the node property index of (label, property) picks up, with
/// the value `v` it holds: it is recorded under the label, its record reads, carries the
/// label and holds `v` under the property.
pub open spec fn node_target(m: StoreView, label: Seq<char>, property: Seq<char>, id: u64, v: ValueView) -> bool {
    &&& m.contains_key((Db::Labels, field(encode_utf8(label)) + be64(id)))
    &&& lookup(m, Db::Nodes, be64(id)) matches Some(b) && parse_node(b) matches Some(n) && n.label == label
        && props_map(n.properties).contains_key(property) && props_map(n.properties)[property] == v
}

/// Each node recorded under `label` in the label index whose record is stored has a
/// record that reads.
pub open spec fn labeled_records_read(m: StoreView, label: Seq<char>) -> bool {
    forall|id: u64|
        #[trigger] m.contains_key((Db::Labels, field(encode_utf8(label)) + be64(id))) ==> match lookup(m, Db::Nodes, be64(id)) {
            Some(b) => parse_node(b) is Some,
            None => true,
        }
}

/// Creating the node property index of (label, property) reads every node it visits:
/// the records of the label read, and each value it picks up fits an index key.
pub open spec fn node_backfill_ok(m: StoreView, label: Seq<char>, property: Seq<char>) -> bool {
    &&& labeled_records_read(m, label)
    &&& forall|id: u64, v: ValueView| #[trigger] node_target(m, label, property, id, v) ==> value_fits(v)
}

/// Creating the edge property index of (label, property) can key every value it picks
/// up.
pub open spec fn edge_backfill_ok(m: StoreView, label: Seq<char>, property: Seq<char>) -> bool {
    forall|id: u64, v: ValueView| #[trigger] edge_target(m, label, property, id, v) ==> value_fits(v)
}

/// The keys that creating the node property index of (label, property) stores.
pub open spec fn node_backfill_keys(m: StoreView, label: Seq<char>, property: Seq<char>) -> Set<Seq<u8>> {
    Set::new(
        |k: Seq<u8>|
            exists|id: u64, v: ValueView|
                #[trigger] node_target(m, label, property, id, v) && property_key_of(
                    NODE_TAG,
                    encode_utf8(label),
                    encode_utf8(property),
                    v,
                    id,
                ) == Some(k),
    )
}

/// An edge that creating the edge property index of (label, property) picks up, with the
/// value `v` it holds: some stored edge record reads, carries the label and the id, and
/// holds `v` under the property.
pub open spec fn edge_target(m: StoreView, label: Seq<char>, property: Seq<char>, id: u64, v: ValueView) -> bool {
    exists|k: Seq<u8>|
        #![trigger m.contains_key((Db::Edges, k))]
        m.contains_key((Db::Edges, k)) && edge_record_holds(m[(Db::Edges, k)], label, property, id, v)
}

/// A stored edge record reads and carries `label`.
pub open spec fn edge_record_labeled(b: Seq<u8>, label: Seq<char>) -> bool {
    match parse_edge(b) {
        Some(e) => e.label == label,
        None => false,
    }
}

/// A stored edge record reads, carries `label` and the id, and holds `v` under the
/// property.
pub open spec fn edge_record_holds(b: Seq<u8>, label: Seq<char>, property: Seq<char>, id: u64, v: ValueView) -> bool {
    match parse_edge(b) {
        Some(e) => e.label == label && e.id == id && props_map(e.properties).contains_key(property)
            && props_map(e.properties)[property] == v,
        None => false,
    }
}

/// The keys that creating the edge property index of (label, property) stores.
pub open spec fn edge_backfill_keys(m: StoreView, label: Seq<char>, property: Seq<char>) -> Set<Seq<u8>> {
    Set::new(
        |k: Seq<u8>|
            exists|id: u64, v: ValueView|
                #[trigger] edge_target(m, label, property, id, v) && property_key_of(
                    EDGE_TAG,
                    encode_utf8(label),
                    encode_utf8(property),
                    v,
                    id,
                ) == Some(k),
    )
}

/// Some node is recorded under `label`.
pub open spec fn node_label_used(m: StoreView, label: Seq<char>) -> bool {
    exists|k: Seq<u8>|
        #![trigger m.contains_key((Db::Labels, k))]
        m.contains_key((Db::Labels, k)) && field(encode_utf8(label)).is_prefix_of(k)
}

/// Some stored edge record reads and carries `label`.
pub open spec fn edge_label_used(m: StoreView, label: Seq<char>) -> bool {
    exists|k: Seq<u8>|
        #![trigger m.contains_key((Db::Edges, k))]
        m.contains_key((Db::Edges, k)) && edge_record_labeled(m[(Db::Edges, k)], label)
}

/// Whether a value's index key is short enough to stand as a key field.
pub fn index_key_fits(v: &Value) -> (r: bool)
    ensures
        r == value_fits(v@),
{
    match v {
        Value::String(s) => {
            let n = s.as_str().as_bytes().len();
            proof {
                assert(n == encode_utf8(s@).len());
                assert((seq![0u8] + encode_utf8(s@)).len() == 1 + encode_utf8(s@).len());
            }
            n < 0xffff_ffffusize
        },
        Value::Bytes(b) => b.len() < 0xffff_ffffusize,
        _ => true,
    }
}

/// Whether some node is recorded under `label`.
pub fn node_label_exists<T: ReadTxn>(txn: &T, label: &str) -> (r: Result<bool, HelixiteError>)
    requires
        fits(label),
    ensures
        txn.infallible() ==> r is Ok,
        r matches Ok(b) ==> b == node_label_used(txn.contents(), label@),
{
    let ghost m = txn.contents();
    let prefix = LabelIndex::prefix(label);
    let ghost p = prefix@;
    let scan = Scan::Prefix(prefix);
    let entries = txn.scan(Db::Labels, &scan, Some(1))?;
    proof {
        if entries@.len() > 0 {
            assert(m.contains_key((Db::Labels, entries@[0].key@)));
            assert(in_scan(scan, entries@[0].key@));
        }
        if node_label_used(m, label@) {
            let k = choose|k: Seq<u8>|
                #![trigger m.contains_key((Db::Labels, k))]
                m.contains_key((Db::Labels, k)) && field(encode_utf8(label@)).is_prefix_of(k);
            assert(m.contains_key((Db::Labels, k)));
            if entries@.len() == 0 {
                assert(in_scan(scan, k));
            }
        }
    }
    Ok(entries.len() > 0)
}

/// Whether some stored edge record reads and carries `label`.
pub fn edge_label_exists<T: ReadTxn>(txn: &T, label: &str) -> (r: Result<bool, HelixiteError>)
    ensures
        txn.infallible() ==> r is Ok,
        r matches Ok(b) ==> b == edge_label_used(txn.contents(), label@),
{
    let ghost m = txn.contents();
    let scan = Scan::All;
    let entries = txn.scan(Db::Edges, &scan, None)?;
    let mut i: usize = 0;
    while i < entries.len()
        invariant
            i <= entries@.len(),
            m == txn.contents(),
            scan == Scan::All,
            scan_result(m, Db::Edges, scan, None, entries@),
            forall|j: int|
                0 <= j < i ==> !edge_record_labeled((#[trigger] entries@[j]).value@, label@),
        decreases entries@.len() - i,
    {
        if let Some(edge) = Edge::from_record(entries[i].value.as_slice()) {
            if crate::value::str_eq(edge.label.as_str(), label) {
                proof {
                    let k = entries@[i as int].key@;
                    assert(m.contains_key((Db::Edges, k)));
                    assert(m[(Db::Edges, k)] == entries@[i as int].value@);
                }
                return Ok(true);
            }
        }
        i = i + 1;
    }
    proof {
        if edge_label_used(m, label@) {
            let k = choose|k: Seq<u8>|
                #![trigger m.contains_key((Db::Edges, k))]
                m.contains_key((Db::Edges, k)) && edge_record_labeled(m[(Db::Edges, k)], label@);
            assert(m.contains_key((Db::Edges, k)));
            let j = choose|j: int| 0 <= j < entries@.len() && entries@[j].key@ == k;
            assert(entries@[j].value@ == m[(Db::Edges, k)]);
        }
    }
    Ok(false)
}

/// The maintenance of node property indexes.
pub struct NodePropertyIndexes;

impl NodePropertyIndexes {
    /// Creates the node property index of (label, property): the label must be in use,
    /// the index must not exist yet; the keys of every node of the label that holds the
    /// property are stored, then the registration.
    pub fn create<T: WriteTxn>(txn: &mut T, label: &str, property: &str) -> (r: Result<(), HelixiteError>)
        requires
            fits(label),
            fits(property),
        ensures
            final(txn).infallible() == old(txn).infallible(),
            old(txn).infallible() && !node_label_used(old(txn).contents(), label@) ==> (r matches Err(
                HelixiteError::LabelNotFound(l),
            ) && l@ == label@),
            old(txn).infallible() && node_label_used(old(txn).contents(), label@) && old(txn).contents().contains_key(
                (Db::Metadata, registration_key(NODE_TAG, label.spec_bytes(), property.spec_bytes())),
            ) ==> (r matches Err(HelixiteError::DuplicateKey(msg)) && msg@ == "node property index "@
                + label@ + "::"@ + property@ + " already exists"@),
            old(txn).infallible() && !(node_label_used(old(txn).contents(), label@) && !old(txn).contents().contains_key(
                (Db::Metadata, registration_key(NODE_TAG, label.spec_bytes(), property.spec_bytes())),
            )) ==> final(txn).contents() == old(txn).contents(),
            old(txn).infallible() && node_label_used(old(txn).contents(), label@) && !old(txn).contents().contains_key(
                (Db::Metadata, registration_key(NODE_TAG, label.spec_bytes(), property.spec_bytes())),
            ) && node_backfill_ok(old(txn).contents(), label@, property@) ==> r is Ok,
            r is Ok ==> node_label_used(old(txn).contents(), label@) && !old(txn).contents().contains_key(
                (Db::Metadata, registration_key(NODE_TAG, label.spec_bytes(), property.spec_bytes())),
            ) && final(txn).contents() == put_set(
                old(txn).contents(),
                Db::Properties,
                node_backfill_keys(old(txn).contents(), label@, property@),
            ).insert(
                (Db::Metadata, registration_key(NODE_TAG, label.spec_bytes(), property.spec_bytes())),
                Seq::empty(),
            ),
    {
        let metadata_key = PropertyIndexMetadata::node_key(label, property);
        if !node_label_exists(txn, label)? {
            return Err(HelixiteError::LabelNotFound(label.to_owned()));
        }
        if txn.get(Db::Metadata, metadata_key.as_slice())?.is_some() {
            return Err(HelixiteError::DuplicateKey(join5("node property index ", label, "::", property, " already exists")));
        }
        Self::backfill(txn, label, property)?;
        let empty: Vec<u8> = Vec::new();
        txn.put(Db::Metadata, metadata_key.as_slice(), empty.as_slice())?;
        Ok(())
    }

    /// Drops the node property index of (label, property): its keys, then its
    /// registration; not found where it is not registered.
    pub fn drop<T: WriteTxn>(txn: &mut T, label: &str, property: &str) -> (r: Result<(), HelixiteError>)
        requires
            fits(label),
            fits(property),
        ensures
            final(txn).infallible() == old(txn).infallible(),
            old(txn).infallible() && !old(txn).contents().contains_key(
                (Db::Metadata, registration_key(NODE_TAG, label.spec_bytes(), property.spec_bytes())),
            ) ==> (r matches Err(HelixiteError::IndexNotFound(msg)) && msg@ == "node property index "@
                + label@ + "::"@ + property@),
            old(txn).infallible() && old(txn).contents().contains_key(
                (Db::Metadata, registration_key(NODE_TAG, label.spec_bytes(), property.spec_bytes())),
            ) ==> r is Ok,
            old(txn).infallible() && !old(txn).contents().contains_key(
                (Db::Metadata, registration_key(NODE_TAG, label.spec_bytes(), property.spec_bytes())),
            ) ==> final(txn).contents() == old(txn).contents(),
            r is Ok ==> old(txn).contents().contains_key(
                (Db::Metadata, registration_key(NODE_TAG, label.spec_bytes(), property.spec_bytes())),
            ) && final(txn).contents() == remove_where(
                old(txn).contents(),
                Db::Properties,
                |k: Seq<u8>| registration_key(NODE_TAG, label.spec_bytes(), property.spec_bytes()).is_prefix_of(k),
            ).remove((Db::Metadata, registration_key(NODE_TAG, label.spec_bytes(), property.spec_bytes()))),
    {
        let metadata_key = PropertyIndexMetadata::node_key(label, property);
        if txn.get(Db::Metadata, metadata_key.as_slice())?.is_none() {
            return Err(HelixiteError::IndexNotFound(join4("node property index ", label, "::", property)));
        }
        delete_prefix(txn, Db::Properties, NodePropertyIndex::index_prefix(label, property))?;
        txn.delete(Db::Metadata, metadata_key.as_slice())?;
        Ok(())
    }

    /// Removes the keys of a node's registered properties.
    pub fn delete<T: WriteTxn>(txn: &mut T, registered: &PropertyIndexRegistry, node: &Node) -> (r: Result<(), HelixiteError>)
        requires
            encode_utf8(node.label@).len() <= u32::MAX,
            props_key_fit(props_view(node.properties@)),
        ensures
            wrote(
                *old(txn),
                *final(txn),
                r,
                del_keys(
                    old(txn).contents(),
                    Db::Properties,
                    prop_keys(NODE_TAG, registered.pairs(), node.label@, node.id, props_view(node.properties@), None),
                ),
            ),
    {
        write_property_keys(txn, NODE_TAG, registered, node.label.as_str(), node.id, &node.properties, None, false)
    }

    /// Stores the keys of every node of the label that holds the property.
    fn backfill<T: WriteTxn>(txn: &mut T, label: &str, property: &str) -> (r: Result<(), HelixiteError>)
        requires
            fits(label),
            fits(property),
        ensures
            final(txn).infallible() == old(txn).infallible(),
            old(txn).infallible() && node_backfill_ok(old(txn).contents(), label@, property@) ==> r is Ok,
            r is Ok ==> final(txn).contents() == put_set(
                old(txn).contents(),
                Db::Properties,
                node_backfill_keys(old(txn).contents(), label@, property@),
            ),
    {
        let ghost m = txn.contents();
        let prefix = LabelIndex::prefix(label);
        let ghost p = prefix@;
        let scan = Scan::Prefix(prefix);
        let entries = txn.scan(Db::Labels, &scan, None)?;
        let ghost mut done: Set<Seq<u8>> = Set::empty();
        let mut i: usize = 0;
        while i < entries.len()
            invariant
                i <= entries@.len(),
                fits(label),
                fits(property),
                txn.infallible() == old(txn).infallible(),
                m == old(txn).contents(),
                p == field(encode_utf8(label@)),
                scan_result(m, Db::Labels, scan, None, entries@),
                scan matches Scan::Prefix(q) && q@ == p,
                txn.contents() == put_set(m, Db::Properties, done),
                forall|k: Seq<u8>| #[trigger] done.contains(k) ==> node_backfill_keys(m, label@, property@).contains(k),
                forall|j: int, id: u64, v: ValueView|
                    0 <= j < i && (#[trigger] entries@[j]).key@ == field(encode_utf8(label@)) + be64(id)
                        && #[trigger] node_target(m, label@, property@, id, v) ==> (property_key_of(
                        NODE_TAG,
                        encode_utf8(label@),
                        encode_utf8(property@),
                        v,
                        id,
                    ) matches Some(k) ==> done.contains(k)),
            decreases entries@.len() - i,
        {
            let ghost ki = entries@[i as int].key@;
            let ghost pre_done = done;
            if let Some(node_id) = LabelIndex::decode_node_id(entries[i].key.as_slice()) {
                proof {
                    assert(m.contains_key((Db::Labels, ki)));
                    crate::index::labels::lemma_label_key_shape(encode_utf8(label@), ki, node_id);
                }
                let id_key = u64_to_be_bytes(node_id);
                if let Some(node_bytes) = txn.get(Db::Nodes, id_key.as_slice())? {
                    proof {
                        assert(txn.contents().contains_key((Db::Nodes, be64(node_id))) ==> m.contains_key((Db::Nodes, be64(node_id))));
                        assert(lookup(m, Db::Nodes, be64(node_id)) == Some(node_bytes@));
                    }
                    let node = match Node::from_record(node_bytes.as_slice()) {
                        Some(n) => n,
                        None => {
                            proof {
                                assert(m.contains_key((Db::Labels, field(encode_utf8(label@)) + be64(node_id))));
                            }
                            return Err(HelixiteError::Codec("malformed node record".to_owned()));
                        },
                    };
                    if crate::value::str_eq(node.label.as_str(), label) {
                        if let Some(value) = get_property(&node.properties, property) {
                            if !index_key_fits(value) {
                                proof {
                                    assert(node_target(m, label@, property@, node_id, value@));
                                }
                                return Err(HelixiteError::Storage("property value too large for an index key".to_owned()));
                            }
                            if let Some(key) = build_property_key(0, label, property, value, node_id) {
                                let empty: Vec<u8> = Vec::new();
                                let ghost pre = txn.contents();
                                txn.put(Db::Properties, key.as_slice(), empty.as_slice())?;
                                proof {
                                    assert(node_target(m, label@, property@, node_id, value@));
                                    assert(node_backfill_keys(m, label@, property@).contains(key@));
                                    done = done.insert(key@);
                                    assert(txn.contents() =~= put_set(m, Db::Properties, done));
                                }
                            }
                        }
                    }
                }
            }
            proof {
                assert forall|j: int, id: u64, v: ValueView|
                    0 <= j < i + 1 && (#[trigger] entries@[j]).key@ == field(encode_utf8(label@)) + be64(id)
                        && #[trigger] node_target(m, label@, property@, id, v) implies (property_key_of(
                        NODE_TAG,
                        encode_utf8(label@),
                        encode_utf8(property@),
                        v,
                        id,
                    ) matches Some(k) ==> done.contains(k)) by {
                    if j == i {
                        crate::index::labels::law_label_key_roundtrip(encode_utf8(label@), id);
                        assert(lookup(m, Db::Nodes, be64(id)) is Some);
                    }
                }
            }
            i = i + 1;
        }
        proof {
            assert forall|k: Seq<u8>| #[trigger] node_backfill_keys(m, label@, property@).contains(k) implies done.contains(k) by {
                let (id, v) = choose|id: u64, v: ValueView|
                    #[trigger] node_target(m, label@, property@, id, v) && property_key_of(
                        NODE_TAG,
                        encode_utf8(label@),
                        encode_utf8(property@),
                        v,
                        id,
                    ) == Some(k);
                let lk = field(encode_utf8(label@)) + be64(id);
                assert(m.contains_key((Db::Labels, lk)));
                assert(p.is_prefix_of(lk));
                let j = choose|j: int| 0 <= j < entries@.len() && entries@[j].key@ == lk;
                assert(entries@[j].key@ == field(encode_utf8(label@)) + be64(id));
            }
            assert(done =~= node_backfill_keys(m, label@, property@));
        }
        Ok(())
    }
}

/// The maintenance of edge property indexes.
pub struct EdgePropertyIndexes;

impl EdgePropertyIndexes {
    /// Creates the edge property index of (label, property): some edge must carry the
    /// label, the index must not exist yet; the keys of every edge of the label that holds
    /// the property are stored, then the registration.
    pub fn create<T: WriteTxn>(txn: &mut T, label: &str, property: &str) -> (r: Result<(), HelixiteError>)
        requires
            fits(label),
            fits(property),
        ensures
            final(txn).infallible() == old(txn).infallible(),
            old(txn).infallible() && !edge_label_used(old(txn).contents(), label@) ==> (r matches Err(
                HelixiteError::LabelNotFound(l),
            ) && l@ == label@),
            old(txn).infallible() && edge_label_used(old(txn).contents(), label@) && old(txn).contents().contains_key(
                (Db::Metadata, registration_key(EDGE_TAG, label.spec_bytes(), property.spec_bytes())),
            ) ==> (r matches Err(HelixiteError::DuplicateKey(msg)) && msg@ == "edge property index "@
                + label@ + "::"@ + property@ + " already exists"@),
            old(txn).infallible() && !(edge_label_used(old(txn).contents(), label@) && !old(txn).contents().contains_key(
                (Db::Metadata, registration_key(EDGE_TAG, label.spec_bytes(), property.spec_bytes())),
            )) ==> final(txn).contents() == old(txn).contents(),
            old(txn).infallible() && edge_label_used(old(txn).contents(), label@) && !old(txn).contents().contains_key(
                (Db::Metadata, registration_key(EDGE_TAG, label.spec_bytes(), property.spec_bytes())),
            ) && edge_backfill_ok(old(txn).contents(), label@, property@) ==> r is Ok,
            r is Ok ==> edge_label_used(old(txn).contents(), label@) && !old(txn).contents().contains_key(
                (Db::Metadata, registration_key(EDGE_TAG, label.spec_bytes(), property.spec_bytes())),
            ) && final(txn).contents() == put_set(
                old(txn).contents(),
                Db::Properties,
                edge_backfill_keys(old(txn).contents(), label@, property@),
            ).insert(
                (Db::Metadata, registration_key(EDGE_TAG, label.spec_bytes(), property.spec_bytes())),
                Seq::empty(),
            ),
    {
        let metadata_key = PropertyIndexMetadata::edge_key(label, property);
        if !edge_label_exists(txn, label)? {
            return Err(HelixiteError::LabelNotFound(label.to_owned()));
        }
        if txn.get(Db::Metadata, metadata_key.as_slice())?.is_some() {
            return Err(HelixiteError::DuplicateKey(join5("edge property index ", label, "::", property, " already exists")));
        }
        Self::backfill(txn, label, property)?;
        let empty: Vec<u8> = Vec::new();
        txn.put(Db::Metadata, metadata_key.as_slice(), empty.as_slice())?;
        Ok(())
    }

    /// Drops the edge property index of (label, property): its keys, then its
    /// registration; not found where it is not registered.
    pub fn drop<T: WriteTxn>(txn: &mut T, label: &str, property: &str) -> (r: Result<(), HelixiteError>)
        requires
            fits(label),
            fits(property),
        ensures
            final(txn).infallible() == old(txn).infallible(),
            old(txn).infallible() && !old(txn).contents().contains_key(
                (Db::Metadata, registration_key(EDGE_TAG, label.spec_bytes(), property.spec_bytes())),
            ) ==> (r matches Err(HelixiteError::IndexNotFound(msg)) && msg@ == "edge property index "@
                + label@ + "::"@ + property@),
            old(txn).infallible() && old(txn).contents().contains_key(
                (Db::Metadata, registration_key(EDGE_TAG, label.spec_bytes(), property.spec_bytes())),
            ) ==> r is Ok,
            old(txn).infallible() && !old(txn).contents().contains_key(
                (Db::Metadata, registration_key(EDGE_TAG, label.spec_bytes(), property.spec_bytes())),
            ) ==> final(txn).contents() == old(txn).contents(),
            r is Ok ==> old(txn).contents().contains_key(
                (Db::Metadata, registration_key(EDGE_TAG, label.spec_bytes(), property.spec_bytes())),
            ) && final(txn).contents() == remove_where(
                old(txn).contents(),
                Db::Properties,
                |k: Seq<u8>| registration_key(EDGE_TAG, label.spec_bytes(), property.spec_bytes()).is_prefix_of(k),
            ).remove((Db::Metadata, registration_key(EDGE_TAG, label.spec_bytes(), property.spec_bytes()))),
    {
        let metadata_key = PropertyIndexMetadata::edge_key(label, property);
        if txn.get(Db::Metadata, metadata_key.as_slice())?.is_none() {
            return Err(HelixiteError::IndexNotFound(join4("edge property index ", label, "::", property)));
        }
        delete_prefix(txn, Db::Properties, EdgePropertyIndex::index_prefix(label, property))?;
        txn.delete(Db::Metadata, metadata_key.as_slice())?;
        Ok(())
    }

    /// Stores the keys of an edge's registered properties.
    pub fn insert<T: WriteTxn>(txn: &mut T, registered: &PropertyIndexRegistry, edge: &Edge) -> (r: Result<(), HelixiteError>)
        requires
            encode_utf8(edge.label@).len() <= u32::MAX,
            props_key_fit(props_view(edge.properties@)),
        ensures
            wrote(
                *old(txn),
                *final(txn),
                r,
                put_keys(
                    old(txn).contents(),
                    Db::Properties,
                    prop_keys(EDGE_TAG, registered.pairs(), edge.label@, edge.id, props_view(edge.properties@), None),
                ),
            ),
    {
        write_property_keys(txn, EDGE_TAG, registered, edge.label.as_str(), edge.id, &edge.properties, None, true)
    }

    /// Removes the keys of an edge's registered properties.
    pub fn delete<T: WriteTxn>(txn: &mut T, registered: &PropertyIndexRegistry, edge: &Edge) -> (r: Result<(), HelixiteError>)
        requires
            encode_utf8(edge.label@).len() <= u32::MAX,
            props_key_fit(props_view(edge.properties@)),
        ensures
            wrote(
                *old(txn),
                *final(txn),
                r,
                del_keys(
                    old(txn).contents(),
                    Db::Properties,
                    prop_keys(EDGE_TAG, registered.pairs(), edge.label@, edge.id, props_view(edge.properties@), None),
                ),
            ),
    {
        write_property_keys(txn, EDGE_TAG, registered, edge.label.as_str(), edge.id, &edge.properties, None, false)
    }

    /// Moves an edge's property keys from its old to its new state: under a new label
    /// every old key goes and every new one comes; under the same label only the
    /// properties whose value changed take part.
    pub fn replace<T: WriteTxn>(txn: &mut T, registered: &PropertyIndexRegistry, before: &Edge, after: &Edge) -> (r: Result<(), HelixiteError>)
        requires
            encode_utf8(before.label@).len() <= u32::MAX,
            encode_utf8(after.label@).len() <= u32::MAX,
            props_key_fit(props_view(before.properties@)),
            props_key_fit(props_view(after.properties@)),
            distinct_names(props_view(before.properties@)),
            distinct_names(props_view(after.properties@)),
        ensures
            wrote(
                *old(txn),
                *final(txn),
                r,
                edge_rekeyed(old(txn).contents(), registered.pairs(), before@, after@),
            ),
    {
        if !crate::value::str_eq(before.label.as_str(), after.label.as_str()) {
            write_property_keys(txn, EDGE_TAG, registered, before.label.as_str(), before.id, &before.properties, None, false)?;
            write_property_keys(txn, EDGE_TAG, registered, after.label.as_str(), after.id, &after.properties, None, true)
        } else {
            write_property_keys(txn, EDGE_TAG, registered, before.label.as_str(), before.id, &before.properties, Some(&after.properties), false)?;
            write_property_keys(txn, EDGE_TAG, registered, after.label.as_str(), after.id, &after.properties, Some(&before.properties), true)
        }
    }

    /// Stores the keys of every edge of the label that holds the property; records that
    /// do not read are passed over.
    fn backfill<T: WriteTxn>(txn: &mut T, label: &str, property: &str) -> (r: Result<(), HelixiteError>)
        requires
            fits(label),
            fits(property),
        ensures
            final(txn).infallible() == old(txn).infallible(),
            old(txn).infallible() && edge_backfill_ok(old(txn).contents(), label@, property@) ==> r is Ok,
            r is Ok ==> final(txn).contents() == put_set(
                old(txn).contents(),
                Db::Properties,
                edge_backfill_keys(old(txn).contents(), label@, property@),
            ),
    {
        let ghost m = txn.contents();
        let scan = Scan::All;
        let entries = txn.scan(Db::Edges, &scan, None)?;
        let ghost mut done: Set<Seq<u8>> = Set::empty();
        let mut i: usize = 0;
        while i < entries.len()
            invariant
                i <= entries@.len(),
                fits(label),
                fits(property),
                txn.infallible() == old(txn).infallible(),
                m == old(txn).contents(),
                scan == Scan::All,
                scan_result(m, Db::Edges, scan, None, entries@),
                txn.contents() == put_set(m, Db::Properties, done),
                forall|k: Seq<u8>| #[trigger] done.contains(k) ==> edge_backfill_keys(m, label@, property@).contains(k),
                forall|j: int, id: u64, v: ValueView|
                    0 <= j < i && #[trigger] edge_record_holds((#[trigger] entries@[j]).value@, label@, property@, id, v)
                        ==> (property_key_of(EDGE_TAG, encode_utf8(label@), encode_utf8(property@), v, id) matches Some(k)
                        ==> done.contains(k)),
            decreases entries@.len() - i,
        {
            let ghost ki = entries@[i as int].key@;
            let ghost bi = entries@[i as int].value@;
            proof {
                assert(m.contains_key((Db::Edges, ki)));
                assert(m[(Db::Edges, ki)] == bi);
            }
            if let Some(edge) = Edge::from_record(entries[i].value.as_slice()) {
                if crate::value::str_eq(edge.label.as_str(), label) {
                    if let Some(value) = get_property(&edge.properties, property) {
                        if !index_key_fits(value) {
                            proof {
                                assert(edge_record_holds(bi, label@, property@, edge.id, value@));
                                assert(edge_target(m, label@, property@, edge.id, value@));
                            }
                            return Err(HelixiteError::Storage("property value too large for an index key".to_owned()));
                        }
                        if let Some(key) = build_property_key(1, label, property, value, edge.id) {
                            let empty: Vec<u8> = Vec::new();
                            txn.put(Db::Properties, key.as_slice(), empty.as_slice())?;
                            proof {
                                assert(edge_record_holds(bi, label@, property@, edge.id, value@));
                                assert(edge_target(m, label@, property@, edge.id, value@));
                                assert(edge_backfill_keys(m, label@, property@).contains(key@));
                                done = done.insert(key@);
                                assert(txn.contents() =~= put_set(m, Db::Properties, done));
                            }
                        }
                    }
                }
            }
            i = i + 1;
        }
        proof {
            assert forall|k: Seq<u8>| #[trigger] edge_backfill_keys(m, label@, property@).contains(k) implies done.contains(k) by {
                let (id, v) = choose|id: u64, v: ValueView|
                    #[trigger] edge_target(m, label@, property@, id, v) && property_key_of(
                        EDGE_TAG,
                        encode_utf8(label@),
                        encode_utf8(property@),
                        v,
                        id,
                    ) == Some(k);
                let ek = choose|ek: Seq<u8>|
                    #![trigger m.contains_key((Db::Edges, ek))]
                    m.contains_key((Db::Edges, ek)) && edge_record_holds(m[(Db::Edges, ek)], label@, property@, id, v);
                assert(m.contains_key((Db::Edges, ek)));
                let j = choose|j: int| 0 <= j < entries@.len() && entries@[j].key@ == ek;
                assert(entries@[j].value@ == m[(Db::Edges, ek)]);
                assert(edge_record_holds(entries@[j].value@, label@, property@, id, v));
            }
            assert(done =~= edge_backfill_keys(m, label@, property@));
        }
        Ok(())
    }
}

/// The contents after moving an edge's property keys from `old` to `new`.
pub open spec fn edge_rekeyed(m: StoreView, reg: Set<(Seq<char>, Seq<char>)>, old: crate::edge::EdgeView, new: crate::edge::EdgeView) -> StoreView {
    if old.label != new.label {
        put_keys(
            del_keys(m, Db::Properties, prop_keys(EDGE_TAG, reg, old.label, old.id, old.properties, None)),
            Db::Properties,
            prop_keys(EDGE_TAG, reg, new.label, new.id, new.properties, None),
        )
    } else {
        put_keys(
            del_keys(
                m,
                Db::Properties,
                prop_keys(EDGE_TAG, reg, old.label, old.id, old.properties, Some(props_map(new.properties))),
            ),
            Db::Properties,
            prop_keys(EDGE_TAG, reg, new.label, new.id, new.properties, Some(props_map(old.properties))),
        )
    }
}

/// Where `keys` all lie under the registration key `reg`, storing them with the
/// registration and then removing every key under `reg` with the registration gives back
/// contents that had neither.
proof fn lemma_register_then_remove(m: StoreView, reg: Seq<u8>, keys: Set<Seq<u8>>)
    requires
        !m.contains_key((Db::Metadata, reg)),
        forall|k: Seq<u8>| #[trigger] m.contains_key((Db::Properties, k)) ==> !reg.is_prefix_of(k),
        forall|k: Seq<u8>| #[trigger] keys.contains(k) ==> reg.is_prefix_of(k),
    ensures
        remove_where(
            put_set(m, Db::Properties, keys).insert((Db::Metadata, reg), Seq::empty()),
            Db::Properties,
            |k: Seq<u8>| reg.is_prefix_of(k),
        ).remove((Db::Metadata, reg)) == m,
{
    let f = remove_where(
        put_set(m, Db::Properties, keys).insert((Db::Metadata, reg), Seq::empty()),
        Db::Properties,
        |k: Seq<u8>| reg.is_prefix_of(k),
    ).remove((Db::Metadata, reg));
    assert forall|k: (Db, Seq<u8>)| #[trigger] f.contains_key(k) == m.contains_key(k) by {
        if k.0 == Db::Properties && keys.contains(k.1) {
            assert(reg.is_prefix_of(k.1));
        }
        if m.contains_key(k) && k.0 == Db::Properties {
            assert(!reg.is_prefix_of(k.1));
        }
    }
    assert(f =~= m);
}

/// Every key that creating a property index stores lies under its registration key.
proof fn lemma_property_key_under(tag: u8, label: Seq<u8>, property: Seq<u8>, v: ValueView, id: u64)
    ensures
        property_key_of(tag, label, property, v, id) matches Some(k) ==> registration_key(tag, label, property).is_prefix_of(k),
{
    if let Some(k) = property_key_of(tag, label, property, v, id) {
        let reg = registration_key(tag, label, property);
        let vk = index_key_of(v).unwrap();
        assert(k == reg + field(vk) + be64(id));
        assert(k.subrange(0, reg.len() as int) =~= reg);
    }
}

/// Creating the node property index of (label, property) and then dropping it gives the
/// store back as it was, where the index was not registered and held no key.
pub proof fn law_node_index_create_then_drop(m: StoreView, label: Seq<char>, property: Seq<char>)
    requires
        !m.contains_key((Db::Metadata, registration_key(NODE_TAG, encode_utf8(label), encode_utf8(property)))),
        forall|k: Seq<u8>|
            #[trigger] m.contains_key((Db::Properties, k)) ==> !registration_key(NODE_TAG, encode_utf8(label), encode_utf8(property)).is_prefix_of(k),
    ensures
        remove_where(
            put_set(m, Db::Properties, node_backfill_keys(m, label, property)).insert(
                (Db::Metadata, registration_key(NODE_TAG, encode_utf8(label), encode_utf8(property))),
                Seq::empty(),
            ),
            Db::Properties,
            |k: Seq<u8>| registration_key(NODE_TAG, encode_utf8(label), encode_utf8(property)).is_prefix_of(k),
        ).remove((Db::Metadata, registration_key(NODE_TAG, encode_utf8(label), encode_utf8(property)))) == m,
{
    let reg = registration_key(NODE_TAG, encode_utf8(label), encode_utf8(property));
    let keys = node_backfill_keys(m, label, property);
    assert forall|k: Seq<u8>| #[trigger] keys.contains(k) implies reg.is_prefix_of(k) by {
        let (id, v) = choose|id: u64, v: ValueView|
            #[trigger] node_target(m, label, property, id, v) && property_key_of(NODE_TAG, encode_utf8(label), encode_utf8(property), v, id) == Some(k);
        lemma_property_key_under(NODE_TAG, encode_utf8(label), encode_utf8(property), v, id);
    }
    lemma_register_then_remove(m, reg, keys);
}

/// Creating the edge property index of (label, property) and then dropping it gives the
/// store back as it was, where the index was not registered and held no key.
pub proof fn law_edge_index_create_then_drop(m: StoreView, label: Seq<char>, property: Seq<char>)
    requires
        !m.contains_key((Db::Metadata, registration_key(EDGE_TAG, encode_utf8(label), encode_utf8(property)))),
        forall|k: Seq<u8>|
            #[trigger] m.contains_key((Db::Properties, k)) ==> !registration_key(EDGE_TAG, encode_utf8(label), encode_utf8(property)).is_prefix_of(k),
    ensures
        remove_where(
            put_set(m, Db::Properties, edge_backfill_keys(m, label, property)).insert(
                (Db::Metadata, registration_key(EDGE_TAG, encode_utf8(label), encode_utf8(property))),
                Seq::empty(),
            ),
            Db::Properties,
            |k: Seq<u8>| registration_key(EDGE_TAG, encode_utf8(label), encode_utf8(property)).is_prefix_of(k),
        ).remove((Db::Metadata, registration_key(EDGE_TAG, encode_utf8(label), encode_utf8(property)))) == m,
{
    let reg = registration_key(EDGE_TAG, encode_utf8(label), encode_utf8(property));
    let keys = edge_backfill_keys(m, label, property);
    assert forall|k: Seq<u8>| #[trigger] keys.contains(k) implies reg.is_prefix_of(k) by {
        let (id, v) = choose|id: u64, v: ValueView|
            #[trigger] edge_target(m, label, property, id, v) && property_key_of(EDGE_TAG, encode_utf8(label), encode_utf8(property), v, id) == Some(k);
        lemma_property_key_under(EDGE_TAG, encode_utf8(label), encode_utf8(property), v, id);
    }
    lemma_register_then_remove(m, reg, keys);
}

} // verus!
