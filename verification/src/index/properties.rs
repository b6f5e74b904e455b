use vstd::prelude::*;
use vstd::string::StringSliceAdditionalSpecFns;
use vstd::utf8::{decode_utf8, encode_utf8, valid_utf8};

use crate::error::HelixiteError;
use crate::id::{EdgeId, NodeId};
use crate::index::codec::{
    be64, field, opt_view, lemma_take_field, lemma_take_u64, lemma_take_u8, take_field, take_u64, take_u8,
    KeyBuilder, KeyReader,
};
use crate::index::labels::fits;
use crate::storage::engine::{scan_result, Db, Entry, ReadTxn, Scan, StoreView};
use crate::value::{
    decode_index_bytes, index_key_of, string_from_utf8, IndexedValue, IndexedValueView, Value,
    ValueView,
};

verus! {

/// The tag byte of node property index keys and registrations.
pub const NODE_TAG: u8 = 0;

/// The tag byte of edge property index keys and registrations.
pub const EDGE_TAG: u8 = 1;

/// A value has an index key short enough to stand as a key field, or none at all.
pub open spec fn value_fits(v: ValueView) -> bool {
    index_key_of(v) matches Some(k) ==> k.len() <= u32::MAX
}

/// A property index key: the tag, the label and property as fields, the value's index
/// key as a field, the id.
pub open spec fn property_key(tag: u8, label: Seq<u8>, property: Seq<u8>, value_key: Seq<u8>, id: u64) -> Seq<u8> {
    seq![tag] + field(label) + field(property) + field(value_key) + be64(id)
}

/// The prefix shared by the keys of one value of one indexed property.
pub open spec fn property_value_prefix(tag: u8, label: Seq<u8>, property: Seq<u8>, value_key: Seq<u8>) -> Seq<u8> {
    seq![tag] + field(label) + field(property) + field(value_key)
}

/// The key under which a property index is registered, and the prefix of its entries.
pub open spec fn registration_key(tag: u8, label: Seq<u8>, property: Seq<u8>) -> Seq<u8> {
    seq![tag] + field(label) + field(property)
}

/// The key a property index holds for an id with a value, where the value is indexable.
pub open spec fn property_key_of(tag: u8, label: Seq<u8>, property: Seq<u8>, value: ValueView, id: u64) -> Option<Seq<u8>> {
    match index_key_of(value) {
        Some(vk) => Some(property_key(tag, label, property, vk, id)),
        None => None,
    }
}

/// The prefix of the keys of one value of one indexed property, where the value is
/// indexable.
pub open spec fn value_prefix_of(tag: u8, label: Seq<u8>, property: Seq<u8>, value: ValueView) -> Option<Seq<u8>> {
    match index_key_of(value) {
        Some(vk) => Some(property_value_prefix(tag, label, property, vk)),
        None => None,
    }
}

/// The contents of an optional indexed value.
pub open spec fn opt_ivview(o: Option<IndexedValue>) -> Option<IndexedValueView> {
    match o {
        Some(v) => Some(v@),
        None => None,
    }
}

/// The id that a property index key holds, if it is well formed.
pub open spec fn decode_property_key(k: Seq<u8>) -> Option<u64> {
    match take_u8(k) {
        None => None,
        Some((_, r0)) => match take_field(r0) {
            None => None,
            Some((_, r1)) => match take_field(r1) {
                None => None,
                Some((_, r2)) => match take_field(r2) {
                    None => None,
                    Some((_, r3)) => match take_u64(r3) {
                        None => None,
                        Some((id, end)) => if end.len() == 0 {
                            Some(id)
                        } else {
                            None
                        },
                    },
                },
            },
        },
    }
}

/// The value that a property index key holds, if that part of it is well formed.
pub open spec fn decode_property_value(k: Seq<u8>) -> Option<IndexedValueView> {
    match take_u8(k) {
        None => None,
        Some((_, r0)) => match take_field(r0) {
            None => None,
            Some((_, r1)) => match take_field(r1) {
                None => None,
                Some((_, r2)) => match take_field(r2) {
                    None => None,
                    Some((vk, _)) => decode_index_bytes(vk),
                },
            },
        },
    }
}

/// The label and property that a registration key names, if it is well formed.
pub open spec fn decode_registration(k: Seq<u8>) -> Option<(Seq<char>, Seq<char>)> {
    match take_u8(k) {
        None => None,
        Some((_, r0)) => match take_field(r0) {
            None => None,
            Some((l, r1)) => match take_field(r1) {
                None => None,
                Some((p, end)) => if valid_utf8(l) && valid_utf8(p) && end.len() == 0 {
                    Some((decode_utf8(l), decode_utf8(p)))
                } else {
                    None
                },
            },
        },
    }
}

pub(crate) fn build_property_key(tag: u8, label: &str, property: &str, value: &Value, id: u64) -> (r: Option<Vec<u8>>)
    requires
        fits(label),
        fits(property),
        value_fits(value@),
    ensures
        opt_view(r) == property_key_of(tag, label.spec_bytes(), property.spec_bytes(), value@, id),
{
    let value_bytes = value.to_index_key()?;
    let r = KeyBuilder::new().u8(tag).str(label).str(property).bytes(value_bytes.as_slice()).u64(id).finish();
    assert(r@ =~= property_key(tag, label.spec_bytes(), property.spec_bytes(), value_bytes@, id));
    Some(r)
}

fn build_value_prefix(tag: u8, label: &str, property: &str, value: &Value) -> (r: Option<Vec<u8>>)
    requires
        fits(label),
        fits(property),
        value_fits(value@),
    ensures
        opt_view(r) == value_prefix_of(tag, label.spec_bytes(), property.spec_bytes(), value@),
{
    let value_bytes = value.to_index_key()?;
    let r = KeyBuilder::new().u8(tag).str(label).str(property).bytes(value_bytes.as_slice()).finish();
    assert(r@ =~= property_value_prefix(tag, label.spec_bytes(), property.spec_bytes(), value_bytes@));
    Some(r)
}

fn build_registration_key(tag: u8, label: &str, property: &str) -> (r: Vec<u8>)
    requires
        fits(label),
        fits(property),
    ensures
        r@ == registration_key(tag, label.spec_bytes(), property.spec_bytes()),
{
    let r = KeyBuilder::new().u8(tag).str(label).str(property).finish();
    assert(r@ =~= registration_key(tag, label.spec_bytes(), property.spec_bytes()));
    r
}

fn read_property_id(key: &[u8]) -> (r: Option<u64>)
    ensures
        r == decode_property_key(key@),
{
    let mut reader = KeyReader::new(key);
    assert(reader.rest() =~= key@);
    reader.u8()?;
    reader.str()?;
    reader.str()?;
    reader.bytes()?;
    let id = reader.u64()?;
    reader.finish()?;
    Some(id)
}

fn read_property_value(key: &[u8]) -> (r: Option<IndexedValue>)
    ensures
        opt_ivview(r) == decode_property_value(key@),
{
    let mut reader = KeyReader::new(key);
    assert(reader.rest() =~= key@);
    reader.u8()?;
    reader.str()?;
    reader.str()?;
    let vb = reader.bytes()?;
    IndexedValue::from_bytes(vb)
}

/// Keys that index nodes by the values of registered properties.
pub struct NodePropertyIndex;

impl NodePropertyIndex {
    /// The index key of a node's property value; `None` where the value is not indexable.
    pub fn key(label: &str, property: &str, value: &Value, node_id: NodeId) -> (r: Option<Vec<u8>>)
        requires
            fits(label),
            fits(property),
            value_fits(value@),
        ensures
            opt_view(r) == property_key_of(NODE_TAG, label.spec_bytes(), property.spec_bytes(), value@, node_id),
    {
        build_property_key(0, label, property, value, node_id)
    }

    /// The prefix of every key of one node property index.
    pub fn index_prefix(label: &str, property: &str) -> (r: Vec<u8>)
        requires
            fits(label),
            fits(property),
        ensures
            r@ == registration_key(NODE_TAG, label.spec_bytes(), property.spec_bytes()),
    {
        build_registration_key(0, label, property)
    }

    /// The prefix of the keys of nodes whose property has `value`; `None` where the value
    /// is not indexable.
    pub fn lookup_prefix(label: &str, property: &str, value: &Value) -> (r: Option<Vec<u8>>)
        requires
            fits(label),
            fits(property),
            value_fits(value@),
        ensures
            opt_view(r) == value_prefix_of(NODE_TAG, label.spec_bytes(), property.spec_bytes(), value@),
    {
        build_value_prefix(0, label, property, value)
    }

    /// The node id an index key holds; `None` where the key is malformed.
    pub fn decode_node_id(key: &[u8]) -> (r: Option<NodeId>)
        ensures
            r == decode_property_key(key@),
    {
        read_property_id(key)
    }

    /// The value an index key holds; `None` where that part of the key is malformed.
    pub fn decode_value(key: &[u8]) -> (r: Option<IndexedValue>)
        ensures
            opt_ivview(r) == decode_property_value(key@),
    {
        read_property_value(key)
    }
}

/// Keys that index edges by the values of registered properties.
pub struct EdgePropertyIndex;

impl EdgePropertyIndex {
    /// The index key of an edge's property value; `None` where the value is not indexable.
    pub fn key(label: &str, property: &str, value: &Value, edge_id: EdgeId) -> (r: Option<Vec<u8>>)
        requires
            fits(label),
            fits(property),
            value_fits(value@),
        ensures
            opt_view(r) == property_key_of(EDGE_TAG, label.spec_bytes(), property.spec_bytes(), value@, edge_id),
    {
        build_property_key(1, label, property, value, edge_id)
    }

    /// The prefix of every key of one edge property index.
    pub fn index_prefix(label: &str, property: &str) -> (r: Vec<u8>)
        requires
            fits(label),
            fits(property),
        ensures
            r@ == registration_key(EDGE_TAG, label.spec_bytes(), property.spec_bytes()),
    {
        build_registration_key(1, label, property)
    }

    /// The prefix of the keys of edges whose property has `value`; `None` where the value
    /// is not indexable.
    pub fn lookup_prefix(label: &str, property: &str, value: &Value) -> (r: Option<Vec<u8>>)
        requires
            fits(label),
            fits(property),
            value_fits(value@),
        ensures
            opt_view(r) == value_prefix_of(EDGE_TAG, label.spec_bytes(), property.spec_bytes(), value@),
    {
        build_value_prefix(1, label, property, value)
    }

    /// The edge id an index key holds; `None` where the key is malformed.
    pub fn decode_edge_id(key: &[u8]) -> (r: Option<EdgeId>)
        ensures
            r == decode_property_key(key@),
    {
        read_property_id(key)
    }

    /// The value an index key holds; `None` where that part of the key is malformed.
    pub fn decode_value(key: &[u8]) -> (r: Option<IndexedValue>)
        ensures
            opt_ivview(r) == decode_property_value(key@),
    {
        read_property_value(key)
    }
}

/// Keys under which property indexes are registered in the metadata database.
pub struct PropertyIndexMetadata;

impl PropertyIndexMetadata {
    /// The registration key of a node property index.
    pub fn node_key(label: &str, property: &str) -> (r: Vec<u8>)
        requires
            fits(label),
            fits(property),
        ensures
            r@ == registration_key(NODE_TAG, label.spec_bytes(), property.spec_bytes()),
    {
        build_registration_key(0, label, property)
    }

    /// The registration key of an edge property index.
    pub fn edge_key(label: &str, property: &str) -> (r: Vec<u8>)
        requires
            fits(label),
            fits(property),
        ensures
            r@ == registration_key(EDGE_TAG, label.spec_bytes(), property.spec_bytes()),
    {
        build_registration_key(1, label, property)
    }

    /// The prefix of every node property index registration.
    pub fn node_prefix() -> (r: Vec<u8>)
        ensures
            r@ == seq![NODE_TAG],
    {
        let r = KeyBuilder::new().u8(0).finish();
        assert(r@ =~= seq![NODE_TAG]);
        r
    }

    /// The prefix of every edge property index registration.
    pub fn edge_prefix() -> (r: Vec<u8>)
        ensures
            r@ == seq![EDGE_TAG],
    {
        let r = KeyBuilder::new().u8(1).finish();
        assert(r@ =~= seq![EDGE_TAG]);
        r
    }

    /// The label and property a registration key names; `None` where the key is
    /// malformed or either name is not UTF-8.
    pub fn decode_label_property(key: &[u8]) -> (r: Option<(String, String)>)
        ensures
            match r {
                Some((l, p)) => decode_registration(key@) == Some((l@, p@)),
                None => decode_registration(key@) is None,
            },
    {
        let mut reader = KeyReader::new(key);
        assert(reader.rest() =~= key@);
        reader.u8()?;
        let l = reader.str()?;
        let p = reader.str()?;
        let label = string_from_utf8(vstd::slice::slice_to_vec(l));
        let property = string_from_utf8(vstd::slice::slice_to_vec(p));
        reader.finish()?;
        match (label, property) {
            (Some(label), Some(property)) => Some((label, property)),
            _ => None,
        }
    }
}

/// The (label, property) pairs registered in the metadata of `m` under keys that start
/// with `prefix`.
pub open spec fn registered_pairs(m: StoreView, prefix: Seq<u8>) -> Set<(Seq<char>, Seq<char>)> {
    Set::new(
        |lp: (Seq<char>, Seq<char>)|
            exists|k: Seq<u8>|
                #![trigger m.contains_key((Db::Metadata, k))]
                m.contains_key((Db::Metadata, k)) && prefix.is_prefix_of(k) && decode_registration(k)
                    == Some(lp),
    )
}

/// The property indexes that are registered, as (label, property) pairs.
#[derive(Debug, Clone)]
pub struct PropertyIndexRegistry {
    indexes: Vec<(String, String)>,
}

impl PropertyIndexRegistry {
    /// The registered pairs.
    pub closed spec fn pairs(&self) -> Set<(Seq<char>, Seq<char>)> {
        Set::new(
            |lp: (Seq<char>, Seq<char>)|
                exists|i: int|
                    0 <= i < self.indexes@.len() && (#[trigger] self.indexes@[i]).0@ == lp.0
                        && self.indexes@[i].1@ == lp.1,
        )
    }

    /// No index registered.
    pub fn new() -> (r: Self)
        ensures
            r.pairs() == Set::<(Seq<char>, Seq<char>)>::empty(),
    {
        let r = PropertyIndexRegistry { indexes: Vec::new() };
        assert(r.pairs() =~= Set::<(Seq<char>, Seq<char>)>::empty());
        r
    }

    /// Whether `property` of `label` is indexed.
    pub fn contains(&self, label: &str, property: &str) -> (r: bool)
        ensures
            r == self.pairs().contains((label@, property@)),
    {
        let mut i: usize = 0;
        while i < self.indexes.len()
            invariant
                i <= self.indexes@.len(),
                forall|j: int|
                    0 <= j < i ==> !((#[trigger] self.indexes@[j]).0@ == label@ && self.indexes@[j].1@
                        == property@),
            decreases self.indexes@.len() - i,
        {
            let (l, p) = &self.indexes[i];
            if crate::value::str_eq(l.as_str(), label) && crate::value::str_eq(p.as_str(), property) {
                return true;
            }
            i = i + 1;
        }
        false
    }

    /// The registered pairs, each as a label and a property.
    pub fn entries(&self) -> (r: &Vec<(String, String)>)
        ensures
            forall|lp: (Seq<char>, Seq<char>)| #[trigger] self.pairs().contains(lp) <==> exists|i: int|
                0 <= i < r@.len() && (#[trigger] r@[i]).0@ == lp.0 && r@[i].1@ == lp.1,
    {
        &self.indexes
    }

    /// Registers a pair.
    fn add(&mut self, label: String, property: String)
        ensures
            final(self).pairs() == old(self).pairs().insert((label@, property@)),
    {
        self.indexes.push((label, property));
        proof {
            let lp = (label@, property@);
            assert forall|x: (Seq<char>, Seq<char>)| #[trigger] final(self).pairs().contains(x)
                == old(self).pairs().insert(lp).contains(x) by {
                if old(self).pairs().contains(x) {
                    let i = choose|i: int|
                        0 <= i < old(self).indexes@.len() && (#[trigger] old(self).indexes@[i]).0@
                            == x.0 && old(self).indexes@[i].1@ == x.1;
                    assert(final(self).indexes@[i] == old(self).indexes@[i]);
                }
                if x == lp {
                    assert(final(self).indexes@[old(self).indexes@.len() as int].0@ == x.0);
                }
                if final(self).pairs().contains(x) {
                    let i = choose|i: int|
                        0 <= i < final(self).indexes@.len() && (#[trigger] final(self).indexes@[i]).0@
                            == x.0 && final(self).indexes@[i].1@ == x.1;
                    if i < old(self).indexes@.len() {
                        assert(final(self).indexes@[i] == old(self).indexes@[i]);
                    }
                }
            }
            assert(final(self).pairs() =~= old(self).pairs().insert(lp));
        }
    }

    /// The registered node property indexes.
    pub fn load_nodes_from_txn<T: ReadTxn>(txn: &T) -> (r: Result<Self, HelixiteError>)
        ensures
            txn.infallible() ==> r is Ok,
            r matches Ok(reg) ==> reg.pairs() == registered_pairs(txn.contents(), seq![NODE_TAG]),
    {
        Self::load_from_txn(txn, PropertyIndexMetadata::node_prefix())
    }

    /// The registered edge property indexes.
    pub fn load_edges_from_txn<T: ReadTxn>(txn: &T) -> (r: Result<Self, HelixiteError>)
        ensures
            txn.infallible() ==> r is Ok,
            r matches Ok(reg) ==> reg.pairs() == registered_pairs(txn.contents(), seq![EDGE_TAG]),
    {
        Self::load_from_txn(txn, PropertyIndexMetadata::edge_prefix())
    }

    /// The pairs registered under metadata keys starting with `prefix`.
    pub fn load_from_txn<T: ReadTxn>(txn: &T, prefix: Vec<u8>) -> (r: Result<Self, HelixiteError>)
        ensures
            txn.infallible() ==> r is Ok,
            r matches Ok(reg) ==> reg.pairs() == registered_pairs(txn.contents(), prefix@),
    {
        let scan = Scan::Prefix(prefix);
        let entries = txn.scan(Db::Metadata, &scan, None)?;
        let ghost m = txn.contents();
        let mut reg = Self::new();
        let mut i: usize = 0;
        while i < entries.len()
            invariant
                i <= entries@.len(),
                scan_result(m, Db::Metadata, scan, None, entries@),
                forall|lp: (Seq<char>, Seq<char>)|
                    #[trigger] reg.pairs().contains(lp) <==> exists|j: int|
                        0 <= j < i && decode_registration((#[trigger] entries@[j]).key@) == Some(lp),
            decreases entries@.len() - i,
        {
            let e = &entries[i];
            if let Some((label, property)) = PropertyIndexMetadata::decode_label_property(e.key.as_slice()) {
                let ghost pre = reg.pairs();
                reg.add(label, property);
                proof {
                    assert forall|lp: (Seq<char>, Seq<char>)|
                        #[trigger] reg.pairs().contains(lp) <==> exists|j: int|
                            0 <= j < i + 1 && decode_registration((#[trigger] entries@[j]).key@)
                                == Some(lp) by {
                        if reg.pairs().contains(lp) && lp != (label@, property@) {
                            let j = choose|j: int|
                                0 <= j < i && decode_registration((#[trigger] entries@[j]).key@)
                                    == Some(lp);
                        }
                    }
                }
            } else {
                proof {
                    assert forall|lp: (Seq<char>, Seq<char>)|
                        #[trigger] reg.pairs().contains(lp) <==> exists|j: int|
                            0 <= j < i + 1 && decode_registration((#[trigger] entries@[j]).key@)
                                == Some(lp) by {
                        if exists|j: int|
                            0 <= j < i + 1 && decode_registration((#[trigger] entries@[j]).key@)
                                == Some(lp) {
                            let j = choose|j: int|
                                0 <= j < i + 1 && decode_registration((#[trigger] entries@[j]).key@)
                                    == Some(lp);
                            assert(j != i);
                        }
                    }
                }
            }
            i = i + 1;
        }
        proof {
            assert forall|lp: (Seq<char>, Seq<char>)|
                #[trigger] reg.pairs().contains(lp) == registered_pairs(m, prefix@).contains(lp) by {
                if reg.pairs().contains(lp) {
                    let j = choose|j: int|
                        0 <= j < entries@.len() && decode_registration((#[trigger] entries@[j]).key@)
                            == Some(lp);
                    let k = entries@[j].key@;
                    assert(m.contains_key((Db::Metadata, k)));
                    assert(prefix@.is_prefix_of(k));
                }
                if registered_pairs(m, prefix@).contains(lp) {
                    let k = choose|k: Seq<u8>|
                        #![trigger m.contains_key((Db::Metadata, k))]
                        m.contains_key((Db::Metadata, k)) && prefix@.is_prefix_of(k)
                            && decode_registration(k) == Some(lp);
                    assert(m.contains_key((Db::Metadata, k)));
                    let j = choose|j: int| 0 <= j < entries@.len() && entries@[j].key@ == k;
                    assert(decode_registration(entries@[j].key@) == Some(lp));
                }
            }
            assert(reg.pairs() =~= registered_pairs(m, prefix@));
        }
        Ok(reg)
    }
}

/// A property index is registered exactly where its registration key is stored: the
/// registry holds the pair (label, property) iff the metadata holds the key of that pair.
pub proof fn law_registered_iff_key(m: StoreView, tag: u8, label: Seq<char>, property: Seq<char>)
    requires
        encode_utf8(label).len() <= u32::MAX,
        encode_utf8(property).len() <= u32::MAX,
    ensures
        registered_pairs(m, seq![tag]).contains((label, property)) <==> m.contains_key(
            (Db::Metadata, registration_key(tag, encode_utf8(label), encode_utf8(property))),
        ),
{
    let rk = registration_key(tag, encode_utf8(label), encode_utf8(property));
    if m.contains_key((Db::Metadata, rk)) {
        law_registration_key_roundtrip(tag, label, property);
        assert(seq![tag].is_prefix_of(rk)) by {
            assert(rk.subrange(0, 1) =~= seq![tag]);
        }
        assert(registered_pairs(m, seq![tag]).contains((label, property)));
    }
    if registered_pairs(m, seq![tag]).contains((label, property)) {
        let k = choose|k: Seq<u8>|
            #![trigger m.contains_key((Db::Metadata, k))]
            m.contains_key((Db::Metadata, k)) && seq![tag].is_prefix_of(k) && decode_registration(k)
                == Some((label, property));
        lemma_registration_inverse(k);
        assert(k[0] == seq![tag][0]);
        assert(k == rk);
    }
}

proof fn lemma_registration_inverse(k: Seq<u8>)
    requires
        decode_registration(k) is Some,
    ensures
        decode_registration(k) matches Some((l, p)) && k.len() > 0 && k == registration_key(
            k[0],
            encode_utf8(l),
            encode_utf8(p),
        ),
{
    crate::index::codec::lemma_take_u8_inverse(k);
    let (t, r0) = take_u8(k).unwrap();
    crate::index::codec::lemma_take_field_inverse(r0);
    let (lb, r1) = take_field(r0).unwrap();
    crate::index::codec::lemma_take_field_inverse(r1);
    let (pb, end) = take_field(r1).unwrap();
    vstd::utf8::decode_utf8_encode_utf8(lb);
    vstd::utf8::decode_utf8_encode_utf8(pb);
    assert(end =~= Seq::<u8>::empty());
    assert(k =~= registration_key(t, lb, pb));
}

/// A property index key gives back the id and the value it was made with, a negative
/// float zero as positive zero.
pub proof fn law_property_key_roundtrip(tag: u8, label: Seq<u8>, property: Seq<u8>, value: IndexedValueView, id: u64)
    requires
        label.len() <= u32::MAX,
        property.len() <= u32::MAX,
        crate::value::index_bytes(value).len() <= u32::MAX,
    ensures
        decode_property_key(property_key(tag, label, property, crate::value::index_bytes(value), id)) == Some(id),
        decode_property_value(property_key(tag, label, property, crate::value::index_bytes(value), id)) == Some(crate::value::canonical(value)),
{
    let vk = crate::value::index_bytes(value);
    lemma_property_key_layout(tag, label, property, vk, id);
    crate::value::lemma_index_bytes_roundtrip(value);
}

pub proof fn lemma_property_key_layout(tag: u8, l: Seq<u8>, p: Seq<u8>, vk: Seq<u8>, id: u64)
    requires
        l.len() <= u32::MAX,
        p.len() <= u32::MAX,
        vk.len() <= u32::MAX,
    ensures
        decode_property_key(property_key(tag, l, p, vk, id)) == Some(id),
        take_u8(property_key(tag, l, p, vk, id)) matches Some((_, r0)) && take_field(r0) matches Some((_, r1))
            && take_field(r1) matches Some((_, r2)) && take_field(r2) matches Some((v, _)) && v == vk,
{
    let k = property_key(tag, l, p, vk, id);
    let r3 = be64(id);
    let r2 = field(vk) + r3;
    let r1 = field(p) + r2;
    let r0 = field(l) + r1;
    assert(k =~= seq![tag] + r0);
    lemma_take_u8(tag, r0);
    lemma_take_field(l, r1);
    lemma_take_field(p, r2);
    lemma_take_field(vk, r3);
    lemma_take_u64(id, Seq::empty());
    assert(r3 + Seq::<u8>::empty() =~= r3);
    assert(take_u8(k) == Some((tag, r0)));
    assert(take_field(r0) == Some((l, r1)));
    assert(take_field(r1) == Some((p, r2)));
    assert(take_field(r2) == Some((vk, r3)));
    assert(take_u64(r3) == Some((id, Seq::<u8>::empty())));
}

/// A registration key gives back the label and property it was made with.
pub proof fn law_registration_key_roundtrip(tag: u8, label: Seq<char>, property: Seq<char>)
    requires
        encode_utf8(label).len() <= u32::MAX,
        encode_utf8(property).len() <= u32::MAX,
    ensures
        decode_registration(registration_key(tag, encode_utf8(label), encode_utf8(property))) == Some((label, property)),
{
    let l = encode_utf8(label);
    let p = encode_utf8(property);
    let rk = registration_key(tag, l, p);
    assert(rk =~= seq![tag] + (field(l) + (field(p) + Seq::empty())));
    lemma_take_u8(tag, field(l) + (field(p) + Seq::empty()));
    lemma_take_field(l, field(p) + Seq::empty());
    lemma_take_field(p, Seq::empty());
    assert(field(p) + Seq::<u8>::empty() =~= field(p));
    vstd::utf8::encode_utf8_valid_utf8(label);
    vstd::utf8::encode_utf8_valid_utf8(property);
    vstd::utf8::encode_utf8_decode_utf8(label);
    vstd::utf8::encode_utf8_decode_utf8(property);
}

} // verus!
