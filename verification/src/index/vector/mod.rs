pub mod hnsw;
pub mod keys;
pub mod links;
pub mod similarity;

use vstd::prelude::*;
use vstd::string::StringSliceAdditionalSpecFns;
use vstd::utf8::encode_utf8;

use crate::error::{join4, join5, HelixiteError};
use crate::id::NodeId;
use crate::index::codec::{be64, field};
use crate::index::edges::wrote;
use crate::index::labels::{decode_label_key, fits, LabelIndex};
use crate::index::vector::hnsw::{deleted_from_index, vector_levels_wf, Hnsw};
use crate::index::vector::keys::{
    ep_key, lnk_index_prefix, lvl_prefix, meta_bytes, meta_from_bytes, meta_key, vec_prefix,
    vector_base, VectorIndexMeta, EP_PREFIX, LNK_PREFIX, LVL_PREFIX, META_PREFIX, VEC_PREFIX,
};
use crate::index::vector::similarity::{similarity_error_message, SimilarityKind};
use crate::node::Node;
use crate::props::{get_property, props_map};
use crate::record::parse_node;
use crate::storage::bulk::{delete_prefix, remove_where};
use crate::storage::engine::{in_scan, lookup, scan_result, Db, ReadTxn, Scan, StoreView, WriteTxn};
use crate::value::{Value, ValueView};

verus! {

/// The settings of an HNSW index.
#[derive(Debug, Clone, Copy)]
pub struct HnswConfig {
    pub m: usize,
    pub ef_construction: usize,
    pub ef_search: usize,
    pub similarity: SimilarityKind,
}

impl Default for HnswConfig {
    fn default() -> (r: Self)
        ensures
            r.m == 16,
            r.ef_construction == 200,
            r.ef_search == 50,
            r.similarity == SimilarityKind::Cosine,
    {
        HnswConfig { m: 16, ef_construction: 200, ef_search: 50, similarity: SimilarityKind::Cosine }
    }
}

impl HnswConfig {
    /// The default settings, comparing by cosine similarity.
    pub fn cosine() -> (r: Self)
        ensures
            r.m == 16 && r.ef_construction == 200 && r.ef_search == 50,
            r.similarity == SimilarityKind::Cosine,
    {
        HnswConfig { similarity: SimilarityKind::Cosine, ..Self::default() }
    }

    /// The default settings, comparing by dot product.
    pub fn dot_product() -> (r: Self)
        ensures
            r.m == 16 && r.ef_construction == 200 && r.ef_search == 50,
            r.similarity == SimilarityKind::DotProduct,
    {
        HnswConfig { similarity: SimilarityKind::DotProduct, ..Self::default() }
    }

    /// The default settings, comparing by euclidean distance.
    pub fn euclidean() -> (r: Self)
        ensures
            r.m == 16 && r.ef_construction == 200 && r.ef_search == 50,
            r.similarity == SimilarityKind::Euclidean,
    {
        HnswConfig { similarity: SimilarityKind::Euclidean, ..Self::default() }
    }

    /// The default settings, comparing by a comparison of the caller's own, which no
    /// persisted index accepts.
    pub fn custom() -> (r: Self)
        ensures
            r.m == 16 && r.ef_construction == 200 && r.ef_search == 50,
            r.similarity == SimilarityKind::Custom,
    {
        HnswConfig { similarity: SimilarityKind::Custom, ..Self::default() }
    }

    /// These settings with `m` links per node.
    pub fn m(self, m: usize) -> (r: Self)
        ensures
            r == (HnswConfig { m, ..self }),
    {
        HnswConfig { m, ..self }
    }

    /// These settings with a candidate list of `ef` while building.
    pub fn ef_construction(self, ef: usize) -> (r: Self)
        ensures
            r == (HnswConfig { ef_construction: ef, ..self }),
    {
        HnswConfig { ef_construction: ef, ..self }
    }

    /// These settings with a candidate list of `ef` while searching.
    pub fn ef_search(self, ef: usize) -> (r: Self)
        ensures
            r == (HnswConfig { ef_search: ef, ..self }),
    {
        HnswConfig { ef_search: ef, ..self }
    }

    /// These settings with the comparison `s`.
    pub fn similarity(self, s: SimilarityKind) -> (r: Self)
        ensures
            r == (HnswConfig { similarity: s, ..self }),
    {
        HnswConfig { similarity: s, ..self }
    }
}

/// A vector that is to be inserted into the index of (label, property) under a node.
/// Placing a vector in the graph compares floating-point distances, which is done by
/// the caller that carries out these inserts before it commits.
#[derive(Debug)]
pub struct VectorInsert {
    pub label: String,
    pub property: String,
    pub node_id: NodeId,
    pub vector: Vec<u32>,
}

/// The content of a pending insert.
pub struct VectorInsertView {
    pub label: Seq<char>,
    pub property: Seq<char>,
    pub node_id: NodeId,
    pub vector: Seq<u32>,
}

impl View for VectorInsert {
    type V = VectorInsertView;

    open spec fn view(&self) -> VectorInsertView {
        VectorInsertView {
            label: self.label@,
            property: self.property@,
            node_id: self.node_id,
            vector: self.vector@,
        }
    }
}

/// The contents of a list of pending inserts.
pub open spec fn inserts_view(v: Seq<VectorInsert>) -> Seq<VectorInsertView> {
    v.map_values(|x: VectorInsert| x@)
}

/// The metadata of the index of (label, property) in `m`, where it is stored and well
/// formed.
pub open spec fn meta_of(m: StoreView, label: Seq<char>, property: Seq<char>) -> Option<VectorIndexMeta> {
    match lookup(m, Db::VectorIndexes, vector_base(META_PREFIX, encode_utf8(label), encode_utf8(property))) {
        Some(b) => if b.len() >= 26 {
            meta_from_bytes(b)
        } else {
            None
        },
        None => None,
    }
}

/// The index of (label, property) has metadata stored in `m`, well formed or not.
pub open spec fn has_meta(m: StoreView, label: Seq<char>, property: Seq<char>) -> bool {
    m.contains_key((Db::VectorIndexes, vector_base(META_PREFIX, encode_utf8(label), encode_utf8(property))))
}

/// A node that creating the index of (label, property) picks up: it is recorded under
/// the label in the label index, its record is stored and well formed, carries the label,
/// and holds the vector `v` under the property.
pub open spec fn backfill_target(m: StoreView, label: Seq<char>, property: Seq<char>, id: NodeId, v: Seq<u32>) -> bool {
    &&& m.contains_key((Db::Labels, field(encode_utf8(label)) + be64(id)))
    &&& lookup(m, Db::Nodes, be64(id)) matches Some(b) && parse_node(b) matches Some(n) && n.label == label
        && props_map(n.properties).contains_key(property) && props_map(n.properties)[property]
        == ValueView::Vector(v)
}

/// `t` with the inserts `ins` is what creating the index of (label, property) for
/// vectors of `dimension` components with `config` leaves of `m`: its metadata stored,
/// with no entry point, and an insert for every node of the label holding a vector under
/// the property.
pub open spec fn index_created(m: StoreView, t: StoreView, ins: Seq<VectorInsert>, label: Seq<char>, property: Seq<char>, dimension: usize, config: HnswConfig) -> bool {
    &&& config.similarity != SimilarityKind::Custom && !has_meta(m, label, property)
    &&& t == m.insert(
        (Db::VectorIndexes, vector_base(META_PREFIX, encode_utf8(label), encode_utf8(property))),
        meta_bytes(
            VectorIndexMeta {
                dimension,
                m: config.m,
                ef_construction: config.ef_construction,
                ef_search: config.ef_search,
                similarity: config.similarity,
                entry_point: None,
                max_level: 0,
            },
        ),
    )
    &&& forall|i: int|
        0 <= i < ins.len() ==> (#[trigger] ins[i])@.label == label && ins[i]@.property == property
            && backfill_target(m, label, property, ins[i].node_id, ins[i].vector@)
    &&& covers(m, label, property, ins)
}

/// Every node that creating the index of (label, property) picks up has an insert among
/// `ins`.
pub open spec fn covers(m: StoreView, label: Seq<char>, property: Seq<char>, ins: Seq<VectorInsert>) -> bool {
    forall|id: NodeId, v: Seq<u32>|
        #[trigger] backfill_target(m, label, property, id, v) ==> exists|i: int|
            0 <= i < ins.len() && ins[i].node_id == id && (#[trigger] ins[i]).vector@ == v
}

/// The contents after dropping the index of (label, property): its vectors, levels and
/// links, then its metadata and entry-point keys, are gone.
pub open spec fn index_dropped(m: StoreView, label: Seq<u8>, property: Seq<u8>) -> StoreView {
    remove_where(
        remove_where(
            remove_where(
                m,
                Db::VectorIndexes,
                |k: Seq<u8>| vector_base(VEC_PREFIX, label, property).is_prefix_of(k),
            ),
            Db::VectorIndexes,
            |k: Seq<u8>| vector_base(LVL_PREFIX, label, property).is_prefix_of(k),
        ),
        Db::VectorIndexes,
        |k: Seq<u8>| vector_base(LNK_PREFIX, label, property).is_prefix_of(k),
    ).remove((Db::VectorIndexes, vector_base(META_PREFIX, label, property))).remove(
        (Db::VectorIndexes, vector_base(EP_PREFIX, label, property)),
    )
}

/// The persisted vector indexes, one per (label, property).
pub struct VectorIndex;

impl VectorIndex {
    /// The metadata of the index of (label, property): not found where none is stored, a
    /// codec error where it is malformed.
    pub fn load_meta<T: ReadTxn>(txn: &T, label: &str, property: &str) -> (r: Result<VectorIndexMeta, HelixiteError>)
        requires
            fits(label),
            fits(property),
        ensures
            txn.infallible() && meta_of(txn.contents(), label@, property@) is Some ==> r is Ok,
            r matches Ok(meta) ==> meta_of(txn.contents(), label@, property@) == Some(meta),
            txn.infallible() && !has_meta(txn.contents(), label@, property@) ==> (r matches Err(
                HelixiteError::VectorIndexNotFound { label: l, property: p },
            ) && l@ == label@ && p@ == property@),
            txn.infallible() && has_meta(txn.contents(), label@, property@) && meta_of(
                txn.contents(),
                label@,
                property@,
            ) is None ==> r matches Err(HelixiteError::Codec(_)),
    {
        let key = meta_key(label, property);
        let bytes = match txn.get(Db::VectorIndexes, key.as_slice())? {
            Some(b) => b,
            None => {
                return Err(
                    HelixiteError::VectorIndexNotFound {
                        label: label.to_owned(),
                        property: property.to_owned(),
                    },
                );
            },
        };
        VectorIndexMeta::deserialize(bytes.as_slice())
    }

    /// Removes `node_id` from the index of (label, property), as `Hnsw::delete` does.
    pub fn delete<T: WriteTxn>(
        txn: &mut T,
        label: &str,
        property: &str,
        node_id: NodeId,
        meta: &VectorIndexMeta,
    ) -> (r: Result<(), HelixiteError>)
        requires
            fits(label),
            fits(property),
            vector_levels_wf(old(txn).contents()),
        ensures
            final(txn).infallible() == old(txn).infallible(),
            old(txn).infallible() ==> r is Ok,
            r is Ok ==> vector_levels_wf(final(txn).contents()),
            r is Ok ==> deleted_from_index(
                old(txn).contents(),
                final(txn).contents(),
                label.spec_bytes(),
                property.spec_bytes(),
                node_id,
                *meta,
            ),
            r is Ok && meta_of(old(txn).contents(), label@, property@) == Some(*meta) ==> meta_of(final(txn).contents(), label@, property@) is Some,
    {
        Hnsw::delete(txn, label, property, node_id, meta)
    }

    /// Drops the index of (label, property) with every vector, level and link it holds;
    /// not found where it has no metadata.
    pub fn drop<T: WriteTxn>(txn: &mut T, label: &str, property: &str) -> (r: Result<(), HelixiteError>)
        requires
            fits(label),
            fits(property),
        ensures
            final(txn).infallible() == old(txn).infallible(),
            old(txn).infallible() && has_meta(old(txn).contents(), label@, property@) ==> r is Ok,
            old(txn).infallible() && !has_meta(old(txn).contents(), label@, property@) ==> final(txn).contents() == old(txn).contents(),
            old(txn).infallible() && !has_meta(old(txn).contents(), label@, property@) ==> (r matches Err(
                HelixiteError::IndexNotFound(msg),
            ) && msg@ == "vector index "@ + label@ + "::"@ + property@),
            r is Ok ==> has_meta(old(txn).contents(), label@, property@) && final(txn).contents()
                == index_dropped(old(txn).contents(), label.spec_bytes(), property.spec_bytes()),
    {
        if txn.get(Db::VectorIndexes, meta_key(label, property).as_slice())?.is_none() {
            return Err(HelixiteError::IndexNotFound(join4("vector index ", label, "::", property)));
        }
        delete_prefix(txn, Db::VectorIndexes, vec_prefix(label, property))?;
        delete_prefix(txn, Db::VectorIndexes, lvl_prefix(label, property))?;
        delete_prefix(txn, Db::VectorIndexes, lnk_index_prefix(label, property))?;
        txn.delete(Db::VectorIndexes, meta_key(label, property).as_slice())?;
        txn.delete(Db::VectorIndexes, ep_key(label, property).as_slice())?;
        Ok(())
    }

    /// Creates the index of (label, property) for vectors of `dimension` components:
    /// stores its metadata, with no entry point, and gives back the inserts that bring
    /// every node of the label holding a vector under the property into it. A custom
    /// comparison cannot be persisted; an index that exists already is a duplicate.
    pub fn create<T: WriteTxn>(
        txn: &mut T,
        label: &str,
        property: &str,
        dimension: usize,
        config: HnswConfig,
    ) -> (r: Result<Vec<VectorInsert>, HelixiteError>)
        requires
            fits(label),
            fits(property),
        ensures
            final(txn).infallible() == old(txn).infallible(),
            config.similarity == SimilarityKind::Custom ==> (r matches Err(HelixiteError::Codec(msg))
                && msg@ == "custom similarity cannot be used with persisted indexes"@),
            config.similarity != SimilarityKind::Custom && old(txn).infallible() && has_meta(
                old(txn).contents(),
                label@,
                property@,
            ) ==> (r matches Err(HelixiteError::DuplicateKey(msg)) && msg@ == "vector index "@
                + label@ + "::"@ + property@ + " already exists"@),
            r is Ok ==> config.similarity != SimilarityKind::Custom && !has_meta(
                old(txn).contents(),
                label@,
                property@,
            ),
            r is Ok ==> final(txn).contents() == old(txn).contents().insert(
                (Db::VectorIndexes, vector_base(META_PREFIX, label.spec_bytes(), property.spec_bytes())),
                meta_bytes(
                    VectorIndexMeta {
                        dimension,
                        m: config.m,
                        ef_construction: config.ef_construction,
                        ef_search: config.ef_search,
                        similarity: config.similarity,
                        entry_point: None,
                        max_level: 0,
                    },
                ),
            ),
            r matches Ok(ins) ==> forall|i: int|
                0 <= i < ins@.len() ==> (#[trigger] ins@[i])@.label == label@ && ins@[i]@.property
                    == property@ && backfill_target(
                    old(txn).contents(),
                    label@,
                    property@,
                    ins@[i].node_id,
                    ins@[i].vector@,
                ),
            r matches Ok(ins) ==> covers(old(txn).contents(), label@, property@, ins@),
            config.similarity != SimilarityKind::Custom && old(txn).infallible() && !has_meta(old(txn).contents(), label@, property@)
                && crate::index::property_indexes::labeled_records_read(old(txn).contents(), label@) ==> r is Ok,
            config.similarity != SimilarityKind::Custom && old(txn).infallible() && has_meta(old(txn).contents(), label@, property@)
                ==> final(txn).contents() == old(txn).contents(),
    {
        if config.similarity == SimilarityKind::Custom {
            return Err(HelixiteError::Codec("custom similarity cannot be used with persisted indexes".to_owned()));
        }
        let ghost m = txn.contents();
        let key = meta_key(label, property);
        if txn.get(Db::VectorIndexes, key.as_slice())?.is_some() {
            return Err(HelixiteError::DuplicateKey(join5("vector index ", label, "::", property, " already exists")));
        }
        let meta = VectorIndexMeta {
            dimension,
            m: config.m,
            ef_construction: config.ef_construction,
            ef_search: config.ef_search,
            similarity: config.similarity,
            entry_point: None,
            max_level: 0,
        };
        let bytes = meta.serialize();
        txn.put(Db::VectorIndexes, key.as_slice(), bytes.as_slice())?;
        proof {
            if crate::index::property_indexes::labeled_records_read(m, label@) {
                let t = txn.contents();
                assert forall|id: u64|
                    #[trigger] t.contains_key((Db::Labels, field(encode_utf8(label@)) + be64(id))) implies match lookup(t, Db::Nodes, be64(id)) {
                        Some(b) => parse_node(b) is Some,
                        None => true,
                    } by {
                    assert(m.contains_key((Db::Labels, field(encode_utf8(label@)) + be64(id))));
                    assert(lookup(t, Db::Nodes, be64(id)) == lookup(m, Db::Nodes, be64(id)));
                }
            }
        }
        let ins = Self::backfill(txn, label, property)?;
        proof {
            assert forall|id: NodeId, v: Seq<u32>|
                #[trigger] backfill_target(m, label@, property@, id, v) == backfill_target(
                    txn.contents(),
                    label@,
                    property@,
                    id,
                    v,
                ) by {
                assert(lookup(m, Db::Nodes, be64(id)) == lookup(txn.contents(), Db::Nodes, be64(id)));
                assert(m.contains_key((Db::Labels, field(encode_utf8(label@)) + be64(id)))
                    == txn.contents().contains_key((Db::Labels, field(encode_utf8(label@)) + be64(id))));
            }
        }
        Ok(ins)
    }

    /// The inserts that bring every node of `label` holding a vector under `property`
    /// into its index; a codec error where a record of the label is malformed.
    fn backfill<T: WriteTxn>(txn: &T, label: &str, property: &str) -> (r: Result<Vec<VectorInsert>, HelixiteError>)
        requires
            fits(label),
            fits(property),
        ensures
            txn.infallible() && crate::index::property_indexes::labeled_records_read(txn.contents(), label@) ==> r is Ok,
            r matches Ok(ins) ==> forall|i: int|
                0 <= i < ins@.len() ==> (#[trigger] ins@[i])@.label == label@ && ins@[i]@.property
                    == property@ && backfill_target(txn.contents(), label@, property@, ins@[i].node_id, ins@[i].vector@),
            r matches Ok(ins) ==> covers(txn.contents(), label@, property@, ins@),
    {
        let ghost m = txn.contents();
        let prefix = LabelIndex::prefix(label);
        let ghost p = prefix@;
        let scan = Scan::Prefix(prefix);
        let entries = txn.scan(Db::Labels, &scan, None)?;
        let mut out: Vec<VectorInsert> = Vec::new();
        let mut i: usize = 0;
        while i < entries.len()
            invariant
                i <= entries@.len(),
                fits(label),
                fits(property),
                m == txn.contents(),
                p == field(encode_utf8(label@)),
                scan_result(m, Db::Labels, scan, None, entries@),
                scan matches Scan::Prefix(q) && q@ == p,
                forall|j: int|
                    0 <= j < out@.len() ==> (#[trigger] out@[j])@.label == label@ && out@[j]@.property
                        == property@ && backfill_target(m, label@, property@, out@[j].node_id, out@[j].vector@),
                forall|j: int, id: NodeId, v: Seq<u32>|
                    0 <= j < i && (#[trigger] entries@[j]).key@ == field(encode_utf8(label@)) + be64(id)
                        && #[trigger] backfill_target(m, label@, property@, id, v) ==> exists|x: int|
                        0 <= x < out@.len() && out@[x].node_id == id && (#[trigger] out@[x]).vector@ == v,
            decreases entries@.len() - i,
        {
            let ghost ki = entries@[i as int].key@;
            let ghost pre = out@;
            if let Some(node_id) = LabelIndex::decode_node_id(entries[i].key.as_slice()) {
                let id_key = crate::index::codec::u64_to_be_bytes(node_id);
                if let Some(node_bytes) = txn.get(Db::Nodes, id_key.as_slice())? {
                    let node = match Node::from_record(node_bytes.as_slice()) {
                        Some(n) => n,
                        None => {
                            proof {
                                assert(m.contains_key((Db::Labels, ki)));
                                crate::index::labels::lemma_label_key_shape(encode_utf8(label@), ki, node_id);
                                assert(m.contains_key((Db::Labels, field(encode_utf8(label@)) + be64(node_id))));
                            }
                            return Err(HelixiteError::Codec("malformed node record".to_owned()));
                        },
                    };
                    if crate::value::str_eq(node.label.as_str(), label) {
                        if let Some(value) = get_property(&node.properties, property) {
                            if let Value::Vector(vector) = value {
                                let ins = VectorInsert {
                                    label: label.to_owned(),
                                    property: property.to_owned(),
                                    node_id,
                                    vector: vstd::slice::slice_to_vec(vector.as_slice()),
                                };
                                out.push(ins);
                                proof {
                                    assert(m.contains_key((Db::Labels, ki)));
                                    crate::index::labels::lemma_label_key_shape(encode_utf8(label@), ki, node_id);
                                    assert(out@[out@.len() - 1]@.vector == vector@);
                                }
                            }
                        }
                    }
                }
            }
            proof {
                assert forall|j: int|
                    0 <= j < out@.len() implies (#[trigger] out@[j])@.label == label@ && out@[j]@.property
                        == property@ && backfill_target(m, label@, property@, out@[j].node_id, out@[j].vector@) by {
                    if j < pre.len() {
                        assert(out@[j] == pre[j]);
                    }
                }
                assert forall|j: int, id: NodeId, v: Seq<u32>|
                    0 <= j < i + 1 && (#[trigger] entries@[j]).key@ == field(encode_utf8(label@)) + be64(id)
                        && #[trigger] backfill_target(m, label@, property@, id, v) implies exists|x: int|
                        0 <= x < out@.len() && out@[x].node_id == id && (#[trigger] out@[x]).vector@ == v by {
                    if j < i {
                        let x = choose|x: int| 0 <= x < pre.len() && pre[x].node_id == id && (#[trigger] pre[x]).vector@ == v;
                        assert(out@[x] == pre[x]);
                    } else {
                        crate::index::labels::law_label_key_roundtrip(encode_utf8(label@), id);
                        let x = out@.len() - 1;
                        assert(out@[x].node_id == id && out@[x].vector@ == v);
                    }
                }
            }
            i = i + 1;
        }
        proof {
            assert forall|id: NodeId, v: Seq<u32>|
                #[trigger] backfill_target(txn.contents(), label@, property@, id, v) implies exists|x: int|
                    0 <= x < out@.len() && out@[x].node_id == id && (#[trigger] out@[x]).vector@ == v by {
                let k = field(encode_utf8(label@)) + be64(id);
                assert(m.contains_key((Db::Labels, k)));
                assert(p.is_prefix_of(k));
                let j = choose|j: int| 0 <= j < entries@.len() && entries@[j].key@ == k;
                assert(entries@[j].key@ == field(encode_utf8(label@)) + be64(id));
            }
            assert(covers(txn.contents(), label@, property@, out@));
        }
        Ok(out)
    }
}

} // verus!
