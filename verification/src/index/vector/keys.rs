use vstd::prelude::*;
use vstd::string::StringSliceAdditionalSpecFns;

use crate::error::{join2, HelixiteError};
use crate::id::NodeId;
use crate::index::codec::{
    from_le32_at, from_le64_at, le32, le64, lemma_le32_roundtrip, lemma_le64_roundtrip, push_le32,
    push_le64, u32_from_le_at, u64_from_le_at,
    be64, field, lemma_take_field, lemma_take_u64, lemma_take_u8, take_field, take_u64, take_u8,
    KeyBuilder, KeyReader,
};
use crate::index::labels::fits;
use crate::index::vector::similarity::{similarity_byte, similarity_from_byte, SimilarityKind};

verus! {

/// The tag of a vector index's metadata key.
pub const META_PREFIX: u8 = 0;

/// The tag of the keys that hold indexed vectors.
pub const VEC_PREFIX: u8 = 1;

/// The tag of the keys that hold each vector's level.
pub const LVL_PREFIX: u8 = 2;

/// The tag of the keys that hold the links between vectors.
pub const LNK_PREFIX: u8 = 3;

/// The tag of the key that holds the entry point.
pub const EP_PREFIX: u8 = 4;

/// The common beginning of the keys of one vector index: a tag, then its label and
/// property as fields.
pub open spec fn vector_base(tag: u8, label: Seq<u8>, property: Seq<u8>) -> Seq<u8> {
    seq![tag] + field(label) + field(property)
}

/// The key of a link at `level` from `node` to `neighbor`.
pub open spec fn link_key(label: Seq<u8>, property: Seq<u8>, level: u8, node: u64, neighbor: u64) -> Seq<u8> {
    vector_base(LNK_PREFIX, label, property) + seq![level] + be64(node) + be64(neighbor)
}

/// The (level, node, neighbor) that a link key holds, if it is well formed.
pub open spec fn decode_link(k: Seq<u8>) -> Option<(u8, u64, u64)> {
    match take_u8(k) {
        None => None,
        Some((_, r0)) => match take_field(r0) {
            None => None,
            Some((_, r1)) => match take_field(r1) {
                None => None,
                Some((_, r2)) => match take_u8(r2) {
                    None => None,
                    Some((level, r3)) => match take_u64(r3) {
                        None => None,
                        Some((node, r4)) => match take_u64(r4) {
                            None => None,
                            Some((neighbor, end)) => if end.len() == 0 {
                                Some((level, node, neighbor))
                            } else {
                                None
                            },
                        },
                    },
                },
            },
        },
    }
}

/// The node id that a vector key holds, if it is well formed.
pub open spec fn decode_vec_node(k: Seq<u8>) -> Option<u64> {
    match take_u8(k) {
        None => None,
        Some((_, r0)) => match take_field(r0) {
            None => None,
            Some((_, r1)) => match take_field(r1) {
                None => None,
                Some((_, r2)) => match take_u64(r2) {
                    None => None,
                    Some((id, end)) => if end.len() == 0 {
                        Some(id)
                    } else {
                        None
                    },
                },
            },
        },
    }
}

fn base(tag: u8, label: &str, property: &str) -> (r: KeyBuilder)
    requires
        fits(label),
        fits(property),
    ensures
        r@ == vector_base(tag, label.spec_bytes(), property.spec_bytes()),
{
    let r = KeyBuilder::new().u8(tag).str(label).str(property);
    assert(r@ =~= vector_base(tag, label.spec_bytes(), property.spec_bytes()));
    r
}

/// The metadata key of a vector index.
pub fn meta_key(label: &str, property: &str) -> (r: Vec<u8>)
    requires
        fits(label),
        fits(property),
    ensures
        r@ == vector_base(META_PREFIX, label.spec_bytes(), property.spec_bytes()),
{
    base(0, label, property).finish()
}

/// The key that holds a node's vector.
pub fn vec_key(label: &str, property: &str, node_id: NodeId) -> (r: Vec<u8>)
    requires
        fits(label),
        fits(property),
    ensures
        r@ == vector_base(VEC_PREFIX, label.spec_bytes(), property.spec_bytes()) + be64(node_id),
{
    base(1, label, property).u64(node_id).finish()
}

/// The prefix of the keys that hold the vectors of an index.
pub fn vec_prefix(label: &str, property: &str) -> (r: Vec<u8>)
    requires
        fits(label),
        fits(property),
    ensures
        r@ == vector_base(VEC_PREFIX, label.spec_bytes(), property.spec_bytes()),
{
    base(1, label, property).finish()
}

/// The key that holds a node's level.
pub fn lvl_key(label: &str, property: &str, node_id: NodeId) -> (r: Vec<u8>)
    requires
        fits(label),
        fits(property),
    ensures
        r@ == vector_base(LVL_PREFIX, label.spec_bytes(), property.spec_bytes()) + be64(node_id),
{
    base(2, label, property).u64(node_id).finish()
}

/// The prefix of the keys that hold the levels of an index.
pub fn lvl_prefix(label: &str, property: &str) -> (r: Vec<u8>)
    requires
        fits(label),
        fits(property),
    ensures
        r@ == vector_base(LVL_PREFIX, label.spec_bytes(), property.spec_bytes()),
{
    base(2, label, property).finish()
}

/// The key of a link at `level` from `node_id` to `neighbor_id`.
pub fn lnk_key(label: &str, property: &str, level: u8, node_id: NodeId, neighbor_id: NodeId) -> (r: Vec<u8>)
    requires
        fits(label),
        fits(property),
    ensures
        r@ == link_key(label.spec_bytes(), property.spec_bytes(), level, node_id, neighbor_id),
{
    let r = base(3, label, property).u8(level).u64(node_id).u64(neighbor_id).finish();
    assert(r@ =~= link_key(label.spec_bytes(), property.spec_bytes(), level, node_id, neighbor_id));
    r
}

/// The prefix of the links at `level` from `node_id`.
pub fn lnk_prefix(label: &str, property: &str, level: u8, node_id: NodeId) -> (r: Vec<u8>)
    requires
        fits(label),
        fits(property),
    ensures
        r@ == vector_base(LNK_PREFIX, label.spec_bytes(), property.spec_bytes()) + seq![level] + be64(node_id),
{
    let r = base(3, label, property).u8(level).u64(node_id).finish();
    assert(r@ =~= vector_base(LNK_PREFIX, label.spec_bytes(), property.spec_bytes()) + seq![level] + be64(node_id));
    r
}

/// The prefix of every link at `level`.
pub fn lnk_level_prefix(label: &str, property: &str, level: u8) -> (r: Vec<u8>)
    requires
        fits(label),
        fits(property),
    ensures
        r@ == vector_base(LNK_PREFIX, label.spec_bytes(), property.spec_bytes()) + seq![level],
{
    base(3, label, property).u8(level).finish()
}

/// The prefix of every link of an index.
pub fn lnk_index_prefix(label: &str, property: &str) -> (r: Vec<u8>)
    requires
        fits(label),
        fits(property),
    ensures
        r@ == vector_base(LNK_PREFIX, label.spec_bytes(), property.spec_bytes()),
{
    base(3, label, property).finish()
}

/// The key that holds the entry point of an index.
pub fn ep_key(label: &str, property: &str) -> (r: Vec<u8>)
    requires
        fits(label),
        fits(property),
    ensures
        r@ == vector_base(EP_PREFIX, label.spec_bytes(), property.spec_bytes()),
{
    base(4, label, property).finish()
}

/// The (level, node, neighbor) a link key holds; `None` where it is malformed.
pub fn decode_link_from_lnk_key(key: &[u8]) -> (r: Option<(u8, NodeId, NodeId)>)
    ensures
        r == decode_link(key@),
{
    let mut reader = KeyReader::new(key);
    assert(reader.rest() =~= key@);
    reader.u8()?;
    reader.str()?;
    reader.str()?;
    let level = reader.u8()?;
    let node_id = reader.u64()?;
    let neighbor_id = reader.u64()?;
    reader.finish()?;
    Some((level, node_id, neighbor_id))
}

/// The node id a vector key holds; `None` where it is malformed.
pub fn decode_node_id_from_vec_key(key: &[u8]) -> (r: Option<NodeId>)
    ensures
        r == decode_vec_node(key@),
{
    let mut reader = KeyReader::new(key);
    assert(reader.rest() =~= key@);
    reader.u8()?;
    reader.str()?;
    reader.str()?;
    let id = reader.u64()?;
    reader.finish()?;
    Some(id)
}

/// The persisted settings and state of a vector index.
#[derive(Debug, Clone, Copy, PartialEq, Eq, Structural)]
pub struct VectorIndexMeta {
    pub dimension: usize,
    pub m: usize,
    pub ef_construction: usize,
    pub ef_search: usize,
    pub similarity: SimilarityKind,
    pub entry_point: Option<u64>,
    pub max_level: u8,
}

/// The persisted form of vector index metadata: the four sizes as little-endian 32-bit
/// numbers (cut to 32 bits), the comparison byte, the entry point as a little-endian
/// 64-bit number (0 for none), the top level.
pub open spec fn meta_bytes(m: VectorIndexMeta) -> Seq<u8> {
    le32(m.dimension as u32) + le32(m.m as u32) + le32(m.ef_construction as u32) + le32(
        m.ef_search as u32,
    ) + seq![similarity_byte(m.similarity)] + le64(
        match m.entry_point {
            Some(e) => e,
            None => 0,
        },
    ) + seq![m.max_level]
}

/// The metadata that persisted bytes stand for, where the comparison byte is persistable;
/// the bytes hold at least 26.
pub open spec fn meta_from_bytes(b: Seq<u8>) -> Option<VectorIndexMeta> {
    match similarity_from_byte(b[16]) {
        None => None,
        Some(similarity) => Some(
            VectorIndexMeta {
                dimension: from_le32_at(b, 0) as usize,
                m: from_le32_at(b, 4) as usize,
                ef_construction: from_le32_at(b, 8) as usize,
                ef_search: from_le32_at(b, 12) as usize,
                similarity,
                entry_point: if from_le64_at(b, 17) == 0 {
                    None
                } else {
                    Some(from_le64_at(b, 17))
                },
                max_level: b[25],
            },
        ),
    }
}

/// The persisted form of a vector: each component's 32 bits, little-endian, in order.
pub open spec fn vector_bytes(v: Seq<u32>) -> Seq<u8>
    decreases v.len(),
{
    if v.len() == 0 {
        Seq::empty()
    } else {
        vector_bytes(v.drop_last()) + le32(v.last())
    }
}

impl VectorIndexMeta {
    /// The persisted form of the metadata.
    pub fn serialize(&self) -> (r: Vec<u8>)
        ensures
            r@ == meta_bytes(*self),
    {
        let mut bytes: Vec<u8> = Vec::new();
        push_le32(&mut bytes, self.dimension as u32);
        push_le32(&mut bytes, self.m as u32);
        push_le32(&mut bytes, self.ef_construction as u32);
        push_le32(&mut bytes, self.ef_search as u32);
        bytes.push(self.similarity.to_byte());
        let ep = match self.entry_point {
            Some(e) => e,
            None => 0,
        };
        push_le64(&mut bytes, ep);
        bytes.push(self.max_level);
        assert(bytes@ =~= meta_bytes(*self));
        bytes
    }

    /// The metadata persisted bytes stand for; a codec error where fewer than 26 bytes
    /// are given or the comparison byte names no persistable comparison.
    pub fn deserialize(bytes: &[u8]) -> (r: Result<Self, HelixiteError>)
        ensures
            bytes@.len() < 26 ==> (r matches Err(HelixiteError::Codec(msg)) && msg@ == "vector index metadata too short"@),
            bytes@.len() >= 26 ==> match meta_from_bytes(bytes@) {
                Some(meta) => r == Ok::<VectorIndexMeta, HelixiteError>(meta),
                None => r matches Err(HelixiteError::Codec(msg)) && msg@ == crate::index::vector::similarity::similarity_error_message(bytes@[16]),
            },
    {
        if bytes.len() < 26 {
            return Err(HelixiteError::Codec("vector index metadata too short".to_owned()));
        }
        let dimension = u32_from_le_at(bytes, 0) as usize;
        let m = u32_from_le_at(bytes, 4) as usize;
        let ef_construction = u32_from_le_at(bytes, 8) as usize;
        let ef_search = u32_from_le_at(bytes, 12) as usize;
        let similarity = SimilarityKind::from_byte(bytes[16])?;
        let entry_point_raw = u64_from_le_at(bytes, 17);
        let entry_point = if entry_point_raw == 0 {
            None
        } else {
            Some(entry_point_raw)
        };
        let max_level = bytes[25];
        Ok(VectorIndexMeta { dimension, m, ef_construction, ef_search, similarity, entry_point, max_level })
    }
}

/// The persisted form of a vector.
pub fn serialize_vector(vector: &[u32]) -> (r: Vec<u8>)
    ensures
        r@ == vector_bytes(vector@),
{
    let mut bytes: Vec<u8> = Vec::new();
    let mut i: usize = 0;
    while i < vector.len()
        invariant
            i <= vector@.len(),
            bytes@ == vector_bytes(vector@.subrange(0, i as int)),
        decreases vector@.len() - i,
    {
        push_le32(&mut bytes, vector[i]);
        proof {
            assert(vector@.subrange(0, i + 1).drop_last() =~= vector@.subrange(0, i as int));
        }
        i = i + 1;
    }
    assert(vector@.subrange(0, vector@.len() as int) =~= vector@);
    bytes
}

/// A persisted vector holds four bytes per component.
pub proof fn lemma_vector_bytes_len(v: Seq<u32>)
    ensures
        vector_bytes(v).len() == 4 * v.len(),
    decreases v.len(),
{
    if v.len() > 0 {
        lemma_vector_bytes_len(v.drop_last());
    }
}

/// The vector persisted bytes stand for; a codec error where their number is not a
/// multiple of four.
pub fn deserialize_vector(bytes: &[u8]) -> (r: Result<Vec<u32>, HelixiteError>)
    ensures
        bytes@.len() % 4 != 0 ==> (r matches Err(HelixiteError::Codec(msg)) && msg@ == "corrupt vector data: length not multiple of 4"@),
        bytes@.len() % 4 == 0 ==> (r matches Ok(v) && vector_bytes(v@) == bytes@),
{
    if bytes.len() % 4 != 0 {
        return Err(HelixiteError::Codec("corrupt vector data: length not multiple of 4".to_owned()));
    }
    let mut vector: Vec<u32> = Vec::new();
    let mut i: usize = 0;
    while i < bytes.len()
        invariant
            bytes@.len() % 4 == 0,
            i % 4 == 0,
            i <= bytes@.len(),
            vector_bytes(vector@) == bytes@.subrange(0, i as int),
        decreases bytes@.len() - i,
    {
        let x = u32_from_le_at(bytes, i);
        let ghost pre = vector@;
        vector.push(x);
        proof {
            assert(vector@.drop_last() =~= pre);
            let chunk = bytes@.subrange(i as int, i + 4);
            let b0 = chunk[0];
            let b1 = chunk[1];
            let b2 = chunk[2];
            let b3 = chunk[3];
            assert(x as u8 == b0 && (x >> 8u32) as u8 == b1 && (x >> 16u32) as u8 == b2 && (x >> 24u32) as u8 == b3) by (bit_vector)
                requires
                    x == (b0 as u32) | ((b1 as u32) << 8u32) | ((b2 as u32) << 16u32) | ((b3 as u32) << 24u32),
            ;
            assert(le32(x) =~= chunk);
            assert(bytes@.subrange(0, i + 4) =~= bytes@.subrange(0, i as int) + chunk);
        }
        i = i + 4;
    }
    assert(bytes@.subrange(0, bytes@.len() as int) =~= bytes@);
    Ok(vector)
}

/// Persisted metadata holds 26 bytes and reads back, whatever its sizes and entry point,
/// where its comparison is persistable.
pub proof fn lemma_meta_reads(m: VectorIndexMeta)
    requires
        m.similarity != SimilarityKind::Custom,
    ensures
        meta_bytes(m).len() == 26,
        meta_from_bytes(meta_bytes(m)) is Some,
{
    let b = meta_bytes(m);
    assert(b[16] == similarity_byte(m.similarity));
}

/// Persisting metadata and reading it back gives the metadata, where its sizes fit in 32
/// bits, its comparison is persistable and its entry point is not node 0.
pub proof fn law_meta_roundtrip(m: VectorIndexMeta)
    requires
        m.dimension <= u32::MAX,
        m.m <= u32::MAX,
        m.ef_construction <= u32::MAX,
        m.ef_search <= u32::MAX,
        m.similarity != SimilarityKind::Custom,
        m.entry_point != Some(0u64),
    ensures
        meta_bytes(m).len() == 26,
        meta_from_bytes(meta_bytes(m)) == Some(m),
{
    let b = meta_bytes(m);
    let ep = match m.entry_point {
        Some(e) => e,
        None => 0,
    };
    lemma_le32_roundtrip(m.dimension as u32);
    lemma_le32_roundtrip(m.m as u32);
    lemma_le32_roundtrip(m.ef_construction as u32);
    lemma_le32_roundtrip(m.ef_search as u32);
    lemma_le64_roundtrip(ep);
    assert(from_le32_at(b, 0) == from_le32_at(le32(m.dimension as u32), 0));
    assert(from_le32_at(b, 4) == from_le32_at(le32(m.m as u32), 0));
    assert(from_le32_at(b, 8) == from_le32_at(le32(m.ef_construction as u32), 0));
    assert(from_le32_at(b, 12) == from_le32_at(le32(m.ef_search as u32), 0));
    assert(from_le64_at(b, 17) == from_le64_at(le64(ep), 0));
}

/// Persisting a vector and reading it back gives the vector.
pub proof fn law_vector_bytes_injective(a: Seq<u32>, b: Seq<u32>)
    requires
        vector_bytes(a) == vector_bytes(b),
    ensures
        a == b,
    decreases a.len(),
{
    lemma_vector_bytes_len(a);
    lemma_vector_bytes_len(b);
    if a.len() > 0 {
        lemma_vector_bytes_len(a.drop_last());
        lemma_vector_bytes_len(b.drop_last());
        let n = vector_bytes(a).len() as int;
        assert(vector_bytes(a.drop_last()) =~= vector_bytes(a).subrange(0, n - 4));
        assert(vector_bytes(b.drop_last()) =~= vector_bytes(b).subrange(0, n - 4));
        law_vector_bytes_injective(a.drop_last(), b.drop_last());
        assert(le32(a.last()) =~= vector_bytes(a).subrange(n - 4, n));
        assert(le32(b.last()) =~= vector_bytes(b).subrange(n - 4, n));
        lemma_le32_roundtrip(a.last());
        lemma_le32_roundtrip(b.last());
        assert(a.last() == b.last());
        assert(a.len() == b.len());
        assert forall|i: int| 0 <= i < a.len() implies a[i] == b[i] by {
            if i < a.len() - 1 {
                assert(a.drop_last()[i] == b.drop_last()[i]);
            }
        }
        assert(a =~= b);
    }
}

/// A link key gives back the level and the two nodes it was made with.
pub proof fn law_link_key_roundtrip(label: Seq<u8>, property: Seq<u8>, level: u8, node: u64, neighbor: u64)
    requires
        label.len() <= u32::MAX,
        property.len() <= u32::MAX,
    ensures
        decode_link(link_key(label, property, level, node, neighbor)) == Some((level, node, neighbor)),
{
    let r5 = be64(neighbor);
    let r4 = be64(node) + r5;
    let r3 = seq![level] + r4;
    let r2 = field(property) + r3;
    let r1 = field(label) + r2;
    let k = link_key(label, property, level, node, neighbor);
    assert(k =~= seq![LNK_PREFIX] + r1);
    lemma_take_u8(LNK_PREFIX, r1);
    lemma_take_field(label, r2);
    lemma_take_field(property, r3);
    lemma_take_u8(level, r4);
    lemma_take_u64(node, r5);
    lemma_take_u64(neighbor, Seq::empty());
    assert(r5 + Seq::<u8>::empty() =~= r5);
}

/// A vector key gives back the node it was made with.
pub proof fn law_vec_key_roundtrip(label: Seq<u8>, property: Seq<u8>, node: u64)
    requires
        label.len() <= u32::MAX,
        property.len() <= u32::MAX,
    ensures
        decode_vec_node(vector_base(VEC_PREFIX, label, property) + be64(node)) == Some(node),
{
    let r3 = be64(node);
    let r2 = field(property) + r3;
    let r1 = field(label) + r2;
    assert(vector_base(VEC_PREFIX, label, property) + be64(node) =~= seq![VEC_PREFIX] + r1);
    lemma_take_u8(VEC_PREFIX, r1);
    lemma_take_field(label, r2);
    lemma_take_field(property, r3);
    lemma_take_u64(node, Seq::empty());
    assert(r3 + Seq::<u8>::empty() =~= r3);
}

} // verus!
