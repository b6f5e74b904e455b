use vstd::prelude::*;
use vstd::string::StringSliceAdditionalSpecFns;

use crate::id::NodeId;
use crate::index::codec::{
    be64, field, lemma_field_prefix_injective, lemma_take_field, lemma_take_field_inverse,
    lemma_take_u64, lemma_take_u64_inverse, take_field, take_u64, KeyBuilder, KeyReader,
};

verus! {

/// A string is short enough to stand as a key field.
pub open spec fn fits(s: &str) -> bool {
    s.spec_bytes().len() <= u32::MAX
}

/// The label index key of a node: its label as a field, then its id.
pub open spec fn label_key(label: Seq<u8>, id: u64) -> Seq<u8> {
    field(label) + be64(id)
}

/// The node id that a label index key holds, if it is well formed.
pub open spec fn decode_label_key(k: Seq<u8>) -> Option<u64> {
    match take_field(k) {
        None => None,
        Some((_, rest)) => match take_u64(rest) {
            None => None,
            Some((id, end)) => if end.len() == 0 {
                Some(id)
            } else {
                None
            },
        },
    }
}

/// Keys that index nodes by label.
pub struct LabelIndex;

impl LabelIndex {
    /// The key that records `node_id` under `label`.
    pub fn key(label: &str, node_id: NodeId) -> (r: Vec<u8>)
        requires
            fits(label),
        ensures
            r@ == label_key(label.spec_bytes(), node_id),
    {
        let r = KeyBuilder::new().str(label).u64(node_id).finish();
        assert(r@ =~= label_key(label.spec_bytes(), node_id));
        r
    }

    /// The prefix shared by every key under `label`.
    pub fn prefix(label: &str) -> (r: Vec<u8>)
        requires
            fits(label),
        ensures
            r@ == field(label.spec_bytes()),
    {
        let r = KeyBuilder::new().str(label).finish();
        assert(r@ =~= field(label.spec_bytes()));
        r
    }

    /// The node id a label index key holds; `None` where the key is malformed.
    pub fn decode_node_id(key: &[u8]) -> (r: Option<NodeId>)
        ensures
            r == decode_label_key(key@),
    {
        let mut reader = KeyReader::new(key);
        assert(reader.rest() =~= key@);
        reader.str()?;
        let id = reader.u64()?;
        reader.finish()?;
        Some(id)
    }

    /// The key that records `node_id` under its new label.
    pub fn new_label_key(new_label: &str, node_id: NodeId) -> (r: Vec<u8>)
        requires
            fits(new_label),
        ensures
            r@ == label_key(new_label.spec_bytes(), node_id),
    {
        Self::key(new_label, node_id)
    }
}

/// A label index key gives back the id it was made with.
pub proof fn law_label_key_roundtrip(label: Seq<u8>, id: u64)
    requires
        label.len() <= u32::MAX,
    ensures
        decode_label_key(label_key(label, id)) == Some(id),
{
    lemma_take_field(label, be64(id));
    lemma_take_u64(id, Seq::empty());
    assert(be64(id) + Seq::<u8>::empty() =~= be64(id));
    assert(field(label) + be64(id) == label_key(label, id));
}

/// The prefix of a label covers exactly the keys of that label: a scan of the prefix
/// visits the key of a node exactly where the node has that label.
pub proof fn law_label_prefix(label: Seq<u8>, other: Seq<u8>, id: u64)
    requires
        label.len() <= u32::MAX,
        other.len() <= u32::MAX,
    ensures
        field(label).is_prefix_of(label_key(other, id)) <==> label == other,
{
    if field(label).is_prefix_of(label_key(other, id)) {
        lemma_field_prefix_injective(label, other, be64(id));
    }
    if label == other {
        assert(label_key(other, id).subrange(0, field(label).len() as int) =~= field(label));
    }
}

/// A well-formed label index key under the prefix of `label` is the key of that label
/// and the id it holds.
pub proof fn lemma_label_key_shape(label: Seq<u8>, k: Seq<u8>, id: u64)
    requires
        label.len() <= u32::MAX,
        field(label).is_prefix_of(k),
        decode_label_key(k) == Some(id),
    ensures
        k == label_key(label, id),
{
    lemma_take_field_inverse(k);
    let (f, rest) = take_field(k).unwrap();
    lemma_take_u64_inverse(rest);
    let (n, end) = take_u64(rest).unwrap();
    assert(end =~= Seq::<u8>::empty());
    assert(k == field(f) + (be64(id) + end));
    lemma_field_prefix_injective(label, f, be64(id) + end);
    assert(k =~= label_key(label, id));
}

} // verus!
