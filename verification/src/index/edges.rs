use vstd::prelude::*;
use vstd::string::StringSliceAdditionalSpecFns;

use crate::edge::{Direction, Edge};
use crate::error::HelixiteError;
use crate::id::{EdgeId, NodeId};
use crate::index::codec::{
    be64, field, lemma_field_prefix_injective, lemma_take_field, lemma_take_u64, take_field,
    take_u64, u64_to_be_bytes, KeyBuilder, KeyReader,
};
use crate::index::labels::fits;
use crate::storage::engine::{Db, StoreView, WriteTxn};

verus! {

/// The adjacency key of an edge seen from one of its ends: that end's id, the edge's
/// label as a field, the edge's id.
pub open spec fn adjacency_key(node: u64, label: Seq<u8>, edge: u64) -> Seq<u8> {
    be64(node) + field(label) + be64(edge)
}

/// The prefix shared by the adjacency keys of a node, of one label where one is given.
pub open spec fn adjacency_prefix(node: u64, label: Option<Seq<u8>>) -> Seq<u8> {
    match label {
        Some(l) => be64(node) + field(l),
        None => be64(node),
    }
}

/// The edge id an adjacency key holds, if it is well formed.
pub open spec fn decode_adjacency_key(k: Seq<u8>) -> Option<u64> {
    match take_u64(k) {
        None => None,
        Some((_, r1)) => match take_field(r1) {
            None => None,
            Some((_, r2)) => match take_u64(r2) {
                None => None,
                Some((id, end)) => if end.len() == 0 {
                    Some(id)
                } else {
                    None
                },
            },
        },
    }
}

/// The contents after recording an edge in both adjacency databases.
pub open spec fn adjacency_inserted(m: StoreView, from: u64, to: u64, label: Seq<u8>, id: u64) -> StoreView {
    m.insert((Db::OutEdges, adjacency_key(from, label, id)), be64(id)).insert(
        (Db::InEdges, adjacency_key(to, label, id)),
        be64(id),
    )
}

/// The contents after removing an edge from both adjacency databases.
pub open spec fn adjacency_removed(m: StoreView, from: u64, to: u64, label: Seq<u8>, id: u64) -> StoreView {
    m.remove((Db::OutEdges, adjacency_key(from, label, id))).remove(
        (Db::InEdges, adjacency_key(to, label, id)),
    )
}

/// A write on a transaction had the effect `post` on the contents: on success the
/// contents are `post`, and an infallible transaction succeeds.
pub open spec fn wrote<T: WriteTxn>(pre: T, fin: T, r: Result<(), HelixiteError>, post: StoreView) -> bool {
    &&& fin.infallible() == pre.infallible()
    &&& pre.infallible() ==> r is Ok
    &&& r is Ok ==> fin.contents() == post
}

/// Keys that index edges by the nodes they leave and enter.
pub struct EdgeIndex;

impl EdgeIndex {
    /// The outgoing adjacency key of an edge.
    pub fn out_key(from: NodeId, label: &str, edge_id: EdgeId) -> (r: Vec<u8>)
        requires
            fits(label),
        ensures
            r@ == adjacency_key(from, label.spec_bytes(), edge_id),
    {
        let r = KeyBuilder::new().u64(from).str(label).u64(edge_id).finish();
        assert(r@ =~= adjacency_key(from, label.spec_bytes(), edge_id));
        r
    }

    /// The prefix of the outgoing adjacency keys of a node, of one label where given.
    pub fn out_prefix(from: NodeId, label: Option<&str>) -> (r: Vec<u8>)
        requires
            label matches Some(l) ==> fits(l),
        ensures
            r@ == adjacency_prefix(
                from,
                match label {
                    Some(l) => Some(l.spec_bytes()),
                    None => None,
                },
            ),
    {
        let mut builder = KeyBuilder::new().u64(from);
        if let Some(l) = label {
            builder = builder.str(l);
        }
        let r = builder.finish();
        assert(r@ =~= adjacency_prefix(
            from,
            match label {
                Some(l) => Some(l.spec_bytes()),
                None => None,
            },
        ));
        r
    }

    /// The incoming adjacency key of an edge.
    pub fn in_key(to: NodeId, label: &str, edge_id: EdgeId) -> (r: Vec<u8>)
        requires
            fits(label),
        ensures
            r@ == adjacency_key(to, label.spec_bytes(), edge_id),
    {
        Self::out_key(to, label, edge_id)
    }

    /// The prefix of the incoming adjacency keys of a node, of one label where given.
    pub fn in_prefix(to: NodeId, label: Option<&str>) -> (r: Vec<u8>)
        requires
            label matches Some(l) ==> fits(l),
        ensures
            r@ == adjacency_prefix(
                to,
                match label {
                    Some(l) => Some(l.spec_bytes()),
                    None => None,
                },
            ),
    {
        Self::out_prefix(to, label)
    }

    /// The edge id an adjacency key holds; `None` where the key is malformed.
    pub fn decode_edge_id(key: &[u8]) -> (r: Option<EdgeId>)
        ensures
            r == decode_adjacency_key(key@),
    {
        let mut reader = KeyReader::new(key);
        assert(reader.rest() =~= key@);
        reader.u64()?;
        reader.str()?;
        let id = reader.u64()?;
        reader.finish()?;
        Some(id)
    }

    /// The node at the far end of an edge followed in `direction`.
    pub fn decode_target_from_edge(edge: &Edge, direction: Direction) -> (r: NodeId)
        ensures
            r == match direction {
                Direction::Out => edge.to,
                Direction::In => edge.from,
            },
    {
        match direction {
            Direction::Out => edge.to,
            Direction::In => edge.from,
        }
    }

    /// Records an edge in both adjacency databases, each key holding the edge id.
    pub fn insert<T: WriteTxn>(txn: &mut T, from: NodeId, to: NodeId, label: &str, edge_id: EdgeId) -> (r: Result<(), HelixiteError>)
        requires
            fits(label),
        ensures
            wrote(*old(txn), *final(txn), r, adjacency_inserted(old(txn).contents(), from, to, label.spec_bytes(), edge_id)),
    {
        let id_bytes = u64_to_be_bytes(edge_id);
        let out_k = Self::out_key(from, label, edge_id);
        txn.put(Db::OutEdges, out_k.as_slice(), id_bytes.as_slice())?;
        let in_k = Self::in_key(to, label, edge_id);
        txn.put(Db::InEdges, in_k.as_slice(), id_bytes.as_slice())?;
        Ok(())
    }

    /// Moves an edge's adjacency keys from its old label to its new one.
    pub fn replace_label<T: WriteTxn>(
        txn: &mut T,
        from: NodeId,
        to: NodeId,
        old_label: &str,
        new_label: &str,
        edge_id: EdgeId,
    ) -> (r: Result<(), HelixiteError>)
        requires
            fits(old_label),
            fits(new_label),
        ensures
            wrote(*old(txn), *final(txn), r, adjacency_inserted(
                adjacency_removed(old(txn).contents(), from, to, old_label.spec_bytes(), edge_id),
                from, to, new_label.spec_bytes(), edge_id)),
    {
        let ghost m0 = txn.contents();
        let old_out = Self::out_key(from, old_label, edge_id);
        txn.delete(Db::OutEdges, old_out.as_slice())?;
        let old_in = Self::in_key(to, old_label, edge_id);
        txn.delete(Db::InEdges, old_in.as_slice())?;
        let id_bytes = u64_to_be_bytes(edge_id);
        let new_out = Self::out_key(from, new_label, edge_id);
        txn.put(Db::OutEdges, new_out.as_slice(), id_bytes.as_slice())?;
        let new_in = Self::in_key(to, new_label, edge_id);
        txn.put(Db::InEdges, new_in.as_slice(), id_bytes.as_slice())?;
        Ok(())
    }

    /// Removes an edge from both adjacency databases.
    pub fn delete<T: WriteTxn>(txn: &mut T, from: NodeId, to: NodeId, label: &str, edge_id: EdgeId) -> (r: Result<(), HelixiteError>)
        requires
            fits(label),
        ensures
            wrote(*old(txn), *final(txn), r, adjacency_removed(old(txn).contents(), from, to, label.spec_bytes(), edge_id)),
    {
        let out_k = Self::out_key(from, label, edge_id);
        txn.delete(Db::OutEdges, out_k.as_slice())?;
        let in_k = Self::in_key(to, label, edge_id);
        txn.delete(Db::InEdges, in_k.as_slice())?;
        Ok(())
    }
}

/// An adjacency key gives back the edge id it was made with.
pub proof fn law_adjacency_key_roundtrip(node: u64, label: Seq<u8>, edge: u64)
    requires
        label.len() <= u32::MAX,
    ensures
        decode_adjacency_key(adjacency_key(node, label, edge)) == Some(edge),
{
    let k = adjacency_key(node, label, edge);
    assert(k =~= be64(node) + (field(label) + be64(edge)));
    lemma_take_u64(node, field(label) + be64(edge));
    lemma_take_field(label, be64(edge));
    lemma_take_u64(edge, Seq::empty());
    assert(be64(edge) + Seq::<u8>::empty() =~= be64(edge));
}

/// A well-formed adjacency key is the key of some node, label and the edge it holds.
pub proof fn lemma_adjacency_key_parts(k: Seq<u8>) -> (r: (u64, Seq<u8>))
    requires
        decode_adjacency_key(k) is Some,
    ensures
        k == adjacency_key(r.0, r.1, decode_adjacency_key(k).unwrap()),
        r.1.len() <= u32::MAX,
{
    crate::index::codec::lemma_take_u64_inverse(k);
    let (n, r1) = take_u64(k).unwrap();
    crate::index::codec::lemma_take_field_inverse(r1);
    let (l, r2) = take_field(r1).unwrap();
    crate::index::codec::lemma_take_u64_inverse(r2);
    let (x, end) = take_u64(r2).unwrap();
    assert(end =~= Seq::<u8>::empty());
    assert(k =~= be64(n) + field(l) + be64(x));
    (n, l)
}

/// A node's adjacency prefix for a label covers exactly its edges of that label, and its
/// prefix without a label covers all its edges.
pub proof fn law_adjacency_prefix(node: u64, label: Seq<u8>, other_node: u64, other_label: Seq<u8>, edge: u64)
    requires
        label.len() <= u32::MAX,
        other_label.len() <= u32::MAX,
    ensures
        adjacency_prefix(node, Some(label)).is_prefix_of(adjacency_key(other_node, other_label, edge))
            <==> (node == other_node && label == other_label),
        adjacency_prefix(node, None).is_prefix_of(adjacency_key(other_node, other_label, edge))
            <==> node == other_node,
{
    let k = adjacency_key(other_node, other_label, edge);
    crate::index::codec::lemma_be64_injective(node, other_node);
    assert(k.subrange(0, 8) =~= be64(other_node));
    if adjacency_prefix(node, None).is_prefix_of(k) {
        assert(be64(node) =~= k.subrange(0, 8));
    }
    if node == other_node {
        assert(k.subrange(0, 8) =~= be64(node));
    }
    let p = adjacency_prefix(node, Some(label));
    if p.is_prefix_of(k) {
        assert(be64(node) =~= p.subrange(0, 8));
        assert(be64(node) =~= k.subrange(0, 8));
        let t = be64(edge);
        let rest = k.subrange(8, k.len() as int);
        assert(rest =~= field(other_label) + t);
        assert(rest.subrange(0, field(label).len() as int) =~= field(label)) by {
            assert forall|i: int| 0 <= i < field(label).len() implies rest[i] == field(label)[i] by {
                assert(k[8 + i] == p[8 + i]);
            }
        }
        lemma_field_prefix_injective(label, other_label, t);
    }
    if node == other_node && label == other_label {
        assert(k.subrange(0, p.len() as int) =~= p);
    }
}

} // verus!
