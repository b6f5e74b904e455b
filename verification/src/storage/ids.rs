use vstd::prelude::*;

use crate::error::{join2, join3, HelixiteError};
use crate::id::{EdgeId, NodeId};
use crate::index::codec::{be64, from_be64, lemma_be64_roundtrip, u64_from_be_bytes, u64_to_be_bytes};
use crate::storage::engine::{lookup, Db, StoreView, WriteTxn};

verus! {

/// The metadata key under which the next node id is kept.
pub open spec fn next_node_id_key() -> Seq<u8> {
    vstd::utf8::encode_utf8("next_node_id"@)
}

/// The metadata key under which the next edge id is kept.
pub open spec fn next_edge_id_key() -> Seq<u8> {
    vstd::utf8::encode_utf8("next_edge_id"@)
}

/// What allocating an id under `key` gives on the contents `m`: the id and the new
/// contents, or `None` where the stored counter is not eight bytes or is exhausted. An
/// absent counter hands out 1 and stores 2.
pub open spec fn id_allocation(m: StoreView, key: Seq<u8>) -> Option<(u64, StoreView)> {
    match lookup(m, Db::Metadata, key) {
        None => Some((1, m.insert((Db::Metadata, key), be64(2)))),
        Some(b) => if b.len() != 8 || from_be64(b) == u64::MAX {
            None
        } else {
            Some((from_be64(b), m.insert((Db::Metadata, key), be64((from_be64(b) + 1) as u64))))
        },
    }
}

/// The message of a malformed counter.
pub open spec fn invalid_counter_message(name: Seq<char>) -> Seq<char> {
    "invalid "@ + name + " metadata value"@
}

/// The message of an exhausted counter.
pub open spec fn overflow_message(name: Seq<char>) -> Seq<char> {
    name + " overflow"@
}

/// The number stored as a counter: eight big-endian bytes, else a storage error that
/// names the counter.
pub fn decode_u64(bytes: &[u8], name: &str) -> (r: Result<u64, HelixiteError>)
    ensures
        bytes@.len() == 8 ==> r == Ok::<u64, HelixiteError>(from_be64(bytes@)),
        bytes@.len() != 8 ==> (r matches Err(HelixiteError::Storage(msg)) && msg@
            == invalid_counter_message(name@)),
{
    if bytes.len() != 8 {
        return Err(HelixiteError::Storage(join3("invalid ", name, " metadata value")));
    }
    Ok(u64_from_be_bytes(bytes))
}

/// Hands out node and edge ids from counters kept in the metadata database.
pub struct IdAllocator;

impl IdAllocator {
    /// The next node id.
    pub fn next_node_id<T: WriteTxn>(txn: &mut T) -> (r: Result<NodeId, HelixiteError>)
        ensures
            Self::allocated(*old(txn), *final(txn), next_node_id_key(), "next_node_id"@, r),
    {
        let key = "next_node_id".as_bytes();
        Self::next_id(txn, key, "next_node_id")
    }

    /// The next edge id.
    pub fn next_edge_id<T: WriteTxn>(txn: &mut T) -> (r: Result<EdgeId, HelixiteError>)
        ensures
            Self::allocated(*old(txn), *final(txn), next_edge_id_key(), "next_edge_id"@, r),
    {
        let key = "next_edge_id".as_bytes();
        Self::next_id(txn, key, "next_edge_id")
    }

    /// How allocating an id under `key` relates the transaction before and after and its
    /// result: on success the id and contents are those of `id_allocation`; on an
    /// infallible transaction it fails exactly where `id_allocation` does, with a
    /// storage error naming the counter, and writes nothing.
    pub open spec fn allocated<T: WriteTxn>(
        pre: T,
        post: T,
        key: Seq<u8>,
        name: Seq<char>,
        r: Result<u64, HelixiteError>,
    ) -> bool {
        &&& post.infallible() == pre.infallible()
        &&& r matches Ok(id) ==> id_allocation(pre.contents(), key) == Some((id, post.contents()))
        &&& pre.infallible() ==> (r is Ok <==> id_allocation(pre.contents(), key) is Some)
        &&& pre.infallible() && r is Err ==> (r matches Err(HelixiteError::Storage(msg)) && (msg@
            == invalid_counter_message(name) || msg@ == overflow_message(name)))
        &&& pre.infallible() && r is Err ==> post.contents() == pre.contents()
    }

    fn next_id<T: WriteTxn>(txn: &mut T, key: &[u8], name: &str) -> (r: Result<u64, HelixiteError>)
        ensures
            Self::allocated(*old(txn), *final(txn), key@, name@, r),
    {
        let stored = txn.get(Db::Metadata, key)?;
        let bytes = match stored {
            Some(b) => b,
            None => {
                let two = u64_to_be_bytes(2);
                txn.put(Db::Metadata, key, two.as_slice())?;
                return Ok(1);
            },
        };
        let next_id = decode_u64(bytes.as_slice(), name)?;
        if next_id == u64::MAX {
            return Err(HelixiteError::Storage(join2(name, " overflow")));
        }
        let following_id = next_id + 1;
        let following = u64_to_be_bytes(following_id);
        txn.put(Db::Metadata, key, following.as_slice())?;
        Ok(next_id)
    }
}

/// Ids count up: once a counter has handed out `id`, the next allocation under the same
/// key hands out `id + 1`, unless `id + 1` is the largest number.
pub proof fn law_ids_count_up(m: StoreView, key: Seq<u8>)
    requires
        id_allocation(m, key) is Some,
        id_allocation(m, key).unwrap().0 + 1 < u64::MAX,
    ensures
        id_allocation(id_allocation(m, key).unwrap().1, key) matches Some((next, _)) && next
            == id_allocation(m, key).unwrap().0 + 1,
{
    let (id, m2) = id_allocation(m, key).unwrap();
    lemma_be64_roundtrip(2);
    lemma_be64_roundtrip((id + 1) as u64);
    assert(lookup(m2, Db::Metadata, key) == Some(be64((id + 1) as u64)));
}

/// Ids start at 1: without a counter the first allocation hands out 1 and the next 2.
pub proof fn law_ids_start_at_one(m: StoreView, key: Seq<u8>)
    requires
        lookup(m, Db::Metadata, key) is None,
    ensures
        id_allocation(m, key) matches Some((first, m1)) && first == 1
            && (id_allocation(m1, key) matches Some((second, _)) && second == 2),
{
    let (_, m1) = id_allocation(m, key).unwrap();
    lemma_be64_roundtrip(2);
    assert(lookup(m1, Db::Metadata, key) == Some(be64(2)));
}

} // verus!
