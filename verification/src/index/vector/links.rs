use vstd::prelude::*;
use vstd::string::StringSliceAdditionalSpecFns;

use crate::error::HelixiteError;
use crate::id::NodeId;
use crate::index::codec::{be64, le64, push_le64};
use crate::index::vector::hnsw::vector_levels_wf;
use crate::index::vector::VectorIndexMeta;
use crate::index::edges::wrote;
use crate::index::labels::fits;
use crate::index::vector::keys::{
    decode_link, decode_link_from_lnk_key, deserialize_vector, ep_key, link_key, lnk_key, lnk_prefix,
    lvl_key, meta_bytes, meta_key, serialize_vector, vec_key, vector_base, vector_bytes, EP_PREFIX,
    LNK_PREFIX, LVL_PREFIX, META_PREFIX, VEC_PREFIX,
};
use crate::query::ids::contains_id;
use crate::storage::bulk::remove_where;
use crate::storage::engine::{in_scan, lookup, scan_result, Db, ReadTxn, Scan, StoreView, WriteTxn};

verus! {

/// The neighbor a link key names, where it is well formed.
pub open spec fn link_neighbor(k: Seq<u8>) -> Option<u64> {
    match decode_link(k) {
        Some((_, _, n)) => Some(n),
        None => None,
    }
}

/// The prefix of the links at `level` from `node`.
pub open spec fn links_prefix(label: Seq<u8>, property: Seq<u8>, level: u8, node: u64) -> Seq<u8> {
    vector_base(LNK_PREFIX, label, property) + seq![level] + be64(node)
}

/// The neighbors that the well-formed link keys under `prefix` name.
pub open spec fn linked(m: StoreView, prefix: Seq<u8>) -> Set<u64> {
    Set::new(
        |n: u64|
            exists|k: Seq<u8>|
                #![trigger m.contains_key((Db::VectorIndexes, k))]
                m.contains_key((Db::VectorIndexes, k)) && prefix.is_prefix_of(k) && link_neighbor(k) == Some(n),
    )
}

/// A complete scan of the vector indexes under `prefix` lists `n` keys.
pub open spec fn links_counted(m: StoreView, prefix: Seq<u8>, n: int) -> bool {
    exists|es: Seq<crate::storage::engine::Entry>, q: Vec<u8>|
        #![trigger scan_result(m, Db::VectorIndexes, Scan::Prefix(q), None, es)]
        q@ == prefix && scan_result(m, Db::VectorIndexes, Scan::Prefix(q), None, es) && es.len() == n
}

/// The neighbors that the links at `level` from `node_id` name.
pub fn load_neighbors<T: ReadTxn>(txn: &T, label: &str, property: &str, level: u8, node_id: NodeId) -> (r: Result<Vec<NodeId>, HelixiteError>)
    requires
        fits(label),
        fits(property),
    ensures
        txn.infallible() ==> r is Ok,
        r matches Ok(ns) ==> ns@.to_set() == linked(
            txn.contents(),
            links_prefix(label.spec_bytes(), property.spec_bytes(), level, node_id),
        ),
{
    let ghost m = txn.contents();
    let prefix = lnk_prefix(label, property, level, node_id);
    let ghost p = prefix@;
    let scan = Scan::Prefix(prefix);
    let entries = txn.scan(Db::VectorIndexes, &scan, None)?;
    let mut ns: Vec<NodeId> = Vec::new();
    let mut i: usize = 0;
    while i < entries.len()
        invariant
            i <= entries@.len(),
            m == txn.contents(),
            scan_result(m, Db::VectorIndexes, scan, None, entries@),
            scan matches Scan::Prefix(q) && q@ == p,
            forall|n: u64| #[trigger] ns@.contains(n) <==> exists|j: int|
                0 <= j < i && link_neighbor((#[trigger] entries@[j]).key@) == Some(n),
        decreases entries@.len() - i,
    {
        let ghost pre = ns@;
        if let Some((_, _, neighbor)) = decode_link_from_lnk_key(entries[i].key.as_slice()) {
            ns.push(neighbor);
        }
        proof {
            assert forall|n: u64| #[trigger] ns@.contains(n) <==> exists|j: int|
                0 <= j < i + 1 && link_neighbor((#[trigger] entries@[j]).key@) == Some(n) by {
                if ns@.contains(n) {
                    let x = choose|x: int| 0 <= x < ns@.len() && ns@[x] == n;
                    if x < pre.len() {
                        assert(pre[x] == n);
                        assert(pre.contains(n));
                    } else {
                        assert(link_neighbor(entries@[i as int].key@) == Some(n));
                    }
                }
                if exists|j: int| 0 <= j < i + 1 && link_neighbor((#[trigger] entries@[j]).key@) == Some(n) {
                    let j = choose|j: int| 0 <= j < i + 1 && link_neighbor((#[trigger] entries@[j]).key@) == Some(n);
                    if j < i {
                        assert(pre.contains(n));
                        let x = choose|x: int| 0 <= x < pre.len() && pre[x] == n;
                        assert(ns@[x] == n);
                    } else {
                        assert(ns@[ns@.len() - 1] == n);
                    }
                }
            }
        }
        i = i + 1;
    }
    proof {
        let target = linked(m, p);
        assert forall|n: u64| #[trigger] ns@.to_set().contains(n) == target.contains(n) by {
            if ns@.contains(n) {
                let j = choose|j: int| 0 <= j < i && link_neighbor((#[trigger] entries@[j]).key@) == Some(n);
                let k = entries@[j].key@;
                assert(m.contains_key((Db::VectorIndexes, k)));
                assert(in_scan(scan, k));
            }
            if target.contains(n) {
                let k = choose|k: Seq<u8>|
                    #![trigger m.contains_key((Db::VectorIndexes, k))]
                    m.contains_key((Db::VectorIndexes, k)) && p.is_prefix_of(k) && link_neighbor(k) == Some(n);
                assert(m.contains_key((Db::VectorIndexes, k)));
                let j = choose|j: int| 0 <= j < entries@.len() && entries@[j].key@ == k;
                assert(link_neighbor(entries@[j].key@) == Some(n));
            }
        }
        assert(ns@.to_set() =~= target);
    }
    Ok(ns)
}

/// The components, as bits, of the vector of `node_id` in the index; a storage error
/// where it has none and a codec error where its bytes are malformed.
pub fn load_vector_bits<T: ReadTxn>(txn: &T, label: &str, property: &str, node_id: NodeId) -> (r: Result<Vec<u32>, HelixiteError>)
    requires
        fits(label),
        fits(property),
    ensures
        txn.infallible() && lookup(txn.contents(), Db::VectorIndexes, vector_base(VEC_PREFIX, label.spec_bytes(), property.spec_bytes()) + be64(node_id)) is None
            ==> (r matches Err(HelixiteError::Storage(msg)) && msg@ == "vector not found"@),
        r matches Ok(v) ==> lookup(txn.contents(), Db::VectorIndexes, vector_base(VEC_PREFIX, label.spec_bytes(), property.spec_bytes()) + be64(node_id))
            == Some(vector_bytes(v@)),
{
    let key = vec_key(label, property, node_id);
    match txn.get(Db::VectorIndexes, key.as_slice())? {
        Some(bytes) => deserialize_vector(bytes.as_slice()),
        None => Err(HelixiteError::Storage("vector not found".to_owned())),
    }
}

/// Stores the link at `level` from `from` to `to`, then lists the links from `from` at
/// that level: the neighbors they name where there are more than `max_links` of them, to
/// be pruned, and none otherwise.
pub fn add_link<T: WriteTxn>(txn: &mut T, label: &str, property: &str, level: u8, from: NodeId, to: NodeId, max_links: usize) -> (r: Result<Option<Vec<NodeId>>, HelixiteError>)
    requires
        fits(label),
        fits(property),
    ensures
        final(txn).infallible() == old(txn).infallible(),
        old(txn).infallible() ==> r is Ok,
        r is Ok ==> final(txn).contents() == old(txn).contents().insert(
            (Db::VectorIndexes, link_key(label.spec_bytes(), property.spec_bytes(), level, from, to)),
            Seq::empty(),
        ),
        r is Ok && vector_levels_wf(old(txn).contents()) ==> vector_levels_wf(final(txn).contents()),
        r matches Ok(Some(ns)) ==> ns@.to_set() == linked(
            final(txn).contents(),
            links_prefix(label.spec_bytes(), property.spec_bytes(), level, from),
        ) && exists|n: int| n > max_links && #[trigger] links_counted(
            final(txn).contents(),
            links_prefix(label.spec_bytes(), property.spec_bytes(), level, from),
            n,
        ),
        r matches Ok(None) ==> exists|n: int| n <= max_links && #[trigger] links_counted(
            final(txn).contents(),
            links_prefix(label.spec_bytes(), property.spec_bytes(), level, from),
            n,
        ),
{
    let key = lnk_key(label, property, level, from, to);
    assert(key@[0] == LNK_PREFIX);
    let empty: Vec<u8> = Vec::new();
    txn.put(Db::VectorIndexes, key.as_slice(), empty.as_slice())?;
    let prefix = lnk_prefix(label, property, level, from);
    let ghost p = prefix@;
    let scan = Scan::Prefix(prefix);
    let entries = txn.scan(Db::VectorIndexes, &scan, None)?;
    proof {
        if let Scan::Prefix(q) = scan {
            assert(scan_result(txn.contents(), Db::VectorIndexes, Scan::Prefix(q), None, entries@));
            assert(links_counted(txn.contents(), p, entries@.len() as int));
        }
        assert(p == links_prefix(label.spec_bytes(), property.spec_bytes(), level, from));
    }
    if entries.len() > max_links {
        let ns = load_neighbors(txn, label, property, level, from)?;
        Ok(Some(ns))
    } else {
        Ok(None)
    }
}

/// A link key under `prefix` that names a neighbor outside `keep`.
pub open spec fn pruned(prefix: Seq<u8>, keep: Seq<u64>, k: Seq<u8>) -> bool {
    prefix.is_prefix_of(k) && match link_neighbor(k) {
        Some(n) => !keep.contains(n),
        None => false,
    }
}

/// Removes the links at `level` from `node_id` to the neighbors outside `keep`.
pub fn prune_links_to<T: WriteTxn>(txn: &mut T, label: &str, property: &str, level: u8, node_id: NodeId, keep: &Vec<NodeId>) -> (r: Result<(), HelixiteError>)
    requires
        fits(label),
        fits(property),
    ensures
        wrote(
            *old(txn),
            *final(txn),
            r,
            remove_where(
                old(txn).contents(),
                Db::VectorIndexes,
                |k: Seq<u8>| pruned(links_prefix(label.spec_bytes(), property.spec_bytes(), level, node_id), keep@, k),
            ),
        ),
        r is Ok && vector_levels_wf(old(txn).contents()) ==> vector_levels_wf(final(txn).contents()),
{
    let ghost m = txn.contents();
    let prefix = lnk_prefix(label, property, level, node_id);
    let ghost p = prefix@;
    let scan = Scan::Prefix(prefix);
    let entries = txn.scan(Db::VectorIndexes, &scan, None)?;
    let db = Db::VectorIndexes;
    let mut i: usize = 0;
    while i < entries.len()
        invariant
            i <= entries@.len(),
            db == Db::VectorIndexes,
            scan_result(m, db, scan, None, entries@),
            scan matches Scan::Prefix(q) && q@ == p,
            txn.infallible() == old(txn).infallible(),
            m == old(txn).contents(),
            txn.contents() == Map::new(
                |k: (Db, Seq<u8>)| m.contains_key(k) && !(k.0 == db && exists|j: int|
                    0 <= j < i && (#[trigger] entries@[j]).key@ == k.1 && pruned(p, keep@, k.1)),
                |k: (Db, Seq<u8>)| m[k],
            ),
        decreases entries@.len() - i,
    {
        let ghost pre = txn.contents();
        let ghost ki = entries@[i as int].key@;
        let drop = match decode_link_from_lnk_key(entries[i].key.as_slice()) {
            Some((_, _, neighbor)) => !contains_id(keep, neighbor),
            None => false,
        };
        assert(in_scan(scan, ki));
        assert(drop == pruned(p, keep@, ki));
        if drop {
            txn.delete(db, entries[i].key.as_slice())?;
        }
        proof {
            assert forall|k: (Db, Seq<u8>)| #![all_triggers]
                txn.contents().contains_key(k) == (m.contains_key(k) && !(k.0 == db && exists|j: int|
                    0 <= j < i + 1 && (#[trigger] entries@[j]).key@ == k.1 && pruned(p, keep@, k.1))) by {
                if k.0 == db && k.1 == ki && drop {
                    assert(entries@[i as int].key@ == k.1);
                }
                if exists|j: int| 0 <= j < i + 1 && (#[trigger] entries@[j]).key@ == k.1 && pruned(p, keep@, k.1) {
                    let j = choose|j: int| 0 <= j < i + 1 && (#[trigger] entries@[j]).key@ == k.1 && pruned(p, keep@, k.1);
                    if j < i {
                        assert(exists|j: int| 0 <= j < i && (#[trigger] entries@[j]).key@ == k.1 && pruned(p, keep@, k.1));
                    }
                }
            }
            assert(txn.contents() =~= Map::new(
                |k: (Db, Seq<u8>)| m.contains_key(k) && !(k.0 == db && exists|j: int|
                    0 <= j < i + 1 && (#[trigger] entries@[j]).key@ == k.1 && pruned(p, keep@, k.1)),
                |k: (Db, Seq<u8>)| m[k],
            ));
        }
        i = i + 1;
    }
    proof {
        let target = remove_where(m, db, |k: Seq<u8>| pruned(p, keep@, k));
        assert forall|k: (Db, Seq<u8>)| #![all_triggers] txn.contents().contains_key(k) == target.contains_key(k) by {
            if k.0 == db && m.contains_key(k) && pruned(p, keep@, k.1) {
                assert(m.contains_key((db, k.1)));
                let j = choose|j: int| 0 <= j < entries@.len() && entries@[j].key@ == k.1;
                assert(entries@[j].key@ == k.1);
            }
        }
        assert(txn.contents() =~= target);
    }
    Ok(())
}

/// Stores the vector of `node_id`, as bits, and its level in the index.
pub fn store_node_vector<T: WriteTxn>(txn: &mut T, label: &str, property: &str, node_id: NodeId, bits: &Vec<u32>, level: u8) -> (r: Result<(), HelixiteError>)
    requires
        fits(label),
        fits(property),
        vector_levels_wf(old(txn).contents()),
    ensures
        wrote(
            *old(txn),
            *final(txn),
            r,
            old(txn).contents().insert(
                (Db::VectorIndexes, vector_base(VEC_PREFIX, label.spec_bytes(), property.spec_bytes()) + be64(node_id)),
                vector_bytes(bits@),
            ).insert(
                (Db::VectorIndexes, vector_base(LVL_PREFIX, label.spec_bytes(), property.spec_bytes()) + be64(node_id)),
                seq![level],
            ),
        ),
        r is Ok ==> vector_levels_wf(final(txn).contents()),
{
    let vk = vec_key(label, property, node_id);
    let bytes = serialize_vector(bits.as_slice());
    txn.put(Db::VectorIndexes, vk.as_slice(), bytes.as_slice())?;
    let lk = lvl_key(label, property, node_id);
    let mut lv: Vec<u8> = Vec::new();
    lv.push(level);
    txn.put(Db::VectorIndexes, lk.as_slice(), lv.as_slice())?;
    proof {
        assert(lv@ =~= seq![level]);
        assert(vk@[0] == VEC_PREFIX);
    }
    Ok(())
}

/// The level of `node_id` in the index, where it has one.
pub fn load_level<T: ReadTxn>(txn: &T, label: &str, property: &str, node_id: NodeId) -> (r: Result<Option<u8>, HelixiteError>)
    requires
        fits(label),
        fits(property),
        vector_levels_wf(txn.contents()),
    ensures
        txn.infallible() ==> r is Ok,
        r matches Ok(l) ==> match lookup(txn.contents(), Db::VectorIndexes, vector_base(LVL_PREFIX, label.spec_bytes(), property.spec_bytes()) + be64(node_id)) {
            Some(b) => l == Some(b[0]),
            None => l is None,
        },
{
    let key = lvl_key(label, property, node_id);
    proof {
        assert(key@[0] == LVL_PREFIX);
    }
    match txn.get(Db::VectorIndexes, key.as_slice())? {
        Some(b) => Ok(Some(b[0])),
        None => Ok(None),
    }
}

/// Makes `node_id` the entry point of the index: stores its id, least significant byte
/// first, under the entry point key.
pub fn store_entry_point<T: WriteTxn>(txn: &mut T, label: &str, property: &str, node_id: NodeId) -> (r: Result<(), HelixiteError>)
    requires
        fits(label),
        fits(property),
        vector_levels_wf(old(txn).contents()),
    ensures
        wrote(
            *old(txn),
            *final(txn),
            r,
            old(txn).contents().insert((Db::VectorIndexes, vector_base(EP_PREFIX, label.spec_bytes(), property.spec_bytes())), le64(node_id)),
        ),
        r is Ok ==> vector_levels_wf(final(txn).contents()),
{
    let key = ep_key(label, property);
    let mut v: Vec<u8> = Vec::new();
    push_le64(&mut v, node_id);
    proof {
        assert(v@ =~= le64(node_id));
        assert(key@[0] == EP_PREFIX);
    }
    txn.put(Db::VectorIndexes, key.as_slice(), v.as_slice())
}

/// Stores the metadata of the index.
pub fn store_meta<T: WriteTxn>(txn: &mut T, label: &str, property: &str, meta: &VectorIndexMeta) -> (r: Result<(), HelixiteError>)
    requires
        fits(label),
        fits(property),
        vector_levels_wf(old(txn).contents()),
    ensures
        wrote(
            *old(txn),
            *final(txn),
            r,
            old(txn).contents().insert((Db::VectorIndexes, vector_base(META_PREFIX, label.spec_bytes(), property.spec_bytes())), meta_bytes(*meta)),
        ),
        r is Ok ==> vector_levels_wf(final(txn).contents()),
{
    let key = meta_key(label, property);
    let bytes = meta.serialize();
    proof {
        assert(key@[0] == META_PREFIX);
    }
    txn.put(Db::VectorIndexes, key.as_slice(), bytes.as_slice())
}

/// Fails with a dimension error unless a vector of `len` components fits the index.
pub fn check_dimension(meta: &VectorIndexMeta, len: usize) -> (r: Result<(), HelixiteError>)
    ensures
        len == meta.dimension <==> r is Ok,
        len != meta.dimension ==> r == Err::<(), HelixiteError>(HelixiteError::InvalidVectorDim { expected: meta.dimension, actual: len }),
{
    if len != meta.dimension {
        return Err(HelixiteError::InvalidVectorDim { expected: meta.dimension, actual: len });
    }
    Ok(())
}

/// The metadata of the index after inserting `node_id` at `level`, where the entry point
/// stands at `ep_level`: a node above the entry point becomes the entry point, and the
/// highest level grows to the node's.
pub fn meta_after_insert(meta: &VectorIndexMeta, node_id: NodeId, level: u8, ep_level: u8) -> (r: VectorIndexMeta)
    requires
        meta.entry_point is Some,
    ensures
        r == (VectorIndexMeta {
            entry_point: Some(if level > ep_level { node_id } else { meta.entry_point.unwrap() }),
            max_level: if level > meta.max_level { level } else { meta.max_level },
            ..*meta
        }),
{
    let ep = match meta.entry_point {
        Some(e) => e,
        None => node_id,
    };
    VectorIndexMeta {
        dimension: meta.dimension,
        m: meta.m,
        ef_construction: meta.ef_construction,
        ef_search: meta.ef_search,
        similarity: meta.similarity,
        entry_point: Some(if level > ep_level { node_id } else { ep }),
        max_level: if level > meta.max_level { level } else { meta.max_level },
    }
}

/// Starts the empty index with `node_id` at `level`: stores its vector and level, makes
/// it the entry point, and stores the metadata with it as entry point at that level.
pub fn start_index<T: WriteTxn>(
    txn: &mut T,
    label: &str,
    property: &str,
    node_id: NodeId,
    bits: &Vec<u32>,
    level: u8,
    meta: &VectorIndexMeta,
) -> (r: Result<(), HelixiteError>)
    requires
        fits(label),
        fits(property),
        vector_levels_wf(old(txn).contents()),
    ensures
        final(txn).infallible() == old(txn).infallible(),
        old(txn).infallible() ==> r is Ok,
        r is Ok ==> vector_levels_wf(final(txn).contents()),
        r is Ok ==> final(txn).contents() == old(txn).contents().insert(
            (Db::VectorIndexes, vector_base(VEC_PREFIX, label.spec_bytes(), property.spec_bytes()) + be64(node_id)),
            vector_bytes(bits@),
        ).insert(
            (Db::VectorIndexes, vector_base(LVL_PREFIX, label.spec_bytes(), property.spec_bytes()) + be64(node_id)),
            seq![level],
        ).insert((Db::VectorIndexes, vector_base(EP_PREFIX, label.spec_bytes(), property.spec_bytes())), le64(node_id)).insert(
            (Db::VectorIndexes, vector_base(META_PREFIX, label.spec_bytes(), property.spec_bytes())),
            meta_bytes(VectorIndexMeta { entry_point: Some(node_id), max_level: level, ..*meta }),
        ),
{
    store_node_vector(txn, label, property, node_id, bits, level)?;
    store_entry_point(txn, label, property, node_id)?;
    let started = VectorIndexMeta {
        dimension: meta.dimension,
        m: meta.m,
        ef_construction: meta.ef_construction,
        ef_search: meta.ef_search,
        similarity: meta.similarity,
        entry_point: Some(node_id),
        max_level: level,
    };
    store_meta(txn, label, property, &started)
}

} // verus!
