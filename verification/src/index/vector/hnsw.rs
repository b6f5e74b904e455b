use vstd::prelude::*;
use vstd::string::StringSliceAdditionalSpecFns;

use crate::error::HelixiteError;
use crate::index::vector::meta_of;
use crate::id::NodeId;
use crate::index::codec::be64;
use crate::index::edges::wrote;
use crate::index::labels::fits;
use crate::index::vector::keys::{
    decode_link, decode_link_from_lnk_key, decode_node_id_from_vec_key, decode_vec_node, lnk_level_prefix,
    lnk_prefix, lvl_key, meta_bytes, meta_key, vec_key, vec_prefix, vector_base, VectorIndexMeta,
    LNK_PREFIX, LVL_PREFIX, META_PREFIX, VEC_PREFIX,
};
use crate::storage::bulk::{delete_prefix, remove_where};
use crate::storage::engine::{in_scan, lookup, scan_result, Db, Scan, StoreView, WriteTxn};

verus! {

/// Every stored level of every vector index holds at least one byte.
pub open spec fn vector_levels_wf(m: StoreView) -> bool {
    forall|k: Seq<u8>|
        #[trigger] m.contains_key((Db::VectorIndexes, k)) && k.len() > 0 && k[0] == LVL_PREFIX ==> m[(
        Db::VectorIndexes,
        k,
    )].len() >= 1
}

/// A link key names `id` as the node it points to.
pub open spec fn links_to(k: Seq<u8>, id: u64) -> bool {
    match decode_link(k) {
        Some((_, _, t)) => t == id,
        None => false,
    }
}

/// A link key at `level` that leaves `id` (any key under that prefix) or points to it.
pub open spec fn link_gone(base: Seq<u8>, level: u8, id: u64, k: Seq<u8>) -> bool {
    (base + seq![level] + be64(id)).is_prefix_of(k) || ((base + seq![level]).is_prefix_of(k)
        && links_to(k, id))
}

/// A link key at some level below `upto` that leaves or reaches `id`.
pub open spec fn links_gone(base: Seq<u8>, upto: int, id: u64, k: Seq<u8>) -> bool {
    exists|lv: u8| lv < upto && #[trigger] link_gone(base, lv, id, k)
}

/// The level stored for `n` in an index, where one is stored.
pub open spec fn level_of(m: StoreView, label: Seq<u8>, property: Seq<u8>, n: u64) -> Option<u8> {
    match lookup(m, Db::VectorIndexes, vector_base(LVL_PREFIX, label, property) + be64(n)) {
        Some(b) => if b.len() >= 1 {
            Some(b[0])
        } else {
            None
        },
        None => None,
    }
}

/// A stored vector key of an index, of a node other than `id` whose level is stored:
/// that node and its level.
pub open spec fn vec_candidate(m: StoreView, label: Seq<u8>, property: Seq<u8>, id: u64, k: Seq<u8>) -> Option<(u64, u8)> {
    if m.contains_key((Db::VectorIndexes, k)) && vector_base(VEC_PREFIX, label, property).is_prefix_of(k) {
        match decode_vec_node(k) {
            Some(n) => if n != id {
                match level_of(m, label, property, n) {
                    Some(l) => Some((n, l)),
                    None => None,
                }
            } else {
                None
            },
            None => None,
        }
    } else {
        None
    }
}

/// `ep` and `max_level` are a new entry point and top level for an index whose
/// remaining vectors are in `m`: no remaining level is above `max_level`; there is no
/// entry point only where no node remains, and then the top level is 0; otherwise the
/// entry point is a remaining node at the top level, level 0 included.
pub open spec fn entry_point_ok(m: StoreView, label: Seq<u8>, property: Seq<u8>, id: u64, max_level: u8, ep: Option<u64>) -> bool {
    &&& forall|k: Seq<u8>|
        #[trigger] vec_candidate(m, label, property, id, k) matches Some((n, l)) ==> l <= max_level
    &&& (ep is None <==> forall|k: Seq<u8>| #[trigger] vec_candidate(m, label, property, id, k) is None)
    &&& ep is None ==> max_level == 0
    &&& ep matches Some(e) ==> exists|k: Seq<u8>|
        #[trigger] vec_candidate(m, label, property, id, k) == Some((e, max_level))
}

/// The contents after removing a node at `level` from an index: its links and the links
/// to it at every level up to `level`, its vector and its level.
pub open spec fn hnsw_removed(m: StoreView, label: Seq<u8>, property: Seq<u8>, level: u8, id: u64) -> StoreView {
    remove_where(
        m,
        Db::VectorIndexes,
        |k: Seq<u8>| links_gone(vector_base(LNK_PREFIX, label, property), level + 1, id, k),
    ).remove((Db::VectorIndexes, vector_base(VEC_PREFIX, label, property) + be64(id))).remove(
        (Db::VectorIndexes, vector_base(LVL_PREFIX, label, property) + be64(id)),
    )
}

/// `f` is what deleting `id` from the index leaves of `m`: nothing changes where `id`
/// has no stored level; otherwise it is removed, and where it was the entry point the
/// metadata is stored again with a new entry point and top level.
pub open spec fn deleted_from_index(m: StoreView, f: StoreView, label: Seq<u8>, property: Seq<u8>, id: u64, meta: VectorIndexMeta) -> bool {
    match lookup(m, Db::VectorIndexes, vector_base(LVL_PREFIX, label, property) + be64(id)) {
        None => f == m,
        Some(b) => {
            let removed = hnsw_removed(m, label, property, b[0], id);
            if meta.entry_point == Some(id) {
                exists|ml: u8, ep: Option<u64>|
                    entry_point_ok(removed, label, property, id, ml, ep) && #[trigger] meta_bytes(
                        VectorIndexMeta { entry_point: ep, max_level: ml, ..meta },
                    ) == f[(Db::VectorIndexes, vector_base(META_PREFIX, label, property))] && f
                        == removed.insert(
                        (Db::VectorIndexes, vector_base(META_PREFIX, label, property)),
                        meta_bytes(VectorIndexMeta { entry_point: ep, max_level: ml, ..meta }),
                    )
            } else {
                f == removed
            }
        },
    }
}

/// Removing a node from an index keeps the index's metadata as it was.
pub proof fn lemma_meta_kept(m: StoreView, label: Seq<u8>, property: Seq<u8>, level: u8, id: u64)
    ensures
        hnsw_removed(m, label, property, level, id).contains_key((Db::VectorIndexes, vector_base(META_PREFIX, label, property)))
            == m.contains_key((Db::VectorIndexes, vector_base(META_PREFIX, label, property))),
        m.contains_key((Db::VectorIndexes, vector_base(META_PREFIX, label, property))) ==> hnsw_removed(m, label, property, level, id)[(
            Db::VectorIndexes,
            vector_base(META_PREFIX, label, property),
        )] == m[(Db::VectorIndexes, vector_base(META_PREFIX, label, property))],
{
    let mk = vector_base(META_PREFIX, label, property);
    let base = vector_base(LNK_PREFIX, label, property);
    assert(mk[0] == META_PREFIX);
    assert forall|lv: u8| !#[trigger] link_gone(base, lv, id, mk) by {
        assert((base + seq![lv] + be64(id))[0] == LNK_PREFIX);
        assert((base + seq![lv])[0] == LNK_PREFIX);
    }
    assert(!links_gone(base, level + 1, id, mk));
    assert((vector_base(VEC_PREFIX, label, property) + be64(id))[0] == VEC_PREFIX);
    assert((vector_base(LVL_PREFIX, label, property) + be64(id))[0] == LVL_PREFIX);
}

/// The HNSW graph over the vectors of one (label, property) index.
pub struct Hnsw;

impl Hnsw {
    /// Removes `node_id` from the index: its links and the links to it, its vector and
    /// its level; where it was the entry point, the remaining node of the highest level
    /// becomes the entry point.
    pub fn delete<T: WriteTxn>(
        txn: &mut T,
        label: &str,
        property: &str,
        node_id: NodeId,
        meta: &VectorIndexMeta,
    ) -> (r: Result<(), HelixiteError>)
        requires
            fits(label),
            fits(property),
            vector_levels_wf(old(txn).contents()),
        ensures
            final(txn).infallible() == old(txn).infallible(),
            old(txn).infallible() ==> r is Ok,
            r is Ok ==> vector_levels_wf(final(txn).contents()),
            r is Ok ==> deleted_from_index(
                old(txn).contents(),
                final(txn).contents(),
                label.spec_bytes(),
                property.spec_bytes(),
                node_id,
                *meta,
            ),
            r is Ok && meta_of(old(txn).contents(), label@, property@) == Some(*meta) ==> meta_of(final(txn).contents(), label@, property@) is Some,
    {
        let ghost m = txn.contents();
        let ghost lb = label.spec_bytes();
        let ghost pb = property.spec_bytes();
        let ghost base = vector_base(LNK_PREFIX, lb, pb);
        let lvl_k = lvl_key(label, property, node_id);
        let node_level: u8 = match txn.get(Db::VectorIndexes, lvl_k.as_slice())? {
            Some(b) => {
                assert(m.contains_key((Db::VectorIndexes, lvl_k@)));
                b[0]
            },
            None => return Ok(()),
        };
        let mut l: u16 = 0;
        while l <= node_level as u16
            invariant
                l <= node_level as u16 + 1,
                txn.infallible() == old(txn).infallible(),
                fits(label),
                fits(property),
                lb == label.spec_bytes(),
                pb == property.spec_bytes(),
                base == vector_base(LNK_PREFIX, lb, pb),
                vector_levels_wf(txn.contents()),
                txn.contents() == remove_where(
                    m,
                    Db::VectorIndexes,
                    |k: Seq<u8>| links_gone(base, l as int, node_id, k),
                ),
            decreases node_level as u16 + 1 - l,
        {
            let lv = l as u8;
            let ghost before = txn.contents();
            delete_prefix(txn, Db::VectorIndexes, lnk_prefix(label, property, lv, node_id))?;
            let ghost mid = txn.contents();
            Self::delete_links_to(txn, label, property, lv, node_id)?;
            proof {
                let target = remove_where(
                    m,
                    Db::VectorIndexes,
                    |k: Seq<u8>| links_gone(base, l + 1, node_id, k),
                );
                assert forall|k: (Db, Seq<u8>)| #![all_triggers]
                    txn.contents().contains_key(k) == target.contains_key(k) by {
                    if k.0 == Db::VectorIndexes && link_gone(base, lv, node_id, k.1) {
                        assert(links_gone(base, l + 1, node_id, k.1));
                    }
                    if k.0 == Db::VectorIndexes && links_gone(base, l as int, node_id, k.1) {
                        let w = choose|w: u8| w < l && #[trigger] link_gone(base, w, node_id, k.1);
                        assert(links_gone(base, l + 1, node_id, k.1));
                    }
                    if k.0 == Db::VectorIndexes && links_gone(base, l + 1, node_id, k.1) {
                        let w = choose|w: u8| w < l + 1 && #[trigger] link_gone(base, w, node_id, k.1);
                        if w < l {
                            assert(links_gone(base, l as int, node_id, k.1));
                        } else {
                            assert(w == lv);
                        }
                    }
                }
                assert(txn.contents() =~= target);
                assert forall|k: Seq<u8>|
                    #[trigger] txn.contents().contains_key((Db::VectorIndexes, k)) && k.len() > 0 && k[0]
                        == LVL_PREFIX implies txn.contents()[(Db::VectorIndexes, k)].len() >= 1 by {
                    assert(before.contains_key((Db::VectorIndexes, k)));
                }
            }
            l = l + 1;
        }
        let ghost after_links = txn.contents();
        txn.delete(Db::VectorIndexes, vec_key(label, property, node_id).as_slice())?;
        txn.delete(Db::VectorIndexes, lvl_k.as_slice())?;
        let ghost removed = txn.contents();
        proof {
            assert(removed =~= hnsw_removed(m, lb, pb, node_level, node_id));
            lemma_meta_kept(m, lb, pb, node_level, node_id);
            assert forall|k: Seq<u8>|
                #[trigger] removed.contains_key((Db::VectorIndexes, k)) && k.len() > 0 && k[0] == LVL_PREFIX
                    implies removed[(Db::VectorIndexes, k)].len() >= 1 by {
                assert(after_links.contains_key((Db::VectorIndexes, k)));
            }
        }
        if meta.entry_point == Some(node_id) {
            let (max_level, ep) = Self::highest_remaining(txn, label, property, node_id)?;
            let new_meta = VectorIndexMeta {
                dimension: meta.dimension,
                m: meta.m,
                ef_construction: meta.ef_construction,
                ef_search: meta.ef_search,
                similarity: meta.similarity,
                entry_point: ep,
                max_level,
            };
            let bytes = new_meta.serialize();
            txn.put(Db::VectorIndexes, meta_key(label, property).as_slice(), bytes.as_slice())?;
            proof {
                let f = txn.contents();
                let mk = vector_base(META_PREFIX, lb, pb);
                assert(new_meta == VectorIndexMeta { entry_point: ep, max_level, ..*meta });
                assert(f[(Db::VectorIndexes, mk)] == meta_bytes(new_meta));
                if meta_of(m, label@, property@) == Some(*meta) {
                    crate::index::vector::keys::lemma_meta_reads(new_meta);
                }
                assert(entry_point_ok(removed, lb, pb, node_id, max_level, ep) && meta_bytes(
                    VectorIndexMeta { entry_point: ep, max_level, ..*meta },
                ) == f[(Db::VectorIndexes, mk)] && f == removed.insert(
                    (Db::VectorIndexes, mk),
                    meta_bytes(VectorIndexMeta { entry_point: ep, max_level, ..*meta }),
                ));
                assert forall|k: Seq<u8>|
                    #[trigger] f.contains_key((Db::VectorIndexes, k)) && k.len() > 0 && k[0] == LVL_PREFIX
                        implies f[(Db::VectorIndexes, k)].len() >= 1 by {
                    if k != mk {
                        assert(removed.contains_key((Db::VectorIndexes, k)));
                    } else {
                        assert(mk[0] == META_PREFIX);
                    }
                }
            }
        }
        Ok(())
    }

    /// Removes every link at `level` of the index that points to `id`.
    fn delete_links_to<T: WriteTxn>(txn: &mut T, label: &str, property: &str, level: u8, id: NodeId) -> (r: Result<(), HelixiteError>)
        requires
            fits(label),
            fits(property),
        ensures
            wrote(
                *old(txn),
                *final(txn),
                r,
                remove_where(
                    old(txn).contents(),
                    Db::VectorIndexes,
                    |k: Seq<u8>| (vector_base(LNK_PREFIX, label.spec_bytes(), property.spec_bytes()) + seq![level]).is_prefix_of(k) && links_to(k, id),
                ),
            ),
    {
        let ghost m = txn.contents();
        let prefix = lnk_level_prefix(label, property, level);
        let ghost p = prefix@;
        let scan = Scan::Prefix(prefix);
        let entries = txn.scan(Db::VectorIndexes, &scan, None)?;
        let mut i: usize = 0;
        while i < entries.len()
            invariant
                i <= entries@.len(),
                scan_result(m, Db::VectorIndexes, scan, None, entries@),
                scan matches Scan::Prefix(q) && q@ == p,
                txn.infallible() == old(txn).infallible(),
                m == old(txn).contents(),
                txn.contents() == Map::new(
                    |k: (Db, Seq<u8>)| m.contains_key(k) && !(k.0 == Db::VectorIndexes && links_to(k.1, id) && exists|j: int| 0 <= j < i && (#[trigger] entries@[j]).key@ == k.1),
                    |k: (Db, Seq<u8>)| m[k],
                ),
            decreases entries@.len() - i,
        {
            let ghost pre = txn.contents();
            let key = entries[i].key.as_slice();
            let hit = match decode_link_from_lnk_key(key) {
                Some((_, _, target)) => target == id,
                None => false,
            };
            if hit {
                txn.delete(Db::VectorIndexes, key)?;
            }
            proof {
                let ki = entries@[i as int].key@;
                assert(hit == links_to(ki, id));
                assert forall|k: (Db, Seq<u8>)| #![all_triggers]
                    txn.contents().contains_key(k) == (m.contains_key(k) && !(k.0 == Db::VectorIndexes
                        && links_to(k.1, id) && exists|j: int|
                        0 <= j < i + 1 && (#[trigger] entries@[j]).key@ == k.1)) by {
                    if k.1 == ki {
                        assert(entries@[i as int].key@ == k.1);
                    }
                    if exists|j: int| 0 <= j < i + 1 && (#[trigger] entries@[j]).key@ == k.1 {
                        let j = choose|j: int| 0 <= j < i + 1 && (#[trigger] entries@[j]).key@ == k.1;
                        if j < i {
                            assert(exists|j: int| 0 <= j < i && (#[trigger] entries@[j]).key@ == k.1);
                        }
                    }
                }
                assert(txn.contents() =~= Map::new(
                    |k: (Db, Seq<u8>)| m.contains_key(k) && !(k.0 == Db::VectorIndexes && links_to(k.1, id) && exists|j: int| 0 <= j < i + 1 && (#[trigger] entries@[j]).key@ == k.1),
                    |k: (Db, Seq<u8>)| m[k],
                ));
            }
            i = i + 1;
        }
        proof {
            let target = remove_where(
                m,
                Db::VectorIndexes,
                |k: Seq<u8>| p.is_prefix_of(k) && links_to(k, id),
            );
            assert forall|k: (Db, Seq<u8>)| #![all_triggers]
                txn.contents().contains_key(k) == target.contains_key(k) by {
                if k.0 == Db::VectorIndexes && m.contains_key(k) && p.is_prefix_of(k.1) {
                    assert(m.contains_key((Db::VectorIndexes, k.1)));
                    let j = choose|j: int| 0 <= j < entries@.len() && entries@[j].key@ == k.1;
                    assert(entries@[j].key@ == k.1);
                }
                if k.0 == Db::VectorIndexes && exists|j: int|
                    0 <= j < entries@.len() && (#[trigger] entries@[j]).key@ == k.1 {
                    let j = choose|j: int| 0 <= j < entries@.len() && (#[trigger] entries@[j]).key@ == k.1;
                    assert(in_scan(scan, entries@[j].key@));
                }
            }
            assert(txn.contents() =~= target);
        }
        Ok(())
    }

    /// The highest level among the stored vectors of the index other than `id`'s, and a
    /// node at that level; no node where that level is 0.
    fn highest_remaining<T: WriteTxn>(txn: &T, label: &str, property: &str, id: NodeId) -> (r: Result<(u8, Option<NodeId>), HelixiteError>)
        requires
            fits(label),
            fits(property),
            vector_levels_wf(txn.contents()),
        ensures
            txn.infallible() ==> r is Ok,
            r matches Ok((ml, ep)) ==> entry_point_ok(
                txn.contents(),
                label.spec_bytes(),
                property.spec_bytes(),
                id,
                ml,
                ep,
            ),
    {
        let ghost m = txn.contents();
        let ghost lb = label.spec_bytes();
        let ghost pb = property.spec_bytes();
        let scan = Scan::Prefix(vec_prefix(label, property));
        let entries = txn.scan(Db::VectorIndexes, &scan, None)?;
        let mut new_ep: Option<NodeId> = None;
        let mut new_max: u8 = 0;
        let mut i: usize = 0;
        while i < entries.len()
            invariant
                i <= entries@.len(),
                fits(label),
                fits(property),
                lb == label.spec_bytes(),
                pb == property.spec_bytes(),
                m == txn.contents(),
                vector_levels_wf(m),
                scan_result(m, Db::VectorIndexes, scan, None, entries@),
                scan matches Scan::Prefix(q) && q@ == vector_base(VEC_PREFIX, lb, pb),
                forall|j: int|
                    0 <= j < i ==> (vec_candidate(m, lb, pb, id, (#[trigger] entries@[j]).key@) matches Some((n, l)) ==> l <= new_max),
                new_ep is None ==> new_max == 0,
                new_ep is None ==> forall|j: int| 0 <= j < i ==> vec_candidate(m, lb, pb, id, (#[trigger] entries@[j]).key@) is None,
                new_ep matches Some(e) ==> exists|j: int|
                    0 <= j < i && vec_candidate(m, lb, pb, id, (#[trigger] entries@[j]).key@) == Some((e, new_max)),
            decreases entries@.len() - i,
        {
            let key = entries[i].key.as_slice();
            let ghost kv = entries@[i as int].key@;
            assert(m.contains_key((Db::VectorIndexes, kv)));
            assert(vector_base(VEC_PREFIX, lb, pb).is_prefix_of(kv));
            if let Some(nid) = decode_node_id_from_vec_key(key) {
                if nid != id {
                    let lk = lvl_key(label, property, nid);
                    if let Some(lvl_bytes) = txn.get(Db::VectorIndexes, lk.as_slice())? {
                        proof {
                            assert(m.contains_key((Db::VectorIndexes, lk@)));
                            assert(lk@[0] == LVL_PREFIX);
                        }
                        let lvl = lvl_bytes[0];
                        assert(vec_candidate(m, lb, pb, id, kv) == Some((nid, lvl)));
                        if new_ep.is_none() || lvl > new_max {
                            new_max = lvl;
                            new_ep = Some(nid);
                        }
                    } else {
                        assert(vec_candidate(m, lb, pb, id, kv) is None);
                    }
                } else {
                    assert(vec_candidate(m, lb, pb, id, kv) is None);
                }
            } else {
                assert(vec_candidate(m, lb, pb, id, kv) is None);
            }
            proof {
                if new_ep is Some {
                    let e = new_ep.unwrap();
                    if vec_candidate(m, lb, pb, id, kv) == Some((e, new_max)) {
                        assert(0 <= i < i + 1 && vec_candidate(m, lb, pb, id, entries@[i as int].key@) == Some((e, new_max)));
                    }
                }
            }
            i = i + 1;
        }
        proof {
            assert forall|k: Seq<u8>|
                #[trigger] vec_candidate(m, lb, pb, id, k) is Some implies vec_candidate(m, lb, pb, id, k).unwrap().1 <= new_max by {
                assert(m.contains_key((Db::VectorIndexes, k)));
                let j = choose|j: int| 0 <= j < entries@.len() && entries@[j].key@ == k;
                assert(vec_candidate(m, lb, pb, id, entries@[j].key@) == vec_candidate(m, lb, pb, id, k));
            }
            if new_ep is Some {
                let e = new_ep.unwrap();
                let j = choose|j: int|
                    0 <= j < i && vec_candidate(m, lb, pb, id, (#[trigger] entries@[j]).key@) == Some((e, new_max));
                assert(vec_candidate(m, lb, pb, id, entries@[j].key@) == Some((e, new_max)));
            } else {
                assert forall|k: Seq<u8>| #[trigger] vec_candidate(m, lb, pb, id, k) is None by {
                    if vec_candidate(m, lb, pb, id, k) is Some {
                        assert(m.contains_key((Db::VectorIndexes, k)));
                        let j = choose|j: int| 0 <= j < entries@.len() && entries@[j].key@ == k;
                        assert(vec_candidate(m, lb, pb, id, entries@[j].key@) == vec_candidate(m, lb, pb, id, k));
                    }
                }
            }
        }
        Ok((new_max, new_ep))
    }
}

/// Whether every stored level of every vector index holds at least one byte.
pub fn vector_levels_ok<T: crate::storage::engine::ReadTxn>(txn: &T) -> (r: Result<bool, HelixiteError>)
    ensures
        txn.infallible() ==> r is Ok,
        r matches Ok(b) ==> b == vector_levels_wf(txn.contents()),
{
    let ghost m = txn.contents();
    let mut prefix: Vec<u8> = Vec::new();
    prefix.push(2u8);
    let ghost p = prefix@;
    let scan = Scan::Prefix(prefix);
    let entries = txn.scan(Db::VectorIndexes, &scan, None)?;
    let mut i: usize = 0;
    while i < entries.len()
        invariant
            i <= entries@.len(),
            m == txn.contents(),
            p == seq![2u8],
            scan_result(m, Db::VectorIndexes, scan, None, entries@),
            scan matches Scan::Prefix(q) && q@ == p,
            forall|j: int| 0 <= j < i ==> (#[trigger] entries@[j]).value@.len() >= 1,
        decreases entries@.len() - i,
    {
        if entries[i].value.len() == 0 {
            proof {
                let k = entries@[i as int].key@;
                assert(m.contains_key((Db::VectorIndexes, k)));
                assert(in_scan(scan, k));
                assert(k[0] == p[0]);
                assert(m[(Db::VectorIndexes, k)] == entries@[i as int].value@);
            }
            return Ok(false);
        }
        i = i + 1;
    }
    proof {
        assert forall|k: Seq<u8>|
            #[trigger] m.contains_key((Db::VectorIndexes, k)) && k.len() > 0 && k[0] == LVL_PREFIX implies m[(
            Db::VectorIndexes,
            k,
        )].len() >= 1 by {
            assert(p.is_prefix_of(k)) by {
                assert(k.subrange(0, 1) =~= p);
            }
            let j = choose|j: int| 0 <= j < entries@.len() && entries@[j].key@ == k;
            assert(entries@[j].value@.len() >= 1);
        }
    }
    Ok(true)
}

} // verus!
