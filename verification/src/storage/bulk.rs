use vstd::prelude::*;

use crate::error::HelixiteError;
use crate::index::edges::wrote;
use crate::storage::engine::{scan_result, Db, Entry, Scan, StoreView, WriteTxn};

verus! {

/// The contents without the keys of `db` that satisfy `p`.
pub open spec fn remove_where(m: StoreView, db: Db, p: spec_fn(Seq<u8>) -> bool) -> StoreView {
    Map::new(|k: (Db, Seq<u8>)| m.contains_key(k) && !(k.0 == db && p(k.1)), |k: (Db, Seq<u8>)| m[k])
}

/// The contents with an empty value stored under each of `keys` in `db`, in order.
pub open spec fn put_keys(m: StoreView, db: Db, keys: Seq<Seq<u8>>) -> StoreView
    decreases keys.len(),
{
    if keys.len() == 0 {
        m
    } else {
        put_keys(m, db, keys.drop_last()).insert((db, keys.last()), Seq::empty())
    }
}

/// The contents without each of `keys` in `db`.
pub open spec fn del_keys(m: StoreView, db: Db, keys: Seq<Seq<u8>>) -> StoreView
    decreases keys.len(),
{
    if keys.len() == 0 {
        m
    } else {
        del_keys(m, db, keys.drop_last()).remove((db, keys.last()))
    }
}

/// What storing empty values under keys does to each (database, key) pair.
pub proof fn lemma_put_keys(m: StoreView, db: Db, keys: Seq<Seq<u8>>, k: (Db, Seq<u8>))
    ensures
        put_keys(m, db, keys).contains_key(k) <==> (m.contains_key(k) || (k.0 == db && keys.contains(k.1))),
        put_keys(m, db, keys).contains_key(k) ==> put_keys(m, db, keys)[k] == if k.0 == db && keys.contains(k.1) {
            Seq::<u8>::empty()
        } else {
            m[k]
        },
    decreases keys.len(),
{
    if keys.len() > 0 {
        lemma_put_keys(m, db, keys.drop_last(), k);
        if k.0 == db && keys.drop_last().contains(k.1) {
            let i = choose|i: int| 0 <= i < keys.drop_last().len() && keys.drop_last()[i] == k.1;
            assert(keys[i] == k.1);
        }
        if k.0 == db && keys.contains(k.1) && k.1 != keys.last() {
            let i = choose|i: int| 0 <= i < keys.len() && keys[i] == k.1;
            assert(keys.drop_last()[i] == k.1);
        }
        if k.0 == db && k.1 == keys.last() {
            assert(keys[keys.len() - 1] == k.1);
        }
    }
}

/// What removing keys does to each (database, key) pair.
pub proof fn lemma_del_keys(m: StoreView, db: Db, keys: Seq<Seq<u8>>, k: (Db, Seq<u8>))
    ensures
        del_keys(m, db, keys).contains_key(k) <==> (m.contains_key(k) && !(k.0 == db && keys.contains(k.1))),
        del_keys(m, db, keys).contains_key(k) ==> del_keys(m, db, keys)[k] == m[k],
    decreases keys.len(),
{
    if keys.len() > 0 {
        lemma_del_keys(m, db, keys.drop_last(), k);
        if k.0 == db && keys.drop_last().contains(k.1) {
            let i = choose|i: int| 0 <= i < keys.drop_last().len() && keys.drop_last()[i] == k.1;
            assert(keys[i] == k.1);
        }
        if k.0 == db && keys.contains(k.1) && k.1 != keys.last() {
            let i = choose|i: int| 0 <= i < keys.len() && keys[i] == k.1;
            assert(keys.drop_last()[i] == k.1);
        }
        if k.0 == db && k.1 == keys.last() {
            assert(keys[keys.len() - 1] == k.1);
        }
    }
}

/// Removing keys that were just stored, none of which was there before, gives back the
/// contents as they were.
pub proof fn law_put_then_del_keys(m: StoreView, db: Db, keys: Seq<Seq<u8>>)
    requires
        forall|i: int| 0 <= i < keys.len() ==> !m.contains_key((db, #[trigger] keys[i])),
    ensures
        del_keys(put_keys(m, db, keys), db, keys) == m,
{
    let r = del_keys(put_keys(m, db, keys), db, keys);
    assert forall|k: (Db, Seq<u8>)| #[trigger] r.contains_key(k) == m.contains_key(k) by {
        lemma_del_keys(put_keys(m, db, keys), db, keys, k);
        lemma_put_keys(m, db, keys, k);
        if k.0 == db && keys.contains(k.1) {
            let i = choose|i: int| 0 <= i < keys.len() && keys[i] == k.1;
            assert(!m.contains_key((db, keys[i])));
        }
    }
    assert forall|k: (Db, Seq<u8>)| r.contains_key(k) implies #[trigger] r[k] == m[k] by {
        lemma_del_keys(put_keys(m, db, keys), db, keys, k);
        lemma_put_keys(m, db, keys, k);
    }
    assert(r =~= m);
}

/// Removes every key of `db` that starts with `prefix`.
pub fn delete_prefix<T: WriteTxn>(txn: &mut T, db: Db, prefix: Vec<u8>) -> (r: Result<(), HelixiteError>)
    ensures
        wrote(
            *old(txn),
            *final(txn),
            r,
            remove_where(old(txn).contents(), db, |k: Seq<u8>| prefix@.is_prefix_of(k)),
        ),
{
    let ghost p = prefix@;
    let ghost m = txn.contents();
    let scan = Scan::Prefix(prefix);
    let entries = txn.scan(db, &scan, None)?;
    let mut i: usize = 0;
    while i < entries.len()
        invariant
            i <= entries@.len(),
            scan_result(m, db, scan, None, entries@),
            scan matches Scan::Prefix(q) && q@ == p,
            txn.infallible() == old(txn).infallible(),
            m == old(txn).contents(),
            txn.contents() == Map::new(
                |k: (Db, Seq<u8>)| m.contains_key(k) && !(k.0 == db && exists|j: int| 0 <= j < i && (#[trigger] entries@[j]).key@ == k.1),
                |k: (Db, Seq<u8>)| m[k],
            ),
        decreases entries@.len() - i,
    {
        let ghost pre = txn.contents();
        txn.delete(db, entries[i].key.as_slice())?;
        proof {
            let ki = entries@[i as int].key@;
            assert forall|k: (Db, Seq<u8>)| #![all_triggers]
                txn.contents().contains_key(k) == (m.contains_key(k) && !(k.0 == db && exists|j: int|
                    0 <= j < i + 1 && (#[trigger] entries@[j]).key@ == k.1)) by {
                if k.0 == db && k.1 == ki {
                    assert(entries@[i as int].key@ == k.1);
                }
                if exists|j: int| 0 <= j < i + 1 && (#[trigger] entries@[j]).key@ == k.1 {
                    let j = choose|j: int| 0 <= j < i + 1 && (#[trigger] entries@[j]).key@ == k.1;
                    if j < i {
                        assert(exists|j: int| 0 <= j < i && (#[trigger] entries@[j]).key@ == k.1);
                    }
                }
            }
            assert(txn.contents() =~= Map::new(
                |k: (Db, Seq<u8>)| m.contains_key(k) && !(k.0 == db && exists|j: int| 0 <= j < i + 1 && (#[trigger] entries@[j]).key@ == k.1),
                |k: (Db, Seq<u8>)| m[k],
            ));
        }
        i = i + 1;
    }
    proof {
        let target = remove_where(m, db, |k: Seq<u8>| p.is_prefix_of(k));
        assert forall|k: (Db, Seq<u8>)| #![all_triggers] txn.contents().contains_key(k) == target.contains_key(k) by {
            if k.0 == db && m.contains_key(k) && p.is_prefix_of(k.1) {
                assert(m.contains_key((db, k.1)));
                let j = choose|j: int| 0 <= j < entries@.len() && entries@[j].key@ == k.1;
                assert(entries@[j].key@ == k.1);
            }
            if k.0 == db && exists|j: int| 0 <= j < entries@.len() && (#[trigger] entries@[j]).key@ == k.1 {
                let j = choose|j: int| 0 <= j < entries@.len() && (#[trigger] entries@[j]).key@ == k.1;
                assert(crate::storage::engine::in_scan(scan, entries@[j].key@));
            }
        }
        assert(txn.contents() =~= target);
    }
    Ok(())
}

} // verus!
