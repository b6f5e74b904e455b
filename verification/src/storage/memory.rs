use vstd::prelude::*;

use crate::error::HelixiteError;
use crate::storage::engine::{
    in_scan, lookup, lookup_matches, scan_result, Db, Entry, ReadTxn, Scan, StorageEngine,
    StoreView, WriteTxn,
};
use crate::value::copy_bytes;

verus! {

/// One stored key and its value.
pub struct Record {
    pub db: Db,
    pub key: Vec<u8>,
    pub value: Vec<u8>,
}

/// The record is stored under `k`.
pub open spec fn rec_has(r: Record, k: (Db, Seq<u8>)) -> bool {
    r.db == k.0 && r.key@ == k.1
}

/// No two records share a database and key.
pub open spec fn no_dup(s: Seq<Record>) -> bool {
    forall|i: int, j: int|
        0 <= i < s.len() && 0 <= j < s.len() && i != j ==> !rec_has(
            #[trigger] s[i],
            (#[trigger] s[j].db, s[j].key@),
        )
}

/// Some record is stored under `k`.
pub open spec fn has_key(s: Seq<Record>, k: (Db, Seq<u8>)) -> bool {
    exists|i: int| 0 <= i < s.len() && rec_has(#[trigger] s[i], k)
}

/// The contents that a list of records stands for.
pub open spec fn view_of(s: Seq<Record>) -> StoreView {
    Map::new(
        |k: (Db, Seq<u8>)| has_key(s, k),
        |k: (Db, Seq<u8>)| s[choose|i: int| 0 <= i < s.len() && rec_has(#[trigger] s[i], k)].value@,
    )
}

proof fn lemma_view_index(s: Seq<Record>, i: int)
    requires
        no_dup(s),
        0 <= i < s.len(),
    ensures
        view_of(s).contains_key((s[i].db, s[i].key@)),
        view_of(s)[(s[i].db, s[i].key@)] == s[i].value@,
{
    let k = (s[i].db, s[i].key@);
    assert(rec_has(s[i], k));
    assert(has_key(s, k));
    let j = choose|j: int| 0 <= j < s.len() && rec_has(#[trigger] s[j], k);
    if j != i {
        assert(!rec_has(s[j], (s[i].db, s[i].key@)));
    }
}

proof fn lemma_view_push(s: Seq<Record>, r: Record)
    requires
        no_dup(s),
        !has_key(s, (r.db, r.key@)),
    ensures
        no_dup(s.push(r)),
        view_of(s.push(r)) == view_of(s).insert((r.db, r.key@), r.value@),
{
    let t = s.push(r);
    assert forall|i: int, j: int|
        0 <= i < t.len() && 0 <= j < t.len() && i != j implies !rec_has(
        #[trigger] t[i],
        (#[trigger] t[j].db, t[j].key@),
    ) by {
        if i == s.len() {
            if rec_has(t[i], (t[j].db, t[j].key@)) {
                assert(rec_has(s[j], (r.db, r.key@)));
            }
        } else if j == s.len() {
            assert(!rec_has(s[i], (r.db, r.key@)));
        } else {
            assert(t[i] == s[i] && t[j] == s[j]);
        }
    }
    lemma_view_index(t, s.len() as int);
    assert forall|k: (Db, Seq<u8>)| #[trigger] view_of(t).contains_key(k) == view_of(s).insert(
        (r.db, r.key@),
        r.value@,
    ).contains_key(k) by {
        if has_key(s, k) {
            let i = choose|i: int| 0 <= i < s.len() && rec_has(#[trigger] s[i], k);
            assert(t[i] == s[i]);
        }
        if has_key(t, k) {
            let i = choose|i: int| 0 <= i < t.len() && rec_has(#[trigger] t[i], k);
            if i < s.len() {
                assert(t[i] == s[i]);
            }
        }
    }
    assert forall|k: (Db, Seq<u8>)| #[trigger] view_of(t).contains_key(k) implies view_of(t)[k]
        == view_of(s).insert((r.db, r.key@), r.value@)[k] by {
        if k != (r.db, r.key@) {
            let i = choose|i: int| 0 <= i < t.len() && rec_has(#[trigger] t[i], k);
            assert(i < s.len());
            assert(t[i] == s[i]);
            lemma_view_index(t, i);
            lemma_view_index(s, i);
        }
    }
    assert(view_of(t) =~= view_of(s).insert((r.db, r.key@), r.value@));
}

proof fn lemma_view_update(s: Seq<Record>, i: int, r: Record)
    requires
        no_dup(s),
        0 <= i < s.len(),
        r.db == s[i].db,
        r.key@ == s[i].key@,
    ensures
        no_dup(s.update(i, r)),
        view_of(s.update(i, r)) == view_of(s).insert((r.db, r.key@), r.value@),
{
    let t = s.update(i, r);
    assert forall|a: int, b: int|
        0 <= a < t.len() && 0 <= b < t.len() && a != b implies !rec_has(
        #[trigger] t[a],
        (#[trigger] t[b].db, t[b].key@),
    ) by {
        assert(!rec_has(s[a], (s[b].db, s[b].key@)));
    }
    lemma_view_index(t, i);
    assert forall|k: (Db, Seq<u8>)| #[trigger] view_of(t).contains_key(k) == view_of(s).insert(
        (r.db, r.key@),
        r.value@,
    ).contains_key(k) by {
        if has_key(s, k) {
            let j = choose|j: int| 0 <= j < s.len() && rec_has(#[trigger] s[j], k);
            assert(rec_has(t[j], k));
        }
        if has_key(t, k) {
            let j = choose|j: int| 0 <= j < t.len() && rec_has(#[trigger] t[j], k);
            assert(rec_has(s[j], k));
        }
    }
    assert forall|k: (Db, Seq<u8>)| #[trigger] view_of(t).contains_key(k) implies view_of(t)[k]
        == view_of(s).insert((r.db, r.key@), r.value@)[k] by {
        if k != (r.db, r.key@) {
            let j = choose|j: int| 0 <= j < t.len() && rec_has(#[trigger] t[j], k);
            assert(j != i);
            lemma_view_index(t, j);
            lemma_view_index(s, j);
        }
    }
    assert(view_of(t) =~= view_of(s).insert((r.db, r.key@), r.value@));
}

proof fn lemma_view_remove(s: Seq<Record>, i: int)
    requires
        no_dup(s),
        0 <= i < s.len(),
    ensures
        no_dup(s.remove(i)),
        view_of(s.remove(i)) == view_of(s).remove((s[i].db, s[i].key@)),
{
    let t = s.remove(i);
    let ki = (s[i].db, s[i].key@);
    assert forall|a: int, b: int|
        0 <= a < t.len() && 0 <= b < t.len() && a != b implies !rec_has(
        #[trigger] t[a],
        (#[trigger] t[b].db, t[b].key@),
    ) by {
        let sa = if a < i { a } else { a + 1 };
        let sb = if b < i { b } else { b + 1 };
        assert(t[a] == s[sa] && t[b] == s[sb]);
        assert(!rec_has(s[sa], (s[sb].db, s[sb].key@)));
    }
    assert forall|k: (Db, Seq<u8>)| #[trigger] view_of(t).contains_key(k) == view_of(s).remove(
        ki,
    ).contains_key(k) by {
        if has_key(s, k) && k != ki {
            let j = choose|j: int| 0 <= j < s.len() && rec_has(#[trigger] s[j], k);
            assert(j != i);
            let tj = if j < i { j } else { j - 1 };
            assert(t[tj] == s[j]);
            assert(rec_has(t[tj], k));
        }
        if has_key(t, k) {
            let j = choose|j: int| 0 <= j < t.len() && rec_has(#[trigger] t[j], k);
            let sj = if j < i { j } else { j + 1 };
            assert(t[j] == s[sj]);
            assert(rec_has(s[sj], k));
            assert(!rec_has(s[sj], ki));
        }
    }
    assert forall|k: (Db, Seq<u8>)| #[trigger] view_of(t).contains_key(k) implies view_of(t)[k]
        == view_of(s).remove(ki)[k] by {
        let j = choose|j: int| 0 <= j < t.len() && rec_has(#[trigger] t[j], k);
        let sj = if j < i { j } else { j + 1 };
        assert(t[j] == s[sj]);
        lemma_view_index(t, j);
        lemma_view_index(s, sj);
    }
    assert(view_of(t) =~= view_of(s).remove(ki));
}

/// Whether two byte strings are equal.
pub fn bytes_eq(a: &[u8], b: &[u8]) -> (r: bool)
    ensures
        r == (a@ == b@),
{
    if a.len() != b.len() {
        return false;
    }
    let mut i: usize = 0;
    while i < a.len()
        invariant
            a@.len() == b@.len(),
            i <= a@.len(),
            forall|j: int| 0 <= j < i ==> a@[j] == b@[j],
        decreases a@.len() - i,
    {
        if a[i] != b[i] {
            return false;
        }
        i = i + 1;
    }
    assert(a@ =~= b@);
    true
}

/// Whether `prefix` is a prefix of `key`.
pub fn starts_with(key: &[u8], prefix: &[u8]) -> (r: bool)
    ensures
        r == prefix@.is_prefix_of(key@),
{
    if prefix.len() > key.len() {
        return false;
    }
    let mut i: usize = 0;
    while i < prefix.len()
        invariant
            prefix@.len() <= key@.len(),
            i <= prefix@.len(),
            forall|j: int| 0 <= j < i ==> prefix@[j] == key@[j],
        decreases prefix@.len() - i,
    {
        if prefix[i] != key[i] {
            assert(prefix@[i as int] != key@.subrange(0, prefix@.len() as int)[i as int]);
            return false;
        }
        i = i + 1;
    }
    assert(prefix@ =~= key@.subrange(0, prefix@.len() as int));
    true
}

/// Whether a scan visits `key`.
pub fn scan_visits(scan: &Scan, key: &[u8]) -> (r: bool)
    ensures
        r == in_scan(*scan, key@),
{
    match scan {
        Scan::All => true,
        Scan::Prefix(p) => starts_with(key, p.as_slice()),
    }
}

/// The records of a store, no two under one key.
struct Store {
    recs: Vec<Record>,
}

impl Store {
    #[verifier::type_invariant]
    spec fn inv(self) -> bool {
        no_dup(self.recs@)
    }

    spec fn view(&self) -> StoreView {
        view_of(self.recs@)
    }

    fn new() -> (r: Self)
        ensures
            r.view() == Map::<(Db, Seq<u8>), Seq<u8>>::empty(),
    {
        let r = Store { recs: Vec::new() };
        assert(r.view() =~= Map::<(Db, Seq<u8>), Seq<u8>>::empty());
        r
    }

    fn find(&self, db: Db, key: &[u8]) -> (r: Option<usize>)
        ensures
            match r {
                Some(i) => i < self.recs@.len() && rec_has(self.recs@[i as int], (db, key@)),
                None => !has_key(self.recs@, (db, key@)),
            },
    {
        let mut i: usize = 0;
        while i < self.recs.len()
            invariant
                i <= self.recs@.len(),
                forall|j: int| 0 <= j < i ==> !rec_has(#[trigger] self.recs@[j], (db, key@)),
            decreases self.recs@.len() - i,
        {
            let r = &self.recs[i];
            if r.db == db && bytes_eq(r.key.as_slice(), key) {
                return Some(i);
            }
            i = i + 1;
        }
        None
    }

    fn get(&self, db: Db, key: &[u8]) -> (r: Option<Vec<u8>>)
        ensures
            lookup_matches(self.view(), db, key@, r),
    {
        proof {
            use_type_invariant(self);
        }
        match self.find(db, key) {
            Some(i) => {
                proof {
                    lemma_view_index(self.recs@, i as int);
                }
                Some(copy_bytes(&self.recs[i].value))
            },
            None => None,
        }
    }

    fn put(&mut self, db: Db, key: &[u8], value: &[u8]) -> (r: ())
        ensures
            final(self).view() == old(self).view().insert((db, key@), value@),
    {
        proof {
            use_type_invariant(&*self);
        }
        let rec = Record { db, key: vstd::slice::slice_to_vec(key), value: vstd::slice::slice_to_vec(value) };
        let found = self.find(db, key);
        let mut recs: Vec<Record> = Vec::new();
        std::mem::swap(&mut recs, &mut self.recs);
        match found {
            Some(i) => {
                proof {
                    lemma_view_update(recs@, i as int, rec);
                }
                recs.set(i, rec);
            },
            None => {
                proof {
                    lemma_view_push(recs@, rec);
                }
                recs.push(rec);
            },
        }
        self.recs = recs;
    }

    fn delete(&mut self, db: Db, key: &[u8]) -> (r: ())
        ensures
            final(self).view() == old(self).view().remove((db, key@)),
    {
        proof {
            use_type_invariant(&*self);
        }
        match self.find(db, key) {
            Some(i) => {
                let mut recs: Vec<Record> = Vec::new();
                std::mem::swap(&mut recs, &mut self.recs);
                proof {
                    lemma_view_remove(recs@, i as int);
                }
                recs.remove(i);
                self.recs = recs;
            },
            None => {
                assert(self.view() =~= old(self).view().remove((db, key@)));
            },
        }
    }

    fn scan(&self, db: Db, scan: &Scan, limit: Option<usize>) -> (r: Vec<Entry>)
        ensures
            scan_result(self.view(), db, *scan, limit, r@),
    {
        proof {
            use_type_invariant(self);
        }
        let mut out: Vec<Entry> = Vec::new();
        let ghost mut src: Seq<int> = Seq::empty();
        let mut i: usize = 0;
        let mut full = match limit {
            Some(l) => l == 0,
            None => false,
        };
        while i < self.recs.len() && !full
            invariant
                no_dup(self.recs@),
                i <= self.recs@.len(),
                src.len() == out@.len(),
                full == match limit {
                    Some(l) => out@.len() >= l,
                    None => false,
                },
                match limit {
                    Some(l) => out@.len() <= l,
                    None => true,
                },
                forall|k: int|
                    0 <= k < out@.len() ==> {
                        &&& 0 <= #[trigger] src[k] < i
                        &&& self.recs@[src[k]].db == db
                        &&& self.recs@[src[k]].key@ == out@[k].key@
                        &&& self.recs@[src[k]].value@ == out@[k].value@
                        &&& in_scan(*scan, out@[k].key@)
                    },
                forall|k1: int, k2: int| 0 <= k1 < k2 < out@.len() ==> src[k1] < src[k2],
                forall|j: int|
                    0 <= j < i && (#[trigger] self.recs@[j]).db == db && in_scan(
                        *scan,
                        self.recs@[j].key@,
                    ) ==> exists|k: int| 0 <= k < out@.len() && src[k] == j,
            decreases self.recs@.len() - i,
        {
            let r = &self.recs[i];
            let ghost old_src = src;
            let ghost old_len = out@.len();
            if r.db == db && scan_visits(scan, r.key.as_slice()) {
                let e = Entry { key: copy_bytes(&r.key), value: copy_bytes(&r.value) };
                out.push(e);
                proof {
                    src = src.push(i as int);
                    assert(src[src.len() - 1] == i as int);
                    assert forall|j: int|
                        0 <= j < i + 1 && (#[trigger] self.recs@[j]).db == db && in_scan(
                            *scan,
                            self.recs@[j].key@,
                        ) implies exists|k: int| 0 <= k < out@.len() && src[k] == j by {
                        if j < i {
                            let k = choose|k: int| 0 <= k < old_len && old_src[k] == j;
                            assert(src[k] == old_src[k]);
                        } else {
                            assert(src[old_len as int] == j);
                        }
                    }
                }
                full = match limit {
                    Some(l) => out.len() >= l,
                    None => false,
                };
            }
            i = i + 1;
        }
        proof {
            let m = self.view();
            let es = out@;
            assert forall|k: int| 0 <= k < es.len() implies {
                &&& in_scan(*scan, (#[trigger] es[k]).key@)
                &&& m.contains_key((db, es[k].key@))
                &&& m[(db, es[k].key@)] == es[k].value@
            } by {
                lemma_view_index(self.recs@, src[k]);
            }
            assert forall|k1: int, k2: int| 0 <= k1 < k2 < es.len() implies es[k1].key@
                != es[k2].key@ by {
                assert(src[k1] != src[k2]);
                assert(!rec_has(self.recs@[src[k1]], (self.recs@[src[k2]].db, self.recs@[src[k2]].key@)));
            }
            if !full {
                assert forall|kk: Seq<u8>|
                    #![trigger m.contains_key((db, kk))]
                    m.contains_key((db, kk)) && in_scan(*scan, kk) implies exists|k: int|
                        0 <= k < es.len() && es[k].key@ == kk by {
                    let j = choose|j: int| 0 <= j < self.recs@.len() && rec_has(#[trigger] self.recs@[j], (db, kk));
                    assert(self.recs@[j].db == db);
                    let k = choose|k: int| 0 <= k < out@.len() && src[k] == j;
                    assert(es[k].key@ == kk);
                }
            }
        }
        out
    }

    fn copy(&self) -> (r: Store)
        ensures
            r.view() == self.view(),
    {
        proof {
            use_type_invariant(self);
        }
        let mut recs: Vec<Record> = Vec::new();
        let mut i: usize = 0;
        while i < self.recs.len()
            invariant
                i <= self.recs@.len(),
                recs@.len() == i,
                forall|j: int|
                    0 <= j < i ==> (#[trigger] recs@[j]).db == self.recs@[j].db && recs@[j].key@
                        == self.recs@[j].key@ && recs@[j].value@ == self.recs@[j].value@,
            decreases self.recs@.len() - i,
        {
            let r = &self.recs[i];
            recs.push(Record { db: r.db, key: copy_bytes(&r.key), value: copy_bytes(&r.value) });
            i = i + 1;
        }
        proof {
            assert forall|a: int, b: int|
                0 <= a < recs@.len() && 0 <= b < recs@.len() && a != b implies !rec_has(
                #[trigger] recs@[a],
                (#[trigger] recs@[b].db, recs@[b].key@),
            ) by {
                assert(!rec_has(self.recs@[a], (self.recs@[b].db, self.recs@[b].key@)));
            }
            assert forall|k: (Db, Seq<u8>)| #[trigger] view_of(recs@).contains_key(k)
                == view_of(self.recs@).contains_key(k) by {
                if has_key(recs@, k) {
                    let j = choose|j: int| 0 <= j < recs@.len() && rec_has(#[trigger] recs@[j], k);
                    assert(rec_has(self.recs@[j], k));
                }
                if has_key(self.recs@, k) {
                    let j = choose|j: int| 0 <= j < self.recs@.len() && rec_has(#[trigger] self.recs@[j], k);
                    assert(rec_has(recs@[j], k));
                }
            }
            assert forall|k: (Db, Seq<u8>)| #[trigger] view_of(recs@).contains_key(k) implies view_of(recs@)[k]
                == view_of(self.recs@)[k] by {
                let j = choose|j: int| 0 <= j < recs@.len() && rec_has(#[trigger] recs@[j], k);
                lemma_view_index(recs@, j);
                lemma_view_index(self.recs@, j);
            }
            assert(view_of(recs@) =~= view_of(self.recs@));
        }
        Store { recs }
    }
}

/// A snapshot of an in-memory store that reads and writes without touching the store
/// until it is committed.
pub struct MemoryTxn {
    snapshot: Store,
}

impl MemoryTxn {
    /// What the transaction sees.
    pub closed spec fn view(&self) -> StoreView {
        self.snapshot.view()
    }

    /// A transaction over an empty store.
    pub fn empty() -> (r: Self)
        ensures
            r.view() == Map::<(Db, Seq<u8>), Seq<u8>>::empty(),
    {
        MemoryTxn { snapshot: Store::new() }
    }
}

impl ReadTxn for MemoryTxn {
    open spec fn contents(&self) -> StoreView {
        self.view()
    }

    open spec fn infallible(&self) -> bool {
        true
    }

    fn get(&self, db: Db, key: &[u8]) -> (r: Result<Option<Vec<u8>>, HelixiteError>) {
        Ok(self.snapshot.get(db, key))
    }

    fn scan(&self, db: Db, scan: &Scan, limit: Option<usize>) -> (r: Result<
        Vec<Entry>,
        HelixiteError,
    >) {
        Ok(self.snapshot.scan(db, scan, limit))
    }
}

impl WriteTxn for MemoryTxn {
    fn put(&mut self, db: Db, key: &[u8], value: &[u8]) -> (r: Result<(), HelixiteError>) {
        self.snapshot.put(db, key, value);
        Ok(())
    }

    fn delete(&mut self, db: Db, key: &[u8]) -> (r: Result<(), HelixiteError>) {
        self.snapshot.delete(db, key);
        Ok(())
    }
}

/// A store held in memory. Transactions work on snapshots; committing one makes the
/// store what the transaction holds, with its writes and its deletions.
pub struct MemoryStorage {
    data: Store,
}

impl MemoryStorage {
    /// What the store holds.
    pub closed spec fn view(&self) -> StoreView {
        self.data.view()
    }

    /// An empty store.
    pub fn new() -> (r: Self)
        ensures
            r.view() == Map::<(Db, Seq<u8>), Seq<u8>>::empty(),
    {
        MemoryStorage { data: Store::new() }
    }
}

impl Default for MemoryStorage {
    fn default() -> (r: Self)
        ensures
            r.view() == Map::<(Db, Seq<u8>), Seq<u8>>::empty(),
    {
        Self::new()
    }
}

impl StorageEngine for MemoryStorage {
    type Txn = MemoryTxn;

    open spec fn contents(&self) -> StoreView {
        self.view()
    }

    open spec fn reliable(&self) -> bool {
        true
    }

    fn read_txn(&self) -> (r: Result<MemoryTxn, HelixiteError>)
        ensures
            r is Ok,
    {
        Ok(MemoryTxn { snapshot: self.data.copy() })
    }

    fn write_txn(&self) -> (r: Result<MemoryTxn, HelixiteError>)
        ensures
            r is Ok,
    {
        Ok(MemoryTxn { snapshot: self.data.copy() })
    }

    fn commit(&mut self, txn: MemoryTxn) -> (r: Result<(), HelixiteError>)
        ensures
            r is Ok,
            final(self).view() == txn.view(),
    {
        self.data = txn.snapshot;
        Ok(())
    }

    fn close(&self) -> (r: Result<(), HelixiteError>)
        ensures
            r is Ok,
    {
        Ok(())
    }
}

} // verus!
