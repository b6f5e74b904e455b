use vstd::prelude::*;

use crate::error::HelixiteError;

verus! {

/// The named databases of a store.
#[derive(Debug, Clone, Copy, PartialEq, Eq, Hash, Structural)]
pub enum Db {
    Metadata,
    Nodes,
    Edges,
    OutEdges,
    InEdges,
    Labels,
    Properties,
    VectorIndexes,
}

/// How many databases a store holds.
pub const DB_COUNT: usize = 8;

/// The name under which a database is opened.
pub open spec fn db_name(db: Db) -> Seq<char> {
    match db {
        Db::Metadata => "metadata"@,
        Db::Nodes => "nodes"@,
        Db::Edges => "edges"@,
        Db::OutEdges => "out_edges"@,
        Db::InEdges => "in_edges"@,
        Db::Labels => "labels"@,
        Db::Properties => "properties"@,
        Db::VectorIndexes => "vector_indexes"@,
    }
}

/// The position of a database in declaration order.
pub open spec fn db_index(db: Db) -> usize {
    match db {
        Db::Metadata => 0,
        Db::Nodes => 1,
        Db::Edges => 2,
        Db::OutEdges => 3,
        Db::InEdges => 4,
        Db::Labels => 5,
        Db::Properties => 6,
        Db::VectorIndexes => 7,
    }
}

impl Db {
    /// Every database, in declaration order.
    pub fn all() -> (r: Vec<Db>)
        ensures
            r@.len() == DB_COUNT,
            forall|i: int| 0 <= i < r@.len() ==> db_index(#[trigger] r@[i]) == i,
    {
        let mut v: Vec<Db> = Vec::new();
        v.push(Db::Metadata);
        v.push(Db::Nodes);
        v.push(Db::Edges);
        v.push(Db::OutEdges);
        v.push(Db::InEdges);
        v.push(Db::Labels);
        v.push(Db::Properties);
        v.push(Db::VectorIndexes);
        v
    }

    /// The name under which the database is opened.
    pub fn name(self) -> (r: &'static str)
        ensures
            r@ == db_name(self),
    {
        match self {
            Db::Metadata => "metadata",
            Db::Nodes => "nodes",
            Db::Edges => "edges",
            Db::OutEdges => "out_edges",
            Db::InEdges => "in_edges",
            Db::Labels => "labels",
            Db::Properties => "properties",
            Db::VectorIndexes => "vector_indexes",
        }
    }

    /// The position of the database in declaration order.
    pub fn index(self) -> (r: usize)
        ensures
            r == db_index(self),
            r < DB_COUNT,
    {
        match self {
            Db::Metadata => 0,
            Db::Nodes => 1,
            Db::Edges => 2,
            Db::OutEdges => 3,
            Db::InEdges => 4,
            Db::Labels => 5,
            Db::Properties => 6,
            Db::VectorIndexes => 7,
        }
    }
}

/// A key and its value, as a scan returns them.
#[derive(Debug, Clone, PartialEq, Eq)]
pub struct Entry {
    pub key: Vec<u8>,
    pub value: Vec<u8>,
}

/// Which keys of a database a scan visits.
#[derive(Debug, Clone, PartialEq, Eq)]
pub enum Scan {
    All,
    Prefix(Vec<u8>),
}

/// The contents of a store: every (database, key) pair it holds, with its value.
pub type StoreView = Map<(Db, Seq<u8>), Seq<u8>>;

/// A key is among those a scan visits.
pub open spec fn in_scan(scan: Scan, key: Seq<u8>) -> bool {
    match scan {
        Scan::All => true,
        Scan::Prefix(p) => p@.is_prefix_of(key),
    }
}

/// What a lookup of `key` in `db` should give on the contents `m`.
pub open spec fn lookup(m: StoreView, db: Db, key: Seq<u8>) -> Option<Seq<u8>> {
    if m.contains_key((db, key)) {
        Some(m[(db, key)])
    } else {
        None
    }
}

/// `v` is what a lookup of `key` in `db` gives on `m`.
pub open spec fn lookup_matches(m: StoreView, db: Db, key: Seq<u8>, v: Option<Vec<u8>>) -> bool {
    match v {
        Some(x) => lookup(m, db, key) == Some(x@),
        None => lookup(m, db, key) is None,
    }
}

/// `es` is a scan of `db` on `m`: each entry is stored there and visited by the scan,
/// no key comes twice, and unless the limit was reached every visited key comes.
pub open spec fn scan_result(
    m: StoreView,
    db: Db,
    scan: Scan,
    limit: Option<usize>,
    es: Seq<Entry>,
) -> bool {
    &&& forall|i: int|
        0 <= i < es.len() ==> {
            &&& in_scan(scan, (#[trigger] es[i]).key@)
            &&& m.contains_key((db, es[i].key@))
            &&& m[(db, es[i].key@)] == es[i].value@
        }
    &&& forall|i: int, j: int| 0 <= i < j < es.len() ==> es[i].key@ != es[j].key@
    &&& match limit {
        Some(l) => es.len() <= l,
        None => true,
    }
    &&& (match limit {
        Some(l) => es.len() < l,
        None => true,
    }) ==> forall|k: Seq<u8>|
        #![trigger m.contains_key((db, k))]
        m.contains_key((db, k)) && in_scan(scan, k) ==> exists|i: int|
            0 <= i < es.len() && es[i].key@ == k
}

/// Reads inside a transaction.
pub trait ReadTxn {
    /// What the transaction sees.
    spec fn contents(&self) -> StoreView;

    /// The transaction's reads and writes never fail.
    spec fn infallible(&self) -> bool;

    /// The value stored under `key` in `db`, if any.
    fn get(&self, db: Db, key: &[u8]) -> (r: Result<Option<Vec<u8>>, HelixiteError>)
        ensures
            self.infallible() ==> r is Ok,
            r matches Ok(v) ==> lookup_matches(self.contents(), db, key@, v),
    ;

    /// The entries of `db` that the scan visits, at most `limit` of them.
    fn scan(&self, db: Db, scan: &Scan, limit: Option<usize>) -> (r: Result<
        Vec<Entry>,
        HelixiteError,
    >)
        ensures
            self.infallible() ==> r is Ok,
            r matches Ok(es) ==> scan_result(self.contents(), db, *scan, limit, es@),
    ;
}

/// Writes inside a transaction.
pub trait WriteTxn: ReadTxn {
    /// Stores `value` under `key` in `db`.
    fn put(&mut self, db: Db, key: &[u8], value: &[u8]) -> (r: Result<(), HelixiteError>)
        ensures
            final(self).infallible() == old(self).infallible(),
            old(self).infallible() ==> r is Ok,
            r is Ok ==> final(self).contents() == old(self).contents().insert((db, key@), value@),
    ;

    /// Removes `key` from `db`; nothing happens where it is absent.
    fn delete(&mut self, db: Db, key: &[u8]) -> (r: Result<(), HelixiteError>)
        ensures
            final(self).infallible() == old(self).infallible(),
            old(self).infallible() ==> r is Ok,
            r is Ok ==> final(self).contents() == old(self).contents().remove((db, key@)),
    ;
}

/// A key-value engine: snapshot transactions over named databases.
pub trait StorageEngine {
    type Txn: WriteTxn;

    /// What the engine holds.
    spec fn contents(&self) -> StoreView;

    /// The engine never fails: opening and committing transactions succeed, and its
    /// transactions never fail.
    spec fn reliable(&self) -> bool;

    /// A transaction for reading, seeing what the engine holds.
    fn read_txn(&self) -> (r: Result<Self::Txn, HelixiteError>)
        ensures
            r matches Ok(t) ==> t.contents() == self.contents(),
            self.reliable() ==> (r matches Ok(t) && t.infallible()),
    ;

    /// A transaction for writing, seeing what the engine holds.
    fn write_txn(&self) -> (r: Result<Self::Txn, HelixiteError>)
        ensures
            r matches Ok(t) ==> t.contents() == self.contents(),
            self.reliable() ==> (r matches Ok(t) && t.infallible()),
    ;

    /// Makes a transaction durable: afterwards the engine holds what the transaction
    /// holds, its writes and its deletions; where the commit fails, the engine is as it
    /// was.
    fn commit(&mut self, txn: Self::Txn) -> (r: Result<(), HelixiteError>)
        ensures
            old(self).reliable() ==> r is Ok && final(self).reliable(),
            r is Ok ==> final(self).contents() == txn.contents(),
            r is Err ==> final(self).contents() == old(self).contents(),
    ;

    /// Releases the engine.
    fn close(&self) -> (r: Result<(), HelixiteError>);
}

} // verus!
