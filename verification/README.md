# helixite

An embedded labeled property graph store with property indexes and HNSW vector
indexes, written in Verus. The library states what each operation does to the
store in `requires` / `ensures` contracts over a mathematical model of the store
(a map from (database, key) to value), and Verus proves them.

Layout:

- `src/storage/` the key-value engine interface (`ReadTxn`, `WriteTxn`,
  `StorageEngine`) and an in-memory engine; bulk key operations; id allocation.
- `src/record.rs`, `src/index/` the byte formats of records and index keys, the
  label, adjacency, property and vector index maintenance, and the HNSW key and
  link operations.
- `src/txn.rs`, `src/db.rs` graph operations inside a transaction and in
  transactions of their own; node and edge changes; index management.
- `src/query/` traversals, node and edge queries, pagination, property filters.
- `src/stats.rs` label counts and registered indexes.
- `app/` what runs around the library: the LMDB engine, the floating-point HNSW
  search and insertion, operations that carry out pending vector inserts before
  they commit, serde/bincode records and an error type with `Display`.
- `tests/` tests of the library.
