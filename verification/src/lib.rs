//! An embedded labeled property graph store: key encodings, index
//! maintenance, an in-memory transactional key-value engine and the
//! graph operations built on them, with their contracts.

pub mod config;
pub mod error;
pub mod id;
pub mod node;
pub mod edge;
pub mod index;
pub mod value;
pub mod props;
pub mod mutation;
pub mod record;
pub mod txn;
pub mod db;
pub mod order;
pub mod decimal;
pub mod storage;
pub mod query;
pub mod stats;
pub mod names;
