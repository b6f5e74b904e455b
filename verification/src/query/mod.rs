pub mod pagination;
pub mod ids;
pub mod traversal;
pub mod single;
pub mod nodes;
pub mod edges;
pub mod filter;
