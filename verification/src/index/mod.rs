pub mod codec;
pub mod edges;
pub mod labels;
pub mod properties;
pub mod vector;
pub mod maintain;
pub mod property_indexes;
