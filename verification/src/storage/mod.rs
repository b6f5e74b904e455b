pub mod engine;
pub mod memory;
pub mod ids;
pub mod bulk;
