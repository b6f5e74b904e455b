use vstd::prelude::*;

verus! {

/// Identifier of a node; allocated from 1 upwards.
pub type NodeId = u64;

/// Identifier of an edge; allocated from 1 upwards.
pub type EdgeId = u64;

} // verus!
