use vstd::prelude::*;

use crate::id::{EdgeId, NodeId};
use vstd::string::StringExecFns;

verus! {

/// Every failure the library reports.
#[derive(Debug, Clone, PartialEq, Eq)]
pub enum HelixiteError {
    Io(String),
    Storage(String),
    Codec(String),
    NodeNotFound(NodeId),
    EdgeNotFound(EdgeId),
    LabelNotFound(String),
    PropertyNotFound(String),
    IndexNotFound(String),
    VectorIndexNotFound { label: String, property: String },
    InvalidVectorDim { expected: usize, actual: usize },
    DuplicateKey(String),
    TransactionConflict,
    InvalidConfig(String),
    InvalidCursor(String),
}

/// The text `a` followed by `b`.
pub fn join2(a: &str, b: &str) -> (r: String)
    ensures
        r@ == a@ + b@,
{
    let mut s = a.to_owned();
    s.append(b);
    s
}

/// The texts `a`, `b` and `c` one after another.
pub fn join3(a: &str, b: &str, c: &str) -> (r: String)
    ensures
        r@ == a@ + b@ + c@,
{
    let mut s = a.to_owned();
    s.append(b);
    s.append(c);
    s
}

/// The texts `a` to `d` one after another.
pub fn join4(a: &str, b: &str, c: &str, d: &str) -> (r: String)
    ensures
        r@ == a@ + b@ + c@ + d@,
{
    let mut s = a.to_owned();
    s.append(b);
    s.append(c);
    s.append(d);
    s
}

/// The texts `a` to `e` one after another.
pub fn join5(a: &str, b: &str, c: &str, d: &str, e: &str) -> (r: String)
    ensures
        r@ == a@ + b@ + c@ + d@ + e@,
{
    let mut s = a.to_owned();
    s.append(b);
    s.append(c);
    s.append(d);
    s.append(e);
    s
}

} // verus!
