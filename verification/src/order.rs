use vstd::prelude::*;
use vstd::utf8::encode_utf8;
use core::cmp::Ordering;

use crate::index::codec::{
    be64, lemma_be64_injective, lemma_be64_lex, lemma_lex_decided_at, lemma_lex_prepend, lemma_prepend_injective, lex_lt,
};
use crate::value::{
    canonical, canonical_float, float_order_key, index_bytes, int_order_key,
    lemma_int_order_key_monotone, IndexedValue, IndexedValueView,
};

verus! {

/// The three-way comparison of two byte strings in lexicographic order.
pub open spec fn compare_seqs(a: Seq<u8>, b: Seq<u8>) -> Ordering {
    if a == b {
        Ordering::Equal
    } else if lex_lt(a, b) {
        Ordering::Less
    } else {
        Ordering::Greater
    }
}

/// The three-way comparison of two signed numbers.
pub open spec fn compare_i64(a: i64, b: i64) -> Ordering {
    if a < b {
        Ordering::Less
    } else if a == b {
        Ordering::Equal
    } else {
        Ordering::Greater
    }
}

/// The three-way comparison of two unsigned numbers.
pub open spec fn compare_u64(a: u64, b: u64) -> Ordering {
    if a < b {
        Ordering::Less
    } else if a == b {
        Ordering::Equal
    } else {
        Ordering::Greater
    }
}

/// The three-way comparison of two booleans, `false` first.
pub open spec fn compare_bools(a: bool, b: bool) -> Ordering {
    if a == b {
        Ordering::Equal
    } else if !a {
        Ordering::Less
    } else {
        Ordering::Greater
    }
}

/// How two values of one kind compare: strings and byte strings lexicographically by
/// their bytes, integers and booleans numerically, floats in IEEE-754 total order
/// (by their order keys); `None` for values of different kinds.
pub open spec fn compare_views(a: IndexedValueView, b: IndexedValueView) -> Option<Ordering> {
    match (a, b) {
        (IndexedValueView::String(x), IndexedValueView::String(y)) => Some(
            compare_seqs(encode_utf8(x), encode_utf8(y)),
        ),
        (IndexedValueView::Int(x), IndexedValueView::Int(y)) => Some(compare_i64(x, y)),
        (IndexedValueView::Float(x), IndexedValueView::Float(y)) => Some(
            compare_u64(float_order_key(x), float_order_key(y)),
        ),
        (IndexedValueView::Bool(x), IndexedValueView::Bool(y)) => Some(compare_bools(x, y)),
        (IndexedValueView::Bytes(x), IndexedValueView::Bytes(y)) => Some(compare_seqs(x, y)),
        _ => None,
    }
}

/// Two values are of one kind.
pub open spec fn same_kind(a: IndexedValueView, b: IndexedValueView) -> bool {
    compare_views(a, b) is Some
}

/// Lexicographic comparison of two byte strings.
pub fn compare_byte_slices(a: &[u8], b: &[u8]) -> (r: Ordering)
    ensures
        r == compare_seqs(a@, b@),
{
    let mut i: usize = 0;
    while i < a.len() && i < b.len()
        invariant
            i <= a@.len(),
            i <= b@.len(),
            forall|j: int| 0 <= j < i ==> a@[j] == b@[j],
        decreases a@.len() - i,
    {
        if a[i] != b[i] {
            proof {
                lemma_lex_decided_at(a@, b@, i);
            }
            if a[i] < b[i] {
                return Ordering::Less;
            } else {
                return Ordering::Greater;
            }
        }
        i = i + 1;
    }
    proof {
        lemma_lex_decided_at(a@, b@, i);
    }
    if a.len() == b.len() {
        Ordering::Equal
    } else if a.len() < b.len() {
        Ordering::Less
    } else {
        Ordering::Greater
    }
}

/// The key by which floats are ordered in IEEE-754 total order.
pub fn float_total_order_key(bits: u64) -> (r: u64)
    ensures
        r == float_order_key(bits),
{
    if bits >> 63u64 == 0 {
        bits ^ 0x8000_0000_0000_0000u64
    } else {
        !bits
    }
}

impl IndexedValue {
    /// Compares two values of one kind; `None` for values of different kinds.
    pub fn compare_same_type(&self, other: &Self) -> (r: Option<Ordering>)
        ensures
            r == compare_views(self@, other@),
    {
        match (self, other) {
            (IndexedValue::String(left), IndexedValue::String(right)) => Some(
                compare_byte_slices(left.as_str().as_bytes(), right.as_str().as_bytes()),
            ),
            (IndexedValue::Int(left), IndexedValue::Int(right)) => {
                if *left < *right {
                    Some(Ordering::Less)
                } else if *left == *right {
                    Some(Ordering::Equal)
                } else {
                    Some(Ordering::Greater)
                }
            },
            (IndexedValue::Float(left), IndexedValue::Float(right)) => {
                let l = float_total_order_key(*left);
                let r = float_total_order_key(*right);
                if l < r {
                    Some(Ordering::Less)
                } else if l == r {
                    Some(Ordering::Equal)
                } else {
                    Some(Ordering::Greater)
                }
            },
            (IndexedValue::Bool(left), IndexedValue::Bool(right)) => {
                if *left == *right {
                    Some(Ordering::Equal)
                } else if !*left {
                    Some(Ordering::Less)
                } else {
                    Some(Ordering::Greater)
                }
            },
            (IndexedValue::Bytes(left), IndexedValue::Bytes(right)) => Some(
                compare_byte_slices(left.as_slice(), right.as_slice()),
            ),
            _ => None,
        }
    }
}

/// Index keys keep the order of values: the index key bytes of two values of one kind
/// compare lexicographically as the values compare, a negative float zero counting as
/// positive zero. So an ordered walk of a property index visits values in order.
pub proof fn law_index_key_order(a: IndexedValueView, b: IndexedValueView)
    requires
        same_kind(a, b),
    ensures
        Some(compare_seqs(index_bytes(a), index_bytes(b))) == compare_views(
            canonical(a),
            canonical(b),
        ),
{
    let ka = index_bytes(a);
    let kb = index_bytes(b);
    match (a, b) {
        (IndexedValueView::String(x), IndexedValueView::String(y)) => {
            lemma_lex_prepend(seq![0u8], encode_utf8(x), encode_utf8(y));
            lemma_prepend_injective(seq![0u8], encode_utf8(x), encode_utf8(y));
        },
        (IndexedValueView::Int(x), IndexedValueView::Int(y)) => {
            lemma_lex_prepend(seq![1u8], be64(int_order_key(x)), be64(int_order_key(y)));
            lemma_prepend_injective(seq![1u8], be64(int_order_key(x)), be64(int_order_key(y)));
            lemma_be64_lex(int_order_key(x), int_order_key(y));
            lemma_be64_injective(int_order_key(x), int_order_key(y));
            lemma_int_order_key_monotone(x, y);
        },
        (IndexedValueView::Float(x), IndexedValueView::Float(y)) => {
            let kx = float_order_key(canonical_float(x));
            let ky = float_order_key(canonical_float(y));
            lemma_lex_prepend(seq![4u8], be64(kx), be64(ky));
            lemma_prepend_injective(seq![4u8], be64(kx), be64(ky));
            lemma_be64_lex(kx, ky);
            lemma_be64_injective(kx, ky);
        },
        (IndexedValueView::Bool(x), IndexedValueView::Bool(y)) => {
            lemma_lex_prepend(seq![2u8], seq![if x { 1u8 } else { 0u8 }], seq![if y { 1u8 } else { 0u8 }]);
            lemma_prepend_injective(seq![2u8], seq![if x { 1u8 } else { 0u8 }], seq![if y { 1u8 } else { 0u8 }]);
            assert(seq![2u8] + seq![if x { 1u8 } else { 0u8 }] =~= ka);
            assert(seq![2u8] + seq![if y { 1u8 } else { 0u8 }] =~= kb);
            reveal_with_fuel(crate::index::codec::lex_lt_from, 2);
            if x != y {
                assert(seq![if x { 1u8 } else { 0u8 }][0] != seq![if y { 1u8 } else { 0u8 }][0]);
            }
        },
        (IndexedValueView::Bytes(x), IndexedValueView::Bytes(y)) => {
            lemma_lex_prepend(seq![3u8], x, y);
            lemma_prepend_injective(seq![3u8], x, y);
        },
        _ => {},
    }
}

} // verus!
