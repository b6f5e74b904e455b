use vstd::prelude::*;
use core::cmp::Ordering;

use crate::order::compare_views;
use crate::value::{f64_bits_eq, indexed_view, str_eq, IndexedValue, IndexedValueView, Value};

verus! {

/// A condition on the indexed value of one property.
#[derive(Debug, Clone)]
pub enum PropertyFilter {
    Eq(String, Value),
    Ne(String, Value),
    Gt(String, Value),
    Gte(String, Value),
    Lt(String, Value),
    Lte(String, Value),
    In(String, Vec<Value>),
}

/// Two indexed values are equal: of one kind with equal contents, floats equal as
/// IEEE-754 numbers.
pub open spec fn indexed_eq(a: IndexedValueView, b: IndexedValueView) -> bool {
    match (a, b) {
        (IndexedValueView::String(x), IndexedValueView::String(y)) => x == y,
        (IndexedValueView::Int(x), IndexedValueView::Int(y)) => x == y,
        (IndexedValueView::Float(x), IndexedValueView::Float(y)) => f64_bits_eq(x, y),
        (IndexedValueView::Bool(x), IndexedValueView::Bool(y)) => x == y,
        (IndexedValueView::Bytes(x), IndexedValueView::Bytes(y)) => x == y,
        _ => false,
    }
}

/// The filter's value, indexed, equals `iv`.
pub open spec fn equals_indexed(v: Value, iv: IndexedValueView) -> bool {
    match indexed_view(v@) {
        Some(x) => indexed_eq(x, iv),
        None => false,
    }
}

/// How `iv` compares with the filter's value, where both are of one kind.
pub open spec fn compared(v: Value, iv: IndexedValueView) -> Option<Ordering> {
    match indexed_view(v@) {
        Some(x) => compare_views(iv, x),
        None => None,
    }
}

/// `iv` meets the filter.
pub open spec fn filter_matches(f: PropertyFilter, iv: IndexedValueView) -> bool {
    match f {
        PropertyFilter::Eq(_, v) => equals_indexed(v, iv),
        PropertyFilter::Ne(_, v) => !equals_indexed(v, iv),
        PropertyFilter::Gt(_, v) => compared(v, iv) == Some(Ordering::Greater),
        PropertyFilter::Gte(_, v) => compared(v, iv) == Some(Ordering::Greater) || compared(v, iv) == Some(
            Ordering::Equal,
        ),
        PropertyFilter::Lt(_, v) => compared(v, iv) == Some(Ordering::Less),
        PropertyFilter::Lte(_, v) => compared(v, iv) == Some(Ordering::Less) || compared(v, iv) == Some(
            Ordering::Equal,
        ),
        PropertyFilter::In(_, vs) => exists|i: int| 0 <= i < vs@.len() && equals_indexed(#[trigger] vs@[i], iv),
    }
}

/// Whether two indexed values are equal.
pub fn indexed_equal(a: &IndexedValue, b: &IndexedValue) -> (r: bool)
    ensures
        r == indexed_eq(a@, b@),
{
    match (a, b) {
        (IndexedValue::String(x), IndexedValue::String(y)) => str_eq(x.as_str(), y.as_str()),
        (IndexedValue::Int(x), IndexedValue::Int(y)) => *x == *y,
        (IndexedValue::Float(x), IndexedValue::Float(y)) => {
            let x = *x;
            let y = *y;
            let nan_x = x & 0x7ff0_0000_0000_0000u64 == 0x7ff0_0000_0000_0000u64 && x
                & 0x000f_ffff_ffff_ffffu64 != 0;
            let nan_y = y & 0x7ff0_0000_0000_0000u64 == 0x7ff0_0000_0000_0000u64 && y
                & 0x000f_ffff_ffff_ffffu64 != 0;
            !nan_x && !nan_y && (x == y || (x & 0x7fff_ffff_ffff_ffffu64 == 0 && y
                & 0x7fff_ffff_ffff_ffffu64 == 0))
        },
        (IndexedValue::Bool(x), IndexedValue::Bool(y)) => *x == *y,
        (IndexedValue::Bytes(x), IndexedValue::Bytes(y)) => crate::storage::memory::bytes_eq(x.as_slice(), y.as_slice()),
        _ => false,
    }
}

/// Whether the filter's value, indexed, equals `iv`.
fn value_equals_indexed(v: &Value, iv: &IndexedValue) -> (r: bool)
    ensures
        r == equals_indexed(*v, iv@),
{
    match v.to_indexed_value() {
        Some(x) => indexed_equal(&x, iv),
        None => false,
    }
}

/// How `iv` compares with the filter's value, where both are of one kind.
fn compare_with(v: &Value, iv: &IndexedValue) -> (r: Option<Ordering>)
    ensures
        r == compared(*v, iv@),
{
    match v.to_indexed_value() {
        Some(x) => iv.compare_same_type(&x),
        None => None,
    }
}

/// Whether one of the values, indexed, equals `iv`.
fn any_equals_indexed(vs: &Vec<Value>, iv: &IndexedValue) -> (r: bool)
    ensures
        r == exists|i: int| 0 <= i < vs@.len() && equals_indexed(#[trigger] vs@[i], iv@),
{
    let mut i: usize = 0;
    while i < vs.len()
        invariant
            i <= vs@.len(),
            forall|j: int| 0 <= j < i ==> !equals_indexed(#[trigger] vs@[j], iv@),
        decreases vs@.len() - i,
    {
        if value_equals_indexed(&vs[i], iv) {
            assert(equals_indexed(vs@[i as int], iv@));
            return true;
        }
        i = i + 1;
    }
    false
}

impl PropertyFilter {
    /// The property the filter is on.
    pub fn property(&self) -> (r: &str)
        ensures
            r@ == match *self {
                PropertyFilter::Eq(p, _) => p@,
                PropertyFilter::Ne(p, _) => p@,
                PropertyFilter::Gt(p, _) => p@,
                PropertyFilter::Gte(p, _) => p@,
                PropertyFilter::Lt(p, _) => p@,
                PropertyFilter::Lte(p, _) => p@,
                PropertyFilter::In(p, _) => p@,
            },
    {
        match self {
            PropertyFilter::Eq(p, _) => p.as_str(),
            PropertyFilter::Ne(p, _) => p.as_str(),
            PropertyFilter::Gt(p, _) => p.as_str(),
            PropertyFilter::Gte(p, _) => p.as_str(),
            PropertyFilter::Lt(p, _) => p.as_str(),
            PropertyFilter::Lte(p, _) => p.as_str(),
            PropertyFilter::In(p, _) => p.as_str(),
        }
    }

    /// Whether the indexed value `indexed_value` meets the filter: equal or not equal to
    /// its value; greater, at least, less or at most where both are of one kind; equal to
    /// one of its values.
    pub fn matches_indexed(&self, indexed_value: &IndexedValue) -> (r: bool)
        ensures
            r == filter_matches(*self, indexed_value@),
    {
        match self {
            PropertyFilter::Eq(_, v) => value_equals_indexed(v, indexed_value),
            PropertyFilter::Ne(_, v) => !value_equals_indexed(v, indexed_value),
            PropertyFilter::Gt(_, v) => match compare_with(v, indexed_value) {
                Some(Ordering::Greater) => true,
                _ => false,
            },
            PropertyFilter::Gte(_, v) => match compare_with(v, indexed_value) {
                Some(Ordering::Greater) => true,
                Some(Ordering::Equal) => true,
                _ => false,
            },
            PropertyFilter::Lt(_, v) => match compare_with(v, indexed_value) {
                Some(Ordering::Less) => true,
                _ => false,
            },
            PropertyFilter::Lte(_, v) => match compare_with(v, indexed_value) {
                Some(Ordering::Less) => true,
                Some(Ordering::Equal) => true,
                _ => false,
            },
            PropertyFilter::In(_, vs) => any_equals_indexed(vs, indexed_value),
        }
    }
}

} // verus!
