use vstd::prelude::*;
use vstd::string::StringSliceAdditionalSpecFns;
use vstd::utf8::{decode_utf8, encode_utf8, valid_utf8};

use crate::index::codec::{be64, from_be64, push_be64, u64_from_be_bytes};

verus! {

/// The sign bit of a 64-bit word.
pub const SIGN_BIT: u64 = 0x8000_0000_0000_0000u64;

/// A property value. A float is held as its IEEE-754 bits, a vector as the bits of
/// each of its single-precision components.
#[derive(Debug, Clone, PartialEq)]
pub enum Value {
    String(String),
    Int(i64),
    Float(u64),
    Bool(bool),
    Bytes(Vec<u8>),
    Vector(Vec<u32>),
}

/// The mathematical content of a `Value`.
pub enum ValueView {
    String(Seq<char>),
    Int(i64),
    Float(u64),
    Bool(bool),
    Bytes(Seq<u8>),
    Vector(Seq<u32>),
}

impl View for Value {
    type V = ValueView;

    open spec fn view(&self) -> ValueView {
        match self {
            Value::String(s) => ValueView::String(s@),
            Value::Int(n) => ValueView::Int(*n),
            Value::Float(b) => ValueView::Float(*b),
            Value::Bool(b) => ValueView::Bool(*b),
            Value::Bytes(b) => ValueView::Bytes(b@),
            Value::Vector(v) => ValueView::Vector(v@),
        }
    }
}

/// A value that can stand in an ordered index key: every kind but vectors and NaN.
#[derive(Debug, Clone, PartialEq)]
pub enum IndexedValue {
    String(String),
    Int(i64),
    Float(u64),
    Bool(bool),
    Bytes(Vec<u8>),
}

/// The mathematical content of an `IndexedValue`.
pub enum IndexedValueView {
    String(Seq<char>),
    Int(i64),
    Float(u64),
    Bool(bool),
    Bytes(Seq<u8>),
}

impl View for IndexedValue {
    type V = IndexedValueView;

    open spec fn view(&self) -> IndexedValueView {
        match self {
            IndexedValue::String(s) => IndexedValueView::String(s@),
            IndexedValue::Int(n) => IndexedValueView::Int(*n),
            IndexedValue::Float(b) => IndexedValueView::Float(*b),
            IndexedValue::Bool(b) => IndexedValueView::Bool(*b),
            IndexedValue::Bytes(b) => IndexedValueView::Bytes(b@),
        }
    }
}

/// The key by which integers are ordered: the sign bit flipped.
pub open spec fn int_order_key(n: i64) -> u64 {
    (n as u64) ^ SIGN_BIT
}

/// The integer whose order key is `k`.
pub open spec fn int_from_order_key(k: u64) -> i64 {
    (k ^ SIGN_BIT) as i64
}

/// A float's bits with negative zero replaced by positive zero.
pub open spec fn canonical_float(bits: u64) -> u64 {
    if bits & 0x7fff_ffff_ffff_ffffu64 == 0 {
        0
    } else {
        bits
    }
}

/// The key by which floats are ordered: positive floats with the sign bit set, negative
/// floats with every bit flipped.
pub open spec fn float_order_key(bits: u64) -> u64 {
    if bits >> 63u64 == 0 {
        bits ^ SIGN_BIT
    } else {
        !bits
    }
}

/// The float bits whose order key is `k`.
pub open spec fn float_from_order_key(k: u64) -> u64 {
    if k >> 63u64 == 1 {
        k ^ SIGN_BIT
    } else {
        !k
    }
}

/// NaN: every exponent bit set and a nonzero fraction.
pub open spec fn is_nan_bits(bits: u64) -> bool {
    bits & 0x7ff0_0000_0000_0000u64 == 0x7ff0_0000_0000_0000u64 && bits
        & 0x000f_ffff_ffff_ffffu64 != 0
}

/// The index key bytes of a value: a kind byte, then an encoding whose byte order
/// follows the order of the values of that kind.
pub open spec fn index_bytes(v: IndexedValueView) -> Seq<u8> {
    match v {
        IndexedValueView::String(s) => seq![0u8] + encode_utf8(s),
        IndexedValueView::Int(n) => seq![1u8] + be64(int_order_key(n)),
        IndexedValueView::Bool(b) => seq![2u8, if b { 1u8 } else { 0u8 }],
        IndexedValueView::Bytes(b) => seq![3u8] + b,
        IndexedValueView::Float(f) => seq![4u8] + be64(float_order_key(canonical_float(f))),
    }
}

/// The value that index key bytes stand for, if they are well formed.
pub open spec fn decode_index_bytes(s: Seq<u8>) -> Option<IndexedValueView> {
    if s.len() == 0 {
        None
    } else {
        let rest = s.subrange(1, s.len() as int);
        if s[0] == 0 {
            if valid_utf8(rest) {
                Some(IndexedValueView::String(decode_utf8(rest)))
            } else {
                None
            }
        } else if s[0] == 1 {
            if rest.len() == 8 {
                Some(IndexedValueView::Int(int_from_order_key(from_be64(rest))))
            } else {
                None
            }
        } else if s[0] == 2 {
            if rest == seq![0u8] {
                Some(IndexedValueView::Bool(false))
            } else if rest == seq![1u8] {
                Some(IndexedValueView::Bool(true))
            } else {
                None
            }
        } else if s[0] == 3 {
            Some(IndexedValueView::Bytes(rest))
        } else if s[0] == 4 {
            if rest.len() == 8 {
                Some(IndexedValueView::Float(float_from_order_key(from_be64(rest))))
            } else {
                None
            }
        } else {
            None
        }
    }
}

/// The form in which a value comes back from its index key: floats canonical.
pub open spec fn canonical(v: IndexedValueView) -> IndexedValueView {
    match v {
        IndexedValueView::Float(f) => IndexedValueView::Float(canonical_float(f)),
        _ => v,
    }
}

/// The indexed form of a value: `None` for vectors and NaN.
pub open spec fn indexed_view(v: ValueView) -> Option<IndexedValueView> {
    match v {
        ValueView::String(s) => Some(IndexedValueView::String(s)),
        ValueView::Int(n) => Some(IndexedValueView::Int(n)),
        ValueView::Float(f) => if is_nan_bits(f) {
            None
        } else {
            Some(IndexedValueView::Float(f))
        },
        ValueView::Bool(b) => Some(IndexedValueView::Bool(b)),
        ValueView::Bytes(b) => Some(IndexedValueView::Bytes(b)),
        ValueView::Vector(_) => None,
    }
}

/// The index key of a value, where it has one.
pub open spec fn index_key_of(v: ValueView) -> Option<Seq<u8>> {
    match indexed_view(v) {
        Some(iv) => Some(index_bytes(iv)),
        None => None,
    }
}

/// Flipping the sign bit is undone by flipping it again.
pub proof fn lemma_int_order_key_roundtrip(n: i64)
    ensures
        int_from_order_key(int_order_key(n)) == n,
{
    assert(((((n as u64) ^ 0x8000_0000_0000_0000u64) ^ 0x8000_0000_0000_0000u64) as i64) == n)
        by (bit_vector);
}

/// Integers are ordered as their order keys are.
pub proof fn lemma_int_order_key_monotone(a: i64, b: i64)
    ensures
        (int_order_key(a) < int_order_key(b)) == (a < b),
        (int_order_key(a) == int_order_key(b)) == (a == b),
{
    assert(((((a as u64) ^ 0x8000_0000_0000_0000u64) < ((b as u64) ^ 0x8000_0000_0000_0000u64))
        == (a < b)) && ((((a as u64) ^ 0x8000_0000_0000_0000u64) == ((b as u64)
        ^ 0x8000_0000_0000_0000u64)) == (a == b))) by (bit_vector);
}

/// The float order key is undone by `float_from_order_key`.
pub proof fn lemma_float_order_key_roundtrip(b: u64)
    ensures
        float_from_order_key(float_order_key(b)) == b,
{
    assert((if (if b >> 63u64 == 0 { b ^ 0x8000_0000_0000_0000u64 } else { !b }) >> 63u64 == 1 {
        (if b >> 63u64 == 0 { b ^ 0x8000_0000_0000_0000u64 } else { !b }) ^ 0x8000_0000_0000_0000u64
    } else {
        !(if b >> 63u64 == 0 { b ^ 0x8000_0000_0000_0000u64 } else { !b })
    }) == b) by (bit_vector);
}

/// Decoding the index key bytes of a value gives back the value, with a negative zero
/// as positive zero.
pub proof fn lemma_index_bytes_roundtrip(v: IndexedValueView)
    ensures
        decode_index_bytes(index_bytes(v)) == Some(canonical(v)),
{
    let s = index_bytes(v);
    let rest = s.subrange(1, s.len() as int);
    match v {
        IndexedValueView::String(c) => {
            assert(s[0] == 0u8);
            assert(rest =~= encode_utf8(c));
            vstd::utf8::encode_utf8_valid_utf8(c);
            vstd::utf8::encode_utf8_decode_utf8(c);
            assert(valid_utf8(rest));

        },
        IndexedValueView::Int(n) => {
            assert(rest =~= be64(int_order_key(n)));
            crate::index::codec::lemma_be64_roundtrip(int_order_key(n));
            lemma_int_order_key_roundtrip(n);
        },
        IndexedValueView::Bool(b) => {
            assert(rest =~= seq![if b { 1u8 } else { 0u8 }]);
            if b {
                assert(rest[0] != seq![0u8][0]);
                assert(rest != seq![0u8]);
            }
        },
        IndexedValueView::Bytes(b) => {
            assert(rest =~= b);
        },
        IndexedValueView::Float(f) => {
            let k = float_order_key(canonical_float(f));
            assert(rest =~= be64(k));
            crate::index::codec::lemma_be64_roundtrip(k);
            lemma_float_order_key_roundtrip(canonical_float(f));
        },
    }
}

/// `String::from_utf8`: the string whose UTF-8 encoding is `bytes`; `None` where
/// `bytes` is not valid UTF-8.
#[verifier::external_body]
pub(crate) fn string_from_utf8(bytes: Vec<u8>) -> (r: Option<String>)
    ensures
        r is Some <==> valid_utf8(bytes@),
        r matches Some(s) ==> s@ == decode_utf8(bytes@),
{
    String::from_utf8(bytes).ok()
}

/// Whether two strings are equal.
pub fn str_eq(a: &str, b: &str) -> (r: bool)
    ensures
        r == (a@ == b@),
{
    let r = crate::storage::memory::bytes_eq(a.as_bytes(), b.as_bytes());
    proof {
        vstd::utf8::encode_utf8_decode_utf8(a@);
        vstd::utf8::encode_utf8_decode_utf8(b@);
    }
    r
}

/// A copy of a string.
pub fn copy_string(s: &String) -> (r: String)
    ensures
        r@ == s@,
{
    s.clone()
}

/// A copy of a byte vector.
pub fn copy_bytes(b: &Vec<u8>) -> (r: Vec<u8>)
    ensures
        r@ == b@,
{
    vstd::slice::slice_to_vec(b.as_slice())
}

impl IndexedValue {
    /// The index key bytes of this value.
    pub fn to_bytes(&self) -> (r: Vec<u8>)
        ensures
            r@ == index_bytes(self@),
    {
        match self {
            IndexedValue::String(s) => {
                let mut key: Vec<u8> = Vec::new();
                key.push(0);
                crate::index::codec::append_bytes(&mut key, s.as_str().as_bytes());
                assert(key@ =~= index_bytes(self@));
                key
            },
            IndexedValue::Int(n) => {
                let mut key: Vec<u8> = Vec::with_capacity(9);
                key.push(1);
                let ordered = (*n as u64) ^ SIGN_BIT;
                push_be64(&mut key, ordered);
                assert(key@ =~= index_bytes(self@));
                key
            },
            IndexedValue::Float(f) => {
                let mut key: Vec<u8> = Vec::with_capacity(9);
                key.push(4);
                let canonical = if *f & 0x7fff_ffff_ffff_ffffu64 == 0 {
                    0u64
                } else {
                    *f
                };
                let ordered = if canonical >> 63u64 == 0 {
                    canonical ^ SIGN_BIT
                } else {
                    !canonical
                };
                push_be64(&mut key, ordered);
                assert(key@ =~= index_bytes(self@));
                key
            },
            IndexedValue::Bool(b) => {
                let mut key: Vec<u8> = Vec::with_capacity(2);
                key.push(2);
                key.push(
                    if *b {
                        1
                    } else {
                        0
                    },
                );
                assert(key@ =~= index_bytes(self@));
                key
            },
            IndexedValue::Bytes(b) => {
                let mut key: Vec<u8> = Vec::new();
                key.push(3);
                crate::index::codec::append_bytes(&mut key, b.as_slice());
                assert(key@ =~= index_bytes(self@));
                key
            },
        }
    }

    /// The value that index key bytes stand for; `None` where they are not well formed.
    pub fn from_bytes(bytes: &[u8]) -> (r: Option<IndexedValue>)
        ensures
            match (r, decode_index_bytes(bytes@)) {
                (Some(v), Some(m)) => v@ == m,
                (None, None) => true,
                _ => false,
            },
    {
        if bytes.len() == 0 {
            return None;
        }
        let kind = bytes[0];
        let value = &bytes[1..bytes.len()];
        assert(value@ == bytes@.subrange(1, bytes@.len() as int));
        if kind == 0 {
            match string_from_utf8(vstd::slice::slice_to_vec(value)) {
                Some(s) => Some(IndexedValue::String(s)),
                None => None,
            }
        } else if kind == 1 {
            if value.len() != 8 {
                return None;
            }
            let ordered = u64_from_be_bytes(value);
            let raw = ordered ^ SIGN_BIT;
            Some(IndexedValue::Int(raw as i64))
        } else if kind == 2 {
            if value.len() != 1 {
                assert(value@ != seq![0u8] && value@ != seq![1u8]);
                return None;
            }
            if value[0] == 0 {
                assert(value@ =~= seq![0u8]);
                Some(IndexedValue::Bool(false))
            } else if value[0] == 1 {
                assert(value@ =~= seq![1u8]);
                Some(IndexedValue::Bool(true))
            } else {
                assert(value@ != seq![0u8] && value@ != seq![1u8]);
                None
            }
        } else if kind == 3 {
            Some(IndexedValue::Bytes(vstd::slice::slice_to_vec(value)))
        } else if kind == 4 {
            if value.len() != 8 {
                return None;
            }
            let ordered = u64_from_be_bytes(value);
            let bits = if ordered >> 63u64 == 1 {
                ordered ^ SIGN_BIT
            } else {
                !ordered
            };
            Some(IndexedValue::Float(bits))
        } else {
            None
        }
    }
}

impl Value {
    /// The indexed form of this value: `None` for vectors and NaN.
    pub fn to_indexed_value(&self) -> (r: Option<IndexedValue>)
        ensures
            match (r, indexed_view(self@)) {
                (Some(v), Some(m)) => v@ == m,
                (None, None) => true,
                _ => false,
            },
    {
        match self {
            Value::String(s) => Some(IndexedValue::String(copy_string(s))),
            Value::Int(n) => Some(IndexedValue::Int(*n)),
            Value::Float(f) => {
                if *f & 0x7ff0_0000_0000_0000u64 == 0x7ff0_0000_0000_0000u64 && *f
                    & 0x000f_ffff_ffff_ffffu64 != 0 {
                    None
                } else {
                    Some(IndexedValue::Float(*f))
                }
            },
            Value::Bool(b) => Some(IndexedValue::Bool(*b)),
            Value::Bytes(b) => Some(IndexedValue::Bytes(copy_bytes(b))),
            Value::Vector(_) => None,
        }
    }

    /// The index key of this value: `None` for vectors and NaN.
    pub fn to_index_key(&self) -> (r: Option<Vec<u8>>)
        ensures
            match (r, index_key_of(self@)) {
                (Some(k), Some(m)) => k@ == m,
                (None, None) => true,
                _ => false,
            },
    {
        match self.to_indexed_value() {
            Some(iv) => Some(iv.to_bytes()),
            None => None,
        }
    }
}

/// IEEE-754 equality of two doubles given by their bits: NaN equals nothing, and the two
/// zeros are equal.
pub open spec fn f64_bits_eq(a: u64, b: u64) -> bool {
    !is_nan_bits(a) && !is_nan_bits(b) && (a == b || (a & 0x7fff_ffff_ffff_ffffu64 == 0 && b
        & 0x7fff_ffff_ffff_ffffu64 == 0))
}

/// NaN among single-precision bits.
pub open spec fn is_nan_bits32(bits: u32) -> bool {
    bits & 0x7f80_0000u32 == 0x7f80_0000u32 && bits & 0x007f_ffffu32 != 0
}

/// IEEE-754 equality of two singles given by their bits.
pub open spec fn f32_bits_eq(a: u32, b: u32) -> bool {
    !is_nan_bits32(a) && !is_nan_bits32(b) && (a == b || (a & 0x7fff_ffffu32 == 0 && b
        & 0x7fff_ffffu32 == 0))
}

/// Equality of values as numbers compare: same kind, and floats equal as IEEE-754 values
/// (component by component for vectors).
pub open spec fn value_eq(a: ValueView, b: ValueView) -> bool {
    match (a, b) {
        (ValueView::String(x), ValueView::String(y)) => x == y,
        (ValueView::Int(x), ValueView::Int(y)) => x == y,
        (ValueView::Float(x), ValueView::Float(y)) => f64_bits_eq(x, y),
        (ValueView::Bool(x), ValueView::Bool(y)) => x == y,
        (ValueView::Bytes(x), ValueView::Bytes(y)) => x == y,
        (ValueView::Vector(x), ValueView::Vector(y)) => x.len() == y.len() && forall|i: int|
            0 <= i < x.len() ==> f32_bits_eq(#[trigger] x[i], y[i]),
        _ => false,
    }
}

/// Whether two single-precision numbers are equal.
fn f32_equal(a: u32, b: u32) -> (r: bool)
    ensures
        r == f32_bits_eq(a, b),
{
    let nan_a = a & 0x7f80_0000u32 == 0x7f80_0000u32 && a & 0x007f_ffffu32 != 0;
    let nan_b = b & 0x7f80_0000u32 == 0x7f80_0000u32 && b & 0x007f_ffffu32 != 0;
    !nan_a && !nan_b && (a == b || (a & 0x7fff_ffffu32 == 0 && b & 0x7fff_ffffu32 == 0))
}

/// Whether two values are equal.
pub fn values_equal(a: &Value, b: &Value) -> (r: bool)
    ensures
        r == value_eq(a@, b@),
{
    match (a, b) {
        (Value::String(x), Value::String(y)) => str_eq(x.as_str(), y.as_str()),
        (Value::Int(x), Value::Int(y)) => *x == *y,
        (Value::Float(x), Value::Float(y)) => {
            let x = *x;
            let y = *y;
            let nan_x = x & 0x7ff0_0000_0000_0000u64 == 0x7ff0_0000_0000_0000u64 && x
                & 0x000f_ffff_ffff_ffffu64 != 0;
            let nan_y = y & 0x7ff0_0000_0000_0000u64 == 0x7ff0_0000_0000_0000u64 && y
                & 0x000f_ffff_ffff_ffffu64 != 0;
            !nan_x && !nan_y && (x == y || (x & 0x7fff_ffff_ffff_ffffu64 == 0 && y
                & 0x7fff_ffff_ffff_ffffu64 == 0))
        },
        (Value::Bool(x), Value::Bool(y)) => *x == *y,
        (Value::Bytes(x), Value::Bytes(y)) => crate::storage::memory::bytes_eq(x.as_slice(), y.as_slice()),
        (Value::Vector(x), Value::Vector(y)) => {
            if x.len() != y.len() {
                return false;
            }
            let mut i: usize = 0;
            while i < x.len()
                invariant
                    i <= x@.len(),
                    x@.len() == y@.len(),
                    a@ == ValueView::Vector(x@),
                    b@ == ValueView::Vector(y@),
                    forall|j: int| 0 <= j < i ==> f32_bits_eq(#[trigger] x@[j], y@[j]),
                decreases x@.len() - i,
            {
                if !f32_equal(x[i], y[i]) {
                    assert(!f32_bits_eq(x@[i as int], y@[i as int]));
                    return false;
                }
                i = i + 1;
            }
            true
        },
        _ => false,
    }
}

impl From<String> for Value {
    fn from(v: String) -> (r: Value) {
        Value::String(v)
    }
}

impl vstd::std_specs::convert::FromSpecImpl<String> for Value {
    open spec fn obeys_from_spec() -> bool {
        true
    }

    open spec fn from_spec(v: String) -> Value {
        Value::String(v)
    }
}

impl<'a> From<&'a str> for Value {
    /// A string value with a copy of the text; two `String`s with the same text are not
    /// known to be the same value, so the result is stated by its view.
    fn from(v: &'a str) -> (r: Value)
        ensures
            r@ == ValueView::String(v@),
    {
        Value::String(v.to_string())
    }
}

impl<'a> vstd::std_specs::convert::FromSpecImpl<&'a str> for Value {
    open spec fn obeys_from_spec() -> bool {
        false
    }

    open spec fn from_spec(v: &'a str) -> Value {
        Value::String(choose|s: String| s@ == v@)
    }
}

impl From<i64> for Value {
    fn from(v: i64) -> (r: Value) {
        Value::Int(v)
    }
}

impl vstd::std_specs::convert::FromSpecImpl<i64> for Value {
    open spec fn obeys_from_spec() -> bool {
        true
    }

    open spec fn from_spec(v: i64) -> Value {
        Value::Int(v)
    }
}

impl From<bool> for Value {
    fn from(v: bool) -> (r: Value) {
        Value::Bool(v)
    }
}

impl vstd::std_specs::convert::FromSpecImpl<bool> for Value {
    open spec fn obeys_from_spec() -> bool {
        true
    }

    open spec fn from_spec(v: bool) -> Value {
        Value::Bool(v)
    }
}

impl From<Vec<u8>> for Value {
    fn from(v: Vec<u8>) -> (r: Value) {
        Value::Bytes(v)
    }
}

impl vstd::std_specs::convert::FromSpecImpl<Vec<u8>> for Value {
    open spec fn obeys_from_spec() -> bool {
        true
    }

    open spec fn from_spec(v: Vec<u8>) -> Value {
        Value::Bytes(v)
    }
}

} // verus!
