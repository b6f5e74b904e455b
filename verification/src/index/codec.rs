use vstd::prelude::*;
use vstd::string::StringSliceAdditionalSpecFns;

verus! {

/// The four bytes of `n`, most significant first.
pub open spec fn be32(n: u32) -> Seq<u8> {
    seq![(n >> 24u32) as u8, (n >> 16u32) as u8, (n >> 8u32) as u8, n as u8]
}

/// The eight bytes of `n`, most significant first.
pub open spec fn be64(n: u64) -> Seq<u8> {
    seq![
        (n >> 56u64) as u8,
        (n >> 48u64) as u8,
        (n >> 40u64) as u8,
        (n >> 32u64) as u8,
        (n >> 24u64) as u8,
        (n >> 16u64) as u8,
        (n >> 8u64) as u8,
        n as u8,
    ]
}

/// The number whose big-endian bytes are the first four of `s`.
pub open spec fn from_be32(s: Seq<u8>) -> u32 {
    ((s[0] as u32) << 24u32) | ((s[1] as u32) << 16u32) | ((s[2] as u32) << 8u32) | (s[3] as u32)
}

/// The number whose big-endian bytes are the first eight of `s`.
pub open spec fn from_be64(s: Seq<u8>) -> u64 {
    ((s[0] as u64) << 56u64) | ((s[1] as u64) << 48u64) | ((s[2] as u64) << 40u64) | ((s[3] as u64)
        << 32u64) | ((s[4] as u64) << 24u64) | ((s[5] as u64) << 16u64) | ((s[6] as u64) << 8u64)
        | (s[7] as u64)
}

/// The four bytes of `n`, least significant first.
pub open spec fn le32(n: u32) -> Seq<u8> {
    seq![n as u8, (n >> 8u32) as u8, (n >> 16u32) as u8, (n >> 24u32) as u8]
}

/// The eight bytes of `n`, least significant first.
pub open spec fn le64(n: u64) -> Seq<u8> {
    seq![
        n as u8,
        (n >> 8u64) as u8,
        (n >> 16u64) as u8,
        (n >> 24u64) as u8,
        (n >> 32u64) as u8,
        (n >> 40u64) as u8,
        (n >> 48u64) as u8,
        (n >> 56u64) as u8,
    ]
}

/// The number whose little-endian bytes are the four of `s` from `i` on.
pub open spec fn from_le32_at(s: Seq<u8>, i: int) -> u32 {
    (s[i] as u32) | ((s[i + 1] as u32) << 8u32) | ((s[i + 2] as u32) << 16u32) | ((s[i + 3] as u32) << 24u32)
}

/// The number whose little-endian bytes are the eight of `s` from `i` on.
pub open spec fn from_le64_at(s: Seq<u8>, i: int) -> u64 {
    (s[i] as u64) | ((s[i + 1] as u64) << 8u64) | ((s[i + 2] as u64) << 16u64) | ((s[i + 3] as u64)
        << 24u64) | ((s[i + 4] as u64) << 32u64) | ((s[i + 5] as u64) << 40u64) | ((s[i + 6] as u64)
        << 48u64) | ((s[i + 7] as u64) << 56u64)
}

/// Reading back a little-endian 32-bit number gives the number.
pub proof fn lemma_le32_roundtrip(n: u32)
    ensures
        le32(n).len() == 4,
        from_le32_at(le32(n), 0) == n,
{
    let b0 = n as u8;
    let b1 = (n >> 8u32) as u8;
    let b2 = (n >> 16u32) as u8;
    let b3 = (n >> 24u32) as u8;
    assert((b0 as u32) | ((b1 as u32) << 8u32) | ((b2 as u32) << 16u32) | ((b3 as u32) << 24u32) == n)
        by (bit_vector)
        requires
            b0 == n as u8,
            b1 == (n >> 8u32) as u8,
            b2 == (n >> 16u32) as u8,
            b3 == (n >> 24u32) as u8,
    ;
}

/// Reading back a little-endian 64-bit number gives the number.
pub proof fn lemma_le64_roundtrip(n: u64)
    ensures
        le64(n).len() == 8,
        from_le64_at(le64(n), 0) == n,
{
    let b0 = n as u8;
    let b1 = (n >> 8u64) as u8;
    let b2 = (n >> 16u64) as u8;
    let b3 = (n >> 24u64) as u8;
    let b4 = (n >> 32u64) as u8;
    let b5 = (n >> 40u64) as u8;
    let b6 = (n >> 48u64) as u8;
    let b7 = (n >> 56u64) as u8;
    assert((b0 as u64) | ((b1 as u64) << 8u64) | ((b2 as u64) << 16u64) | ((b3 as u64) << 24u64) | ((
    b4 as u64) << 32u64) | ((b5 as u64) << 40u64) | ((b6 as u64) << 48u64) | ((b7 as u64) << 56u64)
        == n) by (bit_vector)
        requires
            b0 == n as u8,
            b1 == (n >> 8u64) as u8,
            b2 == (n >> 16u64) as u8,
            b3 == (n >> 24u64) as u8,
            b4 == (n >> 32u64) as u8,
            b5 == (n >> 40u64) as u8,
            b6 == (n >> 48u64) as u8,
            b7 == (n >> 56u64) as u8,
    ;
}

/// Appends `n` as four little-endian bytes.
pub fn push_le32(v: &mut Vec<u8>, n: u32)
    ensures
        final(v)@ == old(v)@ + le32(n),
{
    v.push(n as u8);
    v.push((n >> 8u32) as u8);
    v.push((n >> 16u32) as u8);
    v.push((n >> 24u32) as u8);
    assert(final(v)@ =~= old(v)@ + le32(n));
}

/// Appends `n` as eight little-endian bytes.
pub fn push_le64(v: &mut Vec<u8>, n: u64)
    ensures
        final(v)@ == old(v)@ + le64(n),
{
    v.push(n as u8);
    v.push((n >> 8u64) as u8);
    v.push((n >> 16u64) as u8);
    v.push((n >> 24u64) as u8);
    v.push((n >> 32u64) as u8);
    v.push((n >> 40u64) as u8);
    v.push((n >> 48u64) as u8);
    v.push((n >> 56u64) as u8);
    assert(final(v)@ =~= old(v)@ + le64(n));
}

/// The little-endian 32-bit number at position `i` of `b`.
pub fn u32_from_le_at(b: &[u8], i: usize) -> (r: u32)
    requires
        i + 4 <= b@.len(),
    ensures
        r == from_le32_at(b@, i as int),
{
    (b[i] as u32) | ((b[i + 1] as u32) << 8u32) | ((b[i + 2] as u32) << 16u32) | ((b[i + 3] as u32) << 24u32)
}

/// The little-endian 64-bit number at position `i` of `b`.
pub fn u64_from_le_at(b: &[u8], i: usize) -> (r: u64)
    requires
        i + 8 <= b@.len(),
    ensures
        r == from_le64_at(b@, i as int),
{
    (b[i] as u64) | ((b[i + 1] as u64) << 8u64) | ((b[i + 2] as u64) << 16u64) | ((b[i + 3] as u64)
        << 24u64) | ((b[i + 4] as u64) << 32u64) | ((b[i + 5] as u64) << 40u64) | ((b[i + 6] as u64)
        << 48u64) | ((b[i + 7] as u64) << 56u64)
}

/// The bytes of an optional byte vector.
pub open spec fn opt_view(o: Option<Vec<u8>>) -> Option<Seq<u8>> {
    match o {
        Some(v) => Some(v@),
        None => None,
    }
}

/// A variable-length field: its length as four big-endian bytes, then its bytes.
pub open spec fn field(s: Seq<u8>) -> Seq<u8> {
    be32(s.len() as u32) + s
}

/// Reads one byte off the front of `s`.
pub closed spec fn take_u8(s: Seq<u8>) -> Option<(u8, Seq<u8>)> {
    if s.len() < 1 {
        None
    } else {
        Some((s[0], s.subrange(1, s.len() as int)))
    }
}

/// Reads a four-byte big-endian number off the front of `s`.
pub closed spec fn take_u32(s: Seq<u8>) -> Option<(u32, Seq<u8>)> {
    if s.len() < 4 {
        None
    } else {
        Some((from_be32(s), s.subrange(4, s.len() as int)))
    }
}

/// Reads an eight-byte big-endian number off the front of `s`.
pub closed spec fn take_u64(s: Seq<u8>) -> Option<(u64, Seq<u8>)> {
    if s.len() < 8 {
        None
    } else {
        Some((from_be64(s), s.subrange(8, s.len() as int)))
    }
}

/// Reads a length-prefixed field off the front of `s`.
pub closed spec fn take_field(s: Seq<u8>) -> Option<(Seq<u8>, Seq<u8>)> {
    match take_u32(s) {
        None => None,
        Some((n, rest)) => if rest.len() < n {
            None
        } else {
            Some((rest.subrange(0, n as int), rest.subrange(n as int, rest.len() as int)))
        },
    }
}

/// Reading back a 32-bit number gives the number that was written.
pub proof fn lemma_be32_roundtrip(n: u32)
    ensures
        be32(n).len() == 4,
        from_be32(be32(n)) == n,
{
    let b0 = (n >> 24u32) as u8;
    let b1 = (n >> 16u32) as u8;
    let b2 = (n >> 8u32) as u8;
    let b3 = n as u8;
    assert(((b0 as u32) << 24u32) | ((b1 as u32) << 16u32) | ((b2 as u32) << 8u32) | (b3 as u32)
        == n) by (bit_vector)
        requires
            b0 == (n >> 24u32) as u8,
            b1 == (n >> 16u32) as u8,
            b2 == (n >> 8u32) as u8,
            b3 == n as u8,
    ;
}

/// Reading back a 64-bit number gives the number that was written.
pub proof fn lemma_be64_roundtrip(n: u64)
    ensures
        be64(n).len() == 8,
        from_be64(be64(n)) == n,
{
    let b0 = (n >> 56u64) as u8;
    let b1 = (n >> 48u64) as u8;
    let b2 = (n >> 40u64) as u8;
    let b3 = (n >> 32u64) as u8;
    let b4 = (n >> 24u64) as u8;
    let b5 = (n >> 16u64) as u8;
    let b6 = (n >> 8u64) as u8;
    let b7 = n as u8;
    assert(((b0 as u64) << 56u64) | ((b1 as u64) << 48u64) | ((b2 as u64) << 40u64) | ((b3 as u64)
        << 32u64) | ((b4 as u64) << 24u64) | ((b5 as u64) << 16u64) | ((b6 as u64) << 8u64) | (
    b7 as u64) == n) by (bit_vector)
        requires
            b0 == (n >> 56u64) as u8,
            b1 == (n >> 48u64) as u8,
            b2 == (n >> 40u64) as u8,
            b3 == (n >> 32u64) as u8,
            b4 == (n >> 24u64) as u8,
            b5 == (n >> 16u64) as u8,
            b6 == (n >> 8u64) as u8,
            b7 == n as u8,
    ;
}

/// Eight bytes read as a number and written back are the same eight bytes.
pub proof fn lemma_from_be64_roundtrip(s: Seq<u8>)
    requires
        s.len() == 8,
    ensures
        be64(from_be64(s)) == s,
{
    let (b0, b1, b2, b3, b4, b5, b6, b7) = (s[0], s[1], s[2], s[3], s[4], s[5], s[6], s[7]);
    let n = from_be64(s);
    assert((n >> 56u64) as u8 == b0 && (n >> 48u64) as u8 == b1 && (n >> 40u64) as u8 == b2 && (n
        >> 32u64) as u8 == b3 && (n >> 24u64) as u8 == b4 && (n >> 16u64) as u8 == b5 && (n
        >> 8u64) as u8 == b6 && n as u8 == b7) by (bit_vector)
        requires
            n == ((b0 as u64) << 56u64) | ((b1 as u64) << 48u64) | ((b2 as u64) << 40u64) | ((
            b3 as u64) << 32u64) | ((b4 as u64) << 24u64) | ((b5 as u64) << 16u64) | ((b6 as u64)
                << 8u64) | (b7 as u64),
    ;
    assert(be64(n) =~= s);
}

/// Reading a byte back gives the byte that was written and the bytes after it.
pub proof fn lemma_take_u8(b: u8, t: Seq<u8>)
    ensures
        take_u8(seq![b] + t) == Some((b, t)),
{
    assert((seq![b] + t).subrange(1, (seq![b] + t).len() as int) =~= t);
}

/// Reading a 64-bit number back gives the number and the bytes after it.
pub proof fn lemma_take_u64(n: u64, t: Seq<u8>)
    ensures
        take_u64(be64(n) + t) == Some((n, t)),
{
    lemma_be64_roundtrip(n);
    let s = be64(n) + t;
    assert(s.subrange(8, s.len() as int) =~= t);
    assert(from_be64(s) == from_be64(be64(n))) by {
        assert(forall|i: int| 0 <= i < 8 ==> s[i] == be64(n)[i]);
    }
}

/// Reading a field back gives its bytes and the bytes after it.
pub proof fn lemma_take_field(f: Seq<u8>, t: Seq<u8>)
    requires
        f.len() <= u32::MAX,
    ensures
        take_field(field(f) + t) == Some((f, t)),
{
    lemma_be32_roundtrip(f.len() as u32);
    let s = field(f) + t;
    assert(from_be32(s) == from_be32(be32(f.len() as u32))) by {
        assert(forall|i: int| 0 <= i < 4 ==> s[i] == be32(f.len() as u32)[i]);
    }
    let rest = s.subrange(4, s.len() as int);
    assert(rest =~= f + t);
    assert(rest.subrange(0, f.len() as int) =~= f);
    assert(rest.subrange(f.len() as int, rest.len() as int) =~= t);
}

/// Four bytes read as a number and written back are the same four bytes.
pub proof fn lemma_from_be32_roundtrip(s: Seq<u8>)
    requires
        s.len() == 4,
    ensures
        be32(from_be32(s)) == s,
{
    let (b0, b1, b2, b3) = (s[0], s[1], s[2], s[3]);
    let n = from_be32(s);
    assert((n >> 24u32) as u8 == b0 && (n >> 16u32) as u8 == b1 && (n >> 8u32) as u8 == b2 && n as u8
        == b3) by (bit_vector)
        requires
            n == ((b0 as u32) << 24u32) | ((b1 as u32) << 16u32) | ((b2 as u32) << 8u32) | (b3 as u32),
    ;
    assert(be32(n) =~= s);
}

/// What reading a byte takes off is put back by prepending it.
pub proof fn lemma_take_u8_inverse(s: Seq<u8>)
    requires
        take_u8(s) is Some,
    ensures
        take_u8(s) matches Some((b, rest)) && s == seq![b] + rest,
{
    let (b, rest) = take_u8(s).unwrap();
    assert(s =~= seq![b] + rest);
}

/// What reading a 64-bit number takes off is put back by prepending its bytes.
pub proof fn lemma_take_u64_inverse(s: Seq<u8>)
    requires
        take_u64(s) is Some,
    ensures
        take_u64(s) matches Some((n, rest)) && s == be64(n) + rest,
{
    let (n, rest) = take_u64(s).unwrap();
    let head = s.subrange(0, 8);
    assert(from_be64(head) == from_be64(s)) by {
        assert(forall|i: int| 0 <= i < 8 ==> head[i] == s[i]);
    }
    lemma_from_be64_roundtrip(head);
    assert(s =~= be64(n) + rest);
}

/// What reading a field takes off is put back by prepending the field.
pub proof fn lemma_take_field_inverse(s: Seq<u8>)
    requires
        take_field(s) is Some,
    ensures
        take_field(s) matches Some((f, rest)) && s == field(f) + rest && f.len() <= u32::MAX,
{
    let (f, rest) = take_field(s).unwrap();
    let head = s.subrange(0, 4);
    assert(from_be32(head) == from_be32(s)) by {
        assert(forall|i: int| 0 <= i < 4 ==> head[i] == s[i]);
    }
    lemma_from_be32_roundtrip(head);
    let n = from_be32(s);
    assert(f.len() == n);
    assert(s =~= field(f) + rest);
}

/// If one field-encoded byte string starts another field followed by anything, the two
/// fields hold the same bytes.
pub proof fn lemma_field_prefix_injective(a: Seq<u8>, b: Seq<u8>, t: Seq<u8>)
    requires
        a.len() <= u32::MAX,
        b.len() <= u32::MAX,
        (field(b) + t).len() >= field(a).len(),
        (field(b) + t).subrange(0, field(a).len() as int) == field(a),
    ensures
        a == b,
        (field(b) + t) == field(a) + t,
{
    lemma_be32_roundtrip(a.len() as u32);
    lemma_be32_roundtrip(b.len() as u32);
    let s = field(b) + t;
    assert(from_be32(field(a)) == from_be32(be32(a.len() as u32))) by {
        assert(forall|i: int| 0 <= i < 4 ==> field(a)[i] == be32(a.len() as u32)[i]);
    }
    assert(from_be32(s) == from_be32(be32(b.len() as u32))) by {
        assert(forall|i: int| 0 <= i < 4 ==> s[i] == be32(b.len() as u32)[i]);
    }
    assert(from_be32(s) == from_be32(field(a))) by {
        assert(forall|i: int| 0 <= i < 4 ==> s[i] == field(a)[i]);
    }
    assert(a.len() == b.len());
    assert(a =~= b) by {
        assert forall|i: int| 0 <= i < a.len() implies a[i] == b[i] by {
            assert(field(a)[4 + i] == a[i]);
            assert(s[4 + i] == b[i]);
        }
    }
}

/// Lexicographic order on byte strings from position `i` on, the positions before `i`
/// being equal: the order in which an ordered key-value store walks its keys. A proper
/// prefix comes first.
pub open spec fn lex_lt_from(a: Seq<u8>, b: Seq<u8>, i: int) -> bool
    decreases a.len() - i,
    when 0 <= i
{
    if i >= b.len() {
        false
    } else if i >= a.len() {
        true
    } else if a[i] != b[i] {
        a[i] < b[i]
    } else {
        lex_lt_from(a, b, i + 1)
    }
}

/// Lexicographic order on byte strings.
pub open spec fn lex_lt(a: Seq<u8>, b: Seq<u8>) -> bool {
    lex_lt_from(a, b, 0)
}

/// Lexicographic order is strict and total: of two different byte strings exactly one
/// comes first, and no byte string comes before itself.
pub proof fn lemma_lex_total(a: Seq<u8>, b: Seq<u8>)
    ensures
        !lex_lt(a, a),
        a != b ==> (lex_lt(a, b) != lex_lt(b, a)),
        a == b ==> !lex_lt(a, b),
{
    lemma_lex_total_from(a, b, 0);
    lemma_lex_total_from(a, a, 0);
}

/// Lexicographic order is transitive.
pub proof fn lemma_lex_transitive(a: Seq<u8>, b: Seq<u8>, c: Seq<u8>)
    requires
        lex_lt(a, b),
        lex_lt(b, c),
    ensures
        lex_lt(a, c),
{
    lemma_lex_transitive_from(a, b, c, 0);
}

proof fn lemma_lex_transitive_from(a: Seq<u8>, b: Seq<u8>, c: Seq<u8>, i: int)
    requires
        0 <= i,
        lex_lt_from(a, b, i),
        lex_lt_from(b, c, i),
    ensures
        lex_lt_from(a, c, i),
    decreases a.len() - i,
{
    if i < a.len() && a[i] == b[i] && b[i] == c[i] {
        lemma_lex_transitive_from(a, b, c, i + 1);
    }
}

proof fn lemma_lex_total_from(a: Seq<u8>, b: Seq<u8>, i: int)
    requires
        0 <= i <= a.len(),
        i <= b.len(),
        forall|j: int| 0 <= j < i ==> #[trigger] a[j] == b[j],
    ensures
        (a =~= b) ==> !lex_lt_from(a, b, i),
        !(a =~= b) ==> (lex_lt_from(a, b, i) != lex_lt_from(b, a, i)),
    decreases a.len() + b.len() - 2 * i,
{
    if i >= a.len() || i >= b.len() {
        if i >= a.len() && i >= b.len() {
            assert(a.len() == b.len());
            assert(a =~= b);
        }
    } else if a[i] != b[i] {
    } else {
        lemma_lex_total_from(a, b, i + 1);
    }
}

/// Byte strings that agree before `i` compare as they compare from `i` on.
pub proof fn lemma_lex_common_prefix(a: Seq<u8>, b: Seq<u8>, i: int)
    requires
        0 <= i <= a.len(),
        i <= b.len(),
        forall|j: int| 0 <= j < i ==> a[j] == b[j],
    ensures
        lex_lt(a, b) == lex_lt_from(a, b, i),
    decreases i,
{
    if i > 0 {
        lemma_lex_common_prefix(a, b, i - 1);
    }
}

/// Where two byte strings agree before position `i`, their order is decided from `i`
/// on: by the bytes at `i` where both have one and they differ, else by length.
pub proof fn lemma_lex_decided_at(a: Seq<u8>, b: Seq<u8>, i: usize)
    requires
        i <= a.len(),
        i <= b.len(),
        forall|j: int| 0 <= j < i ==> a[j] == b[j],
    ensures
        i < a.len() && i < b.len() && a[i as int] != b[i as int] ==> a != b && lex_lt(a, b) == (
        a[i as int] < b[i as int]) && lex_lt(b, a) == (b[i as int] < a[i as int]),
        (i == a.len() || i == b.len()) ==> (a.len() == b.len() <==> a == b) && lex_lt(a, b) == (
        a.len() < b.len()) && lex_lt(b, a) == (b.len() < a.len()),
{
    lemma_lex_common_prefix(a, b, i as int);
    lemma_lex_common_prefix(b, a, i as int);
    lemma_lex_total(a, b);
    if i == a.len() && i == b.len() {
        assert(a =~= b);
    }
    if a.len() != b.len() {
        assert(a != b);
    }
}

/// Putting the same bytes in front of two byte strings keeps their order.
pub proof fn lemma_lex_prepend(p: Seq<u8>, a: Seq<u8>, b: Seq<u8>)
    ensures
        lex_lt(p + a, p + b) == lex_lt(a, b),
{
    let pa = p + a;
    let pb = p + b;
    lemma_lex_common_prefix(pa, pb, p.len() as int);
    lemma_lex_shift(p, a, b, 0);
}

proof fn lemma_lex_shift(p: Seq<u8>, a: Seq<u8>, b: Seq<u8>, i: int)
    requires
        0 <= i,
    ensures
        lex_lt_from(p + a, p + b, p.len() + i) == lex_lt_from(a, b, i),
    decreases a.len() - i,
{
    let pa = p + a;
    let pb = p + b;
    if i < a.len() && i < b.len() {
        assert(pa[p.len() + i] == a[i]);
        assert(pb[p.len() + i] == b[i]);
        if a[i] == b[i] {
            lemma_lex_shift(p, a, b, i + 1);
        }
    }
}

/// Big-endian bytes of two 64-bit numbers are ordered as the numbers are.
pub proof fn lemma_be64_lex(x: u64, y: u64)
    ensures
        lex_lt(be64(x), be64(y)) == (x < y),
{
    let a = be64(x);
    let b = be64(y);
    reveal_with_fuel(lex_lt_from, 9);
    let (a0, a1, a2, a3, a4, a5, a6, a7) = (a[0], a[1], a[2], a[3], a[4], a[5], a[6], a[7]);
    let (b0, b1, b2, b3, b4, b5, b6, b7) = (b[0], b[1], b[2], b[3], b[4], b[5], b[6], b[7]);
    assert((if a0 != b0 {
        a0 < b0
    } else if a1 != b1 {
        a1 < b1
    } else if a2 != b2 {
        a2 < b2
    } else if a3 != b3 {
        a3 < b3
    } else if a4 != b4 {
        a4 < b4
    } else if a5 != b5 {
        a5 < b5
    } else if a6 != b6 {
        a6 < b6
    } else if a7 != b7 {
        a7 < b7
    } else {
        false
    }) == (x < y)) by (bit_vector)
        requires
            a0 == (x >> 56u64) as u8,
            a1 == (x >> 48u64) as u8,
            a2 == (x >> 40u64) as u8,
            a3 == (x >> 32u64) as u8,
            a4 == (x >> 24u64) as u8,
            a5 == (x >> 16u64) as u8,
            a6 == (x >> 8u64) as u8,
            a7 == x as u8,
            b0 == (y >> 56u64) as u8,
            b1 == (y >> 48u64) as u8,
            b2 == (y >> 40u64) as u8,
            b3 == (y >> 32u64) as u8,
            b4 == (y >> 24u64) as u8,
            b5 == (y >> 16u64) as u8,
            b6 == (y >> 8u64) as u8,
            b7 == y as u8,
    ;
}

/// Different numbers have different big-endian bytes.
pub proof fn lemma_be64_injective(x: u64, y: u64)
    ensures
        (be64(x) == be64(y)) == (x == y),
{
    lemma_be64_roundtrip(x);
    lemma_be64_roundtrip(y);
}

/// Byte strings behind the same prefix are equal only if they are equal.
pub proof fn lemma_prepend_injective(p: Seq<u8>, a: Seq<u8>, b: Seq<u8>)
    ensures
        (p + a == p + b) == (a == b),
{
    if p + a == p + b {
        assert(a =~= (p + a).subrange(p.len() as int, (p + a).len() as int));
        assert(b =~= (p + b).subrange(p.len() as int, (p + b).len() as int));
    }
}

/// Appends `n` to `v` as four big-endian bytes.
fn push_be32(v: &mut Vec<u8>, n: u32)
    ensures
        final(v)@ == old(v)@ + be32(n),
{
    v.push((n >> 24u32) as u8);
    v.push((n >> 16u32) as u8);
    v.push((n >> 8u32) as u8);
    v.push(n as u8);
    assert(final(v)@ =~= old(v)@ + be32(n));
}

/// Appends `n` to `v` as eight big-endian bytes.
pub fn push_be64(v: &mut Vec<u8>, n: u64)
    ensures
        final(v)@ == old(v)@ + be64(n),
{
    v.push((n >> 56u64) as u8);
    v.push((n >> 48u64) as u8);
    v.push((n >> 40u64) as u8);
    v.push((n >> 32u64) as u8);
    v.push((n >> 24u64) as u8);
    v.push((n >> 16u64) as u8);
    v.push((n >> 8u64) as u8);
    v.push(n as u8);
    assert(final(v)@ =~= old(v)@ + be64(n));
}

/// Appends the bytes of `src` to `dst`.
pub fn append_bytes(dst: &mut Vec<u8>, src: &[u8])
    ensures
        final(dst)@ == old(dst)@ + src@,
{
    let mut i: usize = 0;
    while i < src.len()
        invariant
            i <= src@.len(),
            dst@ == old(dst)@ + src@.subrange(0, i as int),
        decreases src@.len() - i,
    {
        dst.push(src[i]);
        i = i + 1;
        assert(dst@ =~= old(dst)@ + src@.subrange(0, i as int));
    }
    assert(src@.subrange(0, src@.len() as int) =~= src@);
}

/// The eight big-endian bytes of `n`.
pub fn u64_to_be_bytes(n: u64) -> (r: Vec<u8>)
    ensures
        r@ == be64(n),
{
    let mut v: Vec<u8> = Vec::new();
    push_be64(&mut v, n);
    assert(v@ =~= be64(n));
    v
}

/// The number whose big-endian bytes are `b`, which holds exactly eight bytes.
pub fn u64_from_be_bytes(b: &[u8]) -> (r: u64)
    requires
        b@.len() == 8,
    ensures
        r == from_be64(b@),
{
    ((b[0] as u64) << 56u64) | ((b[1] as u64) << 48u64) | ((b[2] as u64) << 40u64) | ((b[3] as u64)
        << 32u64) | ((b[4] as u64) << 24u64) | ((b[5] as u64) << 16u64) | ((b[6] as u64) << 8u64)
        | (b[7] as u64)
}

/// Builds an ordered binary key out of fixed- and variable-length fields.
pub struct KeyBuilder {
    bytes: Vec<u8>,
}

impl View for KeyBuilder {
    type V = Seq<u8>;

    closed spec fn view(&self) -> Seq<u8> {
        self.bytes@
    }
}

impl Default for KeyBuilder {
    fn default() -> (r: Self)
        ensures
            r@ == Seq::<u8>::empty(),
    {
        Self::new()
    }
}

impl KeyBuilder {
    /// An empty key.
    pub fn new() -> (r: Self)
        ensures
            r@ == Seq::<u8>::empty(),
    {
        KeyBuilder { bytes: Vec::with_capacity(32) }
    }

    /// Appends one byte.
    pub fn u8(self, value: u8) -> (r: Self)
        ensures
            r@ == self@.push(value),
    {
        let mut b = self;
        b.bytes.push(value);
        b
    }

    /// Appends a string as a length-prefixed field of its UTF-8 bytes.
    pub fn str(self, value: &str) -> (r: Self)
        requires
            value.spec_bytes().len() <= u32::MAX,
        ensures
            r@ == self@ + field(value.spec_bytes()),
    {
        let mut b = self;
        let len = value.len() as u32;
        push_be32(&mut b.bytes, len);
        append_bytes(&mut b.bytes, value.as_bytes());
        assert(b.bytes@ =~= self@ + field(value.spec_bytes()));
        b
    }

    /// Appends bytes as a length-prefixed field.
    pub fn bytes(self, value: &[u8]) -> (r: Self)
        requires
            value@.len() <= u32::MAX,
        ensures
            r@ == self@ + field(value@),
    {
        let mut b = self;
        let len = value.len() as u32;
        push_be32(&mut b.bytes, len);
        append_bytes(&mut b.bytes, value);
        assert(b.bytes@ =~= self@ + field(value@));
        b
    }

    /// Appends a number as eight big-endian bytes.
    pub fn u64(self, value: u64) -> (r: Self)
        ensures
            r@ == self@ + be64(value),
    {
        let mut b = self;
        push_be64(&mut b.bytes, value);
        b
    }

    /// The key built so far.
    pub fn finish(self) -> (r: Vec<u8>)
        ensures
            r@ == self@,
    {
        self.bytes
    }
}

/// Reads the fields of a key in the order they were built.
pub struct KeyReader<'a> {
    bytes: &'a [u8],
    cursor: usize,
}

impl<'a> KeyReader<'a> {
    /// The key being read.
    pub closed spec fn input(&self) -> Seq<u8> {
        self.bytes@
    }

    /// How many bytes have been consumed.
    pub closed spec fn position(&self) -> nat {
        self.cursor as nat
    }

    /// The reader has not moved past the end of its key.
    pub open spec fn wf(&self) -> bool {
        self.position() <= self.input().len()
    }

    /// The bytes not yet consumed.
    pub open spec fn rest(&self) -> Seq<u8> {
        self.input().subrange(self.position() as int, self.input().len() as int)
    }

    /// A reader at the start of `bytes`.
    pub fn new(bytes: &'a [u8]) -> (r: Self)
        ensures
            r.input() == bytes@,
            r.position() == 0,
            r.wf(),
    {
        KeyReader { bytes, cursor: 0 }
    }

    /// Reads one byte; `None`, and no move, at the end of the key.
    pub fn u8(&mut self) -> (r: Option<u8>)
        requires
            old(self).wf(),
        ensures
            final(self).wf(),
            final(self).input() == old(self).input(),
            match take_u8(old(self).rest()) {
                None => r is None && final(self).position() == old(self).position(),
                Some((b, rest)) => r == Some(b) && final(self).position() == old(self).position()
                    + 1 && final(self).rest() == rest,
            },
    {
        if self.cursor >= self.bytes.len() {
            return None;
        }
        let val = self.bytes[self.cursor];
        self.cursor = self.cursor + 1;
        assert(final(self).rest() =~= old(self).rest().subrange(1, old(self).rest().len() as int));
        Some(val)
    }

    fn u32(&mut self) -> (r: Option<u32>)
        requires
            old(self).wf(),
        ensures
            final(self).wf(),
            final(self).input() == old(self).input(),
            match take_u32(old(self).rest()) {
                None => r is None && final(self).position() == old(self).position(),
                Some((n, rest)) => r == Some(n) && final(self).position() == old(self).position()
                    + 4 && final(self).rest() == rest,
            },
    {
        if self.bytes.len() - self.cursor < 4 {
            return None;
        }
        let c = self.cursor;
        let n = ((self.bytes[c] as u32) << 24u32) | ((self.bytes[c + 1] as u32) << 16u32) | ((
        self.bytes[c + 2] as u32) << 8u32) | (self.bytes[c + 3] as u32);
        self.cursor = c + 4;
        assert(final(self).rest() =~= old(self).rest().subrange(4, old(self).rest().len() as int));
        Some(n)
    }

    /// Reads a length-prefixed field. `None` where the key ends before the length or
    /// before the bytes it announces; in the second case the length has been consumed.
    pub fn str(&mut self) -> (r: Option<&'a [u8]>)
        requires
            old(self).wf(),
        ensures
            final(self).wf(),
            final(self).input() == old(self).input(),
            Self::field_read(*old(self), *final(self), r),
    {
        self.field()
    }

    /// Reads a length-prefixed field of bytes, as `str` does.
    pub fn bytes(&mut self) -> (r: Option<&'a [u8]>)
        requires
            old(self).wf(),
        ensures
            final(self).wf(),
            final(self).input() == old(self).input(),
            Self::field_read(*old(self), *final(self), r),
    {
        self.field()
    }

    /// How a field read moves the reader and what it returns.
    pub open spec fn field_read(pre: Self, post: Self, r: Option<&'a [u8]>) -> bool {
        match take_field(pre.rest()) {
            None => r is None && (post.position() == pre.position() || (post.position()
                == pre.position() + 4 && take_u32(pre.rest()) is Some)),
            Some((f, rest)) => r is Some && r.unwrap()@ == f && post.rest() == rest,
        }
    }

    fn field(&mut self) -> (r: Option<&'a [u8]>)
        requires
            old(self).wf(),
        ensures
            final(self).wf(),
            final(self).input() == old(self).input(),
            Self::field_read(*old(self), *final(self), r),
    {
        let len = match self.u32() {
            Some(n) => n as usize,
            None => return None,
        };
        if len > self.bytes.len() - self.cursor {
            return None;
        }
        let start = self.cursor;
        self.cursor = self.cursor + len;
        let f = &self.bytes[start..self.cursor];
        proof {
            let pre_rest = old(self).rest();
            let mid = pre_rest.subrange(4, pre_rest.len() as int);
            assert(f@ =~= mid.subrange(0, len as int));
            assert(final(self).rest() =~= mid.subrange(len as int, mid.len() as int));
        }
        Some(f)
    }

    /// Reads an eight-byte big-endian number; `None`, and no move, where fewer remain.
    pub fn u64(&mut self) -> (r: Option<u64>)
        requires
            old(self).wf(),
        ensures
            final(self).wf(),
            final(self).input() == old(self).input(),
            match take_u64(old(self).rest()) {
                None => r is None && final(self).position() == old(self).position(),
                Some((n, rest)) => r == Some(n) && final(self).position() == old(self).position()
                    + 8 && final(self).rest() == rest,
            },
    {
        if self.bytes.len() - self.cursor < 8 {
            return None;
        }
        let c = self.cursor;
        let b = &self.bytes[c..c + 8];
        let n = u64_from_be_bytes(b);
        self.cursor = c + 8;
        proof {
            let pre_rest = old(self).rest();
            assert(b@ =~= pre_rest.subrange(0, 8));
            assert(from_be64(b@) == from_be64(pre_rest)) by {
                assert(forall|i: int| 0 <= i < 8 ==> b@[i] == pre_rest[i]);
            }
            assert(final(self).rest() =~= pre_rest.subrange(8, pre_rest.len() as int));
        }
        Some(n)
    }

    /// `Some` exactly where the whole key has been consumed.
    pub fn finish(self) -> (r: Option<()>)
        requires
            self.wf(),
        ensures
            r is Some <==> self.rest().len() == 0,
    {
        if self.cursor == self.bytes.len() {
            Some(())
        } else {
            None
        }
    }
}

/// One part of a key, as the builder appends it and the reader reads it back: a byte, a
/// length-prefixed field (of a string's UTF-8 bytes or of raw bytes), or a number.
pub enum KeyPart {
    Byte(u8),
    Field(Seq<u8>),
    Number(u64),
}

/// The bytes the builder appends for a part.
pub open spec fn part_bytes(p: KeyPart) -> Seq<u8> {
    match p {
        KeyPart::Byte(b) => seq![b],
        KeyPart::Field(f) => field(f),
        KeyPart::Number(n) => be64(n),
    }
}

/// Every field among `parts` is short enough for its length prefix.
pub open spec fn parts_fit(parts: Seq<KeyPart>) -> bool {
    forall|i: int| 0 <= i < parts.len() ==> (#[trigger] parts[i] matches KeyPart::Field(f) ==> f.len() <= u32::MAX)
}

/// The key made of `parts`, in order.
pub open spec fn key_of(parts: Seq<KeyPart>) -> Seq<u8>
    decreases parts.len(),
{
    if parts.len() == 0 {
        Seq::empty()
    } else {
        part_bytes(parts[0]) + key_of(parts.drop_first())
    }
}

/// Reading a part of the kind of `kind` off the front of `s`, as the reader's `u8`, `str`
/// or `bytes`, and `u64` do: the part read and the bytes that remain.
pub open spec fn read_part(kind: KeyPart, s: Seq<u8>) -> Option<(KeyPart, Seq<u8>)> {
    match kind {
        KeyPart::Byte(_) => match take_u8(s) {
            Some((b, t)) => Some((KeyPart::Byte(b), t)),
            None => None,
        },
        KeyPart::Field(_) => match take_field(s) {
            Some((f, t)) => Some((KeyPart::Field(f), t)),
            None => None,
        },
        KeyPart::Number(_) => match take_u64(s) {
            Some((n, t)) => Some((KeyPart::Number(n), t)),
            None => None,
        },
    }
}

/// Reading parts of the kinds of `kinds` one after another off the front of `s`.
pub open spec fn read_parts(kinds: Seq<KeyPart>, s: Seq<u8>) -> Option<(Seq<KeyPart>, Seq<u8>)>
    decreases kinds.len(),
{
    if kinds.len() == 0 {
        Some((Seq::empty(), s))
    } else {
        match read_part(kinds[0], s) {
            None => None,
            Some((p, t)) => match read_parts(kinds.drop_first(), t) {
                None => None,
                Some((ps, u)) => Some((seq![p] + ps, u)),
            },
        }
    }
}

/// Appending a part to a key appends its bytes.
pub proof fn law_key_of_push(parts: Seq<KeyPart>, p: KeyPart)
    ensures
        key_of(parts.push(p)) == key_of(parts) + part_bytes(p),
    decreases parts.len(),
{
    if parts.len() == 0 {
        assert(parts.push(p).drop_first() =~= Seq::<KeyPart>::empty());
        assert(key_of(parts.push(p).drop_first()) == Seq::<u8>::empty());
        assert(parts.push(p)[0] == p);
        assert(key_of(parts.push(p)) =~= key_of(parts) + part_bytes(p));
    } else {
        law_key_of_push(parts.drop_first(), p);
        assert(parts.push(p).drop_first() =~= parts.drop_first().push(p));
        assert(key_of(parts.push(p)) =~= key_of(parts) + part_bytes(p));
    }
}

/// A key holds no byte exactly where it is made of no part.
proof fn lemma_key_of_empty(parts: Seq<KeyPart>)
    ensures
        key_of(parts).len() == 0 <==> parts.len() == 0,
{
    if parts.len() > 0 {
        assert(part_bytes(parts[0]).len() > 0);
    }
}

/// Reading a key back: reading the first `k` parts' kinds off a key built of `parts` gives
/// those parts and leaves the bytes of the rest; what remains is empty, so the reader's
/// `finish` succeeds, exactly once every part has been read.
pub proof fn law_key_roundtrip(parts: Seq<KeyPart>, k: int)
    requires
        parts_fit(parts),
        0 <= k <= parts.len(),
    ensures
        read_parts(parts.subrange(0, k), key_of(parts)) == Some((parts.subrange(0, k), key_of(parts.subrange(k, parts.len() as int)))),
        key_of(parts.subrange(k, parts.len() as int)).len() == 0 <==> k == parts.len(),
    decreases k,
{
    lemma_key_of_empty(parts.subrange(k, parts.len() as int));
    if k == 0 {
        assert(parts.subrange(0, 0) =~= Seq::<KeyPart>::empty());
        assert(parts.subrange(0, parts.len() as int) =~= parts);
    } else {
        let d = parts.drop_first();
        assert forall|i: int| 0 <= i < d.len() implies (#[trigger] d[i] matches KeyPart::Field(f) ==> f.len() <= u32::MAX) by {
            assert(d[i] == parts[i + 1]);
        }
        law_key_roundtrip(d, k - 1);
        let rest = key_of(d);
        match parts[0] {
            KeyPart::Byte(b) => lemma_take_u8(b, rest),
            KeyPart::Field(f) => {
                assert(parts[0] matches KeyPart::Field(g) ==> g.len() <= u32::MAX);
                lemma_take_field(f, rest);
            },
            KeyPart::Number(n) => lemma_take_u64(n, rest),
        }
        assert(read_part(parts.subrange(0, k)[0], key_of(parts)) == Some((parts[0], rest)));
        assert(parts.subrange(0, k).drop_first() =~= d.subrange(0, k - 1));
        assert(d.subrange(k - 1, d.len() as int) =~= parts.subrange(k, parts.len() as int));
        assert(seq![parts[0]] + d.subrange(0, k - 1) =~= parts.subrange(0, k));
    }
}

} // verus!
