use vstd::prelude::*;
use vstd::utf8::encode_utf8;

use crate::index::codec::{lemma_lex_decided_at, lemma_lex_total, lemma_lex_transitive, lex_lt};

verus! {

/// `a` comes before `b` in the order of their UTF-8 bytes, which is the order of `String`.
pub open spec fn str_before(a: Seq<char>, b: Seq<char>) -> bool {
    lex_lt(encode_utf8(a), encode_utf8(b))
}

/// Every string comes strictly before the next.
pub open spec fn strictly_sorted(s: Seq<Seq<char>>) -> bool {
    forall|i: int, j: int| 0 <= i < j < s.len() ==> str_before(#[trigger] s[i], #[trigger] s[j])
}

/// The contents of a list of strings.
pub open spec fn strs_view(v: Seq<String>) -> Seq<Seq<char>> {
    v.map_values(|s: String| s@)
}


pub proof fn lemma_str_total(a: Seq<char>, b: Seq<char>)
    ensures
        !str_before(a, a),
        a != b ==> str_before(a, b) != str_before(b, a),
{
    lemma_lex_total(encode_utf8(a), encode_utf8(b));
    lemma_lex_total(encode_utf8(a), encode_utf8(a));
    vstd::utf8::encode_utf8_decode_utf8(a);
    vstd::utf8::encode_utf8_decode_utf8(b);
}

pub proof fn lemma_str_trans(a: Seq<char>, b: Seq<char>, c: Seq<char>)
    requires
        str_before(a, b),
        str_before(b, c),
    ensures
        str_before(a, c),
{
    lemma_lex_transitive(encode_utf8(a), encode_utf8(b), encode_utf8(c));
}


/// Whether `a` comes before `b` in the order of their UTF-8 bytes.
pub fn str_lt(a: &str, b: &str) -> (r: bool)
    ensures
        r == str_before(a@, b@),
{
    let x = a.as_bytes();
    let y = b.as_bytes();
    assert(x@ == encode_utf8(a@) && y@ == encode_utf8(b@));
    let mut i: usize = 0;
    while i < x.len() && i < y.len()
        invariant
            i <= x@.len(),
            i <= y@.len(),
            forall|j: int| 0 <= j < i ==> x@[j] == y@[j],
            x@ == encode_utf8(a@) && y@ == encode_utf8(b@),
        decreases x@.len() - i,
    {
        if x[i] != y[i] {
            proof {
                lemma_lex_decided_at(x@, y@, i);
            }
            return x[i] < y[i];
        }
        i = i + 1;
    }
    proof {
        lemma_lex_decided_at(x@, y@, i);
    }
    x.len() < y.len()
}


/// Inserting at a position between the smaller and the greater strings keeps strings
/// strictly sorted.
pub proof fn lemma_sorted_insert(pre: Seq<Seq<char>>, pos: int, x: Seq<char>)
    requires
        strictly_sorted(pre),
        0 <= pos <= pre.len(),
        forall|j: int| 0 <= j < pos ==> str_before(#[trigger] pre[j], x),
        forall|j: int| pos <= j < pre.len() ==> str_before(x, #[trigger] pre[j]),
    ensures
        strictly_sorted(pre.insert(pos, x)),
{
    let post = pre.insert(pos, x);
    assert forall|i: int, j: int| 0 <= i < j < post.len() implies str_before(#[trigger] post[i], #[trigger] post[j]) by {
        if j < pos {
            assert(post[i] == pre[i] && post[j] == pre[j]);
        } else if j == pos {
            assert(post[i] == pre[i]);
        } else if i < pos {
            assert(post[i] == pre[i] && post[j] == pre[j - 1]);
        } else if i == pos {
            assert(post[j] == pre[j - 1]);
        } else {
            assert(post[i] == pre[i - 1] && post[j] == pre[j - 1]);
        }
    }
}

/// Removing a string keeps strings strictly sorted.
pub proof fn lemma_sorted_remove(pre: Seq<Seq<char>>, pos: int)
    requires
        strictly_sorted(pre),
        0 <= pos < pre.len(),
    ensures
        strictly_sorted(pre.remove(pos)),
{
    let post = pre.remove(pos);
    assert forall|i: int, j: int| 0 <= i < j < post.len() implies str_before(#[trigger] post[i], #[trigger] post[j]) by {
        let a = if i < pos { i } else { i + 1 };
        let b = if j < pos { j } else { j + 1 };
        assert(post[i] == pre[a] && post[j] == pre[b]);
    }
}

/// Strictly sorted strings are distinct.
pub proof fn lemma_sorted_distinct(s: Seq<Seq<char>>, i: int, j: int)
    requires
        strictly_sorted(s),
        0 <= i < j < s.len(),
    ensures
        s[i] != s[j],
{
    lemma_str_total(s[i], s[i]);
}

} // verus!
