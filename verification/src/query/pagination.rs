use vstd::prelude::*;
use vstd::string::StringSliceAdditionalSpecFns;
use vstd::utf8::{decode_utf8, encode_utf8, valid_utf8};

use crate::decimal::{decimal, parse_u64, parse_u64_spec, u64_to_string};
use crate::error::{join2, HelixiteError};
use crate::id::{EdgeId, NodeId};
use crate::value::string_from_utf8;

verus! {

/// One page of an ordered result, and the cursor that continues after it when more
/// remain.
#[derive(Debug, Clone)]
pub struct Page<T> {
    pub items: Vec<T>,
    pub next_cursor: Option<String>,
}

/// A position in a result: after this node or after this edge.
#[derive(Debug, Clone, PartialEq, Eq, Structural)]
pub enum Cursor {
    Node(NodeId),
    Edge(EdgeId),
}

/// Whether a result lists nodes or edges.
#[derive(Debug, Clone, Copy, PartialEq, Eq, Structural)]
pub enum CursorKind {
    Node,
    Edge,
}

/// The text of a cursor: `n:` or `e:`, then the id in decimal.
pub open spec fn cursor_text(kind: CursorKind, id: u64) -> Seq<char> {
    match kind {
        CursorKind::Node => "n:"@ + decimal(id as nat),
        CursorKind::Edge => "e:"@ + decimal(id as nat),
    }
}

/// The id a cursor text holds: its UTF-8 bytes are the tag byte, a colon and a number.
pub open spec fn cursor_id(tag: u8, bytes: Seq<u8>) -> Option<u64> {
    if bytes.len() >= 2 && bytes[0] == tag && bytes[1] == 58 {
        parse_u64_spec(bytes.subrange(2, bytes.len() as int))
    } else {
        None
    }
}

/// The cursor matches the id of an item of the given kind.
pub open spec fn cursor_matches(c: Cursor, kind: CursorKind, id: u64) -> bool {
    match (c, kind) {
        (Cursor::Node(n), CursorKind::Node) => n == id,
        (Cursor::Edge(e), CursorKind::Edge) => e == id,
        _ => false,
    }
}

/// The position just after the first item the cursor matches, if it matches one.
pub open spec fn resume_at(ids: Seq<u64>, after: Option<Cursor>, kind: CursorKind) -> Option<int> {
    match after {
        None => Some(0),
        Some(c) => if exists|j: int| 0 <= j < ids.len() && cursor_matches(c, kind, #[trigger] ids[j]) {
            Some(
                (choose|j: int|
                    0 <= j < ids.len() && cursor_matches(c, kind, #[trigger] ids[j]) && forall|i: int|
                        0 <= i < j ==> !cursor_matches(c, kind, #[trigger] ids[i])) + 1,
            )
        } else {
            None
        },
    }
}

/// The page of `ids` that starts at `start`: at most `limit` items, and the cursor of its
/// last item where more items remain after it.
pub open spec fn page_from(ids: Seq<u64>, start: int, limit: usize, kind: CursorKind) -> (Seq<u64>, Option<Seq<char>>) {
    let rest = ids.len() - start;
    if rest > limit {
        let items = ids.subrange(start, start + limit);
        (items, if limit > 0 {
            Some(cursor_text(kind, items.last()))
        } else {
            None
        })
    } else {
        (ids.subrange(start, ids.len() as int), None)
    }
}

/// The cursor behind an optional reference.
pub open spec fn deref_cursor(after: Option<&Cursor>) -> Option<Cursor> {
    match after {
        Some(c) => Some(*c),
        None => None,
    }
}

/// The edge cursor that an optional cursor text names, where it names one.
pub open spec fn after_cursor(after: Option<String>) -> Option<Cursor> {
    match after {
        Some(s) => match cursor_id(101, encode_utf8(s@)) {
            Some(id) => Some(Cursor::Edge(id)),
            None => None,
        },
        None => None,
    }
}

impl Page<u64> {
    /// The page of `ids` after the item `after` matches: at most `limit` items, and a
    /// cursor to continue where more remain; an invalid-cursor error where `after` is
    /// given and matches no item.
    pub fn from_iter(ids: Vec<u64>, limit: usize, after: Option<&Cursor>, kind: CursorKind) -> (r: Result<Page<u64>, HelixiteError>)
        ensures
            match resume_at(ids@, deref_cursor(after), kind) {
                None => r matches Err(HelixiteError::InvalidCursor(msg)) && msg@ == "cursor not found in result set"@,
                Some(start) => r matches Ok(p) && p.items@ == page_from(ids@, start, limit, kind).0 && match (p.next_cursor, page_from(ids@, start, limit, kind).1) {
                    (Some(c), Some(t)) => c@ == t,
                    (None, None) => true,
                    _ => false,
                },
            },
    {
        let mut i: usize = 0;
        if let Some(c) = after {
            let mut found = false;
            while i < ids.len() && !found
                invariant
                    i <= ids@.len(),
                    found ==> i < ids@.len() && cursor_matches(*c, kind, ids@[i as int]),
                    forall|j: int| 0 <= j < i ==> !cursor_matches(*c, kind, #[trigger] ids@[j]),
                decreases ids@.len() - i, if found { 0int } else { 1int },
            {
                if c.matches(ids[i], kind) {
                    found = true;
                } else {
                    i = i + 1;
                }
            }
            if !found {
                return Err(HelixiteError::InvalidCursor("cursor not found in result set".to_owned()));
            }
            proof {
                let first = i as int;
                assert(cursor_matches(*c, kind, ids@[first]));
                let j = choose|j: int|
                    0 <= j < ids@.len() && cursor_matches(*c, kind, #[trigger] ids@[j]) && forall|k: int|
                        0 <= k < j ==> !cursor_matches(*c, kind, #[trigger] ids@[k]);
                if j < first {
                    assert(!cursor_matches(*c, kind, ids@[j]));
                }
                if first < j {
                    assert(!cursor_matches(*c, kind, ids@[first]));
                }
                assert(j == first);
            }
            i = i + 1;
        }
        let start = i;
        let mut items: Vec<u64> = Vec::new();
        while i < ids.len() && items.len() < limit
            invariant
                start <= i <= ids@.len(),
                items@ == ids@.subrange(start as int, i as int),
                items@.len() <= limit,
            decreases ids@.len() - i,
        {
            items.push(ids[i]);
            i = i + 1;
            assert(items@ =~= ids@.subrange(start as int, i as int));
        }
        let has_more = i < ids.len();
        let next_cursor = if has_more && items.len() > 0 {
            Some(Cursor::encode(kind, items[items.len() - 1]))
        } else {
            None
        };
        Ok(Page { items, next_cursor })
    }
}

impl Cursor {
    /// Whether the cursor stands for this item.
    pub fn matches(&self, id: u64, kind: CursorKind) -> (r: bool)
        ensures
            r == cursor_matches(*self, kind, id),
    {
        match (self, kind) {
            (Cursor::Node(n), CursorKind::Node) => *n == id,
            (Cursor::Edge(e), CursorKind::Edge) => *e == id,
            _ => false,
        }
    }

    /// The text of the cursor after an item of the given kind.
    pub fn encode(kind: CursorKind, id: u64) -> (r: String)
        ensures
            r@ == cursor_text(kind, id),
    {
        match kind {
            CursorKind::Node => Self::encode_node(id),
            CursorKind::Edge => Self::encode_edge(id),
        }
    }

    /// The text of the cursor after a node: `n:` and the id.
    pub fn encode_node(id: NodeId) -> (r: String)
        ensures
            r@ == cursor_text(CursorKind::Node, id),
    {
        join2("n:", u64_to_string(id).as_str())
    }

    /// The text of the cursor after an edge: `e:` and the id.
    pub fn encode_edge(id: EdgeId) -> (r: String)
        ensures
            r@ == cursor_text(CursorKind::Edge, id),
    {
        join2("e:", u64_to_string(id).as_str())
    }

    /// The node cursor a text holds; an invalid-cursor error where it does not start with
    /// `n:` or what follows is not a number.
    pub fn decode_node(s: &str) -> (r: Result<Cursor, HelixiteError>)
        ensures
            match cursor_id(110, s.spec_bytes()) {
                Some(id) => r == Ok::<Cursor, HelixiteError>(Cursor::Node(id)),
                None => r matches Err(HelixiteError::InvalidCursor(_)),
            },
    {
        match Self::decode_id(s, 110, "node cursor must start with 'n:'", "invalid node id in cursor: ") {
            Ok(id) => Ok(Cursor::Node(id)),
            Err(e) => Err(e),
        }
    }

    /// The edge cursor a text holds; an invalid-cursor error where it does not start with
    /// `e:` or what follows is not a number.
    pub fn decode_edge(s: &str) -> (r: Result<Cursor, HelixiteError>)
        ensures
            match cursor_id(101, s.spec_bytes()) {
                Some(id) => r == Ok::<Cursor, HelixiteError>(Cursor::Edge(id)),
                None => r matches Err(HelixiteError::InvalidCursor(_)),
            },
    {
        match Self::decode_id(s, 101, "edge cursor must start with 'e:'", "invalid edge id in cursor: ") {
            Ok(id) => Ok(Cursor::Edge(id)),
            Err(e) => Err(e),
        }
    }

    fn decode_id(s: &str, tag: u8, missing: &str, invalid: &str) -> (r: Result<u64, HelixiteError>)
        ensures
            match cursor_id(tag, s.spec_bytes()) {
                Some(id) => r == Ok::<u64, HelixiteError>(id),
                None => r matches Err(HelixiteError::InvalidCursor(_)),
            },
    {
        let b = s.as_bytes();
        if b.len() < 2 || b[0] != tag || b[1] != 58 {
            return Err(HelixiteError::InvalidCursor(missing.to_owned()));
        }
        let rest = &b[2..b.len()];
        match parse_u64(rest) {
            Some(id) => Ok(id),
            None => {
                let text = match string_from_utf8(vstd::slice::slice_to_vec(rest)) {
                    Some(t) => t,
                    None => String::new(),
                };
                Err(HelixiteError::InvalidCursor(join2(invalid, text.as_str())))
            },
        }
    }
}

/// Reading back the text of a cursor gives the cursor.
pub proof fn law_cursor_roundtrip(id: u64)
    ensures
        cursor_id(110, encode_utf8(cursor_text(CursorKind::Node, id))) == Some(id),
        cursor_id(101, encode_utf8(cursor_text(CursorKind::Edge, id))) == Some(id),
{
    crate::decimal::law_decimal_roundtrip(id);
    reveal_strlit("n:");
    reveal_strlit("e:");
    let d = decimal(id as nat);
    lemma_encode_tagged("n:"@, d);
    lemma_encode_tagged("e:"@, d);
}

proof fn lemma_encode_tagged(tag: Seq<char>, d: Seq<char>)
    requires
        tag.len() == 2,
        vstd::utf8::is_ascii_chars(tag),
    ensures
        encode_utf8(tag + d).len() >= 2,
        encode_utf8(tag + d)[0] == tag[0] as u8,
        encode_utf8(tag + d)[1] == tag[1] as u8,
        encode_utf8(tag + d).subrange(2, encode_utf8(tag + d).len() as int) == encode_utf8(d),
{
    lemma_encode_utf8_concat(tag, d);
    vstd::utf8::is_ascii_chars_encode_utf8(tag);
    let e = encode_utf8(tag + d);
    assert(e.subrange(2, e.len() as int) =~= encode_utf8(d));
}

/// The UTF-8 encoding of two strings one after another is their encodings one after
/// another.
pub proof fn lemma_encode_utf8_concat(a: Seq<char>, b: Seq<char>)
    ensures
        encode_utf8(a + b) == encode_utf8(a) + encode_utf8(b),
    decreases a.len(),
{
    if a.len() == 0 {
        assert(a + b =~= b);
        assert(encode_utf8(a) =~= Seq::<u8>::empty());
        assert(encode_utf8(a) + encode_utf8(b) =~= encode_utf8(b));
    } else {
        lemma_encode_utf8_concat(a.drop_first(), b);
        assert((a + b).drop_first() =~= a.drop_first() + b);
        assert((a + b)[0] == a[0]);
        assert(encode_utf8(a + b) == vstd::utf8::encode_scalar(a[0] as u32) + encode_utf8(a.drop_first() + b));
        assert(encode_utf8(a + b) =~= encode_utf8(a) + encode_utf8(b));
    }
}

/// The tag byte of the cursors of a kind: `n` for nodes, `e` for edges.
pub open spec fn cursor_tag(kind: CursorKind) -> u8 {
    match kind {
        CursorKind::Node => 110,
        CursorKind::Edge => 101,
    }
}

/// The cursor after the item `id` of a kind.
pub open spec fn cursor_of(kind: CursorKind, id: u64) -> Cursor {
    match kind {
        CursorKind::Node => Cursor::Node(id),
        CursorKind::Edge => Cursor::Edge(id),
    }
}

/// Paging through ids that each come once, `limit` at a time: the first page starts at
/// the beginning; each page is the next slice of at most `limit` ids; it has a cursor
/// exactly where ids remain after it, and reading that cursor back resumes right after
/// the page's last id; the page without a cursor runs to the end. So the pages read one
/// after another hold every id once, in order.
pub proof fn law_next_page(ids: Seq<u64>, start: int, limit: usize, kind: CursorKind)
    requires
        0 <= start <= ids.len(),
        limit >= 1,
        forall|i: int, j: int| 0 <= i < j < ids.len() ==> ids[i] != ids[j],
    ensures
        resume_at(ids, None, kind) == Some(0int),
        page_from(ids, start, limit, kind).0 == ids.subrange(start, start + page_from(ids, start, limit, kind).0.len()),
        page_from(ids, start, limit, kind).0.len() <= limit,
        page_from(ids, start, limit, kind).1 is Some <==> start + limit < ids.len(),
        page_from(ids, start, limit, kind).1 is None ==> start + page_from(ids, start, limit, kind).0.len() == ids.len(),
        page_from(ids, start, limit, kind).1 matches Some(t) ==> (cursor_id(cursor_tag(kind), encode_utf8(t)) matches Some(id)
            && resume_at(ids, Some(cursor_of(kind, id)), kind) == Some(start + limit)),
{
    if start + limit < ids.len() {
        let last_at = start + limit - 1;
        let last = ids[last_at];
        let items = ids.subrange(start, start + limit);
        assert(items.last() == last);
        law_cursor_roundtrip(last);
        let c = cursor_of(kind, last);
        assert(cursor_matches(c, kind, ids[last_at]));
        let j = choose|j: int|
            0 <= j < ids.len() && cursor_matches(c, kind, #[trigger] ids[j]) && forall|i: int|
                0 <= i < j ==> !cursor_matches(c, kind, #[trigger] ids[i]);
        assert(ids[j] == last);
        assert(j == last_at);
    }
}

} // verus!
