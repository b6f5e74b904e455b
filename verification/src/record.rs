use vstd::prelude::*;
use vstd::string::StringSliceAdditionalSpecFns;
use vstd::utf8::{decode_utf8, encode_utf8, valid_utf8};

use crate::edge::{Edge, EdgeView};
use crate::index::codec::{
    be64, field, lemma_take_field, lemma_take_u64, lemma_take_u8, take_field, take_u64, take_u8,
    KeyBuilder, KeyReader,
};
use crate::index::vector::keys::{
    deserialize_vector, law_vector_bytes_injective, lemma_vector_bytes_len, serialize_vector,
    vector_bytes,
};
use crate::node::{Node, NodeView};
use crate::props::{distinct_names, find_property, names_in_order, names_sorted, props_view, PropsView};
use crate::value::{
    int_from_order_key, int_order_key, lemma_int_order_key_roundtrip, string_from_utf8, Value,
    ValueView, SIGN_BIT,
};

verus! {

/// The stored form of a value: a kind byte, then its payload.
pub open spec fn value_record(v: ValueView) -> Seq<u8> {
    match v {
        ValueView::String(s) => seq![0u8] + field(encode_utf8(s)),
        ValueView::Int(n) => seq![1u8] + be64(int_order_key(n)),
        ValueView::Float(b) => seq![2u8] + be64(b),
        ValueView::Bool(b) => seq![3u8] + seq![if b { 1u8 } else { 0u8 }],
        ValueView::Bytes(b) => seq![4u8] + field(b),
        ValueView::Vector(x) => seq![5u8] + field(vector_bytes(x)),
    }
}

/// The payload of a value is short enough for its length to be stored.
pub open spec fn value_fits_record(v: ValueView) -> bool {
    match v {
        ValueView::String(s) => encode_utf8(s).len() <= u32::MAX,
        ValueView::Bytes(b) => b.len() <= u32::MAX,
        ValueView::Vector(x) => 4 * x.len() <= u32::MAX,
        _ => true,
    }
}

/// Every name and value of a property list fits a record.
pub open spec fn props_fit(ps: PropsView) -> bool {
    forall|i: int|
        0 <= i < ps.len() ==> encode_utf8((#[trigger] ps[i]).0).len() <= u32::MAX && value_fits_record(
            ps[i].1,
        )
}

/// The stored pairs of a property list, in order.
pub open spec fn props_entries(ps: PropsView) -> Seq<u8>
    decreases ps.len(),
{
    if ps.len() == 0 {
        Seq::empty()
    } else {
        props_entries(ps.drop_last()) + (field(encode_utf8(ps.last().0)) + value_record(ps.last().1))
    }
}

/// The stored form of a node: its id, its label, the number of its properties and the
/// properties.
pub open spec fn node_record(n: NodeView) -> Seq<u8> {
    be64(n.id) + field(encode_utf8(n.label)) + be64(n.properties.len() as u64) + props_entries(
        n.properties,
    )
}

/// The stored form of an edge: its id, its ends, its label and its properties.
pub open spec fn edge_record(e: EdgeView) -> Seq<u8> {
    be64(e.id) + be64(e.from) + be64(e.to) + field(encode_utf8(e.label)) + be64(
        e.properties.len() as u64,
    ) + props_entries(e.properties)
}

/// A node fits its record.
pub open spec fn node_fits(n: NodeView) -> bool {
    &&& encode_utf8(n.label).len() <= u32::MAX
    &&& props_fit(n.properties)
    &&& n.properties.len() <= u64::MAX
}

/// An edge fits its record.
pub open spec fn edge_fits(e: EdgeView) -> bool {
    &&& encode_utf8(e.label).len() <= u32::MAX
    &&& props_fit(e.properties)
    &&& e.properties.len() <= u64::MAX
}

/// Reads a stored string off the front of `s`.
pub open spec fn parse_string(s: Seq<u8>) -> Option<(Seq<char>, Seq<u8>)> {
    match take_field(s) {
        Some((f, t)) => if valid_utf8(f) {
            Some((decode_utf8(f), t))
        } else {
            None
        },
        None => None,
    }
}

/// Reads a stored value off the front of `s`.
pub open spec fn parse_value(s: Seq<u8>) -> Option<(ValueView, Seq<u8>)> {
    match take_u8(s) {
        None => None,
        Some((tag, rest)) => if tag == 0 {
            match parse_string(rest) {
                Some((c, t)) => Some((ValueView::String(c), t)),
                None => None,
            }
        } else if tag == 1 {
            match take_u64(rest) {
                Some((n, t)) => Some((ValueView::Int(int_from_order_key(n)), t)),
                None => None,
            }
        } else if tag == 2 {
            match take_u64(rest) {
                Some((n, t)) => Some((ValueView::Float(n), t)),
                None => None,
            }
        } else if tag == 3 {
            match take_u8(rest) {
                Some((b, t)) => if b == 0 {
                    Some((ValueView::Bool(false), t))
                } else if b == 1 {
                    Some((ValueView::Bool(true), t))
                } else {
                    None
                },
                None => None,
            }
        } else if tag == 4 {
            match take_field(rest) {
                Some((f, t)) => Some((ValueView::Bytes(f), t)),
                None => None,
            }
        } else if tag == 5 {
            match take_field(rest) {
                Some((f, t)) => if exists|x: Seq<u32>| vector_bytes(x) == f {
                    Some((ValueView::Vector(choose|x: Seq<u32>| vector_bytes(x) == f), t))
                } else {
                    None
                },
                None => None,
            }
        } else {
            None
        },
    }
}

/// Reads `n` stored properties off the front of `s`.
pub open spec fn parse_props(s: Seq<u8>, n: nat) -> Option<(PropsView, Seq<u8>)>
    decreases n,
{
    if n == 0 {
        Some((Seq::empty(), s))
    } else {
        match parse_props(s, (n - 1) as nat) {
            None => None,
            Some((ps, t)) => match parse_string(t) {
                None => None,
                Some((k, t2)) => match parse_value(t2) {
                    None => None,
                    Some((v, t3)) => Some((ps.push((k, v)), t3)),
                },
            },
        }
    }
}

/// The node a stored record stands for: `None` where the record is malformed, has bytes
/// left over, or does not name its properties each once in the order of `String`.
pub open spec fn parse_node(s: Seq<u8>) -> Option<NodeView> {
    match take_u64(s) {
        None => None,
        Some((id, t1)) => match parse_string(t1) {
            None => None,
            Some((label, t2)) => match take_u64(t2) {
                None => None,
                Some((count, t3)) => match parse_props(t3, count as nat) {
                    None => None,
                    Some((ps, t4)) => if t4.len() == 0 && distinct_names(ps) && names_sorted(ps) {
                        Some(NodeView { id, label, properties: ps })
                    } else {
                        None
                    },
                },
            },
        },
    }
}

/// The edge a stored record stands for, as `parse_node` reads nodes.
pub open spec fn parse_edge(s: Seq<u8>) -> Option<EdgeView> {
    match take_u64(s) {
        None => None,
        Some((id, t0)) => match take_u64(t0) {
            None => None,
            Some((from, t1)) => match take_u64(t1) {
                None => None,
                Some((to, t2)) => match parse_string(t2) {
                    None => None,
                    Some((label, t3)) => match take_u64(t3) {
                        None => None,
                        Some((count, t4)) => match parse_props(t4, count as nat) {
                            None => None,
                            Some((ps, t5)) => if t5.len() == 0 && distinct_names(ps) && names_sorted(ps) {
                                Some(EdgeView { id, from, to, label, properties: ps })
                            } else {
                                None
                            },
                        },
                    },
                },
            },
        },
    }
}

/// Reading back a stored string gives the string.
pub proof fn lemma_parse_string(c: Seq<char>, t: Seq<u8>)
    requires
        encode_utf8(c).len() <= u32::MAX,
    ensures
        parse_string(field(encode_utf8(c)) + t) == Some((c, t)),
{
    lemma_take_field(encode_utf8(c), t);
    vstd::utf8::encode_utf8_valid_utf8(c);
    vstd::utf8::encode_utf8_decode_utf8(c);
}

/// Reading back a stored value gives the value.
pub proof fn lemma_parse_value(v: ValueView, t: Seq<u8>)
    requires
        value_fits_record(v),
    ensures
        parse_value(value_record(v) + t) == Some((v, t)),
{
    match v {
        ValueView::String(c) => {
            assert(value_record(v) + t =~= seq![0u8] + (field(encode_utf8(c)) + t));
            lemma_take_u8(0u8, field(encode_utf8(c)) + t);
            lemma_parse_string(c, t);
        },
        ValueView::Int(n) => {
            assert(value_record(v) + t =~= seq![1u8] + (be64(int_order_key(n)) + t));
            lemma_take_u8(1u8, be64(int_order_key(n)) + t);
            lemma_take_u64(int_order_key(n), t);
            lemma_int_order_key_roundtrip(n);
        },
        ValueView::Float(b) => {
            assert(value_record(v) + t =~= seq![2u8] + (be64(b) + t));
            lemma_take_u8(2u8, be64(b) + t);
            lemma_take_u64(b, t);
        },
        ValueView::Bool(b) => {
            let x: u8 = if b { 1u8 } else { 0u8 };
            assert(value_record(v) + t =~= seq![3u8] + (seq![x] + t));
            lemma_take_u8(3u8, seq![x] + t);
            lemma_take_u8(x, t);
        },
        ValueView::Bytes(b) => {
            assert(value_record(v) + t =~= seq![4u8] + (field(b) + t));
            lemma_take_u8(4u8, field(b) + t);
            lemma_take_field(b, t);
        },
        ValueView::Vector(x) => {
            lemma_vector_bytes_len(x);
            let f = vector_bytes(x);
            assert(value_record(v) + t =~= seq![5u8] + (field(f) + t));
            lemma_take_u8(5u8, field(f) + t);
            lemma_take_field(f, t);
            assert(exists|y: Seq<u32>| vector_bytes(y) == f);
            let y = choose|y: Seq<u32>| vector_bytes(y) == f;
            law_vector_bytes_injective(x, y);
        },
    }
}

/// Reading back stored properties gives the properties.
pub proof fn lemma_parse_props(ps: PropsView, t: Seq<u8>)
    requires
        props_fit(ps),
    ensures
        parse_props(props_entries(ps) + t, ps.len()) == Some((ps, t)),
    decreases ps.len(),
{
    if ps.len() > 0 {
        let d = ps.drop_last();
        let (k, v) = ps.last();
        assert(props_fit(d)) by {
            assert forall|i: int| 0 <= i < d.len() implies encode_utf8((#[trigger] d[i]).0).len() <= u32::MAX
                && value_fits_record(d[i].1) by {
                assert(d[i] == ps[i]);
            }
        }
        assert(encode_utf8(ps[ps.len() - 1].0).len() <= u32::MAX && value_fits_record(ps[ps.len() - 1].1));
        let t1 = field(encode_utf8(k)) + (value_record(v) + t);
        assert(props_entries(ps) + t =~= props_entries(d) + t1);
        lemma_parse_props(d, t1);
        lemma_parse_string(k, value_record(v) + t);
        lemma_parse_value(v, t);
        assert(d.push((k, v)) =~= ps);
    }
}

/// Storing a node and reading the record back gives the node.
pub proof fn law_node_record_roundtrip(n: NodeView)
    requires
        node_fits(n),
        distinct_names(n.properties),
        names_sorted(n.properties),
    ensures
        parse_node(node_record(n)) == Some(n),
{
    let e = encode_utf8(n.label);
    let c = n.properties.len() as u64;
    let p = props_entries(n.properties);
    assert(node_record(n) =~= be64(n.id) + (field(e) + (be64(c) + (p + Seq::<u8>::empty()))));
    lemma_take_u64(n.id, field(e) + (be64(c) + (p + Seq::<u8>::empty())));
    lemma_parse_string(n.label, be64(c) + (p + Seq::<u8>::empty()));
    lemma_take_u64(c, p + Seq::<u8>::empty());
    lemma_parse_props(n.properties, Seq::<u8>::empty());
}

/// Storing an edge and reading the record back gives the edge.
pub proof fn law_edge_record_roundtrip(e: EdgeView)
    requires
        edge_fits(e),
        distinct_names(e.properties),
        names_sorted(e.properties),
    ensures
        parse_edge(edge_record(e)) == Some(e),
{
    let l = encode_utf8(e.label);
    let c = e.properties.len() as u64;
    let p = props_entries(e.properties);
    let t3 = be64(c) + (p + Seq::<u8>::empty());
    let t2 = field(l) + t3;
    let t1 = be64(e.to) + t2;
    let t0 = be64(e.from) + t1;
    assert(edge_record(e) =~= be64(e.id) + t0);
    lemma_take_u64(e.id, t0);
    lemma_take_u64(e.from, t1);
    lemma_take_u64(e.to, t2);
    lemma_parse_string(e.label, t3);
    lemma_take_u64(c, p + Seq::<u8>::empty());
    lemma_parse_props(e.properties, Seq::<u8>::empty());
}

/// Appends the stored form of a value.
pub fn write_value(b: KeyBuilder, v: &Value) -> (r: KeyBuilder)
    requires
        value_fits_record(v@),
    ensures
        r@ == b@ + value_record(v@),
{
    match v {
        Value::String(s) => {
            let r = b.u8(0).str(s.as_str());
            assert(r@ =~= b@ + value_record(v@));
            r
        },
        Value::Int(n) => {
            let r = b.u8(1).u64((*n as u64) ^ SIGN_BIT);
            assert(r@ =~= b@ + value_record(v@));
            r
        },
        Value::Float(x) => {
            let r = b.u8(2).u64(*x);
            assert(r@ =~= b@ + value_record(v@));
            r
        },
        Value::Bool(x) => {
            let r = b.u8(3).u8(if *x { 1 } else { 0 });
            assert(r@ =~= b@ + value_record(v@));
            r
        },
        Value::Bytes(x) => {
            let r = b.u8(4).bytes(x.as_slice());
            assert(r@ =~= b@ + value_record(v@));
            r
        },
        Value::Vector(x) => {
            proof {
                lemma_vector_bytes_len(x@);
            }
            let bytes = serialize_vector(x.as_slice());
            let r = b.u8(5).bytes(bytes.as_slice());
            assert(r@ =~= b@ + value_record(v@));
            r
        },
    }
}

/// Appends the stored form of a property list: its length, then its pairs.
fn write_props(b: KeyBuilder, p: &Vec<(String, Value)>) -> (r: KeyBuilder)
    requires
        props_fit(props_view(p@)),
    ensures
        r@ == b@ + be64(p@.len() as u64) + props_entries(props_view(p@)),
{
    let mut out = b.u64(p.len() as u64);
    let ghost start = out@;
    let mut i: usize = 0;
    while i < p.len()
        invariant
            i <= p@.len(),
            props_fit(props_view(p@)),
            out@ == start + props_entries(props_view(p@).subrange(0, i as int)),
        decreases p@.len() - i,
    {
        let ghost ps = props_view(p@);
        assert(ps[i as int] == (p@[i as int].0@, p@[i as int].1@));
        assert(encode_utf8(ps[i as int].0).len() <= u32::MAX && value_fits_record(ps[i as int].1));
        out = out.str(p[i].0.as_str());
        out = write_value(out, &p[i].1);
        proof {
            let s = ps.subrange(0, i + 1);
            assert(s.drop_last() =~= ps.subrange(0, i as int));
            assert(s.last() == ps[i as int]);
            assert(out@ =~= start + props_entries(s));
        }
        i = i + 1;
    }
    assert(props_view(p@).subrange(0, i as int) =~= props_view(p@));
    out
}

impl Node {
    /// The stored record of this node.
    pub fn to_record(&self) -> (r: Vec<u8>)
        requires
            node_fits(self@),
        ensures
            r@ == node_record(self@),
    {
        let b = KeyBuilder::new().u64(self.id).str(self.label.as_str());
        let b = write_props(b, &self.properties);
        let r = b.finish();
        assert(r@ =~= node_record(self@));
        r
    }

    /// The node a stored record stands for; `None` where it is malformed.
    pub fn from_record(bytes: &[u8]) -> (r: Option<Node>)
        ensures
            match (r, parse_node(bytes@)) {
                (Some(n), Some(m)) => n@ == m,
                (None, None) => true,
                _ => false,
            },
    {
        let mut rd = KeyReader::new(bytes);
        assert(rd.rest() =~= bytes@);
        let id = rd.u64()?;
        let label = read_string(&mut rd)?;
        let count = rd.u64()?;
        let properties = read_props(&mut rd, count)?;
        if rd.finish().is_none() || !names_in_order(&properties) {
            return None;
        }
        Some(Node { id, label, properties })
    }
}

impl Edge {
    /// The stored record of this edge.
    pub fn to_record(&self) -> (r: Vec<u8>)
        requires
            edge_fits(self@),
        ensures
            r@ == edge_record(self@),
    {
        let b = KeyBuilder::new().u64(self.id).u64(self.from).u64(self.to).str(self.label.as_str());
        let b = write_props(b, &self.properties);
        let r = b.finish();
        assert(r@ =~= edge_record(self@));
        r
    }

    /// The edge a stored record stands for; `None` where it is malformed.
    pub fn from_record(bytes: &[u8]) -> (r: Option<Edge>)
        ensures
            match (r, parse_edge(bytes@)) {
                (Some(e), Some(m)) => e@ == m,
                (None, None) => true,
                _ => false,
            },
    {
        let mut rd = KeyReader::new(bytes);
        assert(rd.rest() =~= bytes@);
        let id = rd.u64()?;
        let from = rd.u64()?;
        let to = rd.u64()?;
        let label = read_string(&mut rd)?;
        let count = rd.u64()?;
        let properties = read_props(&mut rd, count)?;
        if rd.finish().is_none() || !names_in_order(&properties) {
            return None;
        }
        Some(Edge { id, from, to, label, properties })
    }
}

/// Reads a stored string.
fn read_string(rd: &mut KeyReader) -> (r: Option<String>)
    requires
        old(rd).wf(),
    ensures
        final(rd).wf(),
        final(rd).input() == old(rd).input(),
        match parse_string(old(rd).rest()) {
            Some((c, t)) => r matches Some(s) && s@ == c && final(rd).rest() == t,
            None => r is None,
        },
{
    let f = rd.str()?;
    string_from_utf8(vstd::slice::slice_to_vec(f))
}

/// Reads a stored value.
fn read_value(rd: &mut KeyReader) -> (r: Option<Value>)
    requires
        old(rd).wf(),
    ensures
        final(rd).wf(),
        final(rd).input() == old(rd).input(),
        match parse_value(old(rd).rest()) {
            Some((v, t)) => r matches Some(x) && x@ == v && final(rd).rest() == t,
            None => r is None,
        },
{
    let tag = rd.u8()?;
    if tag == 0 {
        let s = read_string(rd)?;
        Some(Value::String(s))
    } else if tag == 1 {
        let n = rd.u64()?;
        Some(Value::Int((n ^ SIGN_BIT) as i64))
    } else if tag == 2 {
        let n = rd.u64()?;
        Some(Value::Float(n))
    } else if tag == 3 {
        let b = rd.u8()?;
        if b == 0 {
            Some(Value::Bool(false))
        } else if b == 1 {
            Some(Value::Bool(true))
        } else {
            None
        }
    } else if tag == 4 {
        let f = rd.bytes()?;
        Some(Value::Bytes(vstd::slice::slice_to_vec(f)))
    } else if tag == 5 {
        let f = rd.bytes()?;
        if f.len() % 4 != 0 {
            proof {
                if exists|x: Seq<u32>| vector_bytes(x) == f@ {
                    let x = choose|x: Seq<u32>| vector_bytes(x) == f@;
                    lemma_vector_bytes_len(x);
                }
            }
            return None;
        }
        match deserialize_vector(f) {
            Ok(x) => {
                proof {
                    let y = choose|y: Seq<u32>| vector_bytes(y) == f@;
                    law_vector_bytes_injective(x@, y);
                }
                Some(Value::Vector(x))
            },
            Err(_) => None,
        }
    } else {
        None
    }
}

/// Reads `count` stored properties; `None` where one is malformed or a name comes twice.
fn read_props(rd: &mut KeyReader, count: u64) -> (r: Option<Vec<(String, Value)>>)
    requires
        old(rd).wf(),
    ensures
        final(rd).wf(),
        final(rd).input() == old(rd).input(),
        match parse_props(old(rd).rest(), count as nat) {
            Some((ps, t)) => if distinct_names(ps) {
                r matches Some(p) && props_view(p@) == ps && final(rd).rest() == t
            } else {
                r is None
            },
            None => r is None,
        },
{
    let ghost start = rd.rest();
    let mut out: Vec<(String, Value)> = Vec::new();
    let mut i: u64 = 0;
    while i < count
        invariant
            i <= count,
            rd.wf(),
            rd.input() == old(rd).input(),
            start == old(rd).rest(),
            distinct_names(props_view(out@)),
            parse_props(start, i as nat) == Some((props_view(out@), rd.rest())),
        decreases count - i,
    {
        let ghost pre = rd.rest();
        let ghost pre_out = props_view(out@);
        let k = match read_string(rd) {
            Some(k) => k,
            None => {
                proof {
                    lemma_parse_props_none(start, i as nat, count as nat);
                }
                return None;
            },
        };
        let v = match read_value(rd) {
            Some(v) => v,
            None => {
                proof {
                    lemma_parse_props_none(start, i as nat, count as nat);
                }
                return None;
            },
        };
        if let Some(j) = find_property(&out, k.as_str()) {
            proof {
                assert(props_view(out@)[j as int].0 == k@);
                assert(parse_props(start, i as nat).unwrap().0 == pre_out);
                assert(parse_props(start, i as nat).unwrap().0[j as int].0 == k@);
                lemma_parse_props_dup(start, i as nat, count as nat, k@);
            }
            return None;
        }
        let ghost kv = (k@, v@);
        out.push((k, v));
        proof {
            assert(props_view(out@) =~= pre_out.push(kv));
            assert forall|a: int, b: int| 0 <= a < b < props_view(out@).len() implies props_view(out@)[a].0
                != props_view(out@)[b].0 by {
                if b == pre_out.len() {
                    assert(out@[a].0@ != kv.0);
                }
            }
        }
        i = i + 1;
    }
    Some(out)
}

/// Where reading the first `i` properties succeeds and the next one fails, reading `n`
/// of them fails, for every `n` past `i`.
proof fn lemma_parse_props_none(s: Seq<u8>, i: nat, n: nat)
    requires
        i < n,
        parse_props(s, i) matches Some((ps, t)) && (parse_string(t) is None || (parse_string(t) matches Some((k, t2)) && parse_value(t2) is None)),
    ensures
        parse_props(s, n) is None,
    decreases n,
{
    if n > i + 1 {
        lemma_parse_props_none(s, i, (n - 1) as nat);
    }
}

/// Where the first `i + 1` properties read name `k` twice, so does every longer read
/// that succeeds.
proof fn lemma_parse_props_dup(s: Seq<u8>, i: nat, n: nat, k: Seq<char>)
    requires
        i < n,
        parse_props(s, i) is Some,
        exists|j: int|
            0 <= j < parse_props(s, i).unwrap().0.len() && (#[trigger] parse_props(s, i).unwrap().0[j]).0
                == k,
        parse_string(parse_props(s, i).unwrap().1) is Some,
        parse_string(parse_props(s, i).unwrap().1).unwrap().0 == k,
        parse_value(parse_string(parse_props(s, i).unwrap().1).unwrap().1) is Some,
    ensures
        parse_props(s, n) matches Some((qs, _)) ==> !distinct_names(qs),
    decreases n,
{
    let (ps, t) = parse_props(s, i).unwrap();
    let j = choose|j: int| 0 <= j < ps.len() && (#[trigger] ps[j]).0 == k;
    if n == i + 1 {
        let qs = parse_props(s, n).unwrap().0;
        assert(qs[j] == ps[j]);
        assert(qs[ps.len() as int].0 == k);
    } else {
        lemma_parse_props_dup(s, i, (n - 1) as nat, k);
        lemma_parse_props_prefix(s, i + 1, (n - 1) as nat);
        if parse_props(s, n) is Some {
            let qs = parse_props(s, n).unwrap().0;
            let rs = parse_props(s, (n - 1) as nat).unwrap().0;
            assert(qs.drop_last() == rs);
            assert(!distinct_names(rs));
            let (a, b) = choose|a: int, b: int| 0 <= a < b < rs.len() && rs[a].0 == rs[b].0;
            assert(qs[a] == rs[a] && qs[b] == rs[b]);
        }
    }
}

/// A longer successful read keeps what a shorter one read (helper for the above).
proof fn lemma_parse_props_prefix(s: Seq<u8>, i: nat, n: nat)
    requires
        i <= n,
    ensures
        parse_props(s, n) is Some ==> parse_props(s, i) is Some,
    decreases n,
{
    if n > i {
        lemma_parse_props_prefix(s, i, (n - 1) as nat);
    }
}

} // verus!
