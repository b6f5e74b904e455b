use vstd::prelude::*;
use vstd::string::StringSliceAdditionalSpecFns;
use vstd::utf8::encode_utf8;

use crate::error::HelixiteError;
use crate::id::NodeId;
use crate::index::edges::wrote;
use crate::index::labels::{fits, label_key, LabelIndex};
use crate::index::properties::{
    build_property_key, property_key_of, value_fits, PropertyIndexRegistry,
};
use crate::index::vector::hnsw::{deleted_from_index, vector_levels_wf};
use crate::index::vector::{meta_of, VectorIndex, VectorInsert, VectorInsertView, inserts_view};
use crate::node::Node;
use crate::props::{distinct_names, get_property, props_map, props_view, PropsView};
use crate::index::codec::field;
use crate::storage::bulk::{del_keys, put_keys};
use crate::storage::engine::{Db, StoreView, WriteTxn, ReadTxn};
use crate::value::{value_eq, values_equal, Value, ValueView};

verus! {

/// Every name and value of a property list can stand in an index key.
pub open spec fn props_key_fit(ps: PropsView) -> bool {
    forall|i: int|
        0 <= i < ps.len() ==> encode_utf8((#[trigger] ps[i]).0).len() <= u32::MAX && value_fits(ps[i].1)
}

/// A pair takes part in an index step: always where there is nothing to compare with,
/// otherwise where the other map does not hold an equal value under its name.
pub open spec fn keeps(other: Option<Map<Seq<char>, ValueView>>, k: Seq<char>, v: ValueView) -> bool {
    match other {
        None => true,
        Some(o) => !(o.contains_key(k) && value_eq(o[k], v)),
    }
}

/// The property index keys of the pairs of `ps` that take part, in order: those whose
/// (label, name) is registered and whose value is indexable.
pub open spec fn prop_keys(
    tag: u8,
    reg: Set<(Seq<char>, Seq<char>)>,
    label: Seq<char>,
    id: u64,
    ps: PropsView,
    other: Option<Map<Seq<char>, ValueView>>,
) -> Seq<Seq<u8>>
    decreases ps.len(),
{
    if ps.len() == 0 {
        Seq::empty()
    } else {
        let rest = prop_keys(tag, reg, label, id, ps.drop_last(), other);
        let (k, v) = ps.last();
        if reg.contains((label, k)) && keeps(other, k, v) {
            match property_key_of(tag, encode_utf8(label), encode_utf8(k), v, id) {
                Some(key) => rest.push(key),
                None => rest,
            }
        } else {
            rest
        }
    }
}

/// The map of an optional property list.
pub open spec fn other_map(o: Option<&Vec<(String, Value)>>) -> Option<Map<Seq<char>, ValueView>> {
    match o {
        Some(p) => Some(props_map(props_view(p@))),
        None => None,
    }
}

/// Stores (where `put`) or removes the property index keys of the pairs of `props` that
/// take part, as `prop_keys` lists them.
pub fn write_property_keys<T: WriteTxn>(
    txn: &mut T,
    tag: u8,
    reg: &PropertyIndexRegistry,
    label: &str,
    id: u64,
    props: &Vec<(String, Value)>,
    other: Option<&Vec<(String, Value)>>,
    put: bool,
) -> (r: Result<(), HelixiteError>)
    requires
        fits(label),
        props_key_fit(props_view(props@)),
        other matches Some(o) ==> distinct_names(props_view(o@)),
    ensures
        wrote(
            *old(txn),
            *final(txn),
            r,
            if put {
                put_keys(
                    old(txn).contents(),
                    Db::Properties,
                    prop_keys(tag, reg.pairs(), label@, id, props_view(props@), other_map(other)),
                )
            } else {
                del_keys(
                    old(txn).contents(),
                    Db::Properties,
                    prop_keys(tag, reg.pairs(), label@, id, props_view(props@), other_map(other)),
                )
            },
        ),
{
    let ghost m = txn.contents();
    let ghost ps = props_view(props@);
    let ghost om = other_map(other);
    let mut i: usize = 0;
    while i < props.len()
        invariant
            i <= props@.len(),
            fits(label),
            ps == props_view(props@),
            props_key_fit(ps),
            om == other_map(other),
            other matches Some(o) ==> distinct_names(props_view(o@)),
            txn.infallible() == old(txn).infallible(),
            m == old(txn).contents(),
            txn.contents() == if put {
                put_keys(m, Db::Properties, prop_keys(tag, reg.pairs(), label@, id, ps.subrange(0, i as int), om))
            } else {
                del_keys(m, Db::Properties, prop_keys(tag, reg.pairs(), label@, id, ps.subrange(0, i as int), om))
            },
        decreases props@.len() - i,
    {
        let name = &props[i].0;
        let value = &props[i].1;
        let ghost sub = ps.subrange(0, i + 1);
        proof {
            assert(sub.drop_last() =~= ps.subrange(0, i as int));
            assert(sub.last() == ps[i as int]);
            assert(ps[i as int] == (name@, value@));
            assert(encode_utf8(ps[i as int].0).len() <= u32::MAX && value_fits(ps[i as int].1));
        }
        let registered = reg.contains(label, name.as_str());
        let kept = match other {
            None => true,
            Some(o) => match get_property(o, name.as_str()) {
                Some(ov) => !values_equal(ov, value),
                None => true,
            },
        };
        proof {
            assert(kept == keeps(om, name@, value@));
            assert(registered == reg.pairs().contains((label@, name@)));
        }
        let ghost pre = txn.contents();
        if registered && kept {
            let k = build_property_key(tag, label, name.as_str(), value, id);
            proof {
                assert(crate::index::codec::opt_view(k) == property_key_of(tag, encode_utf8(label@), encode_utf8(name@), value@, id));
            }
            if let Some(key) = k {
                if put {
                    let empty: Vec<u8> = Vec::new();
                    txn.put(Db::Properties, key.as_slice(), empty.as_slice())?;
                } else {
                    txn.delete(Db::Properties, key.as_slice())?;
                }
                proof {
                    let ks = prop_keys(tag, reg.pairs(), label@, id, ps.subrange(0, i as int), om);
                    assert(prop_keys(tag, reg.pairs(), label@, id, sub, om) == ks.push(key@));
                    assert(ks.push(key@).drop_last() =~= ks);
                    assert(ks.push(key@).last() == key@);
                }
            } else {
                assert(prop_keys(tag, reg.pairs(), label@, id, sub, om) == prop_keys(tag, reg.pairs(), label@, id, ps.subrange(0, i as int), om));
            }
        } else {
            assert(prop_keys(tag, reg.pairs(), label@, id, sub, om) == prop_keys(tag, reg.pairs(), label@, id, ps.subrange(0, i as int), om));
        }
        i = i + 1;
    }
    proof {
        assert(ps.subrange(0, i as int) =~= ps);
    }
    Ok(())
}

/// One property's part in removing a node's vectors: where it holds a vector that takes
/// part and its index has well-formed metadata, the node is removed from that index (or,
/// on a transaction that can fail, the metadata could not be read and nothing changes).
pub open spec fn vector_step(
    mid: StoreView,
    f: StoreView,
    inf: bool,
    label: Seq<char>,
    k: Seq<char>,
    v: ValueView,
    id: u64,
    other: Option<Map<Seq<char>, ValueView>>,
) -> bool {
    if v is Vector && keeps(other, k, v) {
        match meta_of(mid, label, k) {
            Some(meta) => deleted_from_index(mid, f, encode_utf8(label), encode_utf8(k), id, meta) || (
            !inf && f == mid),
            None => f == mid,
        }
    } else {
        f == mid
    }
}

/// `states` walk through removing the node `id` from the vector indexes of the
/// properties of `ps`, one state per step.
pub open spec fn removal_chain(
    states: Seq<StoreView>,
    inf: bool,
    label: Seq<char>,
    id: u64,
    ps: PropsView,
    other: Option<Map<Seq<char>, ValueView>>,
) -> bool {
    &&& states.len() == ps.len() + 1
    &&& forall|i: int|
        #![trigger ps[i]]
        0 <= i < ps.len() ==> vector_step(states[i], states[i + 1], inf, label, ps[i].0, ps[i].1, id, other)
}

/// `f` is what removing the node `id` from the vector indexes of the properties of `ps`,
/// one after another, leaves of `m`.
pub open spec fn vectors_removed(
    m: StoreView,
    f: StoreView,
    inf: bool,
    label: Seq<char>,
    id: u64,
    ps: PropsView,
    other: Option<Map<Seq<char>, ValueView>>,
) -> bool {
    exists|states: Seq<StoreView>|
        #[trigger] removal_chain(states, inf, label, id, ps, other) && states[0] == m && states[ps.len() as int] == f
}

/// Removes the node `id` from the vector indexes of the properties of `props` that hold
/// vectors and take part.
pub fn delete_vectors<T: WriteTxn>(
    txn: &mut T,
    label: &str,
    id: NodeId,
    props: &Vec<(String, Value)>,
    other: Option<&Vec<(String, Value)>>,
) -> (r: Result<(), HelixiteError>)
    requires
        fits(label),
        props_key_fit(props_view(props@)),
        other matches Some(o) ==> distinct_names(props_view(o@)),
        vector_levels_wf(old(txn).contents()),
    ensures
        final(txn).infallible() == old(txn).infallible(),
        old(txn).infallible() ==> r is Ok,
        r is Ok ==> vector_levels_wf(final(txn).contents()),
        r is Ok ==> vectors_removed(
            old(txn).contents(),
            final(txn).contents(),
            old(txn).infallible(),
            label@,
            id,
            props_view(props@),
            other_map(other),
        ),
{
    let ghost m = txn.contents();
    let ghost inf = txn.infallible();
    let ghost ps = props_view(props@);
    let ghost om = other_map(other);
    let ghost mut states: Seq<StoreView> = seq![m];
    let mut i: usize = 0;
    while i < props.len()
        invariant
            i <= props@.len(),
            fits(label),
            ps == props_view(props@),
            props_key_fit(ps),
            om == other_map(other),
            other matches Some(o) ==> distinct_names(props_view(o@)),
            txn.infallible() == inf,
            inf == old(txn).infallible(),
            m == old(txn).contents(),
            vector_levels_wf(txn.contents()),
            removal_chain(states, inf, label@, id, ps.subrange(0, i as int), om),
            states[0] == m,
            states[i as int] == txn.contents(),
        decreases props@.len() - i,
    {
        let name = &props[i].0;
        let value = &props[i].1;
        let ghost pre = txn.contents();
        let ghost sub = ps.subrange(0, i + 1);
        proof {
            assert(sub.drop_last() =~= ps.subrange(0, i as int));
            assert(sub.last() == ps[i as int]);
            assert(ps[i as int] == (name@, value@));
            assert(encode_utf8(ps[i as int].0).len() <= u32::MAX);
        }
        let kept = match other {
            None => true,
            Some(o) => match get_property(o, name.as_str()) {
                Some(ov) => !values_equal(ov, value),
                None => true,
            },
        };
        assert(kept == keeps(om, name@, value@));
        if let Value::Vector(_) = value {
            if kept {
                if let Ok(meta) = VectorIndex::load_meta(txn, label, name.as_str()) {
                    VectorIndex::delete(txn, label, name.as_str(), id, &meta)?;
                }
            }
        }
        proof {
            assert(vector_step(pre, txn.contents(), inf, label@, name@, value@, id, om));
            let old_states = states;
            states = states.push(txn.contents());
            assert forall|j: int|
                #![trigger sub[j]]
                0 <= j < sub.len() implies vector_step(states[j], states[j + 1], inf, label@, sub[j].0, sub[j].1, id, om) by {
                if j < i {
                    assert(sub[j] == ps.subrange(0, i as int)[j]);
                    assert(states[j] == old_states[j] && states[j + 1] == old_states[j + 1]);
                }
            }
        }
        i = i + 1;
    }
    proof {
        assert(ps.subrange(0, i as int) =~= ps);
        assert(removal_chain(states, inf, label@, id, ps, om) && states[0] == m && states[ps.len() as int] == txn.contents());
    }
    Ok(())
}

/// The inserts of the vectors of `ps` whose index under `label` has well-formed metadata
/// in `m`, in order.
pub open spec fn pending(m: StoreView, label: Seq<char>, id: u64, ps: PropsView) -> Seq<VectorInsertView>
    decreases ps.len(),
{
    if ps.len() == 0 {
        Seq::empty()
    } else {
        let rest = pending(m, label, id, ps.drop_last());
        let (k, v) = ps.last();
        match v {
            ValueView::Vector(x) => if meta_of(m, label, k) is Some {
                rest.push(VectorInsertView { label, property: k, node_id: id, vector: x })
            } else {
                rest
            },
            _ => rest,
        }
    }
}

/// The inserts that place the vectors of `props` into their indexes under `label`.
pub fn queue_vectors<T: ReadTxn>(txn: &T, label: &str, id: NodeId, props: &Vec<(String, Value)>) -> (r: Vec<VectorInsert>)
    requires
        fits(label),
        props_key_fit(props_view(props@)),
    ensures
        txn.infallible() ==> inserts_view(r@) == pending(txn.contents(), label@, id, props_view(props@)),
        forall|i: int|
            0 <= i < r@.len() ==> (#[trigger] r@[i])@.label == label@ && r@[i].node_id == id,
{
    let ghost ps = props_view(props@);
    let mut out: Vec<VectorInsert> = Vec::new();
    let mut i: usize = 0;
    while i < props.len()
        invariant
            i <= props@.len(),
            fits(label),
            ps == props_view(props@),
            props_key_fit(ps),
            txn.infallible() ==> inserts_view(out@) == pending(txn.contents(), label@, id, ps.subrange(0, i as int)),
            forall|j: int| 0 <= j < out@.len() ==> (#[trigger] out@[j])@.label == label@ && out@[j].node_id == id,
        decreases props@.len() - i,
    {
        let name = &props[i].0;
        let value = &props[i].1;
        let ghost pre = out@;
        let ghost sub = ps.subrange(0, i + 1);
        proof {
            assert(sub.drop_last() =~= ps.subrange(0, i as int));
            assert(sub.last() == ps[i as int]);
            assert(ps[i as int] == (name@, value@));
            assert(encode_utf8(ps[i as int].0).len() <= u32::MAX);
        }
        if let Value::Vector(vector) = value {
            if let Ok(_) = VectorIndex::load_meta(txn, label, name.as_str()) {
                let ins = VectorInsert {
                    label: label.to_owned(),
                    property: crate::value::copy_string(name),
                    node_id: id,
                    vector: vstd::slice::slice_to_vec(vector.as_slice()),
                };
                let ghost iv = ins@;
                out.push(ins);
                proof {
                    assert(inserts_view(out@) =~= inserts_view(pre).push(iv));
                }
            }
        }
        proof {
            assert forall|j: int| 0 <= j < out@.len() implies (#[trigger] out@[j])@.label == label@ && out@[j].node_id == id by {
                if j < pre.len() {
                    assert(out@[j] == pre[j]);
                }
            }
        }
        i = i + 1;
    }
    proof {
        assert(ps.subrange(0, i as int) =~= ps);
    }
    out
}

/// The vectors of `ps` fit the dimensions of their indexes under `label` in `m`.
pub open spec fn dims_ok(m: StoreView, label: Seq<char>, ps: PropsView) -> bool {
    forall|i: int|
        0 <= i < ps.len() ==> match (#[trigger] ps[i]).1 {
            ValueView::Vector(x) => match meta_of(m, label, ps[i].0) {
                Some(meta) => x.len() == meta.dimension,
                None => true,
            },
            _ => true,
        }
}

/// One property's part in moving a node's vectors to new values: where it holds a vector
/// that takes part and its index has well-formed metadata, the node is removed from the
/// index, the metadata still reads, and an insert of the new vector is queued.
pub open spec fn reindex_step(
    mid: StoreView,
    f: StoreView,
    q0: Seq<VectorInsertView>,
    q: Seq<VectorInsertView>,
    inf: bool,
    label: Seq<char>,
    k: Seq<char>,
    v: ValueView,
    id: u64,
    other: Option<Map<Seq<char>, ValueView>>,
) -> bool {
    match v {
        ValueView::Vector(x) => if keeps(other, k, v) {
            match meta_of(mid, label, k) {
                Some(meta) => (deleted_from_index(mid, f, encode_utf8(label), encode_utf8(k), id, meta)
                    && meta_of(f, label, k) is Some && q == q0.push(
                    VectorInsertView { label, property: k, node_id: id, vector: x },
                )) || (!inf && f == mid && q == q0),
                None => f == mid && q == q0,
            }
        } else {
            f == mid && q == q0
        },
        _ => f == mid && q == q0,
    }
}

/// `states` and `queues` walk through moving the vectors of `ps` one property at a time.
pub open spec fn reindex_chain(
    states: Seq<StoreView>,
    queues: Seq<Seq<VectorInsertView>>,
    inf: bool,
    label: Seq<char>,
    id: u64,
    ps: PropsView,
    other: Option<Map<Seq<char>, ValueView>>,
) -> bool {
    &&& states.len() == ps.len() + 1
    &&& queues.len() == ps.len() + 1
    &&& queues[0] == Seq::<VectorInsertView>::empty()
    &&& forall|i: int|
        #![trigger ps[i]]
        0 <= i < ps.len() ==> reindex_step(
            states[i],
            states[i + 1],
            queues[i],
            queues[i + 1],
            inf,
            label,
            ps[i].0,
            ps[i].1,
            id,
            other,
        )
}

/// `f` and the queued inserts `q` are what moving the vectors of `ps` leaves of `m`.
pub open spec fn vectors_reindexed(
    m: StoreView,
    f: StoreView,
    q: Seq<VectorInsertView>,
    inf: bool,
    label: Seq<char>,
    id: u64,
    ps: PropsView,
    other: Option<Map<Seq<char>, ValueView>>,
) -> bool {
    exists|states: Seq<StoreView>, queues: Seq<Seq<VectorInsertView>>|
        #[trigger] reindex_chain(states, queues, inf, label, id, ps, other) && states[0] == m
            && states[ps.len() as int] == f && queues[ps.len() as int] == q
}

/// Moves the node's vectors among `props` that take part to their new values: removes
/// the node from each index and queues the insert of the new vector.
pub fn reindex_vectors<T: WriteTxn>(
    txn: &mut T,
    label: &str,
    id: NodeId,
    props: &Vec<(String, Value)>,
    other: Option<&Vec<(String, Value)>>,
) -> (r: Result<Vec<VectorInsert>, HelixiteError>)
    requires
        fits(label),
        props_key_fit(props_view(props@)),
        other matches Some(o) ==> distinct_names(props_view(o@)),
        vector_levels_wf(old(txn).contents()),
    ensures
        final(txn).infallible() == old(txn).infallible(),
        old(txn).infallible() ==> r is Ok,
        r is Ok ==> vector_levels_wf(final(txn).contents()),
        r matches Ok(ins) ==> vectors_reindexed(
            old(txn).contents(),
            final(txn).contents(),
            inserts_view(ins@),
            old(txn).infallible(),
            label@,
            id,
            props_view(props@),
            other_map(other),
        ),
{
    let ghost m = txn.contents();
    let ghost inf = txn.infallible();
    let ghost ps = props_view(props@);
    let ghost om = other_map(other);
    let ghost mut states: Seq<StoreView> = seq![m];
    let ghost mut queues: Seq<Seq<VectorInsertView>> = seq![Seq::<VectorInsertView>::empty()];
    let mut out: Vec<VectorInsert> = Vec::new();
    let mut i: usize = 0;
    while i < props.len()
        invariant
            i <= props@.len(),
            fits(label),
            ps == props_view(props@),
            props_key_fit(ps),
            om == other_map(other),
            other matches Some(o) ==> distinct_names(props_view(o@)),
            txn.infallible() == inf,
            inf == old(txn).infallible(),
            m == old(txn).contents(),
            vector_levels_wf(txn.contents()),
            reindex_chain(states, queues, inf, label@, id, ps.subrange(0, i as int), om),
            states[0] == m,
            states[i as int] == txn.contents(),
            queues[i as int] == inserts_view(out@),
        decreases props@.len() - i,
    {
        let name = &props[i].0;
        let value = &props[i].1;
        let ghost pre = txn.contents();
        let ghost pre_out = inserts_view(out@);
        let ghost sub = ps.subrange(0, i + 1);
        proof {
            assert(sub.drop_last() =~= ps.subrange(0, i as int));
            assert(sub.last() == ps[i as int]);
            assert(ps[i as int] == (name@, value@));
            assert(encode_utf8(ps[i as int].0).len() <= u32::MAX);
        }
        let kept = match other {
            None => true,
            Some(o) => match get_property(o, name.as_str()) {
                Some(ov) => !values_equal(ov, value),
                None => true,
            },
        };
        assert(kept == keeps(om, name@, value@));
        if let Value::Vector(vector) = value {
            if kept {
                if let Ok(meta) = VectorIndex::load_meta(txn, label, name.as_str()) {
                    VectorIndex::delete(txn, label, name.as_str(), id, &meta)?;
                    let _ = VectorIndex::load_meta(txn, label, name.as_str())?;
                    let ins = VectorInsert {
                        label: label.to_owned(),
                        property: crate::value::copy_string(name),
                        node_id: id,
                        vector: vstd::slice::slice_to_vec(vector.as_slice()),
                    };
                    let ghost iv = ins@;
                    out.push(ins);
                    proof {
                        assert(inserts_view(out@) =~= pre_out.push(iv));
                    }
                }
            }
        }
        proof {
            assert(reindex_step(pre, txn.contents(), pre_out, inserts_view(out@), inf, label@, name@, value@, id, om));
            let old_states = states;
            let old_queues = queues;
            states = states.push(txn.contents());
            queues = queues.push(inserts_view(out@));
            assert forall|j: int|
                #![trigger sub[j]]
                0 <= j < sub.len() implies reindex_step(states[j], states[j + 1], queues[j], queues[j + 1], inf, label@, sub[j].0, sub[j].1, id, om) by {
                if j < i {
                    assert(sub[j] == ps.subrange(0, i as int)[j]);
                    assert(states[j] == old_states[j] && states[j + 1] == old_states[j + 1]);
                    assert(queues[j] == old_queues[j] && queues[j + 1] == old_queues[j + 1]);
                }
            }
        }
        i = i + 1;
    }
    proof {
        assert(ps.subrange(0, i as int) =~= ps);
        assert(reindex_chain(states, queues, inf, label@, id, ps, om) && states[0] == m
            && states[ps.len() as int] == txn.contents() && queues[ps.len() as int] == inserts_view(out@));
    }
    Ok(out)
}

/// The property holds a vector whose length is not the dimension of its index under
/// `label`, and `e` reports that.
pub open spec fn dim_mismatch(m: StoreView, label: Seq<char>, p: (Seq<char>, ValueView), e: HelixiteError) -> bool {
    match p.1 {
        ValueView::Vector(x) => match meta_of(m, label, p.0) {
            Some(meta) => x.len() != meta.dimension && e == (HelixiteError::InvalidVectorDim {
                expected: meta.dimension,
                actual: x.len() as usize,
            }),
            None => false,
        },
        _ => false,
    }
}

/// The index entries of nodes: the label index, property indexes and vector indexes.
pub struct NodeIndexes;

impl NodeIndexes {
    /// Checks each vector of `props` against the dimension of its index under `label`,
    /// where that index has metadata that reads.
    pub fn validate_from_txn<T: ReadTxn>(txn: &T, label: &str, props: &Vec<(String, Value)>) -> (r: Result<(), HelixiteError>)
        requires
            fits(label),
            props_key_fit(props_view(props@)),
        ensures
            txn.infallible() ==> (r is Ok <==> dims_ok(txn.contents(), label@, props_view(props@))),
            r matches Err(e) ==> exists|i: int|
                0 <= i < props@.len() && dim_mismatch(txn.contents(), label@, #[trigger] props_view(props@)[i], e),
    {
        let ghost ps = props_view(props@);
        let mut i: usize = 0;
        while i < props.len()
            invariant
                i <= props@.len(),
                fits(label),
                ps == props_view(props@),
                props_key_fit(ps),
                txn.infallible() ==> dims_ok(txn.contents(), label@, ps.subrange(0, i as int)),
            decreases props@.len() - i,
        {
            let name = &props[i].0;
            let value = &props[i].1;
            proof {
                assert(ps[i as int] == (name@, value@));
                assert(encode_utf8(ps[i as int].0).len() <= u32::MAX);
            }
            if let Value::Vector(vector) = value {
                if let Ok(meta) = VectorIndex::load_meta(txn, label, name.as_str()) {
                    if vector.len() != meta.dimension {
                        let e = HelixiteError::InvalidVectorDim { expected: meta.dimension, actual: vector.len() };
                        proof {
                            if txn.infallible() {
                                assert(!dims_ok(txn.contents(), label@, ps)) by {
                                    assert(ps[i as int] == (name@, value@));
                                }
                            }
                            assert(dim_mismatch(txn.contents(), label@, ps[i as int], e));
                        }
                        return Err(e);
                    }
                }
            }
            proof {
                if txn.infallible() {
                    assert forall|j: int| 0 <= j < i + 1 implies match (#[trigger] ps.subrange(0, i + 1)[j]).1 {
                        ValueView::Vector(x) => match meta_of(txn.contents(), label@, ps.subrange(0, i + 1)[j].0) {
                            Some(meta) => x.len() == meta.dimension,
                            None => true,
                        },
                        _ => true,
                    } by {
                        if j < i {
                            assert(ps.subrange(0, i + 1)[j] == ps.subrange(0, i as int)[j]);
                        }
                    }
                }
            }
            i = i + 1;
        }
        proof {
            assert(ps.subrange(0, i as int) =~= ps);
        }
        Ok(())
    }

    /// Indexes a new node: records it under its label, stores the keys of its registered
    /// properties, and gives back the inserts of its vectors into their indexes.
    pub fn insert<T: WriteTxn>(
        txn: &mut T,
        label: &str,
        id: NodeId,
        props: &Vec<(String, Value)>,
        registered: &PropertyIndexRegistry,
    ) -> (r: Result<Vec<VectorInsert>, HelixiteError>)
        requires
            fits(label),
            props_key_fit(props_view(props@)),
        ensures
            final(txn).infallible() == old(txn).infallible(),
            old(txn).infallible() ==> r is Ok,
            r is Ok ==> final(txn).contents() == node_indexed(
                old(txn).contents(),
                label@,
                id,
                props_view(props@),
                registered.pairs(),
            ),
            old(txn).infallible() ==> (r matches Ok(ins) && inserts_view(ins@) == pending(
                final(txn).contents(),
                label@,
                id,
                props_view(props@),
            )),
            r matches Ok(ins) ==> forall|i: int|
                0 <= i < ins@.len() ==> (#[trigger] ins@[i])@.label == label@ && ins@[i].node_id == id,
    {
        let key = LabelIndex::key(label, id);
        let empty: Vec<u8> = Vec::new();
        txn.put(Db::Labels, key.as_slice(), empty.as_slice())?;
        write_property_keys(txn, crate::index::properties::NODE_TAG, registered, label, id, props, None, true)?;
        Ok(queue_vectors(txn, label, id, props))
    }

    /// Removes a node's index entries: its label entry, its vectors from their indexes,
    /// and the keys of its registered properties.
    pub fn delete<T: WriteTxn>(txn: &mut T, node: &Node, registered: &PropertyIndexRegistry) -> (r: Result<(), HelixiteError>)
        requires
            encode_utf8(node.label@).len() <= u32::MAX,
            props_key_fit(props_view(node.properties@)),
            vector_levels_wf(old(txn).contents()),
        ensures
            final(txn).infallible() == old(txn).infallible(),
            old(txn).infallible() ==> r is Ok,
            r is Ok ==> vector_levels_wf(final(txn).contents()),
            r is Ok ==> node_unindexed(
                old(txn).contents(),
                final(txn).contents(),
                old(txn).infallible(),
                node.label@,
                node.id,
                props_view(node.properties@),
                registered.pairs(),
            ),
    {
        let ghost m = txn.contents();
        let key = LabelIndex::key(node.label.as_str(), node.id);
        txn.delete(Db::Labels, key.as_slice())?;
        proof {
            assert forall|k: Seq<u8>|
                #[trigger] txn.contents().contains_key((Db::VectorIndexes, k)) && k.len() > 0 && k[0]
                    == crate::index::vector::keys::LVL_PREFIX implies txn.contents()[(Db::VectorIndexes, k)].len() >= 1 by {
                assert(m.contains_key((Db::VectorIndexes, k)));
            }
        }
        let ghost mid = txn.contents();
        delete_vectors(txn, node.label.as_str(), node.id, &node.properties, None)?;
        let ghost mid2 = txn.contents();
        write_property_keys(
            txn,
            crate::index::properties::NODE_TAG,
            registered,
            node.label.as_str(),
            node.id,
            &node.properties,
            None,
            false,
        )?;
        proof {
            lemma_del_keys_keeps_levels(mid2, prop_keys(crate::index::properties::NODE_TAG, registered.pairs(), node.label@, node.id, props_view(node.properties@), None));
        }
        Ok(())
    }
}

/// The contents after indexing a new node: its label entry, then the keys of its
/// registered properties.
pub open spec fn node_indexed(
    m: StoreView,
    label: Seq<char>,
    id: u64,
    ps: PropsView,
    reg: Set<(Seq<char>, Seq<char>)>,
) -> StoreView {
    put_keys(
        m.insert((Db::Labels, label_key(encode_utf8(label), id)), Seq::empty()),
        Db::Properties,
        prop_keys(crate::index::properties::NODE_TAG, reg, label, id, ps, None),
    )
}

/// `f` is what removing a node's index entries leaves of `m`: its label entry goes, it
/// leaves the vector indexes of its properties, and the keys of its registered
/// properties go.
pub open spec fn node_unindexed(
    m: StoreView,
    f: StoreView,
    inf: bool,
    label: Seq<char>,
    id: u64,
    ps: PropsView,
    reg: Set<(Seq<char>, Seq<char>)>,
) -> bool {
    exists|mid: StoreView|
        #[trigger] vectors_removed(
            m.remove((Db::Labels, label_key(encode_utf8(label), id))),
            mid,
            inf,
            label,
            id,
            ps,
            None,
        ) && f == del_keys(mid, Db::Properties, prop_keys(crate::index::properties::NODE_TAG, reg, label, id, ps, None))
}

/// Removing property keys keeps every stored vector level.
pub proof fn lemma_del_keys_keeps_levels(m: StoreView, keys: Seq<Seq<u8>>)
    requires
        vector_levels_wf(m),
    ensures
        vector_levels_wf(del_keys(m, Db::Properties, keys)),
{
    assert forall|k: Seq<u8>|
        #[trigger] del_keys(m, Db::Properties, keys).contains_key((Db::VectorIndexes, k)) && k.len() > 0 && k[0]
            == crate::index::vector::keys::LVL_PREFIX implies del_keys(m, Db::Properties, keys)[(Db::VectorIndexes, k)].len() >= 1 by {
        crate::storage::bulk::lemma_del_keys(m, Db::Properties, keys, (Db::VectorIndexes, k));
    }
}

/// Storing property keys keeps every stored vector level.
pub proof fn lemma_put_keys_keeps_levels(m: StoreView, keys: Seq<Seq<u8>>)
    requires
        vector_levels_wf(m),
    ensures
        vector_levels_wf(put_keys(m, Db::Properties, keys)),
{
    assert forall|k: Seq<u8>|
        #[trigger] put_keys(m, Db::Properties, keys).contains_key((Db::VectorIndexes, k)) && k.len() > 0 && k[0]
            == crate::index::vector::keys::LVL_PREFIX implies put_keys(m, Db::Properties, keys)[(Db::VectorIndexes, k)].len() >= 1 by {
        crate::storage::bulk::lemma_put_keys(m, Db::Properties, keys, (Db::VectorIndexes, k));
    }
}

/// `f` and the queued inserts `q` are what re-indexing a node whose label and properties
/// change leaves of `m`. Under a new label: its label entry moves, it leaves the vector
/// indexes of its old properties, the keys of its old registered properties go and those
/// of its new ones come, and each new vector whose index reads is queued. Under the same
/// label only the properties whose value changed take part: their old keys go and they
/// leave their vector indexes, the new keys come, and each changed vector is removed from
/// its index again and queued.
pub open spec fn node_reindexed(
    m: StoreView,
    f: StoreView,
    q: Seq<VectorInsertView>,
    inf: bool,
    old_label: Seq<char>,
    new_label: Seq<char>,
    id: u64,
    old_ps: PropsView,
    new_ps: PropsView,
    reg: Set<(Seq<char>, Seq<char>)>,
) -> bool {
    let tag = crate::index::properties::NODE_TAG;
    if old_label != new_label {
        exists|mid: StoreView|
            #[trigger] vectors_removed(
                m.remove((Db::Labels, label_key(encode_utf8(old_label), id))).insert(
                    (Db::Labels, label_key(encode_utf8(new_label), id)),
                    Seq::empty(),
                ),
                mid,
                inf,
                old_label,
                id,
                old_ps,
                None,
            ) && f == put_keys(
                del_keys(mid, Db::Properties, prop_keys(tag, reg, old_label, id, old_ps, None)),
                Db::Properties,
                prop_keys(tag, reg, new_label, id, new_ps, None),
            ) && (inf ==> q == pending(f, new_label, id, new_ps))
    } else {
        exists|mid: StoreView|
            #[trigger] vectors_removed(
                del_keys(m, Db::Properties, prop_keys(tag, reg, old_label, id, old_ps, Some(props_map(new_ps)))),
                mid,
                inf,
                old_label,
                id,
                old_ps,
                Some(props_map(new_ps)),
            ) && vectors_reindexed(
                put_keys(mid, Db::Properties, prop_keys(tag, reg, new_label, id, new_ps, Some(props_map(old_ps)))),
                f,
                q,
                inf,
                new_label,
                id,
                new_ps,
                Some(props_map(old_ps)),
            )
    }
}

impl NodeIndexes {
    /// Re-indexes a node whose label or properties change, as `node_reindexed` states,
    /// and gives back the inserts of its new vectors into their indexes.
    pub fn replace<T: WriteTxn>(
        txn: &mut T,
        old_label: &str,
        new_label: &str,
        id: NodeId,
        old_props: &Vec<(String, Value)>,
        new_props: &Vec<(String, Value)>,
        registered: &PropertyIndexRegistry,
    ) -> (r: Result<Vec<VectorInsert>, HelixiteError>)
        requires
            fits(old_label),
            fits(new_label),
            props_key_fit(props_view(old_props@)),
            props_key_fit(props_view(new_props@)),
            distinct_names(props_view(old_props@)),
            distinct_names(props_view(new_props@)),
            vector_levels_wf(old(txn).contents()),
        ensures
            final(txn).infallible() == old(txn).infallible(),
            old(txn).infallible() ==> r is Ok,
            r is Ok ==> vector_levels_wf(final(txn).contents()),
            r matches Ok(ins) ==> node_reindexed(
                old(txn).contents(),
                final(txn).contents(),
                inserts_view(ins@),
                old(txn).infallible(),
                old_label@,
                new_label@,
                id,
                props_view(old_props@),
                props_view(new_props@),
                registered.pairs(),
            ),
    {
        let ghost m = txn.contents();
        let ghost inf = txn.infallible();
        let ghost tag = crate::index::properties::NODE_TAG;
        let ghost reg = registered.pairs();
        let ghost ops = props_view(old_props@);
        let ghost nps = props_view(new_props@);
        let empty: Vec<u8> = Vec::new();
        if !crate::value::str_eq(old_label, new_label) {
            txn.delete(Db::Labels, LabelIndex::key(old_label, id).as_slice())?;
            txn.put(Db::Labels, LabelIndex::key(new_label, id).as_slice(), empty.as_slice())?;
            let ghost m1 = txn.contents();
            proof {
                assert forall|k: Seq<u8>|
                    #[trigger] m1.contains_key((Db::VectorIndexes, k)) && k.len() > 0 && k[0]
                        == crate::index::vector::keys::LVL_PREFIX implies m1[(Db::VectorIndexes, k)].len() >= 1 by {
                    assert(m.contains_key((Db::VectorIndexes, k)));
                }
            }
            delete_vectors(txn, old_label, id, old_props, None)?;
            let ghost mid = txn.contents();
            write_property_keys(txn, crate::index::properties::NODE_TAG, registered, old_label, id, old_props, None, false)?;
            proof {
                lemma_del_keys_keeps_levels(mid, prop_keys(tag, reg, old_label@, id, ops, None));
            }
            let ghost mid2 = txn.contents();
            write_property_keys(txn, crate::index::properties::NODE_TAG, registered, new_label, id, new_props, None, true)?;
            proof {
                lemma_put_keys_keeps_levels(mid2, prop_keys(tag, reg, new_label@, id, nps, None));
            }
            let ins = queue_vectors(txn, new_label, id, new_props);
            proof {
                assert(vectors_removed(m1, mid, inf, old_label@, id, ops, None));
            }
            Ok(ins)
        } else {
            write_property_keys(txn, crate::index::properties::NODE_TAG, registered, old_label, id, old_props, Some(new_props), false)?;
            let ghost m1 = txn.contents();
            proof {
                lemma_del_keys_keeps_levels(m, prop_keys(tag, reg, old_label@, id, ops, Some(props_map(nps))));
            }
            delete_vectors(txn, old_label, id, old_props, Some(new_props))?;
            let ghost mid = txn.contents();
            write_property_keys(txn, crate::index::properties::NODE_TAG, registered, new_label, id, new_props, Some(old_props), true)?;
            let ghost m3 = txn.contents();
            proof {
                lemma_put_keys_keeps_levels(mid, prop_keys(tag, reg, new_label@, id, nps, Some(props_map(ops))));
            }
            let ins = reindex_vectors(txn, new_label, id, new_props, Some(old_props))?;
            proof {
                assert(vectors_removed(m1, mid, inf, old_label@, id, ops, Some(props_map(nps))));
                assert(old_label@ == new_label@);
            }
            Ok(ins)
        }
    }
}

/// A pair of a list that takes part in an index step puts its key among the step's keys.
proof fn lemma_prop_keys_has(
    tag: u8,
    reg: Set<(Seq<char>, Seq<char>)>,
    label: Seq<char>,
    id: u64,
    ps: PropsView,
    other: Option<Map<Seq<char>, ValueView>>,
    i: int,
)
    requires
        0 <= i < ps.len(),
        reg.contains((label, ps[i].0)),
        keeps(other, ps[i].0, ps[i].1),
        property_key_of(tag, encode_utf8(label), encode_utf8(ps[i].0), ps[i].1, id) is Some,
    ensures
        prop_keys(tag, reg, label, id, ps, other).contains(
            property_key_of(tag, encode_utf8(label), encode_utf8(ps[i].0), ps[i].1, id).unwrap(),
        ),
    decreases ps.len(),
{
    let key = property_key_of(tag, encode_utf8(label), encode_utf8(ps[i].0), ps[i].1, id).unwrap();
    let rest = prop_keys(tag, reg, label, id, ps.drop_last(), other);
    if i == ps.len() - 1 {
        assert(ps.last() == ps[i]);
        assert(rest.push(key)[rest.len() as int] == key);
    } else {
        assert(ps.drop_last()[i] == ps[i]);
        lemma_prop_keys_has(tag, reg, label, id, ps.drop_last(), other, i);
        let j = choose|j: int| 0 <= j < rest.len() && rest[j] == key;
        let (k, v) = ps.last();
        if reg.contains((label, k)) && keeps(other, k, v) {
            if let Some(lk) = property_key_of(tag, encode_utf8(label), encode_utf8(k), v, id) {
                assert(rest.push(lk)[j] == key);
            }
        }
    }
}

/// A value of a kind that compares exactly: text, integer, boolean or bytes.
pub open spec fn exact_kind(v: ValueView) -> bool {
    v is String || v is Int || v is Bool || v is Bytes
}

/// A changed property is re-indexed: where a registered property of a node whose label
/// stays holds `a` before a change and a different `b` after it, both of a kind that
/// compares exactly (an integer among them), re-indexing removes the key of `a` and stores
/// the key of `b`.
pub proof fn law_changed_value_is_rekeyed(
    tag: u8,
    reg: Set<(Seq<char>, Seq<char>)>,
    label: Seq<char>,
    id: u64,
    old_ps: PropsView,
    new_ps: PropsView,
    k: Seq<char>,
    a: ValueView,
    b: ValueView,
)
    requires
        distinct_names(old_ps),
        distinct_names(new_ps),
        reg.contains((label, k)),
        props_map(old_ps).contains_key(k) && props_map(old_ps)[k] == a,
        props_map(new_ps).contains_key(k) && props_map(new_ps)[k] == b,
        exact_kind(a),
        exact_kind(b),
        a != b,
    ensures
        property_key_of(tag, encode_utf8(label), encode_utf8(k), a, id) is Some,
        property_key_of(tag, encode_utf8(label), encode_utf8(k), b, id) is Some,
        prop_keys(tag, reg, label, id, old_ps, Some(props_map(new_ps))).contains(
            property_key_of(tag, encode_utf8(label), encode_utf8(k), a, id).unwrap(),
        ),
        prop_keys(tag, reg, label, id, new_ps, Some(props_map(old_ps))).contains(
            property_key_of(tag, encode_utf8(label), encode_utf8(k), b, id).unwrap(),
        ),
{
    crate::props::lemma_props_map_dom(old_ps, k);
    let i = choose|i: int| 0 <= i < old_ps.len() && (#[trigger] old_ps[i]).0 == k;
    crate::props::lemma_props_map_at(old_ps, i);
    crate::props::lemma_props_map_dom(new_ps, k);
    let j = choose|j: int| 0 <= j < new_ps.len() && (#[trigger] new_ps[j]).0 == k;
    crate::props::lemma_props_map_at(new_ps, j);
    assert(!value_eq(b, a));
    assert(!value_eq(a, b));
    lemma_prop_keys_has(tag, reg, label, id, old_ps, Some(props_map(new_ps)), i);
    lemma_prop_keys_has(tag, reg, label, id, new_ps, Some(props_map(old_ps)), j);
}

/// Integer values are equal exactly where the integers are, and values of different
/// kinds are never equal.
pub proof fn law_int_values_equal(a: i64, b: i64, v: ValueView)
    ensures
        value_eq(ValueView::Int(a), ValueView::Int(b)) <==> a == b,
        !(v is Int) ==> !value_eq(ValueView::Int(a), v) && !value_eq(v, ValueView::Int(a)),
{
}

/// Removing a node from a vector index touches no property index key.
proof fn lemma_deleted_keeps_properties(m: StoreView, f: StoreView, label: Seq<u8>, property: Seq<u8>, id: u64, meta: crate::index::vector::keys::VectorIndexMeta, c: Seq<u8>)
    requires
        deleted_from_index(m, f, label, property, id, meta),
    ensures
        f.contains_key((Db::Properties, c)) == m.contains_key((Db::Properties, c)),
{
    let lk = crate::index::vector::keys::vector_base(crate::index::vector::keys::LVL_PREFIX, label, property) + crate::index::codec::be64(id);
    if let Some(b) = crate::storage::engine::lookup(m, Db::VectorIndexes, lk) {
        let removed = crate::index::vector::hnsw::hnsw_removed(m, label, property, b[0], id);
        assert(removed.contains_key((Db::Properties, c)) == m.contains_key((Db::Properties, c)));
        if meta.entry_point == Some(id) {
            let (ml, ep) = choose|ml: u8, ep: Option<u64>|
                crate::index::vector::hnsw::entry_point_ok(removed, label, property, id, ml, ep) && #[trigger] crate::index::vector::keys::meta_bytes(
                    crate::index::vector::keys::VectorIndexMeta { entry_point: ep, max_level: ml, ..meta },
                ) == f[(Db::VectorIndexes, crate::index::vector::keys::vector_base(crate::index::vector::keys::META_PREFIX, label, property))] && f
                    == removed.insert(
                    (Db::VectorIndexes, crate::index::vector::keys::vector_base(crate::index::vector::keys::META_PREFIX, label, property)),
                    crate::index::vector::keys::meta_bytes(crate::index::vector::keys::VectorIndexMeta { entry_point: ep, max_level: ml, ..meta }),
                );
        }
    }
}

/// Removing a node's vectors, one property after another, touches no property index key.
proof fn lemma_removal_chain_keeps(
    states: Seq<StoreView>,
    inf: bool,
    label: Seq<char>,
    id: u64,
    ps: PropsView,
    other: Option<Map<Seq<char>, ValueView>>,
    n: int,
    c: Seq<u8>,
)
    requires
        removal_chain(states, inf, label, id, ps, other),
        0 <= n <= ps.len(),
    ensures
        states[n].contains_key((Db::Properties, c)) == states[0].contains_key((Db::Properties, c)),
    decreases n,
{
    if n > 0 {
        lemma_removal_chain_keeps(states, inf, label, id, ps, other, n - 1, c);
        let i = n - 1;
        assert(vector_step(states[i], states[i + 1], inf, label, ps[i].0, ps[i].1, id, other));
        if ps[i].1 is Vector && keeps(other, ps[i].0, ps[i].1) {
            if let Some(meta) = meta_of(states[i], label, ps[i].0) {
                if deleted_from_index(states[i], states[i + 1], encode_utf8(label), encode_utf8(ps[i].0), id, meta) {
                    lemma_deleted_keeps_properties(states[i], states[i + 1], encode_utf8(label), encode_utf8(ps[i].0), id, meta, c);
                }
            }
        }
    }
}

/// Moving a node's vectors, one property after another, touches no property index key.
proof fn lemma_reindex_chain_keeps(
    states: Seq<StoreView>,
    queues: Seq<Seq<VectorInsertView>>,
    inf: bool,
    label: Seq<char>,
    id: u64,
    ps: PropsView,
    other: Option<Map<Seq<char>, ValueView>>,
    n: int,
    c: Seq<u8>,
)
    requires
        reindex_chain(states, queues, inf, label, id, ps, other),
        0 <= n <= ps.len(),
    ensures
        states[n].contains_key((Db::Properties, c)) == states[0].contains_key((Db::Properties, c)),
    decreases n,
{
    if n > 0 {
        lemma_reindex_chain_keeps(states, queues, inf, label, id, ps, other, n - 1, c);
        let i = n - 1;
        assert(reindex_step(states[i], states[i + 1], queues[i], queues[i + 1], inf, label, ps[i].0, ps[i].1, id, other));
        if ps[i].1 is Vector && keeps(other, ps[i].0, ps[i].1) {
            if let Some(meta) = meta_of(states[i], label, ps[i].0) {
                if deleted_from_index(states[i], states[i + 1], encode_utf8(label), encode_utf8(ps[i].0), id, meta) {
                    lemma_deleted_keeps_properties(states[i], states[i + 1], encode_utf8(label), encode_utf8(ps[i].0), id, meta, c);
                }
            }
        }
    }
}

/// Every key of an index step is the key of one of the list's pairs.
proof fn lemma_prop_keys_from(
    tag: u8,
    reg: Set<(Seq<char>, Seq<char>)>,
    label: Seq<char>,
    id: u64,
    ps: PropsView,
    other: Option<Map<Seq<char>, ValueView>>,
    key: Seq<u8>,
)
    requires
        prop_keys(tag, reg, label, id, ps, other).contains(key),
    ensures
        exists|j: int| 0 <= j < ps.len() && property_key_of(tag, encode_utf8(label), encode_utf8((#[trigger] ps[j]).0), ps[j].1, id) == Some(key),
    decreases ps.len(),
{
    let rest = prop_keys(tag, reg, label, id, ps.drop_last(), other);
    let (k, v) = ps.last();
    if rest.contains(key) {
        lemma_prop_keys_from(tag, reg, label, id, ps.drop_last(), other, key);
        let j = choose|j: int| 0 <= j < ps.drop_last().len() && property_key_of(tag, encode_utf8(label), encode_utf8((#[trigger] ps.drop_last()[j]).0), ps.drop_last()[j].1, id) == Some(key);
        assert(ps.drop_last()[j] == ps[j]);
    } else {
        let i = choose|i: int| 0 <= i < prop_keys(tag, reg, label, id, ps, other).len() && prop_keys(tag, reg, label, id, ps, other)[i] == key;
        if reg.contains((label, k)) && keeps(other, k, v) {
            if let Some(lk) = property_key_of(tag, encode_utf8(label), encode_utf8(k), v, id) {
                if i < rest.len() {
                    assert(rest.push(lk)[i] == rest[i]);
                }
                assert(key == lk);
                assert(ps[ps.len() - 1] == ps.last());
            }
        }
    }
}

/// Two property index keys of one tag, label and id that are equal are keys of the same
/// property, and of values that stand for the same index value.
proof fn lemma_property_key_injective(tag: u8, label: Seq<u8>, id: u64, p1: Seq<u8>, p2: Seq<u8>, v1: ValueView, v2: ValueView)
    requires
        label.len() <= u32::MAX,
        p1.len() <= u32::MAX,
        p2.len() <= u32::MAX,
        crate::index::properties::value_fits(v1),
        crate::index::properties::value_fits(v2),
        property_key_of(tag, label, p1, v1, id) is Some,
        property_key_of(tag, label, p1, v1, id) == property_key_of(tag, label, p2, v2, id),
    ensures
        p1 == p2,
        crate::value::canonical(crate::value::indexed_view(v1).unwrap()) == crate::value::canonical(crate::value::indexed_view(v2).unwrap()),
{
    let k1 = crate::value::index_key_of(v1).unwrap();
    let k2 = crate::value::index_key_of(v2).unwrap();
    let pre = seq![tag] + field(label);
    let t1 = field(k1) + crate::index::codec::be64(id);
    let t2 = field(k2) + crate::index::codec::be64(id);
    let key = crate::index::properties::property_key(tag, label, p1, k1, id);
    assert(key =~= pre + (field(p1) + t1));
    assert(key =~= pre + (field(p2) + t2));
    let s1 = field(p1) + t1;
    let s2 = field(p2) + t2;
    assert(s1 =~= key.subrange(pre.len() as int, key.len() as int));
    assert(s2 =~= key.subrange(pre.len() as int, key.len() as int));
    assert(s2.subrange(0, field(p1).len() as int) =~= field(p1));
    crate::index::codec::lemma_field_prefix_injective(p1, p2, t2);
    assert(t1 =~= s1.subrange(field(p1).len() as int, s1.len() as int));
    assert(t2 =~= s2.subrange(field(p2).len() as int, s2.len() as int));
    assert(t2.subrange(0, field(k1).len() as int) =~= field(k1));
    crate::index::codec::lemma_field_prefix_injective(k1, k2, crate::index::codec::be64(id));
    crate::value::lemma_index_bytes_roundtrip(crate::value::indexed_view(v1).unwrap());
    crate::value::lemma_index_bytes_roundtrip(crate::value::indexed_view(v2).unwrap());
}

/// A changed property is re-indexed in the store: where a node keeps its label and a
/// registered property changes from `a` to a different `b`, both of a kind that compares
/// exactly (an integer among them), after re-indexing its property index holds the key of
/// `b` for the node and no longer that of `a`.
pub proof fn law_changed_value_in_store(
    m: StoreView,
    f: StoreView,
    q: Seq<VectorInsertView>,
    inf: bool,
    label: Seq<char>,
    id: u64,
    old_ps: PropsView,
    new_ps: PropsView,
    reg: Set<(Seq<char>, Seq<char>)>,
    k: Seq<char>,
    a: ValueView,
    b: ValueView,
)
    requires
        node_reindexed(m, f, q, inf, label, label, id, old_ps, new_ps, reg),
        encode_utf8(label).len() <= u32::MAX,
        props_key_fit(old_ps),
        props_key_fit(new_ps),
        distinct_names(old_ps),
        distinct_names(new_ps),
        reg.contains((label, k)),
        props_map(old_ps).contains_key(k) && props_map(old_ps)[k] == a,
        props_map(new_ps).contains_key(k) && props_map(new_ps)[k] == b,
        exact_kind(a),
        exact_kind(b),
        a != b,
    ensures
        f.contains_key((Db::Properties, property_key_of(crate::index::properties::NODE_TAG, encode_utf8(label), encode_utf8(k), b, id).unwrap())),
        !f.contains_key((Db::Properties, property_key_of(crate::index::properties::NODE_TAG, encode_utf8(label), encode_utf8(k), a, id).unwrap())),
{
    let tag = crate::index::properties::NODE_TAG;
    law_changed_value_is_rekeyed(tag, reg, label, id, old_ps, new_ps, k, a, b);
    let ka = property_key_of(tag, encode_utf8(label), encode_utf8(k), a, id).unwrap();
    let kb = property_key_of(tag, encode_utf8(label), encode_utf8(k), b, id).unwrap();
    let old_keys = prop_keys(tag, reg, label, id, old_ps, Some(props_map(new_ps)));
    let new_keys = prop_keys(tag, reg, label, id, new_ps, Some(props_map(old_ps)));
    let mid = choose|mid: StoreView|
        #[trigger] vectors_removed(del_keys(m, Db::Properties, old_keys), mid, inf, label, id, old_ps, Some(props_map(new_ps)))
            && vectors_reindexed(put_keys(mid, Db::Properties, new_keys), f, q, inf, label, id, new_ps, Some(props_map(old_ps)));
    let d = del_keys(m, Db::Properties, old_keys);
    let p = put_keys(mid, Db::Properties, new_keys);
    let s1 = choose|states: Seq<StoreView>|
        #[trigger] removal_chain(states, inf, label, id, old_ps, Some(props_map(new_ps))) && states[0] == d && states[old_ps.len() as int] == mid;
    let (s2, qs) = choose|states: Seq<StoreView>, queues: Seq<Seq<VectorInsertView>>|
        #[trigger] reindex_chain(states, queues, inf, label, id, new_ps, Some(props_map(old_ps))) && states[0] == p
            && states[new_ps.len() as int] == f && queues[new_ps.len() as int] == q;
    lemma_removal_chain_keeps(s1, inf, label, id, old_ps, Some(props_map(new_ps)), old_ps.len() as int, ka);
    lemma_removal_chain_keeps(s1, inf, label, id, old_ps, Some(props_map(new_ps)), old_ps.len() as int, kb);
    lemma_reindex_chain_keeps(s2, qs, inf, label, id, new_ps, Some(props_map(old_ps)), new_ps.len() as int, ka);
    lemma_reindex_chain_keeps(s2, qs, inf, label, id, new_ps, Some(props_map(old_ps)), new_ps.len() as int, kb);
    crate::storage::bulk::lemma_put_keys(mid, Db::Properties, new_keys, (Db::Properties, kb));
    crate::storage::bulk::lemma_put_keys(mid, Db::Properties, new_keys, (Db::Properties, ka));
    crate::storage::bulk::lemma_del_keys(m, Db::Properties, old_keys, (Db::Properties, ka));
    if new_keys.contains(ka) {
        lemma_prop_keys_from(tag, reg, label, id, new_ps, Some(props_map(old_ps)), ka);
        let j = choose|j: int| 0 <= j < new_ps.len() && property_key_of(tag, encode_utf8(label), encode_utf8((#[trigger] new_ps[j]).0), new_ps[j].1, id) == Some(ka);
        crate::props::lemma_props_map_dom(old_ps, k);
        let i = choose|i: int| 0 <= i < old_ps.len() && (#[trigger] old_ps[i]).0 == k;
        crate::props::lemma_props_map_at(old_ps, i);
        assert(encode_utf8(old_ps[i].0).len() <= u32::MAX && crate::index::properties::value_fits(old_ps[i].1));
        assert(encode_utf8(new_ps[j].0).len() <= u32::MAX && crate::index::properties::value_fits(new_ps[j].1));
        lemma_property_key_injective(tag, encode_utf8(label), id, encode_utf8(k), encode_utf8(new_ps[j].0), a, new_ps[j].1);
        vstd::utf8::encode_utf8_decode_utf8(k);
        vstd::utf8::encode_utf8_decode_utf8(new_ps[j].0);
        assert(new_ps[j].0 == k);
        crate::props::lemma_props_map_at(new_ps, j);
        assert(new_ps[j].1 == b);
        assert(false);
    }
}

} // verus!
