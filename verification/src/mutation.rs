use vstd::prelude::*;

use crate::props::{
    collect_properties, copy_props, distinct_names, props_map, props_view, remove_property,
    set_property, PropsView,
};
use crate::value::{copy_string, Value, ValueView};

verus! {

/// One change to a node or an edge.
#[derive(Debug)]
pub enum MutOp {
    SetLabel(String),
    SetProperty(String, Value),
    RemoveProperty(String),
    ReplaceProperties(Vec<(String, Value)>),
}

/// The content of a change.
pub enum MutOpView {
    SetLabel(Seq<char>),
    SetProperty(Seq<char>, ValueView),
    RemoveProperty(Seq<char>),
    ReplaceProperties(PropsView),
}

impl View for MutOp {
    type V = MutOpView;

    open spec fn view(&self) -> MutOpView {
        match self {
            MutOp::SetLabel(l) => MutOpView::SetLabel(l@),
            MutOp::SetProperty(k, v) => MutOpView::SetProperty(k@, v@),
            MutOp::RemoveProperty(k) => MutOpView::RemoveProperty(k@),
            MutOp::ReplaceProperties(p) => MutOpView::ReplaceProperties(props_view(p@)),
        }
    }
}

/// The contents of a list of changes.
pub open spec fn ops_view(ops: Seq<MutOp>) -> Seq<MutOpView> {
    ops.map_values(|o: MutOp| o@)
}

/// A label and a property map: what a change works on.
pub type Shape = (Seq<char>, Map<Seq<char>, ValueView>);

/// The effect of one change.
pub open spec fn apply_op(s: Shape, op: MutOpView) -> Shape {
    match op {
        MutOpView::SetLabel(l) => (l, s.1),
        MutOpView::SetProperty(k, v) => (s.0, s.1.insert(k, v)),
        MutOpView::RemoveProperty(k) => (s.0, s.1.remove(k)),
        MutOpView::ReplaceProperties(p) => (s.0, props_map(p)),
    }
}

/// The effect of a list of changes, applied in order.
pub open spec fn apply_ops_spec(s: Shape, ops: Seq<MutOpView>) -> Shape
    decreases ops.len(),
{
    if ops.len() == 0 {
        s
    } else {
        apply_op(apply_ops_spec(s, ops.drop_last()), ops.last())
    }
}

/// Applies the changes, in order, to a label and a property list.
pub fn apply_ops(label: &mut String, properties: &mut Vec<(String, Value)>, ops: &Vec<MutOp>)
    requires
        distinct_names(props_view(old(properties)@)),
    ensures
        distinct_names(props_view(final(properties)@)),
        crate::props::names_sorted(props_view(old(properties)@)) ==> crate::props::names_sorted(props_view(final(properties)@)),
        (final(label)@, props_map(props_view(final(properties)@))) == apply_ops_spec(
            (old(label)@, props_map(props_view(old(properties)@))),
            ops_view(ops@),
        ),
{
    let ghost start: Shape = (label@, props_map(props_view(properties@)));
    let mut i: usize = 0;
    while i < ops.len()
        invariant
            i <= ops@.len(),
            distinct_names(props_view(properties@)),
            crate::props::names_sorted(props_view(old(properties)@)) ==> crate::props::names_sorted(props_view(properties@)),
            (label@, props_map(props_view(properties@))) == apply_ops_spec(
                start,
                ops_view(ops@).subrange(0, i as int),
            ),
        decreases ops@.len() - i,
    {
        proof {
            assert(ops_view(ops@).subrange(0, i + 1).drop_last() =~= ops_view(ops@).subrange(0, i as int));
            assert(ops_view(ops@)[i as int] == ops@[i as int]@);
        }
        match &ops[i] {
            MutOp::SetLabel(l) => {
                *label = copy_string(l);
            },
            MutOp::SetProperty(k, v) => {
                set_property(properties, copy_string(k), crate::props::copy_value(v));
            },
            MutOp::RemoveProperty(k) => {
                remove_property(properties, k.as_str());
            },
            MutOp::ReplaceProperties(p) => {
                *properties = collect_properties(copy_props(p));
            },
        }
        i = i + 1;
    }
    assert(ops_view(ops@).subrange(0, i as int) =~= ops_view(ops@));
}

/// Changing in two steps is changing once by both lists in order.
pub proof fn law_ops_compose(s: Shape, a: Seq<MutOpView>, b: Seq<MutOpView>)
    ensures
        apply_ops_spec(s, a + b) == apply_ops_spec(apply_ops_spec(s, a), b),
    decreases b.len(),
{
    if b.len() == 0 {
        assert(a + b =~= a);
    } else {
        law_ops_compose(s, a, b.drop_last());
        assert((a + b).drop_last() =~= a + b.drop_last());
        assert((a + b).last() == b.last());
    }
}

/// After setting a property and changing nothing else, reading it gives the value set.
pub proof fn law_set_then_read(s: Shape, k: Seq<char>, v: ValueView)
    ensures
        apply_ops_spec(s, seq![MutOpView::SetProperty(k, v)]).1.contains_key(k),
        apply_ops_spec(s, seq![MutOpView::SetProperty(k, v)]).1[k] == v,
{
    assert(seq![MutOpView::SetProperty(k, v)].drop_last() =~= Seq::<MutOpView>::empty());
}

/// After removing a property it is absent, whatever it held before.
pub proof fn law_remove_then_absent(s: Shape, k: Seq<char>)
    ensures
        !apply_ops_spec(s, seq![MutOpView::RemoveProperty(k)]).1.contains_key(k),
{
    assert(seq![MutOpView::RemoveProperty(k)].drop_last() =~= Seq::<MutOpView>::empty());
}

/// A list of changes that are all to be applied to one node or edge.
pub struct Changes {
    pub ops: Vec<MutOp>,
}

impl Changes {
    /// No change yet.
    pub fn new() -> (r: Self)
        ensures
            ops_view(r.ops@) == Seq::<MutOpView>::empty(),
    {
        let r = Changes { ops: Vec::new() };
        assert(ops_view(r.ops@) =~= Seq::<MutOpView>::empty());
        r
    }

    /// Appends a change.
    pub fn push(self, op: MutOp) -> (r: Self)
        ensures
            ops_view(r.ops@) == ops_view(self.ops@).push(op@),
    {
        let mut c = self;
        let ghost o = op@;
        c.ops.push(op);
        assert(ops_view(c.ops@) =~= ops_view(self.ops@).push(o));
        c
    }
}

} // verus!
