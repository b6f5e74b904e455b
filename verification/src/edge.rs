use vstd::prelude::*;

use crate::id::{EdgeId, NodeId};
use crate::props::{props_view, PropsView};
use crate::value::Value;

verus! {

/// A directed edge between two nodes, with its label and properties.
#[derive(Debug, Clone)]
pub struct Edge {
    pub id: EdgeId,
    pub from: NodeId,
    pub to: NodeId,
    pub label: String,
    pub properties: Vec<(String, Value)>,
}

/// The content of an edge.
pub struct EdgeView {
    pub id: EdgeId,
    pub from: NodeId,
    pub to: NodeId,
    pub label: Seq<char>,
    pub properties: PropsView,
}

impl View for Edge {
    type V = EdgeView;

    open spec fn view(&self) -> EdgeView {
        EdgeView {
            id: self.id,
            from: self.from,
            to: self.to,
            label: self.label@,
            properties: props_view(self.properties@),
        }
    }
}

/// Which way an edge is followed from a node.
#[derive(Debug, Clone, Copy, PartialEq, Eq, Structural)]
pub enum Direction {
    Out,
    In,
}

} // verus!
