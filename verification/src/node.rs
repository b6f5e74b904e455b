use vstd::prelude::*;

use crate::id::NodeId;
use crate::props::{props_view, PropsView};
use crate::value::Value;

verus! {

/// A node: its id, its label and its properties, each name at most once.
#[derive(Debug, Clone)]
pub struct Node {
    pub id: NodeId,
    pub label: String,
    pub properties: Vec<(String, Value)>,
}

/// The content of a node.
pub struct NodeView {
    pub id: NodeId,
    pub label: Seq<char>,
    pub properties: PropsView,
}

impl View for Node {
    type V = NodeView;

    open spec fn view(&self) -> NodeView {
        NodeView { id: self.id, label: self.label@, properties: props_view(self.properties@) }
    }
}

} // verus!
