//! Character data: the text of a text, comment or processing-instruction node.

use crate::dom::node::{Node, NodeType};
use vstd::prelude::*;
use vstd::string::*;

verus! {

/// A node with a string payload.
#[derive(Debug)]
pub struct CharacterData {
    pub node: Node,
    pub data: String,
}

impl CharacterData {
    /// The text.
    pub open spec fn text(&self) -> Seq<char> {
        self.data@
    }

    /// A detached text node that carries `data`.
    pub fn new(data: String) -> (r: Self)
        ensures
            r.node.node_type == NodeType::Text,
            r.node.detached(),
            r.text() == data@,
    {
        Self { node: Node::new(NodeType::Text), data }
    }

    /// The text.
    pub fn data(&self) -> (r: String)
        ensures
            r@ == self.text(),
    {
        self.data.clone()
    }

    /// Adds `more` to the end of the text.
    pub fn append_data(&mut self, more: &str)
        ensures
            final(self).text() == old(self).text() + more@,
            final(self).node == old(self).node,
    {
        self.data.append(more);
    }
}

} // verus!
