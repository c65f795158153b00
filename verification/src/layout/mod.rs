//! Layout: the boxes that a styled tree generates.

pub mod box_gen;
pub mod layout_box;

use crate::dom::node::NodeType;
use crate::layout::layout_box::{BoxView, LayoutBox};
use crate::style::render_tree::{RenderNode, RenderNodeRef};
use crate::style::value::Display;
use vstd::prelude::*;

verus! {

/// A text node.
pub open spec fn text_node(styled: RenderNodeRef) -> bool {
    styled.node_type == NodeType::Text
}

/// An element that takes part in its parent's block formatting context.
pub open spec fn block_level_element(styled: RenderNodeRef) -> bool {
    styled.node_type == NodeType::Element && (styled.display == Display::Block || styled.display
        == Display::FlowRoot || styled.display == Display::ListItem || styled.display
        == Display::Table || styled.display == Display::Flex || styled.display == Display::Grid)
}

/// An element that flows in a line.
pub open spec fn inline_level_element(styled: RenderNodeRef) -> bool {
    styled.node_type == NodeType::Element && (styled.display == Display::Inline || styled.display
        == Display::InlineBlock || styled.display == Display::InlineTable || styled.display
        == Display::InlineFlex || styled.display == Display::InlineGrid)
}

/// An element whose content is laid out as blocks or as lines of inline
/// content: a block, a flow root, a list item or an inline block.
pub open spec fn block_container_element(styled: RenderNodeRef) -> bool {
    styled.node_type == NodeType::Element && (styled.display == Display::Block || styled.display
        == Display::FlowRoot || styled.display == Display::ListItem || styled.display
        == Display::InlineBlock)
}

/// A box that contains blocks or lines: the box of a block container
/// element, or a box without a node, which wraps inline content.
pub open spec fn block_container_box(b: BoxView) -> bool {
    match b.render_node {
        Some(styled) => block_container_element(styled),
        None => true,
    }
}

/// Whether the styled node is a text node.
pub fn is_text_node(root: &RenderNode) -> (r: bool)
    ensures
        r == text_node(root.styled),
{
    match root.styled.node_type {
        NodeType::Text => true,
        _ => false,
    }
}

fn is_element(styled: &RenderNodeRef) -> (r: bool)
    ensures
        r == (styled.node_type == NodeType::Element),
{
    match styled.node_type {
        NodeType::Element => true,
        _ => false,
    }
}

/// Whether the styled node is a block-level element.
pub fn is_block_level_element(root: &RenderNode) -> (r: bool)
    ensures
        r == block_level_element(root.styled),
{
    is_element(&root.styled) && match root.styled.display {
        Display::Block => true,
        Display::FlowRoot => true,
        Display::ListItem => true,
        Display::Table => true,
        Display::Flex => true,
        Display::Grid => true,
        _ => false,
    }
}

/// Whether the styled node is an inline-level element.
pub fn is_inline_level_element(root: &RenderNode) -> (r: bool)
    ensures
        r == inline_level_element(root.styled),
{
    is_element(&root.styled) && match root.styled.display {
        Display::Inline => true,
        Display::InlineBlock => true,
        Display::InlineTable => true,
        Display::InlineFlex => true,
        Display::InlineGrid => true,
        _ => false,
    }
}

/// Whether the box is a block container.
pub fn is_block_container_box(layout_box: &LayoutBox) -> (r: bool)
    ensures
        r == block_container_box(layout_box@),
{
    match &layout_box.render_node {
        Some(styled) => is_element(styled) && match styled.display {
            Display::Block => true,
            Display::FlowRoot => true,
            Display::ListItem => true,
            Display::InlineBlock => true,
            _ => false,
        },
        None => true,
    }
}

} // verus!
