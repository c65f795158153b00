//! Box generation: from the styled tree to the layout tree.

use crate::layout::layout_box::{
    box_views,
    lemma_box_views,
    opt_box,
    BoxType,
    BoxView,
    FormattingContext,
    LayoutBox,
};
use crate::layout::{
    block_container_box,
    block_level_element,
    inline_level_element,
    is_block_container_box,
    is_block_level_element,
    is_inline_level_element,
    is_text_node,
    text_node,
};
use crate::style::render_tree::{RenderNode, RenderNodeRef};
use vstd::prelude::*;

verus! {

/// The kind of box that a styled node generates: an anonymous box for
/// text, a block for a block-level element, an inline box for an
/// inline-level element, and none for anything else.
pub open spec fn box_type_of(styled: RenderNodeRef) -> Option<BoxType> {
    if text_node(styled) {
        Some(BoxType::Anonymous)
    } else if block_level_element(styled) {
        Some(BoxType::Block)
    } else if inline_level_element(styled) {
        Some(BoxType::Inline)
    } else {
        None
    }
}

/// Whether one of the boxes is a block.
pub open spec fn has_block(boxes: Seq<BoxView>) -> bool {
    exists|i: int| 0 <= i < boxes.len() && (#[trigger] boxes[i]).box_type == BoxType::Block
}

/// The formatting context of a box with the given children: block where
/// one of them is a block; else inline where the box is a block container;
/// else none.
pub open spec fn context_of(children: Seq<BoxView>, container: bool) -> Option<FormattingContext> {
    if has_block(children) {
        Some(FormattingContext::Block)
    } else if container {
        Some(FormattingContext::Inline)
    } else {
        None
    }
}

/// The box for a node of the given kind, before it has children.
pub open spec fn bare_box(styled: RenderNodeRef, box_type: BoxType) -> BoxView {
    BoxView {
        box_type,
        render_node: Some(styled),
        formatting_context: None,
        parent_formatting_context: None,
        children: Seq::empty(),
    }
}

/// The layout tree of a styled tree; none where the root generates no box.
///
/// The boxes that the root's children generate are the candidates. They
/// decide the formatting context of the root's box, and are then added to
/// it one by one.
pub open spec fn layout_of(root: RenderNode) -> Option<BoxView>
    decreases root,
{
    match box_type_of(root.styled) {
        None => None,
        Some(box_type) => {
            let candidates = child_boxes(root.children@, root.children@.len() as int);
            let bare = bare_box(root.styled, box_type);
            let context = context_of(candidates, block_container_box(bare));
            Some(BoxView { formatting_context: context, ..bare }.with_children(candidates))
        },
    }
}

/// The boxes that the first `n` of `nodes` generate, in order; a node that
/// generates none is left out with everything below it.
pub open spec fn child_boxes(nodes: Seq<RenderNode>, n: int) -> Seq<BoxView>
    decreases nodes, n,
{
    if n <= 0 || n > nodes.len() {
        Seq::empty()
    } else {
        let before = child_boxes(nodes, n - 1);
        match layout_of(nodes[n - 1]) {
            Some(b) => before.push(b),
            None => before,
        }
    }
}

impl BoxView {
    /// What holds of the children of a box in its formatting context: each
    /// knows the context, a block context holds blocks and anonymous boxes
    /// only, an inline context holds inline and anonymous boxes only, and
    /// each child is well formed itself.
    pub open spec fn children_fit(self) -> bool
        decreases self, 0int,
    {
        forall|i: int|
            0 <= i < self.children.len() ==> {
                let c = #[trigger] self.children[i];
                &&& self.formatting_context is Some ==> c.parent_formatting_context
                    == self.formatting_context
                &&& self.formatting_context == Some(FormattingContext::Block) ==> c.box_type
                    != BoxType::Inline
                &&& self.formatting_context == Some(FormattingContext::Inline) ==> c.box_type
                    != BoxType::Block
                &&& c.well_formed()
            }
    }

    /// The invariant of the layout tree, for the box and everything below
    /// it: the formatting context is block exactly where a child is a
    /// block, else inline where the box is a block container, else unset;
    /// a wrapper holds inline content; and the children fit the context.
    pub open spec fn well_formed(self) -> bool
        decreases self, 1int,
    {
        &&& self.formatting_context == context_of(self.children, block_container_box(self))
        &&& self.is_wrapper() ==> self.formatting_context == Some(FormattingContext::Inline)
        &&& self.children_fit()
    }
}

/// Adding a well-formed child keeps the children fitting, and the box has
/// a block among its children exactly if it had one or the child is one.
pub proof fn lemma_with_child(b: BoxView, child: BoxView)
    requires
        b.children_fit(),
        child.well_formed(),
        b.formatting_context == Some(FormattingContext::Inline) ==> child.box_type
            != BoxType::Block,
    ensures
        b.with_child(child).children_fit(),
        has_block(b.with_child(child).children) == (has_block(b.children) || child.box_type
            == BoxType::Block),
        b.with_child(child).formatting_context == b.formatting_context,
        b.with_child(child).render_node == b.render_node,
        b.with_child(child).box_type == b.box_type,
        b.with_child(child).parent_formatting_context == b.parent_formatting_context,
{
    let after = b.with_child(child);
    let n = b.children.len() as int;
    let reuse = b.formatting_context == Some(FormattingContext::Block) && child.box_type
        != BoxType::Block && n > 0 && b.children.last().is_wrapper();
    if reuse {
        let last = b.children.last();
        let grown = after.children[n - 1];
        assert(grown.children == last.children.push(child.under(FormattingContext::Inline)));
        assert(last.well_formed());
        assert(last.children_fit());
        assert(last.formatting_context == context_of(last.children, true));
        assert(!has_block(last.children));
        assert forall|i: int| 0 <= i < grown.children.len() implies (
        #[trigger] grown.children[i]).box_type != BoxType::Block by {
            if i < last.children.len() {
                assert(last.children[i].box_type != BoxType::Block);
            }
        }
        assert(!has_block(grown.children));
        assert forall|i: int| 0 <= i < grown.children.len() implies {
            let c = #[trigger] grown.children[i];
            &&& c.parent_formatting_context == grown.formatting_context
            &&& c.box_type != BoxType::Block
            &&& c.well_formed()
        } by {
            if i < last.children.len() {
                assert(grown.children[i] == last.children[i]);
            } else {
                assert(child.under(FormattingContext::Inline).well_formed());
            }
        }
        assert(grown.children_fit());
        assert(grown.well_formed());
        assert forall|i: int| 0 <= i < after.children.len() implies {
            let c = #[trigger] after.children[i];
            &&& c.parent_formatting_context == after.formatting_context
            &&& c.box_type != BoxType::Inline
            &&& c.well_formed()
        } by {
            if i < n - 1 {
                assert(after.children[i] == b.children[i]);
            }
        }
        if has_block(b.children) {
            let k = choose|k: int| 0 <= k < n && (#[trigger] b.children[k]).box_type == BoxType::Block;
            assert(after.children[k] == b.children[k]);
        }
        if has_block(after.children) {
            let k = choose|k: int|
                0 <= k < after.children.len() && (#[trigger] after.children[k]).box_type
                    == BoxType::Block;
            assert(after.children[k] == b.children[k]);
        }
    } else {
        let added = after.children[n];
        assert(after.children.len() == n + 1);
        assert forall|i: int| 0 <= i < n implies after.children[i] == b.children[i] by {}
        if b.formatting_context == Some(FormattingContext::Block) && child.box_type
            != BoxType::Block {
            let inner = child.under(FormattingContext::Inline);
            assert(added == BoxView::wrapper(seq![inner]));
            assert(inner.well_formed());
            assert forall|i: int| 0 <= i < added.children.len() implies (
            #[trigger] added.children[i]).box_type != BoxType::Block by {}
            assert(!has_block(added.children));
            assert(added.children_fit());
            assert(added.well_formed());
        } else if b.formatting_context is Some {
            assert(added == child.under(b.formatting_context->0));
            assert(added.well_formed());
        } else {
            assert(added == child);
        }
        assert forall|i: int| 0 <= i < after.children.len() implies {
            let c = #[trigger] after.children[i];
            &&& after.formatting_context is Some ==> c.parent_formatting_context
                == after.formatting_context
            &&& after.formatting_context == Some(FormattingContext::Block) ==> c.box_type
                != BoxType::Inline
            &&& after.formatting_context == Some(FormattingContext::Inline) ==> c.box_type
                != BoxType::Block
            &&& c.well_formed()
        } by {
            if i < n {
                assert(after.children[i] == b.children[i]);
            }
        }
        if has_block(b.children) {
            let k = choose|k: int| 0 <= k < n && (#[trigger] b.children[k]).box_type == BoxType::Block;
            assert(after.children[k] == b.children[k]);
        }
        if child.box_type == BoxType::Block {
            assert(added.box_type == BoxType::Block);
        }
        if has_block(after.children) {
            let k = choose|k: int|
                0 <= k < after.children.len() && (#[trigger] after.children[k]).box_type
                    == BoxType::Block;
            if k < n {
                assert(after.children[k] == b.children[k]);
            }
        }
    }
}

/// Adding well-formed children in order keeps the children fitting, and
/// the box has a block among its children exactly if it had one or one of
/// the added boxes is one.
pub proof fn lemma_with_children(b: BoxView, children: Seq<BoxView>)
    requires
        b.children_fit(),
        forall|i: int| 0 <= i < children.len() ==> (#[trigger] children[i]).well_formed(),
        b.formatting_context == Some(FormattingContext::Inline) ==> !has_block(children),
    ensures
        b.with_children(children).children_fit(),
        has_block(b.with_children(children).children) == (has_block(b.children) || has_block(
            children,
        )),
        b.with_children(children).formatting_context == b.formatting_context,
        b.with_children(children).render_node == b.render_node,
        b.with_children(children).box_type == b.box_type,
        b.with_children(children).parent_formatting_context == b.parent_formatting_context,
    decreases children.len(),
{
    if children.len() > 0 {
        let before = children.drop_last();
        let last = children.last();
        assert forall|i: int| 0 <= i < before.len() implies (#[trigger] before[i]).well_formed() by {
            assert(before[i] == children[i]);
        }
        if has_block(before) {
            let k = choose|k: int| 0 <= k < before.len() && (#[trigger] before[k]).box_type
                == BoxType::Block;
            assert(children[k] == before[k]);
        }
        if last.box_type == BoxType::Block {
            assert(children[children.len() - 1].box_type == BoxType::Block);
        }
        if has_block(children) {
            let k = choose|k: int| 0 <= k < children.len() && (#[trigger] children[k]).box_type
                == BoxType::Block;
            if k < before.len() {
                assert(before[k] == children[k]);
            }
        }
        lemma_with_children(b, before);
        lemma_with_child(b.with_children(before), last);
    }
}

/// Every box of a layout tree is well formed, and so is every candidate.
pub proof fn lemma_layout_well_formed(root: RenderNode)
    ensures
        layout_of(root) is Some ==> layout_of(root)->0.well_formed(),
    decreases root,
{
    match box_type_of(root.styled) {
        None => {},
        Some(box_type) => {
            let nodes = root.children@;
            let candidates = child_boxes(nodes, nodes.len() as int);
            lemma_child_boxes_well_formed(nodes, nodes.len() as int, root);
            let bare = bare_box(root.styled, box_type);
            let context = context_of(candidates, block_container_box(bare));
            let start = BoxView { formatting_context: context, ..bare };
            assert(start.children_fit());
            assert(!has_block(start.children));
            lemma_with_children(start, candidates);
        },
    }
}

/// The candidates that the children of `parent` generate are well formed.
pub proof fn lemma_child_boxes_well_formed(nodes: Seq<RenderNode>, n: int, parent: RenderNode)
    requires
        nodes == parent.children@,
    ensures
        forall|i: int|
            0 <= i < child_boxes(nodes, n).len() ==> (#[trigger] child_boxes(
                nodes,
                n,
            )[i]).well_formed(),
    decreases parent, n,
{
    if n <= 0 || n > nodes.len() {
    } else {
        lemma_child_boxes_well_formed(nodes, n - 1, parent);
        lemma_layout_well_formed(nodes[n - 1]);
        let before = child_boxes(nodes, n - 1);
        let all = child_boxes(nodes, n);
        assert forall|i: int| 0 <= i < all.len() implies (#[trigger] all[i]).well_formed() by {
            if i < before.len() {
                assert(all[i] == before[i]);
            }
        }
    }
}

/// The kind of box that the node generates.
pub fn get_box_type(root: &RenderNode) -> (r: Option<BoxType>)
    ensures
        r == box_type_of(root.styled),
{
    if is_text_node(root) {
        Some(BoxType::Anonymous)
    } else if is_block_level_element(root) {
        Some(BoxType::Block)
    } else if is_inline_level_element(root) {
        Some(BoxType::Inline)
    } else {
        None
    }
}

fn holds_block(boxes: &Vec<LayoutBox>) -> (r: bool)
    ensures
        r == has_block(box_views(boxes@)),
{
    proof {
        lemma_box_views(boxes@);
    }
    let mut i: usize = 0;
    while i < boxes.len()
        invariant
            i <= boxes.len(),
            box_views(boxes@).len() == boxes.len(),
            forall|k: int|
                0 <= k < boxes.len() ==> #[trigger] box_views(boxes@)[k] == boxes@[k]@,
            forall|k: int| 0 <= k < i ==> (#[trigger] box_views(boxes@)[k]).box_type
                != BoxType::Block,
        decreases boxes.len() - i,
    {
        let is_block = match boxes[i].box_type {
            BoxType::Block => true,
            _ => false,
        };
        if is_block {
            assert(box_views(boxes@)[i as int].box_type == BoxType::Block);
            return true;
        }
        i += 1;
    }
    false
}

/// Builds the layout tree of a styled tree.
///
/// The result is none where the root generates no box. Every box of the
/// tree is well formed: its formatting context is block exactly where a
/// direct child is a block, else inline where it is a block container,
/// else unset.
pub fn build_layout_tree(root: &RenderNode) -> (r: Option<LayoutBox>)
    ensures
        opt_box(r) == layout_of(*root),
        r is Some ==> r->0@.well_formed(),
    decreases root,
{
    proof {
        lemma_layout_well_formed(*root);
    }
    match get_box_type(root) {
        None => None,
        Some(root_box_type) => {
            let mut root_box = LayoutBox::new(root.styled, root_box_type);
            let mut children: Vec<LayoutBox> = Vec::new();
            let mut i: usize = 0;
            while i < root.children.len()
                invariant
                    i <= root.children.len(),
                    box_views(children@) == child_boxes(root.children@, i as int),
                decreases root.children.len() - i,
            {
                let ghost before = children@;
                match build_layout_tree(&root.children[i]) {
                    Some(child) => {
                        children.push(child);
                        assert(children@.drop_last() =~= before);
                    },
                    None => {},
                }
                i += 1;
            }
            let ghost candidates = box_views(children@);
            let has_block = holds_block(&children);
            if has_block {
                root_box.set_formatting_context(FormattingContext::Block);
            } else if is_block_container_box(&root_box) {
                root_box.set_formatting_context(FormattingContext::Inline);
            }
            let ghost start = root_box@;
            assert(start == (BoxView {
                formatting_context: context_of(
                    candidates,
                    block_container_box(bare_box(root.styled, root_box_type)),
                ),
                ..bare_box(root.styled, root_box_type)
            }));
            let n = children.len();
            let ghost all = children@;
            proof {
                lemma_box_views(all);
            }
            for child in it: children
                invariant
                    it.seq() == all,
                    candidates == box_views(all),
                    candidates.len() == all.len(),
                    forall|j: int| 0 <= j < all.len() ==> #[trigger] candidates[j] == all[j]@,
                    root_box@ == start.with_children(candidates.subrange(0, it.index() as int)),
            {
                let ghost k = it.index() as int;
                assert(child@ == candidates[k]);
                assert(candidates.subrange(0, k + 1).drop_last() =~= candidates.subrange(0, k));
                assert(candidates.subrange(0, k + 1).last() == candidates[k]);
                root_box.add_child(child);
            }
            assert(candidates.subrange(0, n as int) =~= candidates);
            Some(root_box)
        },
    }
}

} // verus!
