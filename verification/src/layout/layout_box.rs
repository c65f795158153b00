//! Layout boxes.

use crate::style::render_tree::RenderNodeRef;
use vstd::prelude::*;

verus! {

/// The kinds of box.
#[derive(Debug, Clone, Copy, PartialEq, Eq, Structural)]
pub enum BoxType {
    Block,
    Inline,
    Anonymous,
}

/// The rule by which a box lays out its children.
#[derive(Debug, Clone, Copy, PartialEq, Eq, Structural)]
pub enum FormattingContext {
    Block,
    Inline,
}

/// A box of the layout tree.
#[derive(Debug)]
pub struct LayoutBox {
    pub box_type: BoxType,
    pub render_node: Option<RenderNodeRef>,
    pub formatting_context: Option<FormattingContext>,
    pub parent_formatting_context: Option<FormattingContext>,
    pub children: Vec<LayoutBox>,
}

/// The mathematical value of a [`LayoutBox`].
pub struct BoxView {
    pub box_type: BoxType,
    pub render_node: Option<RenderNodeRef>,
    pub formatting_context: Option<FormattingContext>,
    pub parent_formatting_context: Option<FormattingContext>,
    pub children: Seq<BoxView>,
}

/// The value of a box.
pub open spec fn box_view(b: LayoutBox) -> BoxView
    decreases b,
{
    BoxView {
        box_type: b.box_type,
        render_node: b.render_node,
        formatting_context: b.formatting_context,
        parent_formatting_context: b.parent_formatting_context,
        children: box_views(b.children@),
    }
}

/// The values of a list of boxes.
pub open spec fn box_views(boxes: Seq<LayoutBox>) -> Seq<BoxView>
    decreases boxes,
{
    if boxes.len() == 0 {
        Seq::empty()
    } else {
        box_views(boxes.drop_last()).push(box_view(boxes.last()))
    }
}

/// The values of a list of boxes, one for one.
pub proof fn lemma_box_views(boxes: Seq<LayoutBox>)
    ensures
        box_views(boxes).len() == boxes.len(),
        forall|i: int| 0 <= i < boxes.len() ==> #[trigger] box_views(boxes)[i] == box_view(boxes[i]),
    decreases boxes.len(),
{
    if boxes.len() > 0 {
        lemma_box_views(boxes.drop_last());
        assert forall|i: int| 0 <= i < boxes.len() implies #[trigger] box_views(boxes)[i]
            == box_view(boxes[i]) by {
            if i < boxes.len() - 1 {
                assert(boxes.drop_last()[i] == boxes[i]);
            }
        }
    }
}

impl View for LayoutBox {
    type V = BoxView;

    open spec fn view(&self) -> BoxView {
        box_view(*self)
    }
}

/// The view of an optional box.
pub open spec fn opt_box(b: Option<LayoutBox>) -> Option<BoxView> {
    match b {
        Some(x) => Some(x@),
        None => None,
    }
}

impl BoxView {
    /// A box without a node that wraps inline content inside a block
    /// formatting context.
    pub open spec fn wrapper(children: Seq<BoxView>) -> BoxView {
        BoxView {
            box_type: BoxType::Anonymous,
            render_node: None,
            formatting_context: Some(FormattingContext::Inline),
            parent_formatting_context: Some(FormattingContext::Block),
            children,
        }
    }

    /// Whether the box is a wrapper.
    pub open spec fn is_wrapper(self) -> bool {
        self.box_type == BoxType::Anonymous && self.render_node is None
    }

    /// The box, told the formatting context of its parent.
    pub open spec fn under(self, context: FormattingContext) -> BoxView {
        BoxView { parent_formatting_context: Some(context), ..self }
    }

    /// The box with `child` added.
    ///
    /// In a block formatting context a block goes last among the children,
    /// and anything else goes into the wrapper that is the last child, or
    /// into a new wrapper where the last child is none. In an inline
    /// formatting context, or in none, the child goes last. The child is
    /// told the formatting context that it is placed in.
    pub open spec fn with_child(self, child: BoxView) -> BoxView {
        match self.formatting_context {
            Some(FormattingContext::Block) => if child.box_type == BoxType::Block {
                BoxView {
                    children: self.children.push(child.under(FormattingContext::Block)),
                    ..self
                }
            } else if self.children.len() > 0 && self.children.last().is_wrapper() {
                let last = self.children.last();
                BoxView {
                    children: self.children.drop_last().push(
                        BoxView {
                            children: last.children.push(child.under(FormattingContext::Inline)),
                            ..last
                        },
                    ),
                    ..self
                }
            } else {
                BoxView {
                    children: self.children.push(
                        Self::wrapper(seq![child.under(FormattingContext::Inline)]),
                    ),
                    ..self
                }
            },
            Some(FormattingContext::Inline) => BoxView {
                children: self.children.push(child.under(FormattingContext::Inline)),
                ..self
            },
            None => BoxView { children: self.children.push(child), ..self },
        }
    }

    /// The box with the children added in order.
    pub open spec fn with_children(self, children: Seq<BoxView>) -> BoxView
        decreases children.len(),
    {
        if children.len() == 0 {
            self
        } else {
            self.with_children(children.drop_last()).with_child(children.last())
        }
    }
}

impl LayoutBox {
    /// A box for the styled node, of the given kind, with no children and
    /// no formatting context yet.
    pub fn new(render_node: RenderNodeRef, box_type: BoxType) -> (r: LayoutBox)
        ensures
            r@ == (BoxView {
                box_type,
                render_node: Some(render_node),
                formatting_context: None,
                parent_formatting_context: None,
                children: Seq::empty(),
            }),
    {
        LayoutBox {
            box_type,
            render_node: Some(render_node),
            formatting_context: None,
            parent_formatting_context: None,
            children: Vec::new(),
        }
    }

    /// A wrapper without children.
    pub fn new_anonymous() -> (r: LayoutBox)
        ensures
            r@ == BoxView::wrapper(Seq::empty()),
    {
        LayoutBox {
            box_type: BoxType::Anonymous,
            render_node: None,
            formatting_context: Some(FormattingContext::Inline),
            parent_formatting_context: Some(FormattingContext::Block),
            children: Vec::new(),
        }
    }

    /// Whether the box is a wrapper.
    pub fn is_anonymous_wrapper(&self) -> (r: bool)
        ensures
            r == self@.is_wrapper(),
    {
        self.render_node.is_none() && match self.box_type {
            BoxType::Anonymous => true,
            _ => false,
        }
    }

    /// Sets the formatting context of the box.
    pub fn set_formatting_context(&mut self, context: FormattingContext)
        ensures
            final(self)@ == (BoxView { formatting_context: Some(context), ..old(self)@ }),
    {
        self.formatting_context = Some(context);
    }

    /// Tells the box the formatting context of its parent.
    pub fn set_parent_formatting_context(&mut self, context: FormattingContext)
        ensures
            final(self)@ == old(self)@.under(context),
    {
        self.parent_formatting_context = Some(context);
    }

    fn push_child(&mut self, child: LayoutBox)
        ensures
            final(self)@ == (BoxView { children: old(self)@.children.push(child@), ..old(self)@ }),
    {
        assert(self.children@.push(child).drop_last() =~= self.children@);
        self.children.push(child);
    }

    /// Adds `child` to the box, as [`BoxView::with_child`] says.
    pub fn add_child(&mut self, child: LayoutBox)
        ensures
            final(self)@ == old(self)@.with_child(child@),
    {
        let mut child = child;
        match self.formatting_context {
            Some(FormattingContext::Block) => {
                let is_block = match child.box_type {
                    BoxType::Block => true,
                    _ => false,
                };
                if is_block {
                    child.set_parent_formatting_context(FormattingContext::Block);
                    self.push_child(child);
                } else {
                    child.set_parent_formatting_context(FormattingContext::Inline);
                    let n = self.children.len();
                    let reuse = n > 0 && self.children[n - 1].is_anonymous_wrapper();
                    proof {
                        lemma_box_views(self.children@);
                    }
                    if reuse {
                        let ghost before = self.children@;
                        let last = self.children.pop();
                        match last {
                            Some(w) => {
                                let mut w = w;
                                assert(self.children@ =~= before.drop_last());
                                assert(box_views(before).drop_last() =~= box_views(
                                    before.drop_last(),
                                ));
                                assert(box_views(before).last() == box_view(w));
                                w.push_child(child);
                                self.push_child(w);
                            },
                            None => {},
                        }
                    } else {
                        let mut w = LayoutBox::new_anonymous();
                        w.push_child(child);
                        assert(w@.children =~= seq![child@]);
                        self.push_child(w);
                    }
                }
            },
            Some(FormattingContext::Inline) => {
                child.set_parent_formatting_context(FormattingContext::Inline);
                self.push_child(child);
            },
            None => {
                self.push_child(child);
            },
        }
    }
}

} // verus!
