//! The styled tree: the nodes of a document that take part in rendering,
//! each with its computed style.

use crate::dom::element::{Element, ElementView};
use crate::dom::node::{strong, Dom, DomView, NodeRef, NodeType, PayloadView};
use crate::style::cascade::{CSSLocation, CascadeOrigin, Declaration};
use crate::style::computes::{opt_style, style_for, value_in, ComputedStyle};
use crate::style::property::Property;
use crate::style::selector_matching::{
    best_match,
    rule_matches,
    selector_views,
    Selector,
    SimpleView,
};
use crate::style::value::{Display, Value};
use vstd::prelude::*;

verus! {

/// What layout knows of a styled node: which node it is, of what kind, and
/// its computed `display`.
#[derive(Debug, Clone, Copy, PartialEq, Eq, Structural)]
pub struct RenderNodeRef {
    pub node: NodeRef,
    pub node_type: NodeType,
    pub display: Display,
}

/// A node of the styled tree.
#[derive(Debug)]
pub struct RenderNode {
    pub styled: RenderNodeRef,
    pub style: ComputedStyle,
    pub children: Vec<RenderNode>,
}

/// The mathematical value of a [`RenderNode`].
pub struct RenderView {
    pub styled: RenderNodeRef,
    pub style: Seq<Value>,
    pub children: Seq<RenderView>,
}

/// The value of a styled node.
pub open spec fn render_view(node: RenderNode) -> RenderView
    decreases node,
{
    RenderView {
        styled: node.styled,
        style: node.style@,
        children: render_views(node.children@, node.children@.len() as int),
    }
}

/// The values of the first `n` of a list of styled nodes.
pub open spec fn render_views(nodes: Seq<RenderNode>, n: int) -> Seq<RenderView>
    decreases nodes, n,
{
    if n <= 0 || n > nodes.len() {
        Seq::empty()
    } else {
        render_views(nodes, n - 1).push(render_view(nodes[n - 1]))
    }
}

/// The values of a list of styled nodes do not depend on what follows them.
pub proof fn lemma_render_views_prefix(nodes: Seq<RenderNode>, more: Seq<RenderNode>, n: int)
    requires
        0 <= n <= nodes.len(),
        nodes.len() <= more.len(),
        forall|i: int| 0 <= i < nodes.len() ==> nodes[i] == more[i],
    ensures
        render_views(nodes, n) == render_views(more, n),
    decreases n,
{
    if n > 0 {
        lemma_render_views_prefix(nodes, more, n - 1);
    }
}

impl View for RenderNode {
    type V = RenderView;

    open spec fn view(&self) -> RenderView {
        render_view(*self)
    }
}

/// The view of an optional styled node.
pub open spec fn opt_render(node: Option<RenderNode>) -> Option<RenderView> {
    match node {
        Some(n) => Some(n@),
        None => None,
    }
}

/// A style rule: the selectors, and the declarations that hold of an
/// element that one of the selectors matches.
#[derive(Debug, Clone)]
pub struct StyleRule {
    pub selectors: Vec<Selector>,
    pub declarations: Vec<(Property, Value)>,
}

/// A style rule with where it comes from.
#[derive(Debug, Clone)]
pub struct ContextualRule {
    pub inner: StyleRule,
    pub origin: CascadeOrigin,
    pub location: CSSLocation,
}

/// The mathematical value of a [`ContextualRule`].
pub struct RuleView {
    pub selectors: Seq<Seq<SimpleView>>,
    pub declarations: Seq<(Property, Value)>,
    pub origin: CascadeOrigin,
    pub location: CSSLocation,
}

impl View for ContextualRule {
    type V = RuleView;

    open spec fn view(&self) -> RuleView {
        RuleView {
            selectors: selector_views(self.inner.selectors@),
            declarations: self.inner.declarations@,
            origin: self.origin,
            location: self.location,
        }
    }
}

/// The views of a list of rules.
pub open spec fn rule_views(rules: Seq<ContextualRule>) -> Seq<RuleView> {
    Seq::new(rules.len(), |i: int| rules[i]@)
}

/// The declarations that a rule gives an element: all of the rule's, each
/// with the rule's origin and location and with the specificity of the
/// match, where the rule matches; none where it does not.
pub open spec fn rule_declarations(rule: RuleView, element: ElementView) -> Seq<Declaration> {
    match best_match(rule.selectors, element, rule.selectors.len() as int) {
        Some(specificity) => Seq::new(
            rule.declarations.len(),
            |i: int|
                Declaration {
                    property: rule.declarations[i].0,
                    value: rule.declarations[i].1,
                    origin: rule.origin,
                    location: rule.location,
                    specificity,
                },
        ),
        None => Seq::empty(),
    }
}

/// The declarations that the first `n` rules give an element, in the
/// order of the rules.
pub open spec fn declarations_for(rules: Seq<RuleView>, element: ElementView, n: int) -> Seq<
    Declaration,
>
    decreases n,
{
    if n <= 0 || n > rules.len() {
        Seq::empty()
    } else {
        declarations_for(rules, element, n - 1) + rule_declarations(rules[n - 1], element)
    }
}

/// The `display` of a style; inline where the style holds no value of
/// `display` for it.
pub open spec fn display_in(style: Seq<Value>) -> Display {
    match value_in(style, Property::Display) {
        Value::Display(d) => d,
        _ => Display::Inline,
    }
}

/// The styled tree below the node at `i`, at most `fuel` levels deep.
///
/// An element is styled by the declarations of the rules that match it and
/// by what it inherits, and its children follow in document order. A text
/// node flows inline and inherits. Any other node, and everything below
/// it, is left out.
pub open spec fn styled_tree(
    dom: DomView,
    i: int,
    rules: Seq<RuleView>,
    parent: Option<Seq<Value>>,
    fuel: nat,
) -> Option<RenderView>
    decreases fuel, 0int,
{
    if fuel == 0 || !dom.has(i) {
        None
    } else {
        match dom.payload_at(i) {
            PayloadView::Element(e) => {
                let style = style_for(declarations_for(rules, e, rules.len() as int), parent);
                Some(
                    RenderView {
                        styled: RenderNodeRef {
                            node: NodeRef(i as usize),
                            node_type: NodeType::Element,
                            display: display_in(style),
                        },
                        style,
                        children: styled_children(
                            dom,
                            dom.children[i],
                            rules,
                            style,
                            (fuel - 1) as nat,
                            dom.children[i].len() as int,
                        ),
                    },
                )
            },
            PayloadView::Characters(_) => if dom.nodes[i].node_type == NodeType::Text {
                Some(
                    RenderView {
                        styled: RenderNodeRef {
                            node: NodeRef(i as usize),
                            node_type: NodeType::Text,
                            display: Display::Inline,
                        },
                        style: style_for(Seq::empty(), parent),
                        children: Seq::empty(),
                    },
                )
            } else {
                None
            },
            PayloadView::Empty => None,
        }
    }
}

/// The styled trees below the first `n` of the nodes at `list`, in order.
pub open spec fn styled_children(
    dom: DomView,
    list: Seq<int>,
    rules: Seq<RuleView>,
    parent: Seq<Value>,
    fuel: nat,
    n: int,
) -> Seq<RenderView>
    decreases fuel, n,
{
    if n <= 0 || n > list.len() {
        Seq::empty()
    } else {
        let before = styled_children(dom, list, rules, parent, fuel, n - 1);
        match styled_tree(dom, list[n - 1], rules, Some(parent), fuel) {
            Some(t) => before.push(t),
            None => before,
        }
    }
}

/// The declarations that the rules give an element.
pub fn collect_declarations(rules: &Vec<ContextualRule>, element: &Element) -> (r: Vec<
    Declaration,
>)
    ensures
        r@ == declarations_for(rule_views(rules@), element@, rules.len() as int),
{
    let mut out: Vec<Declaration> = Vec::new();
    let mut i: usize = 0;
    while i < rules.len()
        invariant
            i <= rules.len(),
            out@ == declarations_for(rule_views(rules@), element@, i as int),
        decreases rules.len() - i,
    {
        let rule = &rules[i];
        assert(rule_views(rules@)[i as int] == rule@);
        let ghost before = out@;
        match rule_matches(&rule.inner.selectors, element) {
            Some(specificity) => {
                let mut k: usize = 0;
                while k < rule.inner.declarations.len()
                    invariant
                        k <= rule.inner.declarations.len(),
                        out@.len() == before.len() + k,
                        forall|j: int| 0 <= j < before.len() ==> out@[j] == before[j],
                        forall|j: int|
                            0 <= j < k ==> out@[before.len() + j] == (Declaration {
                                property: rule.inner.declarations@[j].0,
                                value: rule.inner.declarations@[j].1,
                                origin: rule.origin,
                                location: rule.location,
                                specificity,
                            }),
                    decreases rule.inner.declarations.len() - k,
                {
                    let d = &rule.inner.declarations[k];
                    out.push(
                        Declaration {
                            property: d.0,
                            value: d.1,
                            origin: rule.origin,
                            location: rule.location,
                            specificity,
                        },
                    );
                    k += 1;
                }
                assert(out@ =~= before + rule_declarations(rule@, element@));
            },
            None => {
                assert(before + rule_declarations(rule@, element@) =~= before);
            },
        }
        i += 1;
    }
    out
}

fn display_of(style: &ComputedStyle) -> (r: Display)
    ensures
        r == display_in(style@),
{
    match style.get(&Property::Display) {
        Value::Display(d) => d,
        _ => Display::Inline,
    }
}

impl RenderNode {
    /// A styled element without children, with the given `display` and
    /// with the initial value of every other property.
    pub fn element(node: NodeRef, display: Display) -> (r: RenderNode)
        ensures
            r.styled == (RenderNodeRef { node, node_type: NodeType::Element, display }),
            r.style@ == style_for(seq![display_declaration(display)], None),
            r.children@.len() == 0,
    {
        let mut declarations: Vec<Declaration> = Vec::new();
        declarations.push(
            Declaration {
                property: Property::Display,
                value: Value::Display(display),
                origin: CascadeOrigin::Author,
                location: CSSLocation::Inline,
                specificity: crate::style::cascade::Specificity { ids: 0, classes: 0, types: 0 },
            },
        );
        assert(declarations@ =~= seq![display_declaration(display)]);
        RenderNode {
            styled: RenderNodeRef { node, node_type: NodeType::Element, display },
            style: ComputedStyle::new(&declarations, None),
            children: Vec::new(),
        }
    }

    /// A styled text node without a parent. Text flows inline.
    pub fn text(node: NodeRef) -> (r: RenderNode)
        ensures
            r.styled == (RenderNodeRef {
                node,
                node_type: NodeType::Text,
                display: Display::Inline,
            }),
            r.style@ == style_for(Seq::empty(), None),
            r.children@.len() == 0,
    {
        let declarations: Vec<Declaration> = Vec::new();
        RenderNode {
            styled: RenderNodeRef { node, node_type: NodeType::Text, display: Display::Inline },
            style: ComputedStyle::new(&declarations, None),
            children: Vec::new(),
        }
    }

    /// Adds `child` as the last child.
    pub fn add_child(&mut self, child: RenderNode)
        ensures
            final(self).styled == old(self).styled,
            final(self).style == old(self).style,
            final(self).children@ == old(self).children@.push(child),
    {
        self.children.push(child);
    }
}

/// The declaration that sets `display` on an element itself.
pub open spec fn display_declaration(display: Display) -> Declaration {
    Declaration {
        property: Property::Display,
        value: Value::Display(display),
        origin: CascadeOrigin::Author,
        location: CSSLocation::Inline,
        specificity: crate::style::cascade::Specificity { ids: 0, classes: 0, types: 0 },
    }
}

fn build_node(
    dom: &Dom,
    node: NodeRef,
    rules: &Vec<ContextualRule>,
    parent: Option<&ComputedStyle>,
    fuel: usize,
) -> (r: Option<RenderNode>)
    ensures
        opt_render(r) == styled_tree(
            dom@,
            node.0 as int,
            rule_views(rules@),
            opt_style(parent),
            fuel as nat,
        ),
    decreases fuel,
{
    proof {
        use_type_invariant(dom);
    }
    if fuel == 0 || node.0 >= dom.len() {
        return None;
    }
    let ghost i = node.0 as int;
    assert(dom@.payload_fits(i));
    match dom.element(node) {
        Some(element) => {
            let declarations = collect_declarations(rules, element);
            let style = ComputedStyle::new(&declarations, parent);
            let display = display_of(&style);
            let ghost list = dom@.children[i];
            let mut children: Vec<RenderNode> = Vec::new();
            let mut child = node.first_child(dom);
            let ghost mut k: int = 0;
            proof {
                assert(dom@.parent_linked(i));
            }
            loop
                invariant
                    dom@.well_formed(),
                    dom@.has(i),
                    list == dom@.children[i],
                    0 <= k <= list.len(),
                    fuel >= 1,
                    strong(child) == (if k < list.len() {
                        Some(list[k])
                    } else {
                        None
                    }),
                    render_views(children@, children@.len() as int) == styled_children(
                        dom@,
                        list,
                        rule_views(rules@),
                        style@,
                        (fuel - 1) as nat,
                        k,
                    ),
                ensures
                    k == list.len(),
                decreases list.len() - k,
            {
                match child {
                    Some(c) => {
                        proof {
                            assert(dom@.child_linked(i, k));
                        }
                        let ghost before = children@;
                        match build_node(dom, c, rules, Some(&style), fuel - 1) {
                            Some(sub) => {
                                children.push(sub);
                                proof {
                                    lemma_render_views_prefix(
                                        before,
                                        children@,
                                        before.len() as int,
                                    );
                                }
                            },
                            None => {},
                        }
                        child = c.next_sibling(dom);
                        proof {
                            k = k + 1;
                        }
                    },
                    None => {
                        break ;
                    },
                }
            }
            let out = RenderNode {
                styled: RenderNodeRef { node, node_type: NodeType::Element, display },
                style,
                children,
            };
            assert(k == list.len());
            assert(out@.children == styled_children(
                dom@,
                list,
                rule_views(rules@),
                out@.style,
                (fuel - 1) as nat,
                list.len() as int,
            ));
            assert(dom@.payload_at(i) == PayloadView::Element(element@));
            Some(out)
        },
        None => {
            let is_text = match node.node_type(dom) {
                NodeType::Text => true,
                _ => false,
            };
            if is_text && dom.characters(node).is_some() {
                let declarations: Vec<Declaration> = Vec::new();
                assert(declarations@ =~= Seq::empty());
                let out = RenderNode {
                    styled: RenderNodeRef {
                        node,
                        node_type: NodeType::Text,
                        display: Display::Inline,
                    },
                    style: ComputedStyle::new(&declarations, parent),
                    children: Vec::new(),
                };
                assert(out@.children =~= Seq::empty());
                assert(dom@.payload_at(i) is Characters);
                Some(out)
            } else {
                None
            }
        },
    }
}

/// Builds the styled tree below `root`.
///
/// An element is styled by the declarations of the rules that match it and
/// by what it inherits from its parent in the styled tree. The result is
/// `None` where `root` is neither an element nor a text node.
pub fn build_render_tree(dom: &Dom, root: NodeRef, rules: &Vec<ContextualRule>) -> (r: Option<
    RenderNode,
>)
    ensures
        opt_render(r) == styled_tree(
            dom@,
            root.0 as int,
            rule_views(rules@),
            None,
            dom@.nodes.len(),
        ),
{
    build_node(dom, root, rules, None, dom.len())
}

} // verus!
