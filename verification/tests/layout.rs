use render_core::dom::node::{Dom, NodeRef};
use render_core::layout::box_gen::{build_layout_tree, get_box_type};
use render_core::layout::is_block_container_box;
use render_core::layout::layout_box::{BoxType, FormattingContext, LayoutBox};
use render_core::style::cascade::{CSSLocation, CascadeOrigin};
use render_core::style::property::Property;
use render_core::style::render_tree::{build_render_tree, ContextualRule, RenderNode, StyleRule};
use render_core::style::selector_matching::{Selector, SimpleSelector};
use render_core::style::value::{Display, Value};

fn display_of(tag: &str) -> Display {
    match tag {
        "div" | "p" => Display::Block,
        "span" => Display::Inline,
        _ => Display::Hidden,
    }
}

fn element(dom: &mut Dom, tag: &str, children: Vec<RenderNode>) -> RenderNode {
    let node = dom.create_element(tag);
    let mut styled = RenderNode::element(node, display_of(tag));
    for child in children {
        styled.add_child(child);
    }
    styled
}

fn text(dom: &mut Dom, data: &str) -> RenderNode {
    let node = dom.create_text(data.to_string());
    RenderNode::text(node)
}

fn display_rule(names: &[&str], display: Display) -> ContextualRule {
    ContextualRule {
        inner: StyleRule {
            selectors: names
                .iter()
                .map(|name| Selector { parts: vec![SimpleSelector::Type(name.to_string())] })
                .collect(),
            declarations: vec![(Property::Display, Value::Display(display))],
        },
        location: CSSLocation::ExternalOrEmbedded,
        origin: CascadeOrigin::User,
    }
}

fn dom_element(dom: &mut Dom, tag: &str, children: Vec<NodeRef>) -> NodeRef {
    let node = dom.create_element(tag);
    for child in children {
        assert!(dom.append_child(node, child));
    }
    node
}

fn dom_text(dom: &mut Dom, data: &str) -> NodeRef {
    dom.create_text(data.to_string())
}

#[test]
fn test_build_tree() {
    let mut dom = Dom::new();
    let first = dom_text(&mut dom, "hello");
    let first = dom_element(&mut dom, "span", vec![first]);
    let second = dom_text(&mut dom, "world");
    let second = dom_element(&mut dom, "p", vec![second]);
    let third = dom_text(&mut dom, "hello");
    let third = dom_element(&mut dom, "span", vec![third]);
    let fourth = dom_text(&mut dom, "hello");
    let fourth = dom_element(&mut dom, "span", vec![fourth]);
    let root = dom_element(&mut dom, "div", vec![first, second, third, fourth]);

    let rules = vec![
        display_rule(&["div"], Display::Block),
        display_rule(&["p"], Display::Block),
        display_rule(&["span"], Display::Inline),
    ];

    let render_tree = build_render_tree(&dom, root, &rules);
    let layout_tree = build_layout_tree(&render_tree.unwrap()).unwrap();

    println!("------------------------");

    assert_eq!(layout_tree.box_type, BoxType::Block);
    assert_eq!(
        layout_tree.formatting_context,
        Some(FormattingContext::Block)
    );
    // span
    assert_eq!(layout_tree.children[0].box_type, BoxType::Anonymous);
    assert_eq!(
        layout_tree.children[0].formatting_context,
        Some(FormattingContext::Inline)
    );
    assert_eq!(
        layout_tree.children[0].children[0].box_type,
        BoxType::Inline
    );
    // p
    assert_eq!(layout_tree.children[1].box_type, BoxType::Block);
    assert_eq!(
        layout_tree.children[1].formatting_context,
        Some(FormattingContext::Inline)
    );
    assert_eq!(
        layout_tree.children[1].children[0].box_type,
        BoxType::Anonymous
    );
    // last 2 span is grouped
    assert_eq!(layout_tree.children[2].box_type, BoxType::Anonymous);
    assert_eq!(
        layout_tree.children[2].formatting_context,
        Some(FormattingContext::Inline)
    );
    assert_eq!(
        layout_tree.children[2].children[0].box_type,
        BoxType::Inline
    );
    assert_eq!(
        layout_tree.children[2].children[1].box_type,
        BoxType::Inline
    );
}

#[test]
fn the_tree_has_exactly_the_expected_boxes() {
    let mut dom = Dom::new();
    let first = text(&mut dom, "hello");
    let first = element(&mut dom, "span", vec![first]);
    let second = text(&mut dom, "world");
    let second = element(&mut dom, "p", vec![second]);
    let third = text(&mut dom, "hello");
    let third = element(&mut dom, "span", vec![third]);
    let root = element(&mut dom, "div", vec![first, second, third]);
    let div = root.styled.node;

    let tree = build_layout_tree(&root).unwrap();

    assert_eq!(tree.render_node.map(|s| s.node), Some(div));
    assert_eq!(tree.parent_formatting_context, None);
    assert_eq!(tree.children.len(), 3);
    let wrapper = &tree.children[0];
    assert!(wrapper.render_node.is_none());
    assert_eq!(wrapper.parent_formatting_context, Some(FormattingContext::Block));
    assert_eq!(wrapper.children.len(), 1);
    let span = &wrapper.children[0];
    assert_eq!(span.formatting_context, None);
    assert_eq!(span.parent_formatting_context, Some(FormattingContext::Inline));
    assert_eq!(span.children.len(), 1);
    assert_eq!(span.children[0].box_type, BoxType::Anonymous);
    assert!(span.children[0].render_node.is_some());
    assert_eq!(span.children[0].parent_formatting_context, None);
    let p = &tree.children[1];
    assert_eq!(p.parent_formatting_context, Some(FormattingContext::Block));
    assert_eq!(p.children.len(), 1);
    assert_eq!(p.children[0].parent_formatting_context, Some(FormattingContext::Inline));
    assert!(p.children[0].render_node.is_some());
    assert_eq!(tree.children[2].children.len(), 1);
}

fn check_rule(b: &LayoutBox) {
    let has_block = b.children.iter().any(|c| c.box_type == BoxType::Block);
    let expected = if has_block {
        Some(FormattingContext::Block)
    } else if is_block_container_box(b) {
        Some(FormattingContext::Inline)
    } else {
        None
    };
    assert_eq!(b.formatting_context, expected);
    for c in &b.children {
        match b.formatting_context {
            Some(FormattingContext::Block) => assert_ne!(c.box_type, BoxType::Inline),
            Some(FormattingContext::Inline) => assert_ne!(c.box_type, BoxType::Block),
            None => {}
        }
        if b.formatting_context.is_some() {
            assert_eq!(c.parent_formatting_context, b.formatting_context);
        }
        check_rule(c);
    }
}

#[test]
fn formatting_context_rule_holds_of_every_box() {
    let mut dom = Dom::new();
    let t1 = text(&mut dom, "a");
    let inner_div = element(&mut dom, "div", vec![]);
    let span_with_block = element(&mut dom, "span", vec![t1, inner_div]);
    let t2 = text(&mut dom, "b");
    let t3 = text(&mut dom, "c");
    let p = element(&mut dom, "p", vec![t3]);
    let hidden_text = text(&mut dom, "never");
    let hidden = element(&mut dom, "script", vec![hidden_text]);
    let root = element(&mut dom, "div", vec![t2, span_with_block, hidden, p]);

    let tree = build_layout_tree(&root).unwrap();

    check_rule(&tree);
    assert_eq!(tree.children.len(), 2);
    assert_eq!(tree.children[0].children.len(), 2);
    let span = &tree.children[0].children[1];
    assert_eq!(span.box_type, BoxType::Inline);
    assert_eq!(span.formatting_context, Some(FormattingContext::Block));
    assert_eq!(span.children.len(), 2);
    assert_eq!(span.children[0].box_type, BoxType::Anonymous);
    assert!(span.children[0].render_node.is_none());
    assert_eq!(span.children[1].box_type, BoxType::Block);
}

#[test]
fn a_root_without_box_gives_no_tree() {
    let mut dom = Dom::new();
    let t = text(&mut dom, "a");
    let root = element(&mut dom, "script", vec![t]);

    assert!(build_layout_tree(&root).is_none());
}

fn styled(dom: &mut Dom, display: Display) -> RenderNode {
    let node: NodeRef = dom.create_element("x");
    RenderNode::element(node, display)
}

#[test]
fn box_types() {
    let mut dom = Dom::new();
    for d in [Display::Block, Display::FlowRoot, Display::ListItem, Display::Table, Display::Flex, Display::Grid] {
        assert_eq!(get_box_type(&styled(&mut dom, d)), Some(BoxType::Block));
    }
    for d in [Display::Inline, Display::InlineBlock, Display::InlineTable, Display::InlineFlex, Display::InlineGrid] {
        assert_eq!(get_box_type(&styled(&mut dom, d)), Some(BoxType::Inline));
    }
    for d in [Display::Hidden, Display::Contents] {
        assert_eq!(get_box_type(&styled(&mut dom, d)), None);
    }
    assert_eq!(get_box_type(&text(&mut dom, "t")), Some(BoxType::Anonymous));
}

#[test]
fn an_inline_block_is_a_block_container() {
    let mut dom = Dom::new();
    let t = text(&mut dom, "a");
    let node = dom.create_element("x");
    let mut root = RenderNode::element(node, Display::InlineBlock);
    root.add_child(t);

    let tree = build_layout_tree(&root).unwrap();

    assert_eq!(tree.box_type, BoxType::Inline);
    assert_eq!(tree.formatting_context, Some(FormattingContext::Inline));
    assert_eq!(tree.children[0].parent_formatting_context, Some(FormattingContext::Inline));

    let table = styled(&mut dom, Display::Table);
    let tree = build_layout_tree(&table).unwrap();
    assert_eq!(tree.box_type, BoxType::Block);
    assert_eq!(tree.formatting_context, None);
}
