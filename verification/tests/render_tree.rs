use render_core::dom::node::{Dom, NodeRef, NodeType};
use render_core::painting::color::Color;
use render_core::style::cascade::{CSSLocation, CascadeOrigin};
use render_core::style::computes::{compute, initial_value, ComputedStyle};
use render_core::style::property::Property;
use render_core::style::render_tree::{
    build_render_tree, collect_declarations, ContextualRule, StyleRule,
};
use render_core::style::selector_matching::{Selector, SimpleSelector};
use render_core::style::value::{Display, LengthUnit, Value};

fn rule(
    selectors: Vec<Vec<SimpleSelector>>,
    declarations: Vec<(Property, Value)>,
    origin: CascadeOrigin,
) -> ContextualRule {
    ContextualRule {
        inner: StyleRule {
            selectors: selectors.into_iter().map(|parts| Selector { parts }).collect(),
            declarations,
        },
        origin,
        location: CSSLocation::ExternalOrEmbedded,
    }
}

fn of_type(name: &str) -> Vec<SimpleSelector> {
    vec![SimpleSelector::Type(name.to_string())]
}

fn of_class(name: &str) -> Vec<SimpleSelector> {
    vec![SimpleSelector::Class(name.to_string())]
}

fn red() -> Value {
    Value::Color(Color::rgb(255, 0, 0))
}

fn blue() -> Value {
    Value::Color(Color::rgb(0, 0, 255))
}

fn black() -> Value {
    Value::Color(Color::rgb(0, 0, 0))
}

struct Page {
    dom: Dom,
    body: NodeRef,
    p: NodeRef,
    text: NodeRef,
    span: NodeRef,
}

fn page() -> Page {
    let mut dom = Dom::new();
    let body = dom.create_element("body");
    let p = dom.create_element("p");
    let text = dom.create_text("hello".to_string());
    let comment = dom.create_node(NodeType::Comment);
    let span = dom.create_element("span");
    dom.append_child(body, p);
    dom.append_child(body, comment);
    dom.append_child(body, span);
    dom.append_child(p, text);
    dom.set_attribute(p, "class", "note");
    Page { dom, body, p, text, span }
}

#[test]
fn initial_values() {
    assert_eq!(initial_value(&Property::Display), Value::Display(Display::Inline));
    assert_eq!(initial_value(&Property::Color), black());
    assert_eq!(
        initial_value(&Property::BackgroundColor),
        Value::Color(Color::new(0, 0, 0, 0))
    );
    assert_eq!(initial_value(&Property::FontSize), Value::Length(16000, LengthUnit::Px));
    assert_eq!(initial_value(&Property::MarginLeft), Value::Length(0, LengthUnit::Px));
    assert_eq!(initial_value(&Property::PaddingTop), Value::Length(0, LengthUnit::Px));
    assert_eq!(initial_value(&Property::BorderTopWidth), Value::Length(3000, LengthUnit::Px));
}

#[test]
fn computed_values() {
    let auto = Value::Auto;
    let zero = Value::Length(0, LengthUnit::Px);
    assert_eq!(compute(&Property::Color, Some(blue()), Some(red())), blue());
    assert_eq!(compute(&Property::Color, None, Some(red())), red());
    assert_eq!(compute(&Property::Color, None, None), black());
    assert_eq!(compute(&Property::Color, Some(Value::Inherit), Some(red())), red());
    assert_eq!(compute(&Property::Color, Some(Value::Inherit), None), black());
    assert_eq!(compute(&Property::Color, Some(Value::Initial), Some(red())), black());
    assert_eq!(compute(&Property::MarginTop, None, Some(auto)), zero);
    assert_eq!(compute(&Property::MarginTop, Some(Value::Inherit), Some(auto)), auto);
    assert_eq!(compute(&Property::MarginTop, Some(Value::Initial), Some(auto)), zero);
    assert_eq!(compute(&Property::MarginTop, Some(auto), None), auto);
}

#[test]
fn a_style_has_every_property() {
    let style = ComputedStyle::new(&vec![], None);

    for property in [
        Property::Display,
        Property::Color,
        Property::BackgroundColor,
        Property::FontSize,
        Property::MarginTop,
        Property::MarginRight,
        Property::MarginBottom,
        Property::MarginLeft,
        Property::PaddingTop,
        Property::PaddingRight,
        Property::PaddingBottom,
        Property::PaddingLeft,
        Property::BorderTopWidth,
        Property::BorderRightWidth,
        Property::BorderBottomWidth,
        Property::BorderLeftWidth,
    ] {
        assert_eq!(style.get(&property), initial_value(&property));
    }
}

#[test]
fn declarations_of_matching_rules_in_rule_order() {
    let page = page();
    let rules = vec![
        rule(vec![of_type("span")], vec![(Property::Color, red())], CascadeOrigin::Author),
        rule(
            vec![of_type("div"), of_class("note"), of_type("p")],
            vec![(Property::Color, blue()), (Property::MarginTop, Value::Auto)],
            CascadeOrigin::User,
        ),
        rule(vec![of_type("p")], vec![], CascadeOrigin::Author),
        rule(vec![of_type("p")], vec![(Property::Display, Value::Display(Display::Block))], CascadeOrigin::UserAgent),
    ];

    let found = collect_declarations(&rules, page.dom.element(page.p).unwrap());

    assert_eq!(found.len(), 3);
    assert_eq!((found[0].property, found[0].value), (Property::Color, blue()));
    assert_eq!(found[0].origin, CascadeOrigin::User);
    assert_eq!(found[0].location, CSSLocation::ExternalOrEmbedded);
    assert_eq!(
        (found[0].specificity.ids, found[0].specificity.classes, found[0].specificity.types),
        (0, 1, 0)
    );
    assert_eq!((found[1].property, found[1].value), (Property::MarginTop, Value::Auto));
    assert_eq!(found[2].property, Property::Display);
    assert_eq!(found[2].origin, CascadeOrigin::UserAgent);
    assert_eq!(found[2].specificity.types, 1);
    assert!(collect_declarations(&rules, page.dom.element(page.body).unwrap()).is_empty());
}

#[test]
fn the_styled_tree_follows_the_document() {
    let page = page();
    let rules = vec![
        rule(
            vec![of_type("body"), of_type("p")],
            vec![(Property::Display, Value::Display(Display::Block))],
            CascadeOrigin::UserAgent,
        ),
        rule(vec![of_type("body")], vec![(Property::Color, red())], CascadeOrigin::Author),
        rule(
            vec![of_class("note")],
            vec![(Property::MarginTop, Value::Auto), (Property::FontSize, Value::Inherit)],
            CascadeOrigin::Author,
        ),
        rule(vec![of_type("span")], vec![(Property::Color, blue())], CascadeOrigin::User),
        rule(vec![of_type("span")], vec![(Property::Color, Value::Initial)], CascadeOrigin::Author),
    ];

    let tree = build_render_tree(&page.dom, page.body, &rules).unwrap();

    assert_eq!(tree.styled.node, page.body);
    assert_eq!(tree.styled.node_type, NodeType::Element);
    assert_eq!(tree.styled.display, Display::Block);
    assert_eq!(tree.style.get(&Property::Color), red());
    assert_eq!(tree.children.len(), 2);

    let p = &tree.children[0];
    assert_eq!(p.styled.node, page.p);
    assert_eq!(p.styled.display, Display::Block);
    assert_eq!(p.style.get(&Property::Display), Value::Display(Display::Block));
    assert_eq!(p.style.get(&Property::Color), red());
    assert_eq!(p.style.get(&Property::MarginTop), Value::Auto);
    assert_eq!(p.style.get(&Property::FontSize), Value::Length(16000, LengthUnit::Px));
    assert_eq!(p.children.len(), 1);

    let text = &p.children[0];
    assert_eq!(text.styled.node, page.text);
    assert_eq!(text.styled.node_type, NodeType::Text);
    assert_eq!(text.styled.display, Display::Inline);
    assert_eq!(text.style.get(&Property::Color), red());
    assert_eq!(text.style.get(&Property::MarginTop), Value::Length(0, LengthUnit::Px));
    assert!(text.children.is_empty());

    let span = &tree.children[1];
    assert_eq!(span.styled.node, page.span);
    assert_eq!(span.styled.display, Display::Inline);
    assert_eq!(span.style.get(&Property::Color), black());
    assert_eq!(span.style.get(&Property::MarginTop), Value::Length(0, LengthUnit::Px));
}

#[test]
fn a_node_that_is_not_rendered_gives_no_tree() {
    let mut dom = Dom::new();
    let document = dom.create_node(NodeType::Document);
    let comment = dom.create_node(NodeType::Comment);
    let text = dom.create_text("x".to_string());

    assert!(build_render_tree(&dom, document, &vec![]).is_none());
    assert!(build_render_tree(&dom, comment, &vec![]).is_none());
    assert!(build_render_tree(&dom, NodeRef(40), &vec![]).is_none());
    let tree = build_render_tree(&dom, text, &vec![]).unwrap();
    assert_eq!(tree.styled.node_type, NodeType::Text);
    assert_eq!(tree.style.get(&Property::Color), black());
}
