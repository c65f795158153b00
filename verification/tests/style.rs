use render_core::painting::color::Color;
use render_core::style::expand::margin::{expand_border_width, expand_margin, expand_padding};
use render_core::style::inheritable::{is_inheritable, resolve};
use render_core::style::property::Property;
use render_core::style::value::{ComponentValue, Display, LengthUnit, Value};

fn px(n: i32) -> Vec<ComponentValue> {
    vec![ComponentValue::Dimension(n * 1000, "px".to_string())]
}

fn ident(name: &str) -> Vec<ComponentValue> {
    vec![ComponentValue::Ident(name.to_string())]
}

fn length(n: i32) -> Option<Value> {
    Some(Value::Length(n * 1000, LengthUnit::Px))
}

fn margin(runs: &[Vec<ComponentValue>]) -> Option<Vec<(Property, Option<Value>)>> {
    let slices: Vec<&[ComponentValue]> = runs.iter().map(|r| r.as_slice()).collect();
    expand_margin(&slices)
}

#[test]
fn margin_with_one_value() {
    assert_eq!(
        margin(&[px(10)]),
        Some(vec![
            (Property::MarginTop, length(10)),
            (Property::MarginRight, length(10)),
            (Property::MarginBottom, length(10)),
            (Property::MarginLeft, length(10)),
        ])
    );
}

#[test]
fn margin_with_two_values() {
    assert_eq!(
        margin(&[px(1), px(2)]),
        Some(vec![
            (Property::MarginTop, length(1)),
            (Property::MarginRight, length(2)),
            (Property::MarginBottom, length(1)),
            (Property::MarginLeft, length(2)),
        ])
    );
}

#[test]
fn margin_with_three_values_leaves_left_unset() {
    assert_eq!(
        margin(&[px(1), px(2), px(3)]),
        Some(vec![
            (Property::MarginTop, length(1)),
            (Property::MarginRight, length(2)),
            (Property::MarginBottom, length(3)),
            (Property::MarginLeft, None),
        ])
    );
}

#[test]
fn margin_with_four_values() {
    assert_eq!(
        margin(&[px(1), px(2), px(3), px(4)]),
        Some(vec![
            (Property::MarginTop, length(1)),
            (Property::MarginRight, length(2)),
            (Property::MarginBottom, length(3)),
            (Property::MarginLeft, length(4)),
        ])
    );
}

#[test]
fn margin_with_an_invalid_component_gives_nothing() {
    assert_eq!(margin(&[px(1), ident("nonsense")]), None);
    assert_eq!(margin(&[ident("nonsense")]), None);
    assert_eq!(margin(&[px(1), px(2), ident("nonsense")]), None);
    assert_eq!(margin(&[px(1), px(2), px(3), ident("nonsense")]), None);
    assert_eq!(margin(&[ident("nonsense"), px(2), px(3), px(4)]), None);
}

#[test]
fn margin_with_no_value_or_too_many_gives_nothing() {
    assert_eq!(margin(&[]), None);
    assert_eq!(margin(&[px(1), px(2), px(3), px(4), px(5)]), None);
    let two_components = vec![px(1)[0].clone(), px(2)[0].clone()];
    assert_eq!(margin(&[two_components]), None);
}

#[test]
fn margin_takes_auto_and_percentages() {
    assert_eq!(
        margin(&[ident("auto"), vec![ComponentValue::Percentage(50_000)]]),
        Some(vec![
            (Property::MarginTop, Some(Value::Auto)),
            (Property::MarginRight, Some(Value::Percentage(50_000))),
            (Property::MarginBottom, Some(Value::Auto)),
            (Property::MarginLeft, Some(Value::Percentage(50_000))),
        ])
    );
}

#[test]
fn padding_and_border_width_follow_the_same_rule() {
    let runs = [px(1), px(2)];
    let slices: Vec<&[ComponentValue]> = runs.iter().map(|r| r.as_slice()).collect();
    assert_eq!(
        expand_padding(&slices),
        Some(vec![
            (Property::PaddingTop, length(1)),
            (Property::PaddingRight, length(2)),
            (Property::PaddingBottom, length(1)),
            (Property::PaddingLeft, length(2)),
        ])
    );
    assert_eq!(
        expand_border_width(&slices),
        Some(vec![
            (Property::BorderTopWidth, length(1)),
            (Property::BorderRightWidth, length(2)),
            (Property::BorderBottomWidth, length(1)),
            (Property::BorderLeftWidth, length(2)),
        ])
    );
    let auto = [ident("auto")];
    let slices: Vec<&[ComponentValue]> = auto.iter().map(|r| r.as_slice()).collect();
    assert_eq!(expand_padding(&slices), None);
    let negative = [px(-1)];
    let slices: Vec<&[ComponentValue]> = negative.iter().map(|r| r.as_slice()).collect();
    assert_eq!(expand_border_width(&slices), None);
    assert!(expand_padding(&slices).is_some());
}

#[test]
fn values_of_properties() {
    assert_eq!(Value::parse(&Property::Display, &ident("block")), Some(Value::Display(Display::Block)));
    assert_eq!(Value::parse(&Property::Display, &ident("none")), Some(Value::Display(Display::Hidden)));
    assert_eq!(Value::parse(&Property::Display, &ident("inline-block")), Some(Value::Display(Display::InlineBlock)));
    assert_eq!(Value::parse(&Property::Display, &ident("sideways")), None);
    assert_eq!(Value::parse(&Property::Display, &px(1)), None);
    assert_eq!(Value::parse(&Property::Color, &ident("red")), Some(Value::Color(Color::rgb(255, 0, 0))));
    assert_eq!(Value::parse(&Property::Color, &ident("inherit")), Some(Value::Inherit));
    assert_eq!(Value::parse(&Property::MarginTop, &ident("initial")), Some(Value::Initial));
    assert_eq!(Value::parse(&Property::MarginTop, &[ComponentValue::Number(0)]), Some(Value::Length(0, LengthUnit::Px)));
    assert_eq!(Value::parse(&Property::MarginTop, &[ComponentValue::Number(1000)]), None);
    assert_eq!(
        Value::parse(&Property::FontSize, &[ComponentValue::Dimension(1500, "em".to_string())]),
        Some(Value::Length(1500, LengthUnit::Em))
    );
    assert_eq!(Value::parse(&Property::FontSize, &[ComponentValue::Dimension(1500, "furlong".to_string())]), None);
    assert_eq!(Value::parse(&Property::FontSize, &[]), None);
}

#[test]
fn color_and_font_size_are_inherited() {
    assert!(is_inheritable(&Property::Color));
    assert!(is_inheritable(&Property::FontSize));
    assert!(!is_inheritable(&Property::MarginTop));
    assert!(!is_inheritable(&Property::Display));

    let red = Value::Color(Color::rgb(255, 0, 0));
    let black = Value::Color(Color::rgb(0, 0, 0));
    let blue = Value::Color(Color::rgb(0, 0, 255));
    assert_eq!(resolve(&Property::Color, None, Some(red), black), red);
    assert_eq!(resolve(&Property::Color, None, None, black), black);
    assert_eq!(resolve(&Property::Color, Some(blue), Some(red), black), blue);
    assert_eq!(resolve(&Property::BackgroundColor, None, Some(red), black), black);
}

use render_core::dom::element::Element;
use render_core::style::cascade::{
    cascaded_value, winner, CSSLocation, CascadeOrigin, Declaration, Specificity,
};
use render_core::style::selector_matching::{holds_word, rule_matches, Selector, SimpleSelector};

fn spec(ids: usize, classes: usize, types: usize) -> Specificity {
    Specificity { ids, classes, types }
}

fn declaration(
    property: Property,
    value: Value,
    origin: CascadeOrigin,
    location: CSSLocation,
    specificity: Specificity,
) -> Declaration {
    Declaration { property, value, origin, location, specificity }
}

fn sheet(value: i32, origin: CascadeOrigin, specificity: Specificity) -> Declaration {
    declaration(
        Property::MarginTop,
        Value::Length(value, LengthUnit::Px),
        origin,
        CSSLocation::ExternalOrEmbedded,
        specificity,
    )
}

#[test]
fn the_more_important_origin_wins() {
    let list = vec![
        sheet(1, CascadeOrigin::Author, spec(0, 0, 1)),
        sheet(2, CascadeOrigin::UserAgent, spec(9, 9, 9)),
        sheet(3, CascadeOrigin::User, spec(5, 0, 0)),
    ];

    assert_eq!(winner(&list, Property::MarginTop), Some(0));
    assert_eq!(
        cascaded_value(&list, Property::MarginTop),
        Some(Value::Length(1, LengthUnit::Px))
    );
}

#[test]
fn within_an_origin_the_more_specific_wins() {
    let list = vec![
        sheet(1, CascadeOrigin::Author, spec(0, 2, 0)),
        sheet(2, CascadeOrigin::Author, spec(1, 0, 0)),
        sheet(3, CascadeOrigin::Author, spec(0, 9, 9)),
        sheet(4, CascadeOrigin::Author, spec(0, 2, 1)),
    ];

    assert_eq!(winner(&list, Property::MarginTop), Some(1));
}

#[test]
fn among_equals_the_last_wins() {
    let list = vec![
        sheet(1, CascadeOrigin::Author, spec(0, 1, 0)),
        sheet(2, CascadeOrigin::Author, spec(0, 1, 0)),
        sheet(3, CascadeOrigin::Author, spec(0, 0, 1)),
        sheet(4, CascadeOrigin::Author, spec(0, 1, 0)),
        sheet(5, CascadeOrigin::User, spec(0, 1, 0)),
    ];

    assert_eq!(winner(&list, Property::MarginTop), Some(3));
}

#[test]
fn a_declaration_on_the_element_beats_every_selector_of_its_origin() {
    let inline = declaration(
        Property::MarginTop,
        Value::Auto,
        CascadeOrigin::Author,
        CSSLocation::Inline,
        spec(0, 0, 0),
    );
    let list = vec![
        inline,
        sheet(2, CascadeOrigin::Author, spec(3, 0, 0)),
        sheet(3, CascadeOrigin::User, spec(3, 0, 0)),
    ];

    assert_eq!(cascaded_value(&list, Property::MarginTop), Some(Value::Auto));
}

#[test]
fn each_property_has_its_own_winner() {
    let color = declaration(
        Property::Color,
        Value::Color(Color::rgb(255, 0, 0)),
        CascadeOrigin::UserAgent,
        CSSLocation::ExternalOrEmbedded,
        spec(0, 0, 1),
    );
    let list = vec![sheet(1, CascadeOrigin::Author, spec(1, 0, 0)), color];

    assert_eq!(winner(&list, Property::Color), Some(1));
    assert_eq!(winner(&list, Property::MarginTop), Some(0));
    assert_eq!(winner(&list, Property::Display), None);
    assert_eq!(cascaded_value(&list, Property::Display), None);
    assert_eq!(winner(&vec![], Property::Color), None);
}

#[test]
fn specificity_order() {
    assert!(spec(0, 9, 9).is_below(&spec(1, 0, 0)));
    assert!(spec(1, 0, 9).is_below(&spec(1, 1, 0)));
    assert!(spec(1, 1, 0).is_below(&spec(1, 1, 1)));
    assert!(!spec(1, 1, 1).is_below(&spec(1, 1, 1)));
    assert!(!spec(1, 0, 0).is_below(&spec(0, 9, 9)));
}

fn selector(parts: Vec<SimpleSelector>) -> Selector {
    Selector { parts }
}

fn sample_element() -> Element {
    let mut e = Element::new("DIV");
    e.set_attribute("id", "main");
    e.set_attribute("class", "  note\twide ");
    e.set_attribute("hidden", "");
    e
}

#[test]
fn simple_selectors() {
    let e = sample_element();

    assert!(SimpleSelector::Universal.matches(&e));
    assert!(SimpleSelector::Type("div".to_string()).matches(&e));
    assert!(SimpleSelector::Type("DiV".to_string()).matches(&e));
    assert!(!SimpleSelector::Type("span".to_string()).matches(&e));
    assert!(SimpleSelector::Id("main".to_string()).matches(&e));
    assert!(!SimpleSelector::Id("Main".to_string()).matches(&e));
    assert!(SimpleSelector::Class("note".to_string()).matches(&e));
    assert!(SimpleSelector::Class("wide".to_string()).matches(&e));
    assert!(!SimpleSelector::Class("not".to_string()).matches(&e));
    assert!(!SimpleSelector::Class("note wide".to_string()).matches(&e));
    assert!(!SimpleSelector::Class("".to_string()).matches(&e));
    assert!(SimpleSelector::Attribute("hidden".to_string()).matches(&e));
    assert!(!SimpleSelector::Attribute("href".to_string()).matches(&e));
    assert!(!SimpleSelector::Class("x".to_string()).matches(&Element::new("p")));
    assert!(!SimpleSelector::Id("x".to_string()).matches(&Element::new("p")));
}

#[test]
fn words() {
    assert!(holds_word("a", "a"));
    assert!(holds_word("a b", "b"));
    assert!(holds_word("ab a", "a"));
    assert!(holds_word(" a ", "a"));
    assert!(!holds_word("ab", "a"));
    assert!(!holds_word("ba", "a"));
    assert!(!holds_word("bab", "a"));
    assert!(!holds_word("", "a"));
    assert!(!holds_word("a", ""));
    assert!(!holds_word("a b", "a b"));
    assert!(!holds_word("a", "ab"));
}

#[test]
fn compound_selectors_and_their_specificity() {
    let e = sample_element();
    let full = selector(vec![
        SimpleSelector::Type("div".to_string()),
        SimpleSelector::Id("main".to_string()),
        SimpleSelector::Class("note".to_string()),
        SimpleSelector::Attribute("hidden".to_string()),
        SimpleSelector::Universal,
    ]);
    let wrong = selector(vec![
        SimpleSelector::Type("div".to_string()),
        SimpleSelector::Class("narrow".to_string()),
    ]);

    assert_eq!(full.specificity(), spec(1, 2, 1));
    assert_eq!(full.matches(&e), Some(spec(1, 2, 1)));
    assert_eq!(wrong.specificity(), spec(0, 1, 1));
    assert_eq!(wrong.matches(&e), None);
    assert_eq!(selector(vec![]).matches(&e), Some(spec(0, 0, 0)));
}

#[test]
fn a_rule_matches_where_one_of_its_selectors_does() {
    let e = sample_element();
    let by_type = selector(vec![SimpleSelector::Type("div".to_string())]);
    let by_class = selector(vec![SimpleSelector::Class("note".to_string())]);
    let by_id = selector(vec![SimpleSelector::Id("other".to_string())]);

    assert_eq!(
        rule_matches(&vec![by_type.clone(), by_class.clone(), by_id.clone()], &e),
        Some(spec(0, 1, 0))
    );
    assert_eq!(rule_matches(&vec![by_id.clone(), by_type], &e), Some(spec(0, 0, 1)));
    assert_eq!(rule_matches(&vec![by_id], &e), None);
    assert_eq!(rule_matches(&vec![], &e), None);
}
