//! Component values as the style sheet gives them, and the values that the
//! engine computes with.
//!
//! Numbers are held in thousandths, so that `1.5px` is 1500.

use crate::painting::color::Color;
use crate::style::property::Property;
use crate::text::same_text;
use vstd::prelude::*;
use vstd::string::*;

verus! {

/// One component value of a declaration.
#[derive(Debug, Clone)]
pub enum ComponentValue {
    /// A keyword.
    Ident(String),
    /// A number without a unit, in thousandths.
    Number(i32),
    /// A percentage, in thousandths of a percent.
    Percentage(i32),
    /// A number with a unit, in thousandths of the unit.
    Dimension(i32, String),
}

/// The mathematical value of a [`ComponentValue`].
pub enum ComponentView {
    Ident(Seq<char>),
    Number(i32),
    Percentage(i32),
    Dimension(i32, Seq<char>),
}

impl View for ComponentValue {
    type V = ComponentView;

    open spec fn view(&self) -> ComponentView {
        match self {
            ComponentValue::Ident(s) => ComponentView::Ident(s@),
            ComponentValue::Number(n) => ComponentView::Number(*n),
            ComponentValue::Percentage(n) => ComponentView::Percentage(*n),
            ComponentValue::Dimension(n, u) => ComponentView::Dimension(*n, u@),
        }
    }
}

/// The views of a run of component values.
pub open spec fn component_views(run: Seq<ComponentValue>) -> Seq<ComponentView> {
    Seq::new(run.len(), |i: int| run[i]@)
}

/// The units of length.
#[derive(Debug, Clone, Copy, PartialEq, Eq, Structural)]
pub enum LengthUnit {
    Px,
    Em,
    Rem,
    Pt,
    Vw,
    Vh,
}

/// The values of `display`.
#[derive(Debug, Clone, Copy, PartialEq, Eq, Structural)]
pub enum Display {
    Block,
    FlowRoot,
    ListItem,
    Table,
    Flex,
    Grid,
    Inline,
    InlineBlock,
    InlineTable,
    InlineFlex,
    InlineGrid,
    Contents,
    Hidden,
}

/// A value that a property can have.
#[derive(Debug, Clone, Copy, PartialEq, Eq, Structural)]
pub enum Value {
    /// A length, in thousandths of the unit.
    Length(i32, LengthUnit),
    /// A percentage, in thousandths of a percent.
    Percentage(i32),
    Color(Color),
    Display(Display),
    Auto,
    Inherit,
    Initial,
}

/// The unit that a name denotes.
pub open spec fn unit_named(name: Seq<char>) -> Option<LengthUnit> {
    if name == "px"@ {
        Some(LengthUnit::Px)
    } else if name == "em"@ {
        Some(LengthUnit::Em)
    } else if name == "rem"@ {
        Some(LengthUnit::Rem)
    } else if name == "pt"@ {
        Some(LengthUnit::Pt)
    } else if name == "vw"@ {
        Some(LengthUnit::Vw)
    } else if name == "vh"@ {
        Some(LengthUnit::Vh)
    } else {
        None
    }
}

/// The value of `display` that a keyword denotes.
pub open spec fn display_named(name: Seq<char>) -> Option<Display> {
    if name == "block"@ {
        Some(Display::Block)
    } else if name == "flow-root"@ {
        Some(Display::FlowRoot)
    } else if name == "list-item"@ {
        Some(Display::ListItem)
    } else if name == "table"@ {
        Some(Display::Table)
    } else if name == "flex"@ {
        Some(Display::Flex)
    } else if name == "grid"@ {
        Some(Display::Grid)
    } else if name == "inline"@ {
        Some(Display::Inline)
    } else if name == "inline-block"@ {
        Some(Display::InlineBlock)
    } else if name == "inline-table"@ {
        Some(Display::InlineTable)
    } else if name == "inline-flex"@ {
        Some(Display::InlineFlex)
    } else if name == "inline-grid"@ {
        Some(Display::InlineGrid)
    } else if name == "contents"@ {
        Some(Display::Contents)
    } else if name == "none"@ {
        Some(Display::Hidden)
    } else {
        None
    }
}

/// The keyword that every property accepts, if `name` is one.
pub open spec fn wide_keyword(name: Seq<char>) -> Option<Value> {
    if name == "inherit"@ {
        Some(Value::Inherit)
    } else if name == "initial"@ {
        Some(Value::Initial)
    } else {
        None
    }
}

/// A length: a number with a known unit, or a zero without one.
pub open spec fn as_length(c: ComponentView) -> Option<Value> {
    match c {
        ComponentView::Dimension(n, u) => match unit_named(u) {
            Some(unit) => Some(Value::Length(n, unit)),
            None => None,
        },
        ComponentView::Number(n) => if n == 0 {
            Some(Value::Length(0, LengthUnit::Px))
        } else {
            None
        },
        _ => None,
    }
}

/// A length or a percentage.
pub open spec fn as_length_or_percentage(c: ComponentView) -> Option<Value> {
    match c {
        ComponentView::Percentage(n) => Some(Value::Percentage(n)),
        _ => as_length(c),
    }
}

/// The named colours that the engine knows.
pub open spec fn color_named(name: Seq<char>) -> Option<Color> {
    if name == "black"@ {
        Some(Color { r: 0, g: 0, b: 0, a: 255 })
    } else if name == "white"@ {
        Some(Color { r: 255, g: 255, b: 255, a: 255 })
    } else if name == "red"@ {
        Some(Color { r: 255, g: 0, b: 0, a: 255 })
    } else if name == "green"@ {
        Some(Color { r: 0, g: 128, b: 0, a: 255 })
    } else if name == "blue"@ {
        Some(Color { r: 0, g: 0, b: 255, a: 255 })
    } else if name == "transparent"@ {
        Some(Color { r: 0, g: 0, b: 0, a: 0 })
    } else {
        None
    }
}

/// Which form of value a property takes.
pub enum Grammar {
    /// A keyword of `display`.
    Display,
    /// A named colour.
    Color,
    /// A length or a percentage.
    Size,
    /// A length, a percentage or `auto`.
    SizeOrAuto,
    /// A length that is not negative.
    Width,
}

/// The form of value that `property` takes.
pub open spec fn grammar_of(property: Property) -> Grammar {
    match property {
        Property::Display => Grammar::Display,
        Property::Color => Grammar::Color,
        Property::BackgroundColor => Grammar::Color,
        Property::FontSize => Grammar::Size,
        Property::MarginTop => Grammar::SizeOrAuto,
        Property::MarginRight => Grammar::SizeOrAuto,
        Property::MarginBottom => Grammar::SizeOrAuto,
        Property::MarginLeft => Grammar::SizeOrAuto,
        Property::PaddingTop => Grammar::Size,
        Property::PaddingRight => Grammar::Size,
        Property::PaddingBottom => Grammar::Size,
        Property::PaddingLeft => Grammar::Size,
        Property::BorderTopWidth => Grammar::Width,
        Property::BorderRightWidth => Grammar::Width,
        Property::BorderBottomWidth => Grammar::Width,
        Property::BorderLeftWidth => Grammar::Width,
    }
}

/// The value that one component denotes under a grammar.
pub open spec fn parsed_component(grammar: Grammar, c: ComponentView) -> Option<Value> {
    if c is Ident && wide_keyword(c->Ident_0) is Some {
        wide_keyword(c->Ident_0)
    } else {
        match grammar {
            Grammar::Display => match c {
                ComponentView::Ident(name) => match display_named(name) {
                    Some(d) => Some(Value::Display(d)),
                    None => None,
                },
                _ => None,
            },
            Grammar::Color => match c {
                ComponentView::Ident(name) => match color_named(name) {
                    Some(col) => Some(Value::Color(col)),
                    None => None,
                },
                _ => None,
            },
            Grammar::Size => as_length_or_percentage(c),
            Grammar::SizeOrAuto => if c == ComponentView::Ident("auto"@) {
                Some(Value::Auto)
            } else {
                as_length_or_percentage(c)
            },
            Grammar::Width => match as_length(c) {
                Some(Value::Length(n, u)) => if n >= 0 {
                    Some(Value::Length(n, u))
                } else {
                    None
                },
                _ => None,
            },
        }
    }
}

/// The value that a run of component values denotes for `property`: the
/// run must hold exactly one component, of the property's grammar.
pub open spec fn parsed_value(property: Property, run: Seq<ComponentView>) -> Option<Value> {
    if run.len() == 1 {
        parsed_component(grammar_of(property), run[0])
    } else {
        None
    }
}

fn grammar(property: &Property) -> (g: Grammar)
    ensures
        g == grammar_of(*property),
{
    match property {
        Property::Display => Grammar::Display,
        Property::Color => Grammar::Color,
        Property::BackgroundColor => Grammar::Color,
        Property::FontSize => Grammar::Size,
        Property::MarginTop => Grammar::SizeOrAuto,
        Property::MarginRight => Grammar::SizeOrAuto,
        Property::MarginBottom => Grammar::SizeOrAuto,
        Property::MarginLeft => Grammar::SizeOrAuto,
        Property::PaddingTop => Grammar::Size,
        Property::PaddingRight => Grammar::Size,
        Property::PaddingBottom => Grammar::Size,
        Property::PaddingLeft => Grammar::Size,
        Property::BorderTopWidth => Grammar::Width,
        Property::BorderRightWidth => Grammar::Width,
        Property::BorderBottomWidth => Grammar::Width,
        Property::BorderLeftWidth => Grammar::Width,
    }
}

fn unit_of(name: &str) -> (r: Option<LengthUnit>)
    ensures
        r == unit_named(name@),
{
    if same_text(name, "px") {
        Some(LengthUnit::Px)
    } else if same_text(name, "em") {
        Some(LengthUnit::Em)
    } else if same_text(name, "rem") {
        Some(LengthUnit::Rem)
    } else if same_text(name, "pt") {
        Some(LengthUnit::Pt)
    } else if same_text(name, "vw") {
        Some(LengthUnit::Vw)
    } else if same_text(name, "vh") {
        Some(LengthUnit::Vh)
    } else {
        None
    }
}

fn display_of(name: &str) -> (r: Option<Display>)
    ensures
        r == display_named(name@),
{
    if same_text(name, "block") {
        Some(Display::Block)
    } else if same_text(name, "flow-root") {
        Some(Display::FlowRoot)
    } else if same_text(name, "list-item") {
        Some(Display::ListItem)
    } else if same_text(name, "table") {
        Some(Display::Table)
    } else if same_text(name, "flex") {
        Some(Display::Flex)
    } else if same_text(name, "grid") {
        Some(Display::Grid)
    } else if same_text(name, "inline") {
        Some(Display::Inline)
    } else if same_text(name, "inline-block") {
        Some(Display::InlineBlock)
    } else if same_text(name, "inline-table") {
        Some(Display::InlineTable)
    } else if same_text(name, "inline-flex") {
        Some(Display::InlineFlex)
    } else if same_text(name, "inline-grid") {
        Some(Display::InlineGrid)
    } else if same_text(name, "contents") {
        Some(Display::Contents)
    } else if same_text(name, "none") {
        Some(Display::Hidden)
    } else {
        None
    }
}

fn color_of(name: &str) -> (r: Option<Color>)
    ensures
        r == color_named(name@),
{
    if same_text(name, "black") {
        Some(Color { r: 0, g: 0, b: 0, a: 255 })
    } else if same_text(name, "white") {
        Some(Color { r: 255, g: 255, b: 255, a: 255 })
    } else if same_text(name, "red") {
        Some(Color { r: 255, g: 0, b: 0, a: 255 })
    } else if same_text(name, "green") {
        Some(Color { r: 0, g: 128, b: 0, a: 255 })
    } else if same_text(name, "blue") {
        Some(Color { r: 0, g: 0, b: 255, a: 255 })
    } else if same_text(name, "transparent") {
        Some(Color { r: 0, g: 0, b: 0, a: 0 })
    } else {
        None
    }
}

fn length_of(c: &ComponentValue) -> (r: Option<Value>)
    ensures
        r == as_length(c@),
{
    match c {
        ComponentValue::Dimension(n, u) => match unit_of(u.as_str()) {
            Some(unit) => Some(Value::Length(*n, unit)),
            None => None,
        },
        ComponentValue::Number(n) => if *n == 0 {
            Some(Value::Length(0, LengthUnit::Px))
        } else {
            None
        },
        _ => None,
    }
}

fn length_or_percentage_of(c: &ComponentValue) -> (r: Option<Value>)
    ensures
        r == as_length_or_percentage(c@),
{
    match c {
        ComponentValue::Percentage(n) => Some(Value::Percentage(*n)),
        _ => length_of(c),
    }
}

impl Value {
    /// The value that a run of component values denotes for `property`,
    /// or `None` where it denotes none.
    pub fn parse(property: &Property, values: &[ComponentValue]) -> (r: Option<Value>)
        ensures
            r == parsed_value(*property, component_views(values@)),
    {
        if values.len() != 1 {
            return None;
        }
        let c = &values[0];
        if let ComponentValue::Ident(name) = c {
            if same_text(name.as_str(), "inherit") {
                return Some(Value::Inherit);
            }
            if same_text(name.as_str(), "initial") {
                return Some(Value::Initial);
            }
        }
        match grammar(property) {
            Grammar::Display => match c {
                ComponentValue::Ident(name) => match display_of(name.as_str()) {
                    Some(d) => Some(Value::Display(d)),
                    None => None,
                },
                _ => None,
            },
            Grammar::Color => match c {
                ComponentValue::Ident(name) => match color_of(name.as_str()) {
                    Some(col) => Some(Value::Color(col)),
                    None => None,
                },
                _ => None,
            },
            Grammar::Size => length_or_percentage_of(c),
            Grammar::SizeOrAuto => {
                let is_auto = match c {
                    ComponentValue::Ident(name) => same_text(name.as_str(), "auto"),
                    _ => false,
                };
                if is_auto {
                    Some(Value::Auto)
                } else {
                    length_or_percentage_of(c)
                }
            },
            Grammar::Width => match length_of(c) {
                Some(Value::Length(n, u)) => if n >= 0 {
                    Some(Value::Length(n, u))
                } else {
                    None
                },
                _ => None,
            },
        }
    }
}

} // verus!
