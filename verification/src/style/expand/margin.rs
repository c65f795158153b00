//! The box-side shorthands: `margin`, `padding` and `border-width`.

use crate::style::property::Property;
use crate::style::value::{component_views, parsed_value, ComponentValue, ComponentView, Value};
use vstd::prelude::*;

verus! {

/// The four longhands of a box-side shorthand, in the order top, right,
/// bottom, left.
pub struct Sides {
    pub top: Property,
    pub right: Property,
    pub bottom: Property,
    pub left: Property,
}

/// The longhands of `margin`.
pub open spec fn margin_sides() -> Sides {
    Sides {
        top: Property::MarginTop,
        right: Property::MarginRight,
        bottom: Property::MarginBottom,
        left: Property::MarginLeft,
    }
}

/// The longhands of `padding`.
pub open spec fn padding_sides() -> Sides {
    Sides {
        top: Property::PaddingTop,
        right: Property::PaddingRight,
        bottom: Property::PaddingBottom,
        left: Property::PaddingLeft,
    }
}

/// The longhands of `border-width`.
pub open spec fn border_width_sides() -> Sides {
    Sides {
        top: Property::BorderTopWidth,
        right: Property::BorderRightWidth,
        bottom: Property::BorderBottomWidth,
        left: Property::BorderLeftWidth,
    }
}

/// The four declarations for the given values.
pub open spec fn declarations(
    sides: Sides,
    top: Option<Value>,
    right: Option<Value>,
    bottom: Option<Value>,
    left: Option<Value>,
) -> Seq<(Property, Option<Value>)> {
    seq![(sides.top, top), (sides.right, right), (sides.bottom, bottom), (sides.left, left)]
}

/// What a box-side shorthand with the given runs of component values
/// expands to.
///
/// One run gives all four sides; two give top and bottom, then right and
/// left; three give top, right and bottom and leave left unset; four give
/// top, right, bottom and left. Each run is read as a value of the right
/// longhand. No run, more than four, or a run that is no such value gives
/// no expansion.
pub open spec fn expanded(sides: Sides, runs: Seq<Seq<ComponentView>>) -> Option<
    Seq<(Property, Option<Value>)>,
> {
    let value = |i: int| parsed_value(sides.right, runs[i]);
    if runs.len() == 1 {
        if value(0) is Some {
            Some(declarations(sides, value(0), value(0), value(0), value(0)))
        } else {
            None
        }
    } else if runs.len() == 2 {
        if value(0) is Some && value(1) is Some {
            Some(declarations(sides, value(0), value(1), value(0), value(1)))
        } else {
            None
        }
    } else if runs.len() == 3 {
        if value(0) is Some && value(1) is Some && value(2) is Some {
            Some(declarations(sides, value(0), value(1), value(2), None))
        } else {
            None
        }
    } else if runs.len() == 4 {
        if value(0) is Some && value(1) is Some && value(2) is Some && value(3) is Some {
            Some(declarations(sides, value(0), value(1), value(2), value(3)))
        } else {
            None
        }
    } else {
        None
    }
}

/// The views of the runs of a declaration.
pub open spec fn run_views(values: Seq<&[ComponentValue]>) -> Seq<Seq<ComponentView>> {
    Seq::new(values.len(), |i: int| component_views(values[i]@))
}

/// The views of the declarations of an expansion.
pub open spec fn output_view(output: Option<Vec<(Property, Option<Value>)>>) -> Option<
    Seq<(Property, Option<Value>)>,
> {
    match output {
        Some(v) => Some(v@),
        None => None,
    }
}

fn declare(
    top: Property,
    right: Property,
    bottom: Property,
    left: Property,
    a: Option<Value>,
    b: Option<Value>,
    c: Option<Value>,
    d: Option<Value>,
) -> (r: Vec<(Property, Option<Value>)>)
    ensures
        r@ == declarations(Sides { top, right, bottom, left }, a, b, c, d),
{
    let mut out: Vec<(Property, Option<Value>)> = Vec::new();
    out.push((top, a));
    out.push((right, b));
    out.push((bottom, c));
    out.push((left, d));
    assert(out@ =~= declarations(Sides { top, right, bottom, left }, a, b, c, d));
    out
}

fn expand_sides(
    top: Property,
    right: Property,
    bottom: Property,
    left: Property,
    values: &[&[ComponentValue]],
) -> (r: Option<Vec<(Property, Option<Value>)>>)
    ensures
        output_view(r) == expanded(Sides { top, right, bottom, left }, run_views(values@)),
{
    let n = values.len();
    if n == 0 || n > 4 {
        return None;
    }
    let first = Value::parse(&right, values[0]);
    if first.is_none() {
        return None;
    }
    if n == 1 {
        return Some(declare(top, right, bottom, left, first, first, first, first));
    }
    let second = Value::parse(&right, values[1]);
    if second.is_none() {
        return None;
    }
    if n == 2 {
        return Some(declare(top, right, bottom, left, first, second, first, second));
    }
    let third = Value::parse(&right, values[2]);
    if third.is_none() {
        return None;
    }
    if n == 3 {
        return Some(declare(top, right, bottom, left, first, second, third, None));
    }
    let fourth = Value::parse(&right, values[3]);
    if fourth.is_none() {
        return None;
    }
    Some(declare(top, right, bottom, left, first, second, third, fourth))
}

/// Expands `margin`.
pub fn expand_margin(values: &[&[ComponentValue]]) -> (r: Option<Vec<(Property, Option<Value>)>>)
    ensures
        output_view(r) == expanded(margin_sides(), run_views(values@)),
{
    expand_sides(
        Property::MarginTop,
        Property::MarginRight,
        Property::MarginBottom,
        Property::MarginLeft,
        values,
    )
}

/// Expands `padding`.
pub fn expand_padding(values: &[&[ComponentValue]]) -> (r: Option<Vec<(Property, Option<Value>)>>)
    ensures
        output_view(r) == expanded(padding_sides(), run_views(values@)),
{
    expand_sides(
        Property::PaddingTop,
        Property::PaddingRight,
        Property::PaddingBottom,
        Property::PaddingLeft,
        values,
    )
}

/// Expands `border-width`.
pub fn expand_border_width(values: &[&[ComponentValue]]) -> (r: Option<
    Vec<(Property, Option<Value>)>,
>)
    ensures
        output_view(r) == expanded(border_width_sides(), run_views(values@)),
{
    expand_sides(
        Property::BorderTopWidth,
        Property::BorderRightWidth,
        Property::BorderBottomWidth,
        Property::BorderLeftWidth,
        values,
    )
}

} // verus!
