//! Computed values: what a property has on an element once the cascade
//! has run and `inherit`, `initial` and inheritance are resolved.

use crate::painting::color::Color;
use crate::style::cascade::{cascaded, cascaded_value, Declaration};
use crate::style::inheritable::{resolve, resolved};
use crate::style::property::Property;
use crate::style::value::{Display, LengthUnit, Value};
use vstd::prelude::*;

verus! {

/// The number of properties.
pub const PROPERTY_COUNT: usize = 16;

/// The value that a property has where nothing gives it one.
pub open spec fn initial_of(property: Property) -> Value {
    match property {
        Property::Display => Value::Display(Display::Inline),
        Property::Color => Value::Color(Color { r: 0, g: 0, b: 0, a: 255 }),
        Property::BackgroundColor => Value::Color(Color { r: 0, g: 0, b: 0, a: 0 }),
        Property::FontSize => Value::Length(16000, LengthUnit::Px),
        Property::MarginTop => Value::Length(0, LengthUnit::Px),
        Property::MarginRight => Value::Length(0, LengthUnit::Px),
        Property::MarginBottom => Value::Length(0, LengthUnit::Px),
        Property::MarginLeft => Value::Length(0, LengthUnit::Px),
        Property::PaddingTop => Value::Length(0, LengthUnit::Px),
        Property::PaddingRight => Value::Length(0, LengthUnit::Px),
        Property::PaddingBottom => Value::Length(0, LengthUnit::Px),
        Property::PaddingLeft => Value::Length(0, LengthUnit::Px),
        Property::BorderTopWidth => Value::Length(3000, LengthUnit::Px),
        Property::BorderRightWidth => Value::Length(3000, LengthUnit::Px),
        Property::BorderBottomWidth => Value::Length(3000, LengthUnit::Px),
        Property::BorderLeftWidth => Value::Length(3000, LengthUnit::Px),
    }
}

/// The place of a property in a computed style.
pub open spec fn place_of(property: Property) -> int {
    match property {
        Property::Display => 0,
        Property::Color => 1,
        Property::BackgroundColor => 2,
        Property::FontSize => 3,
        Property::MarginTop => 4,
        Property::MarginRight => 5,
        Property::MarginBottom => 6,
        Property::MarginLeft => 7,
        Property::PaddingTop => 8,
        Property::PaddingRight => 9,
        Property::PaddingBottom => 10,
        Property::PaddingLeft => 11,
        Property::BorderTopWidth => 12,
        Property::BorderRightWidth => 13,
        Property::BorderBottomWidth => 14,
        Property::BorderLeftWidth => 15,
    }
}

/// The property at a place of a computed style.
pub open spec fn property_at(place: int) -> Property {
    if place == 0 {
        Property::Display
    } else if place == 1 {
        Property::Color
    } else if place == 2 {
        Property::BackgroundColor
    } else if place == 3 {
        Property::FontSize
    } else if place == 4 {
        Property::MarginTop
    } else if place == 5 {
        Property::MarginRight
    } else if place == 6 {
        Property::MarginBottom
    } else if place == 7 {
        Property::MarginLeft
    } else if place == 8 {
        Property::PaddingTop
    } else if place == 9 {
        Property::PaddingRight
    } else if place == 10 {
        Property::PaddingBottom
    } else if place == 11 {
        Property::PaddingLeft
    } else if place == 12 {
        Property::BorderTopWidth
    } else if place == 13 {
        Property::BorderRightWidth
    } else if place == 14 {
        Property::BorderBottomWidth
    } else {
        Property::BorderLeftWidth
    }
}

/// Every property has a place of its own.
pub proof fn lemma_places(property: Property)
    ensures
        0 <= place_of(property) < PROPERTY_COUNT,
        property_at(place_of(property)) == property,
{
}

/// The computed value of a property: the parent's for `inherit`, the
/// initial value for `initial`, the specified value where there is
/// another; and where the cascade gave none, the parent's for an inherited
/// property and the initial value for any other. An element without parent
/// takes the initial value in place of the parent's.
pub open spec fn computed(property: Property, specified: Option<Value>, parent: Option<Value>) -> Value {
    match specified {
        Some(Value::Inherit) => match parent {
            Some(p) => p,
            None => initial_of(property),
        },
        Some(Value::Initial) => initial_of(property),
        _ => resolved(property, specified, parent, initial_of(property)),
    }
}

/// A computed value is a value proper: where the parent's value is
/// neither `inherit` nor `initial`, the computed value is neither.
pub proof fn lemma_computed_is_resolved(
    property: Property,
    specified: Option<Value>,
    parent: Option<Value>,
)
    requires
        parent is Some ==> parent->0 != Value::Inherit && parent->0 != Value::Initial,
    ensures
        computed(property, specified, parent) != Value::Inherit,
        computed(property, specified, parent) != Value::Initial,
{
}

/// The value that a property has where nothing gives it one.
pub fn initial_value(property: &Property) -> (r: Value)
    ensures
        r == initial_of(*property),
{
    match property {
        Property::Display => Value::Display(Display::Inline),
        Property::Color => Value::Color(Color { r: 0, g: 0, b: 0, a: 255 }),
        Property::BackgroundColor => Value::Color(Color { r: 0, g: 0, b: 0, a: 0 }),
        Property::FontSize => Value::Length(16000, LengthUnit::Px),
        Property::MarginTop => Value::Length(0, LengthUnit::Px),
        Property::MarginRight => Value::Length(0, LengthUnit::Px),
        Property::MarginBottom => Value::Length(0, LengthUnit::Px),
        Property::MarginLeft => Value::Length(0, LengthUnit::Px),
        Property::PaddingTop => Value::Length(0, LengthUnit::Px),
        Property::PaddingRight => Value::Length(0, LengthUnit::Px),
        Property::PaddingBottom => Value::Length(0, LengthUnit::Px),
        Property::PaddingLeft => Value::Length(0, LengthUnit::Px),
        Property::BorderTopWidth => Value::Length(3000, LengthUnit::Px),
        Property::BorderRightWidth => Value::Length(3000, LengthUnit::Px),
        Property::BorderBottomWidth => Value::Length(3000, LengthUnit::Px),
        Property::BorderLeftWidth => Value::Length(3000, LengthUnit::Px),
    }
}

/// The computed value of a property.
pub fn compute(property: &Property, specified: Option<Value>, parent: Option<Value>) -> (r: Value)
    ensures
        r == computed(*property, specified, parent),
{
    match specified {
        Some(Value::Inherit) => match parent {
            Some(p) => p,
            None => initial_value(property),
        },
        Some(Value::Initial) => initial_value(property),
        _ => resolve(property, specified, parent, initial_value(property)),
    }
}

fn property_of(place: usize) -> (r: Property)
    requires
        place < PROPERTY_COUNT,
    ensures
        r == property_at(place as int),
        place_of(r) == place,
{
    if place == 0 {
        Property::Display
    } else if place == 1 {
        Property::Color
    } else if place == 2 {
        Property::BackgroundColor
    } else if place == 3 {
        Property::FontSize
    } else if place == 4 {
        Property::MarginTop
    } else if place == 5 {
        Property::MarginRight
    } else if place == 6 {
        Property::MarginBottom
    } else if place == 7 {
        Property::MarginLeft
    } else if place == 8 {
        Property::PaddingTop
    } else if place == 9 {
        Property::PaddingRight
    } else if place == 10 {
        Property::PaddingBottom
    } else if place == 11 {
        Property::PaddingLeft
    } else if place == 12 {
        Property::BorderTopWidth
    } else if place == 13 {
        Property::BorderRightWidth
    } else if place == 14 {
        Property::BorderBottomWidth
    } else {
        Property::BorderLeftWidth
    }
}

fn place(property: &Property) -> (r: usize)
    ensures
        r == place_of(*property),
{
    match property {
        Property::Display => 0,
        Property::Color => 1,
        Property::BackgroundColor => 2,
        Property::FontSize => 3,
        Property::MarginTop => 4,
        Property::MarginRight => 5,
        Property::MarginBottom => 6,
        Property::MarginLeft => 7,
        Property::PaddingTop => 8,
        Property::PaddingRight => 9,
        Property::PaddingBottom => 10,
        Property::PaddingLeft => 11,
        Property::BorderTopWidth => 12,
        Property::BorderRightWidth => 13,
        Property::BorderBottomWidth => 14,
        Property::BorderLeftWidth => 15,
    }
}

/// The computed style of an element: a value for every property.
#[derive(Debug)]
pub struct ComputedStyle {
    values: Vec<Value>,
}

impl View for ComputedStyle {
    type V = Seq<Value>;

    closed spec fn view(&self) -> Seq<Value> {
        self.values@
    }
}

/// The value of `property` in a style.
pub open spec fn value_in(style: Seq<Value>, property: Property) -> Value {
    style[place_of(property)]
}

/// The value of `property` in the parent's style, where there is a parent.
pub open spec fn parent_value(parent: Option<Seq<Value>>, property: Property) -> Option<Value> {
    match parent {
        Some(style) => Some(value_in(style, property)),
        None => None,
    }
}

/// The computed style that the declarations give an element whose parent
/// has the style `parent`: for every property, the value computed from
/// what the cascade gives it and from the parent's value.
pub open spec fn style_for(declarations: Seq<Declaration>, parent: Option<Seq<Value>>) -> Seq<
    Value,
> {
    Seq::new(
        PROPERTY_COUNT as nat,
        |i: int|
            computed(
                property_at(i),
                cascaded(declarations, property_at(i)),
                parent_value(parent, property_at(i)),
            ),
    )
}

/// A computed style holds, for every property, the value computed from
/// what the cascade gives the property and from the parent's value.
pub proof fn lemma_style_for(
    declarations: Seq<Declaration>,
    parent: Option<Seq<Value>>,
    property: Property,
)
    ensures
        value_in(style_for(declarations, parent), property) == computed(
            property,
            cascaded(declarations, property),
            parent_value(parent, property),
        ),
{
    lemma_places(property);
}

/// The view of an optional style.
pub open spec fn opt_style(style: Option<&ComputedStyle>) -> Option<Seq<Value>> {
    match style {
        Some(s) => Some(s@),
        None => None,
    }
}

impl ComputedStyle {
    /// A style has a value for every property.
    #[verifier::type_invariant]
    spec fn complete(self) -> bool {
        self.values@.len() == PROPERTY_COUNT
    }

    /// The computed style that the declarations give an element whose
    /// parent has the style `parent`.
    pub fn new(declarations: &Vec<Declaration>, parent: Option<&ComputedStyle>) -> (r: Self)
        ensures
            r@ == style_for(declarations@, opt_style(parent)),
    {
        proof {
            if let Some(style) = parent {
                use_type_invariant(style);
            }
        }
        let mut values: Vec<Value> = Vec::new();
        let mut i: usize = 0;
        while i < PROPERTY_COUNT
            invariant
                i <= PROPERTY_COUNT,
                values.len() == i,
                parent is Some ==> parent->0.values@.len() == PROPERTY_COUNT,
                forall|k: int|
                    0 <= k < i ==> values@[k] == computed(
                        property_at(k),
                        cascaded(declarations@, property_at(k)),
                        parent_value(opt_style(parent), property_at(k)),
                    ),
            decreases PROPERTY_COUNT - i,
        {
            let property = property_of(i);
            let inherited = match parent {
                Some(style) => Some(style.values[i]),
                None => None,
            };
            let specified = cascaded_value(declarations, property);
            values.push(compute(&property, specified, inherited));
            i += 1;
        }
        assert(values@ =~= style_for(declarations@, opt_style(parent)));
        ComputedStyle { values }
    }

    /// The value of `property`.
    pub fn get(&self, property: &Property) -> (r: Value)
        ensures
            r == value_in(self@, *property),
    {
        proof {
            use_type_invariant(self);
        }
        self.values[place(property)]
    }
}

} // verus!
