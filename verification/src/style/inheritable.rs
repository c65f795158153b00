//! Inheritance.

use crate::style::property::Property;
use crate::style::value::Value;
use vstd::prelude::*;

verus! {

/// The properties that an element takes from its parent where the cascade
/// gave it no value of its own: `color` and `font-size`.
pub open spec fn inheritable(property: Property) -> bool {
    property == Property::Color || property == Property::FontSize
}

/// Whether the property is inherited.
pub fn is_inheritable(property: &Property) -> (r: bool)
    ensures
        r == inheritable(*property),
{
    match property {
        Property::Color => true,
        Property::FontSize => true,
        _ => false,
    }
}

/// The value that an element has for `property`: its own where the cascade
/// gave one; else, for an inherited property, its parent's where it has a
/// parent; else the initial value.
pub open spec fn resolved(
    property: Property,
    specified: Option<Value>,
    parent: Option<Value>,
    initial: Value,
) -> Value {
    match specified {
        Some(v) => v,
        None => match parent {
            Some(p) => if inheritable(property) {
                p
            } else {
                initial
            },
            None => initial,
        },
    }
}

/// The value that an element has for `property`.
pub fn resolve(property: &Property, specified: Option<Value>, parent: Option<Value>, initial: Value) -> (r:
    Value)
    ensures
        r == resolved(*property, specified, parent, initial),
{
    match specified {
        Some(v) => v,
        None => match parent {
            Some(p) => if is_inheritable(property) {
                p
            } else {
                initial
            },
            None => initial,
        },
    }
}

} // verus!
