//! The properties that the engine knows.

use vstd::prelude::*;

verus! {

/// A longhand property.
#[derive(Debug, Clone, Copy, PartialEq, Eq, Hash, Structural)]
pub enum Property {
    Display,
    Color,
    BackgroundColor,
    FontSize,
    MarginTop,
    MarginRight,
    MarginBottom,
    MarginLeft,
    PaddingTop,
    PaddingRight,
    PaddingBottom,
    PaddingLeft,
    BorderTopWidth,
    BorderRightWidth,
    BorderBottomWidth,
    BorderLeftWidth,
}

} // verus!
