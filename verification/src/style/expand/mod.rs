//! Expansion of shorthand declarations into longhands.

pub mod margin;
