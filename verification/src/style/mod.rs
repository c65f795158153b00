//! Styles: properties, values, shorthand expansion and the styled tree.

pub mod cascade;
pub mod computes;
pub mod expand;
pub mod inheritable;
pub mod property;
pub mod render_tree;
pub mod selector_matching;
pub mod value;
