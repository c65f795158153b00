//! The document tree.

pub mod character_data;
pub mod element;
pub mod elements;
pub mod node;
