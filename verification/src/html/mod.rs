//! Tree construction.

pub mod tree_builder;
