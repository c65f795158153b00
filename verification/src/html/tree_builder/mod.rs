//! The bookkeeping of the tree builder.

pub mod list_of_active_formatting_elements;
