//! Core of a small web rendering engine: URL resolution, the document tree,
//! the tree builder's bookkeeping lists, shorthand expansion, layout-box
//! generation and the paint-command vocabulary.
//!
//! Every function carries a contract over a mathematical model of its data,
//! and every contract is machine-checked.

pub mod dom;
pub mod html;
pub mod layout;
pub mod painting;
pub mod render;
pub mod style;
pub mod text;
pub mod url;
