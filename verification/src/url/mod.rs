//! URL records and the parser that resolves an input against a base.

pub mod encode;
pub mod helper;
pub mod host_parser;
pub mod laws;
pub mod machine;
pub mod parser;
pub mod round_trip;
pub mod shape;
pub mod url;
