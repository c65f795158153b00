//! The vocabulary of paint commands.

pub mod color;
pub mod command;
pub mod primitive;
