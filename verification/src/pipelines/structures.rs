//! The built-in mesh shapes.

pub mod plain;
