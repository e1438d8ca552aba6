//! SQL: statements are parsed and translated to query plans.
pub mod ast;
pub mod dialect;
pub mod laws;
pub mod node;
pub mod read;
pub mod tokens;
pub mod translate;
pub mod parser;
