//! The text answers of the code-graph service, one module per group of tools.
pub mod tools;
