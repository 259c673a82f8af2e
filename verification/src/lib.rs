pub mod annotations;
pub mod cache;
pub mod cli;
pub mod graph;
pub mod hash;
pub mod order;
pub mod parser;
pub mod server;
pub mod text;
pub mod tools;
