pub mod bfs;
pub mod call_graph;
pub mod codebase;
pub mod laws;
pub mod path;
pub mod paths;
pub mod types;

pub use codebase::{merge_file_graphs, CodebaseGraph};
pub use types::{
    CallEdge, FileGraph, FunctionNode, GlobalVar, IncludeEdge, SymbolKind, SymbolNode, TypeKind,
    TypeNode,
};
