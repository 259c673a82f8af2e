//! The C front end: tree-sitter's syntax tree copied into plain values, and what the graph
//! takes from it.
pub mod call_graph;
pub mod decls;
pub mod functions;
pub mod macro_refs;
pub mod nodes;
pub mod scan;
pub mod source;
pub mod symbols;
pub mod syntax;

use vstd::prelude::*;

use crate::graph::codebase::{reverse_edges, CodebaseGraph, CodebaseGraphV};
use crate::graph::types::{CallEdgeV, FileGraph, FileGraphV, FunctionNodeV};
use crate::parser::decls::{types, types_spec};
use crate::parser::functions::{call_edges, call_edges_spec, fn_nodes, function_nodes};
use crate::parser::scan::{globals, globals_spec};
use crate::parser::source::{byte_len, SourceText};
use crate::parser::symbols::{symbols, symbols_spec};
use crate::parser::syntax::{big_tree, parse_c, tree_of, SyntaxTree, SyntaxTreeV};

verus! {

/// Why a file could not be parsed.
#[derive(PartialEq, Eq, Structural, Clone, Copy, Debug)]
pub enum ParseError {
    /// tree-sitter gave no syntax tree (or the file is too large to address)
    NoTree,
    /// The text of a name could not be taken (its byte span does not fall between characters)
    Text,
}

/// What one C file contributes to the graph, read off its syntax tree `t` over the text `s`:
/// its functions (each with the comments just before it and the preprocessor conditions around
/// it), the calls in their bodies, its symbols, its types and its file-scope variables.
/// `None` when the text of a name cannot be taken.
pub open spec fn file_graph_spec(t: SyntaxTreeV, s: Seq<char>, path: Seq<char>) -> Option<FileGraphV> {
    match (fn_nodes(t, s, path, true), call_edges_spec(t, s, path, true), symbols_spec(t, s, path, true), types_spec(t, s, path, true)) {
        (Some(n), Some(e), Some(sy), Some(ty)) => Some(
            FileGraphV { nodes: n, callees: e, symbols: sy, types: ty, globals: globals_spec(t, s, path) },
        ),
        _ => None,
    }
}

/// What the file at `path` contributes to the graph, read off its syntax tree.
pub fn parse_tree(t: &SyntaxTree, src: &SourceText, path: &str) -> (r: Result<FileGraph, ParseError>)
    requires
        t@.wf(),
        src.wf(),
    ensures
        match r {
            Ok(g) => file_graph_spec(t@, src.chars@, path@) == Some(g@),
            Err(e) => e == ParseError::Text && file_graph_spec(t@, src.chars@, path@) is None,
        },
{
    let nodes = match function_nodes(t, src, path, true) {
        Some(n) => n,
        None => return Err(ParseError::Text),
    };
    let callees = match call_edges(t, src, path, true) {
        Some(e) => e,
        None => return Err(ParseError::Text),
    };
    let syms = match symbols(t, src, path, true) {
        Some(s) => s,
        None => return Err(ParseError::Text),
    };
    let tys = match types(t, src, path, true) {
        Some(ty) => ty,
        None => return Err(ParseError::Text),
    };
    let gs = globals(t, src, path);
    Ok(FileGraph { nodes, callees, symbols: syms, types: tys, globals: gs })
}

/// Parses one C file into what it contributes to the graph (its functions, calls, symbols,
/// types and file-scope variables): `parse_tree`'s result on the tree tree-sitter gives for
/// the text. `NoTree` only when the text is too long for its byte offsets to fit a `usize`, or
/// its tree has more nodes than the copy takes (`big_tree`).
pub fn parse_file_to_graph(path: &str, source: &str) -> (r: Result<FileGraph, ParseError>)
    ensures
        r matches Ok(g) ==> exists|t: SyntaxTreeV| tree_of(t, source@) && file_graph_spec(t, source@, path@) == Some(g@),
        r matches Err(e) && e == ParseError::Text ==> exists|t: SyntaxTreeV|
            tree_of(t, source@) && file_graph_spec(t, source@, path@) is None,
        byte_len(source@) > usize::MAX ==> (r matches Err(e) && e == ParseError::NoTree),
        byte_len(source@) <= usize::MAX ==> (r matches Err(e) && e == ParseError::NoTree && big_tree(source@))
            || exists|t: SyntaxTreeV|
            tree_of(t, source@) && match file_graph_spec(t, source@, path@) {
                Some(f) => r matches Ok(g) && g@ == f,
                None => r matches Err(e) && e == ParseError::Text,
            },
{
    let src = match SourceText::new(source) {
        Some(s) => s,
        None => return Err(ParseError::NoTree),
    };
    proof {
        assert(src.offsets@[src.chars@.len() as int] == byte_len(source@));
    }
    let t = match parse_c(source) {
        Some(t) => t,
        None => return Err(ParseError::NoTree),
    };
    parse_tree(&t, &src, path)
}

/// The graph `g` with the functions `n` and the calls `e` of one file added.
pub open spec fn with_functions(g: CodebaseGraphV, n: Seq<FunctionNodeV>, e: Seq<(Seq<char>, CallEdgeV)>) -> CodebaseGraphV {
    with_file(g, FileGraphV { nodes: n, callees: e, symbols: Seq::empty(), types: Seq::empty(), globals: Seq::empty() })
}

/// Adds to `graph` the functions defined in the file at `path` (with the comments just before
/// each and the preprocessor conditions around it) and the calls in their bodies, in both
/// directions. `Text` (graph unchanged) when the text of a name cannot be taken.
pub fn parse_functions(t: &SyntaxTree, src: &SourceText, path: &str, graph: &mut CodebaseGraph) -> (r: Result<(), ParseError>)
    requires
        t@.wf(),
        src.wf(),
    ensures
        match (fn_nodes(t@, src.chars@, path@, true), call_edges_spec(t@, src.chars@, path@, true)) {
            (Some(n), Some(e)) => r is Ok && final(graph)@ == with_functions(old(graph)@, n, e),
            _ => r == Err::<(), ParseError>(ParseError::Text) && final(graph)@ == old(graph)@,
        },
{
    let nodes = match function_nodes(t, src, path, true) {
        Some(n) => n,
        None => return Err(ParseError::Text),
    };
    let callees = match call_edges(t, src, path, true) {
        Some(e) => e,
        None => return Err(ParseError::Text),
    };
    let fg = FileGraph { nodes, callees, symbols: Vec::new(), types: Vec::new(), globals: Vec::new() };
    graph.add_file_graph(fg);
    Ok(())
}

/// Adds to `graph` the symbols of the file at `path`: its `#define`s (plain and function-like)
/// and its enum constants. `Text` (graph unchanged) when the text of a name cannot be taken.
pub fn parse_symbols(t: &SyntaxTree, src: &SourceText, path: &str, graph: &mut CodebaseGraph) -> (r: Result<(), ParseError>)
    requires
        t@.wf(),
        src.wf(),
    ensures
        match symbols_spec(t@, src.chars@, path@, true) {
            Some(sy) => r is Ok && final(graph)@ == (CodebaseGraphV { symbols: old(graph)@.symbols + sy, ..old(graph)@ }),
            None => r == Err::<(), ParseError>(ParseError::Text) && final(graph)@ == old(graph)@,
        },
{
    let syms = match symbols(t, src, path, true) {
        Some(s) => s,
        None => return Err(ParseError::Text),
    };
    let fg = FileGraph { nodes: Vec::new(), callees: Vec::new(), symbols: syms, types: Vec::new(), globals: Vec::new() };
    graph.add_file_graph(fg);
    proof {
        assert(reverse_edges(Seq::<(Seq<char>, CallEdgeV)>::empty()) =~= Seq::empty());
        assert(graph@.nodes =~= old(graph)@.nodes);
        assert(graph@.callers =~= old(graph)@.callers);
        assert(graph@.callees =~= old(graph)@.callees);
        assert(graph@.types =~= old(graph)@.types);
        assert(graph@.globals =~= old(graph)@.globals);
    }
    Ok(())
}

/// Adds to `graph` the named structs, unions, enums and typedefs of the file at `path`.
/// `Text` (graph unchanged) when the text of a name cannot be taken.
pub fn parse_types(t: &SyntaxTree, src: &SourceText, path: &str, graph: &mut CodebaseGraph) -> (r: Result<(), ParseError>)
    requires
        t@.wf(),
        src.wf(),
    ensures
        match types_spec(t@, src.chars@, path@, true) {
            Some(ty) => r is Ok && final(graph)@ == (CodebaseGraphV { types: old(graph)@.types + ty, ..old(graph)@ }),
            None => r == Err::<(), ParseError>(ParseError::Text) && final(graph)@ == old(graph)@,
        },
{
    let tys = match types(t, src, path, true) {
        Some(ty) => ty,
        None => return Err(ParseError::Text),
    };
    let fg = FileGraph { nodes: Vec::new(), callees: Vec::new(), symbols: Vec::new(), types: tys, globals: Vec::new() };
    graph.add_file_graph(fg);
    proof {
        assert(reverse_edges(Seq::<(Seq<char>, CallEdgeV)>::empty()) =~= Seq::empty());
        assert(graph@.nodes =~= old(graph)@.nodes);
        assert(graph@.callers =~= old(graph)@.callers);
        assert(graph@.callees =~= old(graph)@.callees);
        assert(graph@.symbols =~= old(graph)@.symbols);
        assert(graph@.globals =~= old(graph)@.globals);
    }
    Ok(())
}

/// Adds to `graph` the file-scope variables of the file at `path`.
pub fn parse_globals(t: &SyntaxTree, src: &SourceText, path: &str, graph: &mut CodebaseGraph)
    requires
        t@.wf(),
        src.wf(),
    ensures
        final(graph)@ == (CodebaseGraphV { globals: old(graph)@.globals + globals_spec(t@, src.chars@, path@), ..old(graph)@ }),
{
    let gs = globals(t, src, path);
    let fg = FileGraph { nodes: Vec::new(), callees: Vec::new(), symbols: Vec::new(), types: Vec::new(), globals: gs };
    graph.add_file_graph(fg);
    proof {
        assert(reverse_edges(Seq::<(Seq<char>, CallEdgeV)>::empty()) =~= Seq::empty());
        assert(graph@.nodes =~= old(graph)@.nodes);
        assert(graph@.callers =~= old(graph)@.callers);
        assert(graph@.callees =~= old(graph)@.callees);
        assert(graph@.symbols =~= old(graph)@.symbols);
        assert(graph@.types =~= old(graph)@.types);
    }
}

/// `f` is what the file at `path` with text `source` contributes, read off some syntax tree of
/// that text.
pub open spec fn parsed_as(f: FileGraphV, source: Seq<char>, path: Seq<char>) -> bool {
    exists|t: SyntaxTreeV| tree_of(t, source) && file_graph_spec(t, source, path) == Some(f)
}

/// `g` with what one file contributes added after what it holds (reverse edges derived).
pub open spec fn with_file(g: CodebaseGraphV, f: FileGraphV) -> CodebaseGraphV {
    CodebaseGraphV {
        nodes: g.nodes + f.nodes,
        callers: g.callers + reverse_edges(f.callees),
        callees: g.callees + f.callees,
        symbols: g.symbols + f.symbols,
        types: g.types + f.types,
        globals: g.globals + f.globals,
    }
}

/// Parses one C file and adds what it contributes to `graph`: its functions, the calls in their
/// bodies (in both directions), its symbols, types and file-scope variables, as read off the
/// tree tree-sitter gives for the text. `Text` when a name's text cannot be taken from that
/// tree; `NoTree` only when the text is too long for its byte offsets to fit a `usize`, or its
/// tree has more nodes than the copy takes (`big_tree`). On an error the graph is left as it
/// was.
pub fn parse_file(path: &str, source: &str, graph: &mut CodebaseGraph) -> (r: Result<(), ParseError>)
    ensures
        r is Ok ==> exists|f: FileGraphV| parsed_as(f, source@, path@) && final(graph)@ == with_file(old(graph)@, f),
        r is Err ==> final(graph)@ == old(graph)@,
        byte_len(source@) > usize::MAX ==> r == Err::<(), ParseError>(ParseError::NoTree),
        byte_len(source@) <= usize::MAX ==> (r == Err::<(), ParseError>(ParseError::NoTree) && big_tree(source@))
            || exists|t: SyntaxTreeV|
            tree_of(t, source@) && match file_graph_spec(t, source@, path@) {
                Some(f) => r is Ok && final(graph)@ == with_file(old(graph)@, f),
                None => r == Err::<(), ParseError>(ParseError::Text),
            },
{
    match parse_file_to_graph(path, source) {
        Ok(fg) => {
            let ghost g = fg@;
            graph.add_file_graph(fg);
            proof {
                assert(parsed_as(g, source@, path@));
                assert(graph@ == with_file(old(graph)@, g));
                if byte_len(source@) <= usize::MAX {
                    let t = choose|t: SyntaxTreeV|
                        tree_of(t, source@) && match file_graph_spec(t, source@, path@) {
                            Some(f) => f == g,
                            None => false,
                        };
                    assert(tree_of(t, source@) && file_graph_spec(t, source@, path@) == Some(g));
                }
            }
            Ok(())
        },
        Err(e) => Err(e),
    }
}

} // verus!
