//! Parsing into the name-keyed call graph: one definition per name, call pairs, symbols,
//! `#include` directives and types.
use vstd::prelude::*;

use crate::graph::call_graph::{with_includes, with_node, with_pair, CallGraph, CallGraphV};
use crate::graph::types::{CallEdgeV, FunctionNodeV, IncludeEdgeV, SymbolNodeV, TypeNodeV};
use crate::parser::decls::{includes, includes_spec, types, types_spec};
use crate::parser::functions::{call_edges, call_edges_spec, fn_nodes, function_nodes};
use crate::parser::source::{byte_len, SourceText};
use crate::parser::symbols::{symbols, symbols_spec};
use crate::parser::syntax::{big_tree, parse_c, tree_of, SyntaxTree, SyntaxTreeV};
use crate::parser::ParseError;
use crate::text::owned;

verus! {

broadcast use vstd::seq_lib::group_seq_properties;

/// `nodes` after storing each of `recs` under its name, in order.
pub open spec fn nodes_after(nodes: Seq<FunctionNodeV>, recs: Seq<FunctionNodeV>) -> Seq<FunctionNodeV>
    decreases recs.len(),
{
    if recs.len() == 0 {
        nodes
    } else {
        with_node(nodes_after(nodes, recs.drop_last()), recs.last())
    }
}

/// `pairs` after adding each of `ps` that it lacks, in order.
pub open spec fn pairs_after(pairs: Seq<(Seq<char>, Seq<char>)>, ps: Seq<(Seq<char>, Seq<char>)>) -> Seq<(Seq<char>, Seq<char>)>
    decreases ps.len(),
{
    if ps.len() == 0 {
        pairs
    } else {
        with_pair(pairs_after(pairs, ps.drop_last()), ps.last())
    }
}

/// The (caller, callee) pairs of a list of forward edges.
pub open spec fn forward_pairs(es: Seq<(Seq<char>, CallEdgeV)>) -> Seq<(Seq<char>, Seq<char>)> {
    es.map_values(|e: (Seq<char>, CallEdgeV)| (e.0, e.1.name))
}

/// The (callee, caller) pairs of a list of forward edges.
pub open spec fn backward_pairs(es: Seq<(Seq<char>, CallEdgeV)>) -> Seq<(Seq<char>, Seq<char>)> {
    es.map_values(|e: (Seq<char>, CallEdgeV)| (e.1.name, e.0))
}

/// What a file contributes to the name-keyed graph: its functions (plain declarators only, no
/// leading comments or conditions), its call edges, symbols, `#include`s and types (definitions
/// cut after 500 characters).
pub open spec fn legacy_parts(t: SyntaxTreeV, s: Seq<char>, path: Seq<char>) -> Option<(Seq<FunctionNodeV>, Seq<(Seq<char>, CallEdgeV)>, Seq<SymbolNodeV>, Seq<IncludeEdgeV>, Seq<TypeNodeV>)> {
    match (fn_nodes(t, s, path, false), call_edges_spec(t, s, path, false), symbols_spec(t, s, path, false), types_spec(t, s, path, false)) {
        (Some(n), Some(e), Some(sy), Some(ty)) => Some((n, e, sy, includes_spec(t, s), ty)),
        _ => None,
    }
}

/// The graph `g` after adding the parts of the file at `path`.
pub open spec fn legacy_graph(
    g: CallGraphV,
    path: Seq<char>,
    p: (Seq<FunctionNodeV>, Seq<(Seq<char>, CallEdgeV)>, Seq<SymbolNodeV>, Seq<IncludeEdgeV>, Seq<TypeNodeV>),
) -> CallGraphV {
    CallGraphV {
        nodes: nodes_after(g.nodes, p.0),
        callees: pairs_after(g.callees, forward_pairs(p.1)),
        callers: pairs_after(g.callers, backward_pairs(p.1)),
        symbols: g.symbols + p.2,
        includes: with_includes(g.includes, path, p.3),
        types: g.types + p.4,
        macro_referenced: g.macro_referenced,
    }
}

/// Stores the `#include` directives of the file at `path` in `graph`, replacing what was stored
/// for that file.
pub fn parse_includes(t: &SyntaxTree, src: &SourceText, path: &str, graph: &mut CallGraph)
    requires
        t@.wf(),
        src.wf(),
        old(graph)@.wf(),
    ensures
        final(graph)@.wf(),
        final(graph)@ == (CallGraphV {
            includes: with_includes(old(graph)@.includes, path@, includes_spec(t@, src.chars@)),
            ..old(graph)@
        }),
{
    let incs = includes(t, src);
    graph.set_includes(owned(path), incs);
}

/// Adds to `graph` what the file at `path` contributes, read off its syntax tree: each
/// function stored under its name, each call pair once, the symbols, the file's `#include`
/// list, and the types. On an error the graph is left as it was.
pub fn parse_tree_into(t: &SyntaxTree, src: &SourceText, path: &str, graph: &mut CallGraph) -> (r: Result<(), ParseError>)
    requires
        t@.wf(),
        src.wf(),
        old(graph)@.wf(),
    ensures
        final(graph)@.wf(),
        match legacy_parts(t@, src.chars@, path@) {
            Some(p) => r is Ok && final(graph)@ == legacy_graph(old(graph)@, path@, p),
            None => r == Err::<(), ParseError>(ParseError::Text) && final(graph)@ == old(graph)@,
        },
{
    let fns = match function_nodes(t, src, path, false) {
        Some(n) => n,
        None => return Err(ParseError::Text),
    };
    let edges = match call_edges(t, src, path, false) {
        Some(e) => e,
        None => return Err(ParseError::Text),
    };
    let syms = match symbols(t, src, path, false) {
        Some(s) => s,
        None => return Err(ParseError::Text),
    };
    let tys = match types(t, src, path, false) {
        Some(ty) => ty,
        None => return Err(ParseError::Text),
    };
    let incs = includes(t, src);
    let ghost g0 = graph@;
    let ghost fv = fns.deep_view();
    let ghost ev = edges.deep_view();
    let ghost sv = syms.deep_view();
    let ghost tv = tys.deep_view();
    let ghost iv = incs.deep_view();
    for x in it: fns
        invariant
            fv == it.seq().map_values(|f: crate::graph::types::FunctionNode| f.deep_view()),
            graph@.wf(),
            graph@ == (CallGraphV { nodes: nodes_after(g0.nodes, fv.take(it.index() as int)), ..g0 }),
    {
        proof {
            let k = it.index();
            assert(fv.take(k + 1).drop_last() =~= fv.take(k as int));
            assert(fv[k as int] == x.deep_view());
        }
        graph.insert_node(x);
    }
    proof {
        assert(fv.take(fv.len() as int) =~= fv);
    }
    let mut j: usize = 0;
    while j < edges.len()
        invariant
            ev == edges.deep_view(),
            j <= ev.len(),
            graph@.wf(),
            graph@ == (CallGraphV {
                nodes: nodes_after(g0.nodes, fv),
                callees: pairs_after(g0.callees, forward_pairs(ev.take(j as int))),
                callers: pairs_after(g0.callers, backward_pairs(ev.take(j as int))),
                ..g0
            }),
        decreases ev.len() - j,
    {
        graph.add_edge(edges[j].0.as_str(), edges[j].1.name.as_str());
        proof {
            assert(ev.take(j + 1) =~= ev.take(j as int).push(ev[j as int]));
            assert(forward_pairs(ev.take(j + 1)).drop_last() =~= forward_pairs(ev.take(j as int)));
            assert(backward_pairs(ev.take(j + 1)).drop_last() =~= backward_pairs(ev.take(j as int)));
        }
        j += 1;
    }
    proof {
        assert(ev.take(ev.len() as int) =~= ev);
    }
    let ghost s0 = graph@;
    for x in it: syms
        invariant
            sv == it.seq().map_values(|f: crate::graph::types::SymbolNode| f.deep_view()),
            graph@.wf(),
            graph@ == (CallGraphV { symbols: s0.symbols + sv.take(it.index() as int), ..s0 }),
    {
        proof {
            let q = it.index();
            assert(sv[q as int] == x.deep_view());
            assert(s0.symbols + sv.take(q + 1) =~= (s0.symbols + sv.take(q as int)).push(sv[q as int]));
        }
        graph.insert_symbol(x);
    }
    proof {
        assert(sv.take(sv.len() as int) =~= sv);
    }
    graph.set_includes(owned(path), incs);
    let ghost t0 = graph@;
    for x in it: tys
        invariant
            tv == it.seq().map_values(|f: crate::graph::types::TypeNode| f.deep_view()),
            graph@.wf(),
            graph@ == (CallGraphV { types: t0.types + tv.take(it.index() as int), ..t0 }),
    {
        proof {
            let w = it.index();
            assert(tv[w as int] == x.deep_view());
            assert(t0.types + tv.take(w + 1) =~= (t0.types + tv.take(w as int)).push(tv[w as int]));
        }
        graph.insert_type(x);
    }
    proof {
        assert(tv.take(tv.len() as int) =~= tv);
    }
    Ok(())
}

/// Parses one C file and adds what it contributes to `graph`, as `parse_tree_into` says on the
/// tree tree-sitter gives for the text; `NoTree` (graph unchanged) only when the text is too
/// long for its byte offsets to fit a `usize`, or its tree has more nodes than the copy takes
/// (`big_tree`).
pub fn parse_file(path: &str, source: &str, graph: &mut CallGraph) -> (r: Result<(), ParseError>)
    requires
        old(graph)@.wf(),
    ensures
        final(graph)@.wf(),
        r is Ok ==> exists|t: SyntaxTreeV|
            tree_of(t, source@) && (legacy_parts(t, source@, path@) matches Some(p) && final(graph)@ == legacy_graph(old(graph)@, path@, p)),
        r is Err ==> final(graph)@ == old(graph)@,
        byte_len(source@) > usize::MAX ==> r == Err::<(), ParseError>(ParseError::NoTree),
        byte_len(source@) <= usize::MAX ==> (r == Err::<(), ParseError>(ParseError::NoTree) && big_tree(source@))
            || exists|t: SyntaxTreeV|
            tree_of(t, source@) && match legacy_parts(t, source@, path@) {
                Some(p) => r is Ok && final(graph)@ == legacy_graph(old(graph)@, path@, p),
                None => r == Err::<(), ParseError>(ParseError::Text),
            },
{
    let src = match SourceText::new(source) {
        Some(s) => s,
        None => return Err(ParseError::NoTree),
    };
    proof {
        assert(src.offsets@[src.chars@.len() as int] == byte_len(source@));
    }
    let t = match parse_c(source) {
        Some(t) => t,
        None => return Err(ParseError::NoTree),
    };
    parse_tree_into(&t, &src, path, graph)
}

} // verus!
