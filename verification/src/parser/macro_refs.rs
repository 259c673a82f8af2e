//! Functions that a file passes to macros (`NRF_SDH_BLE_OBSERVER(obs, prio, my_handler, ctx)`):
//! no call edge reaches them, yet they are used.
use vstd::prelude::*;

use crate::graph::call_graph::{CallGraph, CallGraphV};
use crate::graph::types::{FunctionNode, FunctionNodeV};
use crate::parser::scan::{macro_args, macro_args_spec};
use crate::parser::source::{byte_len, SourceText};
use crate::parser::syntax::{big_tree, parse_c, tree_of, SyntaxTree, SyntaxTreeV};
use crate::parser::ParseError;

verus! {

broadcast use vstd::seq_lib::group_seq_properties;

/// Some function of `nodes` is named `name`.
pub open spec fn known(nodes: Seq<FunctionNodeV>, name: Seq<char>) -> bool {
    exists|i: int| 0 <= i < nodes.len() && nodes[i].name == name
}

/// `acc` after adding, in order, each of `names` that is the name of a function of `nodes` (when
/// `only_known` holds) and that it lacks.
pub open spec fn refs_after(acc: Seq<Seq<char>>, nodes: Seq<FunctionNodeV>, names: Seq<Seq<char>>, only_known: bool) -> Seq<Seq<char>>
    decreases names.len(),
{
    if names.len() == 0 {
        acc
    } else {
        let prev = refs_after(acc, nodes, names.drop_last(), only_known);
        let x = names.last();
        if (!only_known || known(nodes, x)) && !prev.contains(x) {
            prev.push(x)
        } else {
            prev
        }
    }
}

/// Is `name` among `names`?
fn contains_str(names: &Vec<String>, name: &String) -> (r: bool)
    ensures
        r == names.deep_view().contains(name@),
{
    let mut i: usize = 0;
    while i < names.len()
        invariant
            i <= names@.len(),
            forall|j: int| 0 <= j < i ==> names.deep_view()[j] != name@,
        decreases names@.len() - i,
    {
        if names[i] == *name {
            assert(names.deep_view()[i as int] == name@);
            return true;
        }
        i += 1;
    }
    false
}

/// Is some function of `nodes` named `name`?
fn known_exec(nodes: &Vec<FunctionNode>, name: &String) -> (r: bool)
    ensures
        r == known(nodes.deep_view(), name@),
{
    let mut i: usize = 0;
    while i < nodes.len()
        invariant
            i <= nodes@.len(),
            forall|j: int| 0 <= j < i ==> nodes.deep_view()[j].name != name@,
        decreases nodes@.len() - i,
    {
        if nodes[i].name == *name {
            assert(nodes.deep_view()[i as int].name == name@);
            return true;
        }
        i += 1;
    }
    false
}

/// The distinct identifiers of `args`, in order of first appearance; only the names of
/// functions of `nodes` when `only_known` holds.
fn distinct_refs(args: Vec<String>, nodes: &Vec<FunctionNode>, only_known: bool) -> (r: Vec<String>)
    ensures
        r.deep_view() == refs_after(Seq::empty(), nodes.deep_view(), args.deep_view(), only_known),
{
    let ghost av = args.deep_view();
    let mut r: Vec<String> = Vec::new();
    for x in it: args
        invariant
            av == it.seq().map_values(|s: String| s@),
            r.deep_view() == refs_after(Seq::empty(), nodes.deep_view(), av.take(it.index() as int), only_known),
    {
        let ghost k = it.index();
        proof {
            assert(av.take(k + 1).drop_last() =~= av.take(k as int));
            assert(av[k as int] == x@);
        }
        let ghost before = r.deep_view();
        if (!only_known || known_exec(nodes, &x)) && !contains_str(&r, &x) {
            let ghost xv = x@;
            r.push(x);
            proof {
                assert(r.deep_view() =~= before.push(xv));
            }
        }
    }
    proof {
        assert(av.take(av.len() as int) =~= av);
    }
    r
}

/// Records, for each identifier passed to a macro call in the tree, that it is passed to a
/// macro, when it names a function of the graph (each name once).
pub fn scan_tree_macro_refs(t: &SyntaxTree, src: &SourceText, graph: &mut CallGraph)
    requires
        t@.wf(),
        src.wf(),
        old(graph)@.wf(),
    ensures
        final(graph)@.wf(),
        final(graph)@ == (CallGraphV {
            macro_referenced: refs_after(old(graph)@.macro_referenced, old(graph)@.nodes, macro_args_spec(t@, src.chars@), true),
            ..old(graph)@
        }),
{
    let args = macro_args(t, src);
    let ghost av = args.deep_view();
    let ghost g0 = graph@;
    for x in it: args
        invariant
            av == it.seq().map_values(|s: String| s@),
            graph@.wf(),
            graph@ == (CallGraphV {
                macro_referenced: refs_after(g0.macro_referenced, g0.nodes, av.take(it.index() as int), true),
                ..g0
            }),
    {
        let ghost k = it.index();
        proof {
            assert(av.take(k + 1).drop_last() =~= av.take(k as int));
            assert(av[k as int] == x@);
        }
        graph.add_macro_ref(x.as_str());
    }
    proof {
        assert(av.take(av.len() as int) =~= av);
    }
}

/// Parses `source` and records the functions of the graph it passes to macros, as
/// `scan_tree_macro_refs` says on the tree tree-sitter gives for the text; `NoTree` (graph
/// unchanged) only when the text is too long for its byte offsets to fit a `usize`, or its tree
/// has more nodes than the copy takes (`big_tree`).
pub fn scan_macro_refs(source: &str, graph: &mut CallGraph) -> (r: Result<(), ParseError>)
    requires
        old(graph)@.wf(),
    ensures
        final(graph)@.wf(),
        r is Ok ==> exists|t: SyntaxTreeV|
            tree_of(t, source@) && final(graph)@ == (CallGraphV {
                macro_referenced: refs_after(old(graph)@.macro_referenced, old(graph)@.nodes, macro_args_spec(t, source@), true),
                ..old(graph)@
            }),
        r is Err ==> r == Err::<(), ParseError>(ParseError::NoTree) && final(graph)@ == old(graph)@,
        r is Err ==> byte_len(source@) > usize::MAX || big_tree(source@),
        byte_len(source@) > usize::MAX ==> r is Err,
{
    let src = match SourceText::new(source) {
        Some(s) => s,
        None => return Err(ParseError::NoTree),
    };
    proof {
        assert(src.offsets@[src.chars@.len() as int] == byte_len(source@));
    }
    let t = match parse_c(source) {
        Some(t) => t,
        None => return Err(ParseError::NoTree),
    };
    proof {
        assert(src.chars@ == source@);
    }
    scan_tree_macro_refs(&t, &src, graph);
    Ok(())
}

/// The functions of `nodes` that `source` passes to macros, each once, in order of first
/// appearance, read off the tree tree-sitter gives for the text; `NoTree` only when the text is
/// too long for its byte offsets to fit a `usize`, or its tree has more nodes than the copy
/// takes (`big_tree`).
pub fn collect_macro_refs(source: &str, nodes: &Vec<FunctionNode>) -> (r: Result<Vec<String>, ParseError>)
    ensures
        r matches Ok(v) ==> exists|t: SyntaxTreeV|
            tree_of(t, source@) && v.deep_view() == refs_after(Seq::empty(), nodes.deep_view(), macro_args_spec(t, source@), true),
        r matches Err(e) ==> e == ParseError::NoTree,
        r is Err ==> byte_len(source@) > usize::MAX || big_tree(source@),
        byte_len(source@) > usize::MAX ==> r is Err,
{
    let src = match SourceText::new(source) {
        Some(s) => s,
        None => return Err(ParseError::NoTree),
    };
    proof {
        assert(src.offsets@[src.chars@.len() as int] == byte_len(source@));
    }
    let t = match parse_c(source) {
        Some(t) => t,
        None => return Err(ParseError::NoTree),
    };
    let args = macro_args(&t, &src);
    Ok(distinct_refs(args, nodes, true))
}

/// The identifiers `source` passes to macro calls, whether they name functions or not, each
/// once, in order of first appearance, read off the tree tree-sitter gives for the text;
/// `NoTree` only when the text is too long for its byte offsets to fit a `usize`, or its tree
/// has more nodes than the copy takes (`big_tree`).
pub fn collect_macro_arg_candidates(source: &str) -> (r: Result<Vec<String>, ParseError>)
    ensures
        r matches Ok(v) ==> exists|t: SyntaxTreeV|
            tree_of(t, source@) && v.deep_view() == refs_after(Seq::empty(), Seq::empty(), macro_args_spec(t, source@), false),
        r matches Err(e) ==> e == ParseError::NoTree,
        r is Err ==> byte_len(source@) > usize::MAX || big_tree(source@),
        byte_len(source@) > usize::MAX ==> r is Err,
{
    let src = match SourceText::new(source) {
        Some(s) => s,
        None => return Err(ParseError::NoTree),
    };
    proof {
        assert(src.offsets@[src.chars@.len() as int] == byte_len(source@));
    }
    let t = match parse_c(source) {
        Some(t) => t,
        None => return Err(ParseError::NoTree),
    };
    let args = macro_args(&t, &src);
    let none: Vec<FunctionNode> = Vec::new();
    proof {
        assert(none.deep_view() =~= Seq::<FunctionNodeV>::empty());
    }
    Ok(distinct_refs(args, &none, false))
}

} // verus!
