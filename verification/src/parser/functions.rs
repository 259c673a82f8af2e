//! Function definitions and the calls in their bodies.
use vstd::prelude::*;

use crate::graph::types::{CallEdge, CallEdgeV, FunctionNode, FunctionNodeV};
use crate::parser::nodes::{
    comment_prefix, comment_prefix_exec, comment_run, comment_run_exec, conditions_of, extract_conditions,
    field_child, field_child_exec, field_child_of_kind, field_child_of_kind_exec, has_static, has_static_exec, kind,
    kind_is, line_no, line_of, node_text, text_of,
};
use crate::parser::source::SourceText;
use crate::parser::syntax::{SyntaxTree, SyntaxTreeV};
use crate::text::{owned, push_str};

verus! {

broadcast use vstd::seq_lib::group_seq_properties;

/// The name of a `function_declarator` node `c`: its `declarator` child, an identifier.
#[verifier::opaque]
pub open spec fn decl_ident(t: SyntaxTreeV, c: int) -> Option<int> {
    if kind(t, c) == "function_declarator"@ {
        field_child_of_kind(t, c, "declarator"@, "identifier"@)
    } else {
        None
    }
}

/// When node `d` defines a function, the identifier naming it. The declarator is a
/// `function_declarator`, or (when `pointers` holds) a `pointer_declarator` around one.
#[verifier::opaque]
pub open spec fn fn_name_node(t: SyntaxTreeV, d: int, pointers: bool) -> Option<int> {
    if kind(t, d) == "function_definition"@ {
        match field_child(t, d, "declarator"@) {
            Some(c) => if kind(t, c) == "function_declarator"@ {
                decl_ident(t, c)
            } else if pointers && kind(t, c) == "pointer_declarator"@ {
                match field_child(t, c, "declarator"@) {
                    Some(c2) => decl_ident(t, c2),
                    None => None,
                }
            } else {
                None
            },
            None => None,
        }
    } else {
        None
    }
}

/// The function defined by node `d` and named by node `n`; `None` when a text cannot be taken.
/// With `rich`, the comments just before the definition lead its source and give its line, and
/// the preprocessor conditions around it are recorded.
#[verifier::opaque]
pub open spec fn fn_record(t: SyntaxTreeV, s: Seq<char>, path: Seq<char>, d: int, n: int, rich: bool) -> Option<FunctionNodeV> {
    match (node_text(t, s, n), node_text(t, s, d)) {
        (Some(name), Some(body)) => {
            let run = if rich {
                comment_run(t, d)
            } else {
                Seq::empty()
            };
            Some(
                FunctionNodeV {
                    name,
                    file: path,
                    line: if run.len() > 0 {
                        line_no(t.nodes[run[0]].start_row)
                    } else {
                        line_no(t.nodes[n].start_row)
                    },
                    source: if run.len() > 0 {
                        comment_prefix(t, s, run) + body
                    } else {
                        body
                    },
                    conditions: if rich {
                        conditions_of(t, s, d)
                    } else {
                        Seq::empty()
                    },
                    is_static: has_static(t, s, d),
                },
            )
        },
        _ => None,
    }
}

/// The functions defined among the first `k` nodes, in order; `None` when a text fails.
pub open spec fn fn_nodes_upto(t: SyntaxTreeV, s: Seq<char>, path: Seq<char>, rich: bool, k: int) -> Option<Seq<FunctionNodeV>>
    decreases k,
{
    if k <= 0 {
        Some(Seq::empty())
    } else {
        match fn_nodes_upto(t, s, path, rich, k - 1) {
            None => None,
            Some(prev) => match fn_name_node(t, k - 1, rich) {
                None => Some(prev),
                Some(n) => match fn_record(t, s, path, k - 1, n, rich) {
                    Some(r) => Some(prev.push(r)),
                    None => None,
                },
            },
        }
    }
}

/// The functions a file defines, in order.
pub open spec fn fn_nodes(t: SyntaxTreeV, s: Seq<char>, path: Seq<char>, rich: bool) -> Option<Seq<FunctionNodeV>> {
    fn_nodes_upto(t, s, path, rich, t.nodes.len() as int)
}

fn decl_ident_exec(t: &SyntaxTree, c: usize) -> (r: Option<usize>)
    requires
        t@.wf(),
        c < t@.nodes.len(),
    ensures
        match r {
            Some(n) => decl_ident(t@, c as int) == Some(n as int) && n < t@.nodes.len(),
            None => decl_ident(t@, c as int) is None,
        },
{
    proof {
        reveal(decl_ident);
    }
    if kind_is(t, c, "function_declarator") {
        field_child_of_kind_exec(t, c, "declarator", "identifier")
    } else {
        None
    }
}

pub fn fn_name_node_exec(t: &SyntaxTree, d: usize, pointers: bool) -> (r: Option<usize>)
    requires
        t@.wf(),
        d < t@.nodes.len(),
    ensures
        match r {
            Some(n) => fn_name_node(t@, d as int, pointers) == Some(n as int) && n < t@.nodes.len(),
            None => fn_name_node(t@, d as int, pointers) is None,
        },
{
    proof {
        reveal(fn_name_node);
    }
    if !kind_is(t, d, "function_definition") {
        return None;
    }
    match field_child_exec(t, d, "declarator") {
        Some(c) => {
            if kind_is(t, c, "function_declarator") {
                decl_ident_exec(t, c)
            } else if pointers && kind_is(t, c, "pointer_declarator") {
                match field_child_exec(t, c, "declarator") {
                    Some(c2) => decl_ident_exec(t, c2),
                    None => None,
                }
            } else {
                None
            }
        },
        None => None,
    }
}

fn fn_record_exec(t: &SyntaxTree, src: &SourceText, path: &str, d: usize, n: usize, rich: bool) -> (r: Option<FunctionNode>)
    requires
        t@.wf(),
        src.wf(),
        d < t@.nodes.len(),
        n < t@.nodes.len(),
    ensures
        r.deep_view() == fn_record(t@, src.chars@, path@, d as int, n as int, rich),
{
    proof {
        reveal(fn_record);
    }
    let name = match text_of(t, src, n) {
        Some(x) => x,
        None => return None,
    };
    let body = match text_of(t, src, d) {
        Some(x) => x,
        None => return None,
    };
    let run: Vec<usize> = if rich {
        comment_run_exec(t, d)
    } else {
        Vec::new()
    };
    let ghost rv = run@.map_values(|i: usize| i as int);
    proof {
        if !rich {
            assert(rv =~= Seq::<int>::empty());
        }
    }
    let (source, line) = if run.len() > 0 {
        let mut s = comment_prefix_exec(t, src, &run);
        push_str(&mut s, body.as_str());
        (s, line_of(t.nodes[run[0]].start_row))
    } else {
        (body, line_of(t.nodes[n].start_row))
    };
    let conditions = if rich {
        extract_conditions(t, src, d)
    } else {
        Vec::new()
    };
    let is_static = has_static_exec(t, src, d);
    let r = FunctionNode { name, file: owned(path), line, source, conditions, is_static };
    proof {
        if !rich {
            assert(r.conditions.deep_view() =~= Seq::<Seq<char>>::empty());
        }
    }
    Some(r)
}

/// The functions the tree defines, in order; `None` when the text of one of them cannot be taken.
pub fn function_nodes(t: &SyntaxTree, src: &SourceText, path: &str, rich: bool) -> (r: Option<Vec<FunctionNode>>)
    requires
        t@.wf(),
        src.wf(),
    ensures
        r.deep_view() == fn_nodes(t@, src.chars@, path@, rich),
{
    let mut out: Vec<FunctionNode> = Vec::new();
    let mut d: usize = 0;
    while d < t.nodes.len()
        invariant
            t@.wf(),
            src.wf(),
            d <= t@.nodes.len(),
            fn_nodes_upto(t@, src.chars@, path@, rich, d as int) == Some(out.deep_view()),
        decreases t@.nodes.len() - d,
    {
        match fn_name_node_exec(t, d, rich) {
            Some(n) => {
                match fn_record_exec(t, src, path, d, n, rich) {
                    Some(rec) => {
                        let ghost before = out.deep_view();
                        out.push(rec);
                        proof {
                            assert(out.deep_view() =~= before.push(rec.deep_view()));
                        }
                    },
                    None => {
                        proof {
                            lemma_fn_nodes_stuck(t@, src.chars@, path@, rich, d as int + 1, t@.nodes.len() as int);
                        }
                        return None;
                    },
                }
            },
            None => {},
        }
        d += 1;
    }
    Some(out)
}

/// Once the list fails, it stays failed.
proof fn lemma_fn_nodes_stuck(t: SyntaxTreeV, s: Seq<char>, path: Seq<char>, rich: bool, a: int, b: int)
    requires
        a <= b,
        fn_nodes_upto(t, s, path, rich, a) is None,
    ensures
        fn_nodes_upto(t, s, path, rich, b) is None,
    decreases b - a,
{
    if a < b {
        lemma_fn_nodes_stuck(t, s, path, rich, a, b - 1);
    }
}

/// When node `j` is a call of a named function, the identifier naming the callee.
#[verifier::opaque]
pub open spec fn call_callee(t: SyntaxTreeV, j: int) -> Option<int> {
    if kind(t, j) == "call_expression"@ {
        field_child_of_kind(t, j, "function"@, "identifier"@)
    } else {
        None
    }
}

/// The calls among nodes `d .. j` of the subtree of a definition of `caller` (calls of
/// `caller` itself left out), each as a forward edge from `caller`; `None` when a text fails.
pub open spec fn calls_upto(t: SyntaxTreeV, s: Seq<char>, path: Seq<char>, d: int, caller: Seq<char>, j: int) -> Option<Seq<(Seq<char>, CallEdgeV)>>
    decreases j - d,
{
    if j <= d {
        Some(Seq::empty())
    } else {
        match calls_upto(t, s, path, d, caller, j - 1) {
            None => None,
            Some(prev) => match call_callee(t, j - 1) {
                None => Some(prev),
                Some(f) => match node_text(t, s, f) {
                    None => None,
                    Some(callee) => if callee != caller {
                        Some(prev.push((caller, CallEdgeV { name: callee, line: line_no(t.nodes[f].start_row), caller_file: path })))
                    } else {
                        Some(prev)
                    },
                },
            },
        }
    }
}

/// The call edges of the functions defined among the first `k` nodes.
pub open spec fn edges_upto(t: SyntaxTreeV, s: Seq<char>, path: Seq<char>, rich: bool, k: int) -> Option<Seq<(Seq<char>, CallEdgeV)>>
    decreases k,
{
    if k <= 0 {
        Some(Seq::empty())
    } else {
        match edges_upto(t, s, path, rich, k - 1) {
            None => None,
            Some(prev) => match fn_name_node(t, k - 1, rich) {
                None => Some(prev),
                Some(n) => match node_text(t, s, n) {
                    None => None,
                    Some(caller) => match calls_upto(t, s, path, k - 1, caller, t.sub_end[k - 1] as int) {
                        None => None,
                        Some(cs) => Some(prev + cs),
                    },
                },
            },
        }
    }
}

/// The call edges a file holds, function by function.
pub open spec fn call_edges_spec(t: SyntaxTreeV, s: Seq<char>, path: Seq<char>, rich: bool) -> Option<Seq<(Seq<char>, CallEdgeV)>> {
    edges_upto(t, s, path, rich, t.nodes.len() as int)
}

proof fn lemma_calls_stuck(t: SyntaxTreeV, s: Seq<char>, path: Seq<char>, d: int, caller: Seq<char>, a: int, b: int)
    requires
        d <= a <= b,
        calls_upto(t, s, path, d, caller, a) is None,
    ensures
        calls_upto(t, s, path, d, caller, b) is None,
    decreases b - a,
{
    if a < b {
        lemma_calls_stuck(t, s, path, d, caller, a, b - 1);
    }
}

proof fn lemma_edges_stuck(t: SyntaxTreeV, s: Seq<char>, path: Seq<char>, rich: bool, a: int, b: int)
    requires
        a <= b,
        edges_upto(t, s, path, rich, a) is None,
    ensures
        edges_upto(t, s, path, rich, b) is None,
    decreases b - a,
{
    if a < b {
        lemma_edges_stuck(t, s, path, rich, a, b - 1);
    }
}

fn call_callee_exec(t: &SyntaxTree, j: usize) -> (r: Option<usize>)
    requires
        t@.wf(),
        j < t@.nodes.len(),
    ensures
        match r {
            Some(f) => call_callee(t@, j as int) == Some(f as int) && f < t@.nodes.len(),
            None => call_callee(t@, j as int) is None,
        },
{
    proof {
        reveal(call_callee);
    }
    if kind_is(t, j, "call_expression") {
        field_child_of_kind_exec(t, j, "function", "identifier")
    } else {
        None
    }
}

/// The calls in the subtree of definition `d`, appended to `out`; false when a text fails.
fn push_calls(t: &SyntaxTree, src: &SourceText, path: &str, d: usize, caller: &String, out: &mut Vec<(String, CallEdge)>) -> (ok: bool)
    requires
        t@.wf(),
        src.wf(),
        d < t@.nodes.len(),
    ensures
        match calls_upto(t@, src.chars@, path@, d as int, caller@, t@.sub_end[d as int] as int) {
            Some(cs) => ok && final(out).deep_view() == old(out).deep_view() + cs,
            None => !ok,
        },
{
    let ghost o0 = out.deep_view();
    let end = t.sub_end[d];
    let mut j = d;
    proof {
        assert(calls_upto(t@, src.chars@, path@, d as int, caller@, d as int) == Some(Seq::<(Seq<char>, CallEdgeV)>::empty()));
        assert(o0 + Seq::<(Seq<char>, CallEdgeV)>::empty() =~= o0);
    }
    while j < end
        invariant
            t@.wf(),
            src.wf(),
            end == t@.sub_end[d as int],
            end <= t@.nodes.len(),
            d <= j <= end,
            calls_upto(t@, src.chars@, path@, d as int, caller@, j as int) matches Some(cs) && out.deep_view() == o0 + cs,
        decreases end - j,
    {
        let ghost before = out.deep_view();
        let callee = call_callee_exec(t, j);
        match callee {
            Some(f) => {
                match text_of(t, src, f) {
                    Some(name) => {
                        if name != *caller {
                            let e = CallEdge { name, line: line_of(t.nodes[f].start_row), caller_file: owned(path) };
                            out.push((caller.clone(), e));
                            proof {
                                assert(out.deep_view() =~= before.push((caller@, e.deep_view())));
                            }
                        }
                    },
                    None => {
                        proof {
                            lemma_calls_stuck(t@, src.chars@, path@, d as int, caller@, j + 1, end as int);
                        }
                        return false;
                    },
                }
            },
            None => {},
        }
        j += 1;
    }
    true
}

/// The call edges of every function the tree defines, function by function; `None` when a text
/// fails.
pub fn call_edges(t: &SyntaxTree, src: &SourceText, path: &str, rich: bool) -> (r: Option<Vec<(String, CallEdge)>>)
    requires
        t@.wf(),
        src.wf(),
    ensures
        r.deep_view() == call_edges_spec(t@, src.chars@, path@, rich),
{
    let mut out: Vec<(String, CallEdge)> = Vec::new();
    let mut d: usize = 0;
    while d < t.nodes.len()
        invariant
            t@.wf(),
            src.wf(),
            d <= t@.nodes.len(),
            edges_upto(t@, src.chars@, path@, rich, d as int) == Some(out.deep_view()),
        decreases t@.nodes.len() - d,
    {
        match fn_name_node_exec(t, d, rich) {
            Some(n) => {
                match text_of(t, src, n) {
                    Some(caller) => {
                        if !push_calls(t, src, path, d, &caller, &mut out) {
                            proof {
                                lemma_edges_stuck(t@, src.chars@, path@, rich, d as int + 1, t@.nodes.len() as int);
                            }
                            return None;
                        }
                    },
                    None => {
                        proof {
                            lemma_edges_stuck(t@, src.chars@, path@, rich, d as int + 1, t@.nodes.len() as int);
                        }
                        return None;
                    },
                }
            },
            None => {},
        }
        d += 1;
    }
    Some(out)
}

} // verus!
