//! Function lookups: by name, by file, the public API of a file, one definition's source, and
//! the most-called functions.
use vstd::prelude::*;

use crate::graph::call_graph::{fan_entries, is_top, CallGraph};
use crate::graph::types::{FunctionNode, FunctionNodeV};
use crate::order::sorted_perm;
use crate::server::tools::{concat3, fmt_fn_spec, fmt_fns, sorted_lines, static_tag};
use crate::text::{contains_ci, decimal, join, join_strings, owned, push_decimal, push_str};

verus! {

pub struct FindFunctionParams {
    /// Function name substring to search for (case-insensitive)
    pub name: String,
}

pub struct FindInFileParams {
    /// Filename substring to match against file paths (case-insensitive)
    pub filename: String,
}

pub struct GetSourceParams {
    /// Exact function name
    pub name: String,
}

pub struct TopNParams {
    /// Number of results to return (default: 10)
    pub top_n: Option<u32>,
}

/// The answer listing `lines` sorted, one per line, or `none_msg` when there are none.
pub open spec fn listing_or(lines: Seq<Seq<char>>, out: Seq<char>, none_msg: Seq<char>) -> bool {
    if lines.len() == 0 {
        out == none_msg
    } else {
        exists|s: Seq<Seq<char>>| sorted_perm(s, lines) && out == join(s, "\n"@)
    }
}

/// Answers with the sorted lines, or with `none_msg` when there are none.
fn list_or(lines: Vec<String>, none_msg: String) -> (r: String)
    ensures
        listing_or(lines.deep_view(), r@, none_msg@),
{
    if lines.len() == 0 {
        return none_msg;
    }
    sorted_lines(lines)
}

/// Functions whose name contains `name` (ignoring case), one per line as `name [static] @
/// file:line`, sorted.
pub fn find_function(graph: &CallGraph, params: FindFunctionParams) -> (r: String)
    ensures
        listing_or(
            graph@.nodes.filter(|n: FunctionNodeV| contains_ci(n.name, params.name@)).map_values(
                |n: FunctionNodeV| fmt_fn_spec(n),
            ),
            r@,
            "No functions matching '"@ + params.name@ + "'"@,
        ),
{
    let FindFunctionParams { name } = params;
    let found = graph.find_function(name.as_str());
    let lines = fmt_fns(&found);
    list_or(lines, concat3("No functions matching '", name.as_str(), "'"))
}

/// Functions defined in files whose path contains `filename` (ignoring case), one per line,
/// sorted.
pub fn find_functions_in_file(graph: &CallGraph, params: FindInFileParams) -> (r: String)
    ensures
        listing_or(
            graph@.nodes.filter(|n: FunctionNodeV| contains_ci(n.file, params.filename@)).map_values(
                |n: FunctionNodeV| fmt_fn_spec(n),
            ),
            r@,
            "No functions found in files matching '"@ + params.filename@ + "'"@,
        ),
{
    let FindInFileParams { filename } = params;
    let found = graph.find_functions_in_file(filename.as_str());
    let lines = fmt_fns(&found);
    list_or(lines, concat3("No functions found in files matching '", filename.as_str(), "'"))
}

/// The non-`static` functions of files whose path contains `filename` (ignoring case), one per
/// line, sorted.
pub fn get_public_api(graph: &CallGraph, params: FindInFileParams) -> (r: String)
    ensures
        listing_or(
            graph@.nodes.filter(|n: FunctionNodeV| !n.is_static && contains_ci(n.file, params.filename@)).map_values(
                |n: FunctionNodeV| fmt_fn_spec(n),
            ),
            r@,
            "No public (non-static) functions found in files matching '"@ + params.filename@ + "'"@,
        ),
{
    let FindInFileParams { filename } = params;
    let found = graph.get_public_api(filename.as_str());
    let lines = fmt_fns(&found);
    list_or(lines, concat3("No public (non-static) functions found in files matching '", filename.as_str(), "'"))
}

/// `i` is the first position of a function named `name`.
pub open spec fn first_named(nodes: Seq<FunctionNodeV>, name: Seq<char>, i: int) -> bool {
    &&& 0 <= i < nodes.len()
    &&& nodes[i].name == name
    &&& forall|j: int| 0 <= j < i ==> #[trigger] nodes[j].name != name
}

/// No function is named `name`.
pub open spec fn none_named(nodes: Seq<FunctionNodeV>, name: Seq<char>) -> bool {
    forall|i: int| 0 <= i < nodes.len() ==> #[trigger] nodes[i].name != name
}

/// There is one first position of a name.
pub proof fn lemma_first_named_unique(nodes: Seq<FunctionNodeV>, name: Seq<char>, i: int, k: int)
    requires
        first_named(nodes, name, i),
        first_named(nodes, name, k),
    ensures
        i == k,
{
    if i < k {
        assert(nodes[i].name != name);
    }
    if k < i {
        assert(nodes[k].name != name);
    }
}

/// The first definition named `name`, as a lookup by name finds it.
pub fn node_named<'a>(nodes: &'a Vec<FunctionNode>, name: &str) -> (r: Option<&'a FunctionNode>)
    ensures
        match r {
            Some(n) => exists|i: int| first_named(nodes.deep_view(), name@, i) && nodes.deep_view()[i] == n.deep_view(),
            None => none_named(nodes.deep_view(), name@),
        },
{
    let key = owned(name);
    let mut i: usize = 0;
    while i < nodes.len()
        invariant
            i <= nodes@.len(),
            key@ == name@,
            forall|j: int| 0 <= j < i ==> #[trigger] nodes.deep_view()[j].name != name@,
        decreases nodes@.len() - i,
    {
        if nodes[i].name == key {
            assert(first_named(nodes.deep_view(), name@, i as int));
            return Some(&nodes[i]);
        }
        i += 1;
    }
    None
}

/// `// file:line [static]` above the source of a definition.
pub open spec fn source_text(n: FunctionNodeV) -> Seq<char> {
    "// "@ + n.file + ":"@ + decimal(n.line as nat) + static_tag(n.is_static) + "\n"@ + n.source
}

/// The source of the function named `name`, under a comment giving its place.
pub fn get_source(graph: &CallGraph, params: GetSourceParams) -> (r: String)
    ensures
        none_named(graph@.nodes, params.name@) ==> r@ == "Function '"@ + params.name@ + "' not found"@,
        forall|i: int| first_named(graph@.nodes, params.name@, i) ==> r@ == source_text(graph@.nodes[i]),
{
    let GetSourceParams { name } = params;
    match node_named(&graph.nodes, name.as_str()) {
        Some(n) => {
            let mut s = owned("// ");
            push_str(&mut s, n.file.as_str());
            push_str(&mut s, ":");
            push_decimal(&mut s, n.line as u64);
            if n.is_static {
                push_str(&mut s, " [static]");
            }
            push_str(&mut s, "\n");
            push_str(&mut s, n.source.as_str());
            proof {
                let i = choose|i: int| first_named(graph@.nodes, name@, i) && graph@.nodes[i] == n.deep_view();
                assert forall|k: int| first_named(graph@.nodes, name@, k) implies s@ == source_text(graph@.nodes[k]) by {
                    lemma_first_named_unique(graph@.nodes, name@, i, k);
                }
                assert(!none_named(graph@.nodes, name@));
            }
            s
        },
        None => concat3("Function '", name.as_str(), "' not found"),
    }
}

/// ` @ file:line` of the first definition named `name`, or nothing when there is none.
pub open spec fn loc_spec(nodes: Seq<FunctionNodeV>, name: Seq<char>) -> Seq<char> {
    if exists|i: int| first_named(nodes, name, i) {
        let i = choose|i: int| first_named(nodes, name, i);
        " @ "@ + nodes[i].file + ":"@ + decimal(nodes[i].line as nat)
    } else {
        Seq::empty()
    }
}

/// `rank. name @ file:line — count callers`.
pub open spec fn rank_line(nodes: Seq<FunctionNodeV>, i: int, e: (Seq<char>, usize)) -> Seq<char> {
    decimal((i + 1) as nat) + ". "@ + e.0 + loc_spec(nodes, e.0) + " — "@ + decimal(e.1 as nat) + " callers"@
}

/// The ranking, one line per entry.
pub open spec fn rank_lines(nodes: Seq<FunctionNodeV>, t: Seq<(Seq<char>, usize)>) -> Seq<Seq<char>> {
    Seq::new(t.len(), |i: int| rank_line(nodes, i, t[i]))
}

/// How many entries a ranking asks for: the given number, 10 by default.
pub open spec fn top_count(top_n: Option<u32>) -> int {
    match top_n {
        Some(t) => t as int,
        None => 10,
    }
}

/// The location of the first definition named `name`.
fn loc_of(nodes: &Vec<FunctionNode>, name: &str) -> (r: String)
    ensures
        r@ == loc_spec(nodes.deep_view(), name@),
{
    match node_named(nodes, name) {
        Some(nd) => {
            let mut s = owned(" @ ");
            push_str(&mut s, nd.file.as_str());
            push_str(&mut s, ":");
            push_decimal(&mut s, nd.line as u64);
            proof {
                let i = choose|i: int| first_named(nodes.deep_view(), name@, i) && nodes.deep_view()[i] == nd.deep_view();
                let k = choose|k: int| first_named(nodes.deep_view(), name@, k);
                lemma_first_named_unique(nodes.deep_view(), name@, i, k);
            }
            s
        },
        None => {
            proof {
                if exists|i: int| first_named(nodes.deep_view(), name@, i) {
                    let i = choose|i: int| first_named(nodes.deep_view(), name@, i);
                    assert(nodes.deep_view()[i].name != name@);
                }
            }
            String::new()
        },
    }
}

/// The functions with the most callers, one per line with their rank, place and count.
pub fn find_high_fan_in(graph: &CallGraph, params: TopNParams) -> (r: String)
    ensures
        top_count(params.top_n) == 0 || graph@.nodes.len() == 0 ==> r@ == "No functions in graph"@,
        top_count(params.top_n) > 0 && graph@.nodes.len() > 0 ==> exists|t: Seq<(Seq<char>, usize)>|
            is_top(t, fan_entries(graph@.nodes, graph@.callers), top_count(params.top_n))
                && r@ == join(rank_lines(graph@.nodes, t), "\n"@),
{
    let TopNParams { top_n } = params;
    let k: u32 = match top_n {
        Some(t) => t,
        None => 10,
    };
    let ranked = graph.top_by_fan_in(k as usize);
    if ranked.len() == 0 {
        return owned("No functions in graph");
    }
    let ghost t = ranked.deep_view();
    let ghost nv = graph@.nodes;
    let mut lines: Vec<String> = Vec::new();
    let mut i: usize = 0;
    while i < ranked.len()
        invariant
            i <= t.len(),
            t == ranked.deep_view(),
            nv == graph@.nodes,
            lines.deep_view() == rank_lines(nv, t).take(i as int),
        decreases t.len() - i,
    {
        let (name, count) = ranked[i];
        let mut s = String::new();
        push_decimal(&mut s, (i + 1) as u64);
        push_str(&mut s, ". ");
        push_str(&mut s, name);
        let loc = loc_of(&graph.nodes, name);
        push_str(&mut s, loc.as_str());
        push_str(&mut s, " — ");
        push_decimal(&mut s, count as u64);
        push_str(&mut s, " callers");
        let ghost before = lines.deep_view();
        proof {
            assert(s@ =~= rank_line(nv, i as int, t[i as int]));
            assert(rank_lines(nv, t)[i as int] == s@);
            assert(rank_lines(nv, t).take(i + 1) =~= rank_lines(nv, t).take(i as int).push(s@));
        }
        lines.push(s);
        i += 1;
        proof {
            assert(lines.deep_view() =~= before.push(s@));
        }
    }
    assert(rank_lines(nv, t).take(t.len() as int) =~= rank_lines(nv, t));
    join_strings(&lines, "\n")
}

} // verus!
