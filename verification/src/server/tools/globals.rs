//! Global-variable lookups over the codebase graph: the globals of a file, the functions using
//! a global, and the globals a function uses.
use vstd::prelude::*;

use crate::graph::codebase::{mentioned_by, CodebaseGraph};
use crate::graph::types::{FunctionNodeV, GlobalVar, GlobalVarV};
use crate::server::tools::functions::GetSourceParams;
use crate::server::tools::includes::GetIncludesParams;
use crate::server::tools::types::GetTypeUsersParams;
use crate::server::tools::{concat3, fmt_fn_spec, fmt_fns, static_tag};
use crate::text::{contains_ci, contains_word_spec, decimal, join, join_strings, owned, push_decimal, push_str};

verus! {

/// `name [static] @ file:line`.
pub open spec fn global_head(v: GlobalVarV) -> Seq<char> {
    v.name + static_tag(v.is_static) + " @ "@ + v.file + ":"@ + decimal(v.line as nat)
}

/// The head line, then the declaration indented on the next line.
pub open spec fn global_entry(v: GlobalVarV) -> Seq<char> {
    global_head(v) + "\n  "@ + v.decl
}

fn global_head_exec(v: &GlobalVar) -> (r: String)
    ensures
        r@ == global_head(v.deep_view()),
{
    let mut s = owned(v.name.as_str());
    if v.is_static {
        push_str(&mut s, " [static]");
    }
    push_str(&mut s, " @ ");
    push_str(&mut s, v.file.as_str());
    push_str(&mut s, ":");
    push_decimal(&mut s, v.line as u64);
    s
}

/// One entry per global, with or without its declaration, one after the other.
fn global_lines(found: &Vec<&GlobalVar>, with_decl: bool) -> (r: String)
    ensures
        with_decl ==> r@ == join(found.deep_view().map_values(|v: GlobalVarV| global_entry(v)), "\n"@),
        !with_decl ==> r@ == join(found.deep_view().map_values(|v: GlobalVarV| global_head(v)), "\n"@),
{
    let ghost t = found.deep_view();
    let ghost f = if with_decl { |v: GlobalVarV| global_entry(v) } else { |v: GlobalVarV| global_head(v) };
    let mut lines: Vec<String> = Vec::new();
    let mut i: usize = 0;
    while i < found.len()
        invariant
            i <= t.len(),
            t == found.deep_view(),
            f == (if with_decl { |v: GlobalVarV| global_entry(v) } else { |v: GlobalVarV| global_head(v) }),
            lines.deep_view() == t.take(i as int).map_values(f),
        decreases t.len() - i,
    {
        let mut s = global_head_exec(found[i]);
        if with_decl {
            push_str(&mut s, "\n  ");
            push_str(&mut s, found[i].decl.as_str());
        }
        let ghost before = lines.deep_view();
        lines.push(s);
        i += 1;
        proof {
            assert(t.take(i as int) =~= t.take(i - 1).push(t[i - 1]));
            assert(lines.deep_view() =~= before.push(s@));
            assert(lines.deep_view() =~= t.take(i as int).map_values(f));
        }
    }
    assert(t.take(t.len() as int) =~= t);
    join_strings(&lines, "\n")
}

/// The global variables of files whose path contains `file` (ignoring case), each with its
/// declaration, in graph order.
pub fn get_globals(graph: &CodebaseGraph, params: GetIncludesParams) -> (r: String)
    ensures
        ({
            let found = graph@.globals.filter(|v: GlobalVarV| contains_ci(v.file, params.file@));
            if found.len() == 0 {
                r@ == "No global variables found in files matching '"@ + params.file@ + "'"@
            } else {
                r@ == join(found.map_values(|v: GlobalVarV| global_entry(v)), "\n"@)
            }
        }),
{
    let GetIncludesParams { file } = params;
    let found = graph.find_globals(file.as_str());
    if found.len() == 0 {
        return concat3("No global variables found in files matching '", file.as_str(), "'");
    }
    global_lines(&found, true)
}

/// The functions that mention the global `name` as a whole word, one per line, in graph order.
pub fn get_global_users(graph: &CodebaseGraph, params: GetTypeUsersParams) -> (r: String)
    ensures
        ({
            let found = graph@.nodes.filter(|n: FunctionNodeV| contains_word_spec(n.source, params.name@));
            if found.len() == 0 {
                r@ == "No functions reference global '"@ + params.name@ + "'"@
            } else {
                r@ == join(found.map_values(|n: FunctionNodeV| fmt_fn_spec(n)), "\n"@)
            }
        }),
{
    let GetTypeUsersParams { name } = params;
    let found = graph.get_global_users(name.as_str());
    if found.len() == 0 {
        return concat3("No functions reference global '", name.as_str(), "'");
    }
    let lines = fmt_fns(&found);
    join_strings(&lines, "\n")
}

/// The global variables that the function `name` mentions, one per line, in graph order; when
/// there are none, says whether the function exists.
pub fn get_fn_globals(graph: &CodebaseGraph, params: GetSourceParams) -> (r: String)
    ensures
        ({
            let found = graph@.globals.filter(|v: GlobalVarV| mentioned_by(graph@.nodes, params.name@, v.name));
            if found.len() > 0 {
                r@ == join(found.map_values(|v: GlobalVarV| global_head(v)), "\n"@)
            } else if exists|i: int| 0 <= i < graph@.nodes.len() && #[trigger] graph@.nodes[i].name == params.name@ {
                r@ == "'"@ + params.name@ + "' does not reference any indexed global variables"@
            } else {
                r@ == "Function '"@ + params.name@ + "' not found"@
            }
        }),
{
    let GetSourceParams { name } = params;
    let found = graph.get_fn_globals(name.as_str());
    if found.len() == 0 {
        if graph.has_function(name.as_str()) {
            return concat3("'", name.as_str(), "' does not reference any indexed global variables");
        }
        return concat3("Function '", name.as_str(), "' not found");
    }
    global_lines(&found, false)
}

} // verus!
