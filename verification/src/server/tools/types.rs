//! Type lookups: definitions by name, and the functions that use a type.
use vstd::prelude::*;

use crate::graph::call_graph::{name_path_le, CallGraph};
use crate::graph::types::{FunctionNode, FunctionNodeV, TypeNode, TypeNodeV};
use crate::order::chars_le;
use crate::server::tools::concat3;
use crate::text::{contains_ci, contains_word_spec, decimal, join, join_strings, owned, push_decimal, push_str};

verus! {

broadcast use vstd::seq_lib::group_seq_properties;

pub struct FindTypeParams {
    /// Type name substring to search for (case-insensitive). Matches struct, union, enum, and
    /// typedef names.
    pub name: String,
}

pub struct GetTypeUsersParams {
    /// Exact type name to search for in function bodies (e.g. ble_evt_t)
    pub name: String,
}

/// `[kind] name @ file:line`, then the definition on the lines below.
pub open spec fn type_block(t: TypeNodeV) -> Seq<char> {
    "["@ + t.kind.name_spec() + "] "@ + t.name + " @ "@ + t.file + ":"@ + decimal(t.line as nat) + "\n"@ + t.definition
}

/// Types whose name contains `query`, ignoring case, in graph order.
pub open spec fn types_matching(g: Seq<TypeNodeV>, query: Seq<char>) -> Seq<TypeNodeV> {
    g.filter(|t: TypeNodeV| contains_ci(t.name, query))
}

/// Ordered by name, then by file.
pub open spec fn types_by_name_path(t: Seq<TypeNodeV>) -> bool {
    forall|i: int, j: int| 0 <= i < j < t.len() ==> name_path_le(#[trigger] t[i].name, t[i].file, #[trigger] t[j].name, t[j].file)
}

fn type_block_exec(t: &TypeNode) -> (r: String)
    ensures
        r@ == type_block(t.deep_view()),
{
    let mut r = owned("[");
    push_str(&mut r, t.kind.as_str());
    push_str(&mut r, "] ");
    push_str(&mut r, t.name.as_str());
    push_str(&mut r, " @ ");
    push_str(&mut r, t.file.as_str());
    push_str(&mut r, ":");
    push_decimal(&mut r, t.line as u64);
    push_str(&mut r, "\n");
    push_str(&mut r, t.definition.as_str());
    r
}

/// Type definitions whose name contains `name` (ignoring case), ordered by name and file, each
/// with its definition, separated by blank lines.
pub fn find_type(graph: &CallGraph, params: FindTypeParams) -> (r: String)
    ensures
        types_matching(graph@.types, params.name@).len() == 0 ==> r@ == "No types matching '"@ + params.name@ + "'"@,
        types_matching(graph@.types, params.name@).len() > 0 ==> exists|t: Seq<TypeNodeV>|
            t.to_multiset() == types_matching(graph@.types, params.name@).to_multiset() && types_by_name_path(t)
                && r@ == join(t.map_values(|x: TypeNodeV| type_block(x)), "\n\n"@),
{
    let FindTypeParams { name } = params;
    let results = graph.find_type(name.as_str());
    let ghost t = results.deep_view();
    proof {
        assert(t.to_multiset().len() == t.len());
        assert(types_matching(graph@.types, name@).to_multiset().len() == types_matching(graph@.types, name@).len());
    }
    if results.len() == 0 {
        return concat3("No types matching '", name.as_str(), "'");
    }
    let mut blocks: Vec<String> = Vec::new();
    let mut i: usize = 0;
    while i < results.len()
        invariant
            i <= t.len(),
            t == results.deep_view(),
            blocks.deep_view() == t.take(i as int).map_values(|x: TypeNodeV| type_block(x)),
        decreases t.len() - i,
    {
        let b = type_block_exec(results[i]);
        let ghost before = blocks.deep_view();
        blocks.push(b);
        i += 1;
        proof {
            assert(t.take(i as int) =~= t.take(i - 1).push(t[i - 1]));
            assert(blocks.deep_view() =~= before.push(b@));
            assert(blocks.deep_view() =~= t.take(i as int).map_values(|x: TypeNodeV| type_block(x)));
        }
    }
    assert(t.take(t.len() as int) =~= t);
    let r = join_strings(&blocks, "\n\n");
    assert(types_by_name_path(t));
    assert(r@ == join(t.map_values(|x: TypeNodeV| type_block(x)), "\n\n"@));
    r
}

/// `name @ file:line`.
pub open spec fn user_line(n: FunctionNodeV) -> Seq<char> {
    n.name + " @ "@ + n.file + ":"@ + decimal(n.line as nat)
}

/// Functions whose source holds `word` as a whole word, in graph order.
pub open spec fn users_of(nodes: Seq<FunctionNodeV>, word: Seq<char>) -> Seq<FunctionNodeV> {
    nodes.filter(|n: FunctionNodeV| contains_word_spec(n.source, word))
}

/// Ordered by name.
pub open spec fn fns_by_name(t: Seq<FunctionNodeV>) -> bool {
    forall|i: int, j: int| 0 <= i < j < t.len() ==> chars_le(#[trigger] t[i].name, #[trigger] t[j].name)
}

/// `name @ file:line` for each function, one per line.
pub(crate) fn user_lines(found: &Vec<&FunctionNode>) -> (r: String)
    ensures
        r@ == join(found.deep_view().map_values(|n: FunctionNodeV| user_line(n)), "\n"@),
{
    let ghost t = found.deep_view();
    let mut lines: Vec<String> = Vec::new();
    let mut i: usize = 0;
    while i < found.len()
        invariant
            i <= t.len(),
            t == found.deep_view(),
            lines.deep_view() == t.take(i as int).map_values(|n: FunctionNodeV| user_line(n)),
        decreases t.len() - i,
    {
        let n = found[i];
        let mut s = owned(n.name.as_str());
        push_str(&mut s, " @ ");
        push_str(&mut s, n.file.as_str());
        push_str(&mut s, ":");
        push_decimal(&mut s, n.line as u64);
        let ghost before = lines.deep_view();
        lines.push(s);
        i += 1;
        proof {
            assert(t.take(i as int) =~= t.take(i - 1).push(t[i - 1]));
            assert(lines.deep_view() =~= before.push(s@));
            assert(lines.deep_view() =~= t.take(i as int).map_values(|n: FunctionNodeV| user_line(n)));
        }
    }
    assert(t.take(t.len() as int) =~= t);
    join_strings(&lines, "\n")
}

/// Functions whose body mentions the type `name` as a whole word, one per line, ordered by name.
pub fn get_type_users(graph: &CallGraph, params: GetTypeUsersParams) -> (r: String)
    ensures
        users_of(graph@.nodes, params.name@).len() == 0 ==> r@ == "No functions reference type '"@ + params.name@ + "'"@,
        users_of(graph@.nodes, params.name@).len() > 0 ==> exists|t: Seq<FunctionNodeV>|
            t.to_multiset() == users_of(graph@.nodes, params.name@).to_multiset() && fns_by_name(t)
                && r@ == join(t.map_values(|n: FunctionNodeV| user_line(n)), "\n"@),
{
    let GetTypeUsersParams { name } = params;
    let results = graph.get_type_users(name.as_str());
    let ghost t = results.deep_view();
    proof {
        assert(t.to_multiset().len() == t.len());
        assert(users_of(graph@.nodes, name@).to_multiset().len() == users_of(graph@.nodes, name@).len());
    }
    if results.len() == 0 {
        return concat3("No functions reference type '", name.as_str(), "'");
    }
    let r = user_lines(&results);
    assert(fns_by_name(t));
    r
}

} // verus!
