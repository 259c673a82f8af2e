//! Preprocessor-symbol lookup.
use vstd::prelude::*;

use crate::graph::call_graph::{name_path_le, CallGraph};
use crate::graph::types::{SymbolNode, SymbolNodeV};
use crate::server::tools::concat3;
use crate::text::{contains_ci, decimal, join, join_strings, owned, push_decimal, push_str};

verus! {

broadcast use vstd::seq_lib::group_seq_properties;

pub struct FindSymbolParams {
    /// Symbol name substring to search for (case-insensitive). Matches #define constants,
    /// function-like macros, and enum values.
    pub name: String,
}

/// ` = value` when the symbol has a value.
pub open spec fn value_part(v: Option<Seq<char>>) -> Seq<char> {
    match v {
        Some(x) => " = "@ + x,
        None => Seq::empty(),
    }
}

/// `[kind] name = value  @ file:line`.
pub open spec fn symbol_line(s: SymbolNodeV) -> Seq<char> {
    "["@ + s.kind.name_spec() + "] "@ + s.name + value_part(s.value) + "  @ "@ + s.file + ":"@ + decimal(s.line as nat)
}

/// Ordered by name, then by file.
pub open spec fn syms_by_name_path(t: Seq<SymbolNodeV>) -> bool {
    forall|i: int, j: int| 0 <= i < j < t.len() ==> name_path_le(#[trigger] t[i].name, t[i].file, #[trigger] t[j].name, t[j].file)
}

/// Symbols whose name contains `query`, ignoring case, in graph order.
pub open spec fn symbols_matching(g: Seq<SymbolNodeV>, query: Seq<char>) -> Seq<SymbolNodeV> {
    g.filter(|t: SymbolNodeV| contains_ci(t.name, query))
}

fn symbol_line_exec(s: &SymbolNode) -> (r: String)
    ensures
        r@ == symbol_line(s.deep_view()),
{
    let mut r = owned("[");
    push_str(&mut r, s.kind.as_str());
    push_str(&mut r, "] ");
    push_str(&mut r, s.name.as_str());
    match &s.value {
        Some(v) => {
            push_str(&mut r, " = ");
            push_str(&mut r, v.as_str());
        },
        None => {},
    }
    push_str(&mut r, "  @ ");
    push_str(&mut r, s.file.as_str());
    push_str(&mut r, ":");
    push_decimal(&mut r, s.line as u64);
    r
}

/// Symbols whose name contains `name` (ignoring case), one per line, ordered by name and file.
pub fn find_symbol(graph: &CallGraph, params: FindSymbolParams) -> (r: String)
    ensures
        symbols_matching(graph@.symbols, params.name@).len() == 0 ==> r@ == "No symbols matching '"@ + params.name@ + "'"@,
        symbols_matching(graph@.symbols, params.name@).len() > 0 ==> exists|t: Seq<SymbolNodeV>|
            t.to_multiset() == symbols_matching(graph@.symbols, params.name@).to_multiset() && syms_by_name_path(t)
                && r@ == join(t.map_values(|s: SymbolNodeV| symbol_line(s)), "\n"@),
{
    let FindSymbolParams { name } = params;
    let results = graph.find_symbol(name.as_str());
    let ghost t = results.deep_view();
    proof {
        assert(t.to_multiset().len() == t.len());
        assert(symbols_matching(graph@.symbols, name@).to_multiset().len() == symbols_matching(graph@.symbols, name@).len());
    }
    if results.len() == 0 {
        return concat3("No symbols matching '", name.as_str(), "'");
    }
    let mut lines: Vec<String> = Vec::new();
    let mut i: usize = 0;
    while i < results.len()
        invariant
            i <= t.len(),
            t == results.deep_view(),
            lines.deep_view() == t.take(i as int).map_values(|s: SymbolNodeV| symbol_line(s)),
        decreases t.len() - i,
    {
        let line = symbol_line_exec(results[i]);
        let ghost before = lines.deep_view();
        lines.push(line);
        i += 1;
        proof {
            assert(t.take(i as int) =~= t.take(i - 1).push(t[i - 1]));
            assert(lines.deep_view() =~= before.push(line@));
            assert(lines.deep_view() =~= t.take(i as int).map_values(|s: SymbolNodeV| symbol_line(s)));
        }
    }
    assert(t.take(t.len() as int) =~= t);
    let r = join_strings(&lines, "\n");
    assert(syms_by_name_path(t));
    assert(t.to_multiset() == symbols_matching(graph@.symbols, name@).to_multiset());
    assert(r@ == join(t.map_values(|s: SymbolNodeV| symbol_line(s)), "\n"@));
    r
}

} // verus!
