//! Preprocessor symbols: object-like `#define`s, function-like macros and enum values.
use vstd::prelude::*;

use crate::graph::types::{SymbolKind, SymbolNode, SymbolNodeV};
use crate::parser::nodes::{
    conditions_of, extract_conditions, field_child, field_child_exec, field_child_of_kind, field_child_of_kind_exec,
    kind, kind_is, line_no, line_of, node_text, text_of,
};
use crate::parser::source::{cap_chars, cap_chars_exec, SourceText};
use crate::parser::syntax::{SyntaxTree, SyntaxTreeV};
use crate::text::{chars_of, owned, push_char, push_str, string_from_chars, trim, trim_chars, trim_spec};

verus! {

broadcast use vstd::seq_lib::group_seq_properties;

/// A symbol's value as stored: trimmed, and cut after 200 characters with an ellipsis.
pub open spec fn trim_value_spec(x: Seq<char>) -> Seq<char> {
    cap_chars(trim_spec(x), 200)
}

/// The stored form of a symbol value: trimmed, and cut after its first 200 characters with an
/// ellipsis when longer.
pub fn trim_value(s: String) -> (r: String)
    ensures
        r@ == trim_value_spec(s@),
{
    let cs = chars_of(s.as_str());
    let t = trim_chars(&cs);
    let c = cap_chars_exec(&t, 200);
    string_from_chars(c.as_slice())
}

/// The record of a symbol.
pub open spec fn sym(
    name: Seq<char>,
    k: SymbolKind,
    conditions: Seq<Seq<char>>,
    value: Option<Seq<char>>,
    path: Seq<char>,
    line: u32,
) -> SymbolNodeV {
    SymbolNodeV { name, kind: k, conditions, value, file: path, line }
}

/// The conditions recorded for node `i`: those around it when `rich` holds, none otherwise.
pub open spec fn conds(t: SyntaxTreeV, s: Seq<char>, i: int, rich: bool) -> Seq<Seq<char>> {
    if rich {
        conditions_of(t, s, i)
    } else {
        Seq::empty()
    }
}

/// What node `j` contributes as a `#define`: `Some(None)` when it is not one (or its name
/// cannot be read), `Some(Some(symbol))` when it is, `None` when its value cannot be cut.
#[verifier::opaque]
pub open spec fn define_at(t: SyntaxTreeV, s: Seq<char>, path: Seq<char>, j: int, rich: bool) -> Option<Option<SymbolNodeV>> {
    if kind(t, j) == "preproc_def"@ {
        match field_child_of_kind(t, j, "name"@, "identifier"@) {
            Some(nm) => match node_text(t, s, nm) {
                Some(name) => {
                    let value = match field_child_of_kind(t, j, "value"@, "preproc_arg"@) {
                        Some(vn) => node_text(t, s, vn),
                        None => None,
                    };
                    let mk = |v: Option<Seq<char>>|
                        sym(name, SymbolKind::Define, conds(t, s, nm, rich), v, path, line_no(t.nodes[nm].start_row));
                    match value {
                        Some(x) => Some(Some(mk(Some(trim_value_spec(x))))),
                        None => Some(Some(mk(None))),
                    }
                },
                None => Some(None),
            },
            None => Some(None),
        }
    } else {
        Some(None)
    }
}

/// What node `j` contributes as a function-like macro, as `define_at` says it.
#[verifier::opaque]
pub open spec fn macro_fn_at(t: SyntaxTreeV, s: Seq<char>, path: Seq<char>, j: int, rich: bool) -> Option<Option<SymbolNodeV>> {
    if kind(t, j) == "preproc_function_def"@ {
        match (field_child_of_kind(t, j, "name"@, "identifier"@), field_child_of_kind(t, j, "parameters"@, "preproc_params"@)) {
            (Some(nm), Some(pn)) => match node_text(t, s, nm) {
                Some(name) => {
                    let params = node_text(t, s, pn);
                    let value = match field_child_of_kind(t, j, "value"@, "preproc_arg"@) {
                        Some(vn) => node_text(t, s, vn),
                        None => None,
                    };
                    let mk = |v: Option<Seq<char>>|
                        sym(name, SymbolKind::MacroFn, conds(t, s, nm, rich), v, path, line_no(t.nodes[nm].start_row));
                    match (params, value) {
                        (Some(p), Some(v)) => Some(Some(mk(Some(p + " "@ + trim_value_spec(v))))),
                        (Some(p), None) => Some(Some(mk(Some(p)))),
                        (None, Some(v)) => Some(Some(mk(Some(trim_value_spec(v))))),
                        (None, None) => Some(Some(mk(None))),
                    }
                },
                None => Some(None),
            },
            _ => Some(None),
        }
    } else {
        Some(None)
    }
}

/// What node `j` contributes as an enum value, as `define_at` says it.
#[verifier::opaque]
pub open spec fn enum_value_at(t: SyntaxTreeV, s: Seq<char>, path: Seq<char>, j: int, rich: bool) -> Option<Option<SymbolNodeV>> {
    if kind(t, j) == "enumerator"@ {
        match field_child_of_kind(t, j, "name"@, "identifier"@) {
            Some(nm) => match node_text(t, s, nm) {
                Some(name) => {
                    let value = match field_child(t, j, "value"@) {
                        Some(vn) => match node_text(t, s, vn) {
                            Some(x) => Some(trim_spec(x)),
                            None => None,
                        },
                        None => None,
                    };
                    Some(Some(sym(name, SymbolKind::EnumValue, conds(t, s, nm, rich), value, path, line_no(t.nodes[nm].start_row))))
                },
                None => Some(None),
            },
            None => Some(None),
        }
    } else {
        Some(None)
    }
}

/// What node `j` contributes as a symbol of kind `k`.
pub open spec fn symbol_at(t: SyntaxTreeV, s: Seq<char>, path: Seq<char>, j: int, k: SymbolKind, rich: bool) -> Option<Option<SymbolNodeV>> {
    match k {
        SymbolKind::Define => define_at(t, s, path, j, rich),
        SymbolKind::MacroFn => macro_fn_at(t, s, path, j, rich),
        SymbolKind::EnumValue => enum_value_at(t, s, path, j, rich),
    }
}

/// The symbols of kind `k` among the first `n` nodes; `None` when a value cannot be cut.
pub open spec fn symbols_upto(t: SyntaxTreeV, s: Seq<char>, path: Seq<char>, k: SymbolKind, rich: bool, n: int) -> Option<Seq<SymbolNodeV>>
    decreases n,
{
    if n <= 0 {
        Some(Seq::empty())
    } else {
        match symbols_upto(t, s, path, k, rich, n - 1) {
            None => None,
            Some(prev) => match symbol_at(t, s, path, n - 1, k, rich) {
                None => None,
                Some(None) => Some(prev),
                Some(Some(r)) => Some(prev.push(r)),
            },
        }
    }
}

/// The symbols of a file: its `#define`s, then its function-like macros, then its enum values,
/// each in source order.
pub open spec fn symbols_spec(t: SyntaxTreeV, s: Seq<char>, path: Seq<char>, rich: bool) -> Option<Seq<SymbolNodeV>> {
    let n = t.nodes.len() as int;
    match (
        symbols_upto(t, s, path, SymbolKind::Define, rich, n),
        symbols_upto(t, s, path, SymbolKind::MacroFn, rich, n),
        symbols_upto(t, s, path, SymbolKind::EnumValue, rich, n),
    ) {
        (Some(a), Some(b), Some(c)) => Some(a + b + c),
        _ => None,
    }
}

proof fn lemma_symbols_stuck(t: SyntaxTreeV, s: Seq<char>, path: Seq<char>, k: SymbolKind, rich: bool, a: int, b: int)
    requires
        a <= b,
        symbols_upto(t, s, path, k, rich, a) is None,
    ensures
        symbols_upto(t, s, path, k, rich, b) is None,
    decreases b - a,
{
    if a < b {
        lemma_symbols_stuck(t, s, path, k, rich, a, b - 1);
    }
}

fn value_text(t: &SyntaxTree, src: &SourceText, j: usize) -> (r: Option<String>)
    requires
        t@.wf(),
        src.wf(),
        j < t@.nodes.len(),
    ensures
        r.deep_view() == match field_child_of_kind(t@, j as int, "value"@, "preproc_arg"@) {
            Some(vn) => node_text(t@, src.chars@, vn),
            None => None,
        },
{
    match field_child_of_kind_exec(t, j, "value", "preproc_arg") {
        Some(vn) => text_of(t, src, vn),
        None => None,
    }
}

pub fn conds_exec(t: &SyntaxTree, src: &SourceText, i: usize, rich: bool) -> (r: Vec<String>)
    requires
        t@.wf(),
        src.wf(),
        i < t@.nodes.len(),
    ensures
        r.deep_view() == conds(t@, src.chars@, i as int, rich),
{
    if rich {
        extract_conditions(t, src, i)
    } else {
        let r: Vec<String> = Vec::new();
        assert(r.deep_view() =~= Seq::<Seq<char>>::empty());
        r
    }
}

fn define_at_exec(t: &SyntaxTree, src: &SourceText, path: &str, j: usize, rich: bool) -> (r: Option<Option<SymbolNode>>)
    requires
        t@.wf(),
        src.wf(),
        j < t@.nodes.len(),
    ensures
        r.deep_view() == define_at(t@, src.chars@, path@, j as int, rich),
{
    proof {
        reveal(define_at);
    }
    if !kind_is(t, j, "preproc_def") {
        return Some(None);
    }
    let nm = match field_child_of_kind_exec(t, j, "name", "identifier") {
        Some(nm) => nm,
        None => return Some(None),
    };
    let name = match text_of(t, src, nm) {
        Some(x) => x,
        None => return Some(None),
    };
    let value = match value_text(t, src, j) {
        Some(x) => Some(trim_value(x)),
        None => None,
    };
    let c = conds_exec(t, src, nm, rich);
    Some(
        Some(
            SymbolNode {
                name,
                kind: SymbolKind::Define,
                conditions: c,
                value,
                file: owned(path),
                line: line_of(t.nodes[nm].start_row),
            },
        ),
    )
}

fn macro_fn_at_exec(t: &SyntaxTree, src: &SourceText, path: &str, j: usize, rich: bool) -> (r: Option<Option<SymbolNode>>)
    requires
        t@.wf(),
        src.wf(),
        j < t@.nodes.len(),
    ensures
        r.deep_view() == macro_fn_at(t@, src.chars@, path@, j as int, rich),
{
    proof {
        reveal(macro_fn_at);
    }
    if !kind_is(t, j, "preproc_function_def") {
        return Some(None);
    }
    let nm = match field_child_of_kind_exec(t, j, "name", "identifier") {
        Some(nm) => nm,
        None => return Some(None),
    };
    let pn = match field_child_of_kind_exec(t, j, "parameters", "preproc_params") {
        Some(pn) => pn,
        None => return Some(None),
    };
    let name = match text_of(t, src, nm) {
        Some(x) => x,
        None => return Some(None),
    };
    let params = text_of(t, src, pn);
    let value = value_text(t, src, j);
    let display = match (params, value) {
        (Some(p), Some(v)) => {
            let tv = trim_value(v);
            let ghost pv = p@;
            let mut d = p;
            push_char(&mut d, ' ');
            push_str(&mut d, tv.as_str());
            proof {
                reveal_strlit(" ");
                assert(d@ =~= pv + " "@ + tv@);
            }
            Some(d)
        },
        (Some(p), None) => Some(p),
        (None, Some(v)) => Some(trim_value(v)),
        (None, None) => None,
    };
    let c = conds_exec(t, src, nm, rich);
    Some(
        Some(
            SymbolNode {
                name,
                kind: SymbolKind::MacroFn,
                conditions: c,
                value: display,
                file: owned(path),
                line: line_of(t.nodes[nm].start_row),
            },
        ),
    )
}

fn enum_value_at_exec(t: &SyntaxTree, src: &SourceText, path: &str, j: usize, rich: bool) -> (r: Option<Option<SymbolNode>>)
    requires
        t@.wf(),
        src.wf(),
        j < t@.nodes.len(),
    ensures
        r.deep_view() == enum_value_at(t@, src.chars@, path@, j as int, rich),
{
    proof {
        reveal(enum_value_at);
    }
    if !kind_is(t, j, "enumerator") {
        return Some(None);
    }
    let nm = match field_child_of_kind_exec(t, j, "name", "identifier") {
        Some(nm) => nm,
        None => return Some(None),
    };
    let name = match text_of(t, src, nm) {
        Some(x) => x,
        None => return Some(None),
    };
    let value = match field_child_exec(t, j, "value") {
        Some(vn) => match text_of(t, src, vn) {
            Some(x) => Some(trim(x.as_str())),
            None => None,
        },
        None => None,
    };
    let c = conds_exec(t, src, nm, rich);
    Some(
        Some(
            SymbolNode {
                name,
                kind: SymbolKind::EnumValue,
                conditions: c,
                value,
                file: owned(path),
                line: line_of(t.nodes[nm].start_row),
            },
        ),
    )
}

fn symbol_at_exec(t: &SyntaxTree, src: &SourceText, path: &str, j: usize, k: SymbolKind, rich: bool) -> (r: Option<Option<SymbolNode>>)
    requires
        t@.wf(),
        src.wf(),
        j < t@.nodes.len(),
    ensures
        r.deep_view() == symbol_at(t@, src.chars@, path@, j as int, k, rich),
{
    match k {
        SymbolKind::Define => define_at_exec(t, src, path, j, rich),
        SymbolKind::MacroFn => macro_fn_at_exec(t, src, path, j, rich),
        SymbolKind::EnumValue => enum_value_at_exec(t, src, path, j, rich),
    }
}

/// The symbols of kind `k`, appended to `out`; false when a value cannot be cut.
fn push_symbols(t: &SyntaxTree, src: &SourceText, path: &str, k: SymbolKind, rich: bool, out: &mut Vec<SymbolNode>) -> (ok: bool)
    requires
        t@.wf(),
        src.wf(),
    ensures
        match symbols_upto(t@, src.chars@, path@, k, rich, t@.nodes.len() as int) {
            Some(ss) => ok && final(out).deep_view() == old(out).deep_view() + ss,
            None => !ok,
        },
{
    let ghost o0 = out.deep_view();
    let mut j: usize = 0;
    proof {
        assert(o0 + Seq::<SymbolNodeV>::empty() =~= o0);
    }
    while j < t.nodes.len()
        invariant
            t@.wf(),
            src.wf(),
            j <= t@.nodes.len(),
            symbols_upto(t@, src.chars@, path@, k, rich, j as int) matches Some(ss) && out.deep_view() == o0 + ss,
        decreases t@.nodes.len() - j,
    {
        let ghost before = out.deep_view();
        match symbol_at_exec(t, src, path, j, k, rich) {
            None => {
                proof {
                    lemma_symbols_stuck(t@, src.chars@, path@, k, rich, j + 1, t@.nodes.len() as int);
                }
                return false;
            },
            Some(None) => {},
            Some(Some(r)) => {
                out.push(r);
                proof {
                    assert(out.deep_view() =~= before.push(r.deep_view()));
                }
            },
        }
        j += 1;
    }
    true
}

/// The symbols of the tree: `#define`s, then function-like macros, then enum values, each in
/// source order; `None` when a value cannot be cut.
pub fn symbols(t: &SyntaxTree, src: &SourceText, path: &str, rich: bool) -> (r: Option<Vec<SymbolNode>>)
    requires
        t@.wf(),
        src.wf(),
    ensures
        r.deep_view() == symbols_spec(t@, src.chars@, path@, rich),
{
    let mut out: Vec<SymbolNode> = Vec::new();
    if !push_symbols(t, src, path, SymbolKind::Define, rich, &mut out) {
        return None;
    }
    if !push_symbols(t, src, path, SymbolKind::MacroFn, rich, &mut out) {
        return None;
    }
    if !push_symbols(t, src, path, SymbolKind::EnumValue, rich, &mut out) {
        return None;
    }
    proof {
        let n = t@.nodes.len() as int;
        let a = symbols_upto(t@, src.chars@, path@, SymbolKind::Define, rich, n)->0;
        assert(Seq::<SymbolNodeV>::empty() + a =~= a);
    }
    Some(out)
}

} // verus!
