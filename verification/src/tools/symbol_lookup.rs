//! `symbol_lookup`: every symbol of the files matching a name, with a one-line signature each,
//! ordered by line.
use vstd::prelude::*;

use crate::graph::codebase::{CodebaseGraph, CodebaseGraphV};
use crate::graph::types::{
    FunctionNode, FunctionNodeV, GlobalVar, GlobalVarV, SymbolKind, SymbolNode, SymbolNodeV, TypeKind, TypeNode,
    TypeNodeV,
};
use crate::order::{lemma_multiset_map, sort_by_spec_key, KeyOrd};
use crate::text::{
    chars_of, contains_ci, first_line, first_line_spec, lower_chars, lower_contains, lowercase, owned, push_str,
    str_eq, string_from_chars, trim_chars, trim_spec, trim_start_chars, trim_start_spec,
};
use crate::tools::{extract_fn_signature, first_pos, fn_signature, lemma_first_pos};

verus! {

broadcast use {vstd::seq_lib::group_seq_properties, Seq::lemma_filter_push};

/// The request: a file name (any part of the path, case ignored) and an optional kind.
pub struct SymbolLookupParams {
    pub file: String,
    pub kind: Option<String>,
}

/// One symbol of a file.
pub struct SymbolEntry {
    pub name: String,
    /// function, variable, typedef, struct, union, enum, macro or enum_value
    pub kind: String,
    pub line: u32,
    pub signature: String,
}

pub struct SymbolEntryV {
    pub name: Seq<char>,
    pub kind: Seq<char>,
    pub line: u32,
    pub signature: Seq<char>,
}

impl DeepView for SymbolEntry {
    type V = SymbolEntryV;

    open spec fn deep_view(&self) -> SymbolEntryV {
        SymbolEntryV { name: self.name@, kind: self.kind@, line: self.line, signature: self.signature@ }
    }
}

/// The answer: the file as asked, and its symbols ordered by line.
pub struct SymbolListing {
    pub file: String,
    pub symbols: Vec<SymbolEntry>,
}

/// The kinds a lookup may be restricted to.
pub open spec fn valid_kinds() -> Seq<Seq<char>> {
    seq![
        "function"@,
        "variable"@,
        "typedef"@,
        "struct"@,
        "union"@,
        "enum"@,
        "macro"@,
        "enum_value"@,
    ]
}

/// The answer to an unknown kind.
pub open spec fn unknown_kind_message(k: Seq<char>) -> Seq<char> {
    "unknown kind '"@ + k + "', valid: function|variable|typedef|struct|union|enum|macro|enum_value"@
}

pub open spec fn entry(name: Seq<char>, kind: Seq<char>, line: u32, signature: Seq<char>) -> SymbolEntryV {
    SymbolEntryV { name, kind, line, signature }
}

/// The parameter list of a function-like macro from its stored value: the value's leading
/// `(...)` up to the first `)`, or `(...)` when there is none.
pub open spec fn macro_params(value: Option<Seq<char>>) -> Seq<char> {
    match value {
        Some(v) => {
            let t = trim_start_spec(v);
            if t.len() > 0 && t[0] == '(' && first_pos(t, ')') < t.len() {
                t.take(first_pos(t, ')') + 1)
            } else {
                "(...)"@
            }
        },
        None => "(...)"@,
    }
}

/// The signature of a macro: `#define NAME` for a constant, `#define NAME(params)` for a
/// function-like macro.
pub open spec fn macro_signature_spec(name: Seq<char>, kind: SymbolKind, value: Option<Seq<char>>) -> Seq<char> {
    match kind {
        SymbolKind::MacroFn => "#define "@ + name + macro_params(value),
        _ => "#define "@ + name,
    }
}

proof fn lemma_first_pos_bounds(s: Seq<char>, c: char)
    ensures
        0 <= first_pos(s, c) <= s.len(),
        first_pos(s, c) < s.len() ==> s[first_pos(s, c)] == c,
        forall|k: int| 0 <= k < first_pos(s, c) ==> s[k] != c,
    decreases s.len(),
{
    if s.len() > 0 && s[0] != c {
        lemma_first_pos_bounds(s.drop_first(), c);
        assert forall|k: int| 0 <= k < first_pos(s, c) implies s[k] != c by {
            if k > 0 {
                assert(s[k] == s.drop_first()[k - 1]);
            }
        }
    }
}

/// The signature of a function-like macro is `#define NAME` followed by its parameter list:
/// the stored value's leading `(...)` up to its first `)` when the value (leading blanks
/// skipped) starts with `(` and holds a `)`, else the text `(...)`. It always continues
/// `#define NAME` with `(`, so it never reads like an object-like `#define` of that name.
pub proof fn lemma_macro_signature_shows_params(name: Seq<char>, value: Option<Seq<char>>)
    ensures
        forall|v: Seq<char>, j: int|
            #![trigger trim_start_spec(v)[j]]
            value == Some(v) && 0 <= j < trim_start_spec(v).len() && trim_start_spec(v)[0] == '('
                && trim_start_spec(v)[j] == ')' && (forall|k: int|
                0 <= k < j ==> trim_start_spec(v)[k] != ')') ==> macro_signature_spec(
                name,
                SymbolKind::MacroFn,
                value,
            ) == "#define "@ + name + trim_start_spec(v).take(j + 1),
        forall|v: Seq<char>|
            #![trigger trim_start_spec(v)]
            value == Some(v) && (trim_start_spec(v).len() == 0 || trim_start_spec(v)[0] != '('
                || forall|k: int|
                0 <= k < trim_start_spec(v).len() ==> trim_start_spec(v)[k] != ')')
                ==> macro_signature_spec(name, SymbolKind::MacroFn, value) == "#define "@ + name
                + "(...)"@,
        value is None ==> macro_signature_spec(name, SymbolKind::MacroFn, value) == "#define "@
            + name + "(...)"@,
        ("#define "@ + name + "("@).is_prefix_of(macro_signature_spec(name, SymbolKind::MacroFn, value)),
        macro_signature_spec(name, SymbolKind::MacroFn, value) != "#define "@ + name,
{
    reveal_strlit("(...)");
    reveal_strlit("(");
    let d = "#define "@ + name;
    let m = macro_signature_spec(name, SymbolKind::MacroFn, value);
    assert forall|v: Seq<char>, j: int|
        #![trigger trim_start_spec(v)[j]]
        value == Some(v) && 0 <= j < trim_start_spec(v).len() && trim_start_spec(v)[0] == '('
            && trim_start_spec(v)[j] == ')' && (forall|k: int|
            0 <= k < j ==> trim_start_spec(v)[k] != ')') implies m == d + trim_start_spec(v).take(
        j + 1) by {
        lemma_first_pos(trim_start_spec(v), ')', j);
    }
    assert forall|v: Seq<char>|
        #![trigger trim_start_spec(v)]
        value == Some(v) && (trim_start_spec(v).len() == 0 || trim_start_spec(v)[0] != '('
            || forall|k: int|
            0 <= k < trim_start_spec(v).len() ==> trim_start_spec(v)[k] != ')') implies m == d
        + "(...)"@ by {
        let t = trim_start_spec(v);
        if t.len() > 0 && t[0] == '(' {
            lemma_first_pos(t, ')', t.len() as int);
        }
    }
    let p = macro_params(value);
    if let Some(v) = value {
        lemma_first_pos_bounds(trim_start_spec(v), ')');
    }
    assert(p.len() >= 1 && p[0] == '(');
    assert(m == d + p);
    assert(m.subrange(0, d.len() + 1int) =~= d + "("@);
    assert(m.len() > d.len());
}

/// The signature of an enum value: `NAME = value`, or `NAME` without a value.
pub open spec fn enum_value_signature(name: Seq<char>, value: Option<Seq<char>>) -> Seq<char> {
    match value {
        Some(v) => name + " = "@ + v,
        None => name,
    }
}

pub open spec fn fn_entry(n: FunctionNodeV) -> SymbolEntryV {
    entry(n.name, "function"@, n.line, fn_signature(n.source))
}

pub open spec fn var_entry(g: GlobalVarV) -> SymbolEntryV {
    entry(g.name, "variable"@, g.line, g.decl)
}

pub open spec fn type_entry(t: TypeNodeV) -> SymbolEntryV {
    entry(t.name, t.kind.name_spec(), t.line, trim_spec(first_line_spec(t.definition)))
}

pub open spec fn macro_entry(s: SymbolNodeV) -> SymbolEntryV {
    entry(s.name, "macro"@, s.line, macro_signature_spec(s.name, s.kind, s.value))
}

pub open spec fn enum_entry(s: SymbolNodeV) -> SymbolEntryV {
    entry(s.name, "enum_value"@, s.line, enum_value_signature(s.name, s.value))
}

/// `kind` lets entries of kind `k` through.
pub open spec fn admits(kind: Option<Seq<char>>, k: Seq<char>) -> bool {
    kind is None || kind == Some(k)
}

/// A type kind is asked for.
pub open spec fn wants_types(kind: Option<Seq<char>>) -> bool {
    kind is None || kind == Some("typedef"@) || kind == Some("struct"@) || kind == Some("union"@) || kind == Some("enum"@)
}

/// The symbols of the files whose path contains `q` (case ignored) that `kind` admits:
/// functions, variables, types, macros, then enum values, each in graph order.
pub open spec fn lookup_entries(g: CodebaseGraphV, q: Seq<char>, kind: Option<Seq<char>>) -> Seq<SymbolEntryV> {
    (if admits(kind, "function"@) {
        g.nodes.filter(|n: FunctionNodeV| contains_ci(n.file, q)).map_values(|n: FunctionNodeV| fn_entry(n))
    } else {
        Seq::empty()
    }) + (if admits(kind, "variable"@) {
        g.globals.filter(|v: GlobalVarV| contains_ci(v.file, q)).map_values(|v: GlobalVarV| var_entry(v))
    } else {
        Seq::empty()
    }) + (if wants_types(kind) {
        g.types.filter(|t: TypeNodeV| contains_ci(t.file, q) && admits(kind, t.kind.name_spec())).map_values(
            |t: TypeNodeV| type_entry(t),
        )
    } else {
        Seq::empty()
    }) + (if admits(kind, "macro"@) {
        g.symbols.filter(|s: SymbolNodeV| contains_ci(s.file, q) && s.kind != SymbolKind::EnumValue).map_values(
            |s: SymbolNodeV| macro_entry(s),
        )
    } else {
        Seq::empty()
    }) + (if admits(kind, "enum_value"@) {
        g.symbols.filter(|s: SymbolNodeV| contains_ci(s.file, q) && s.kind == SymbolKind::EnumValue).map_values(
            |s: SymbolNodeV| enum_entry(s),
        )
    } else {
        Seq::empty()
    })
}

/// The parameter list of a function-like macro (`macro_params`).
fn macro_params_exec(value: &Option<String>) -> (r: String)
    ensures
        r@ == macro_params(value.deep_view()),
{
    proof {
        reveal_strlit("(...)");
    }
    match value {
        Some(v) => {
            let cs = chars_of(v.as_str());
            let t = trim_start_chars(&cs);
            if t.len() > 0 && t[0] == '(' {
                let mut i: usize = 0;
                while i < t.len() && t[i] != ')'
                    invariant
                        i <= t@.len(),
                        forall|j: int| 0 <= j < i ==> t@[j] != ')',
                    decreases t@.len() - i,
                {
                    i += 1;
                }
                if i < t.len() {
                    let n = t.len();
                    let mut p: Vec<char> = Vec::new();
                    let mut k: usize = 0;
                    while k <= i
                        invariant
                            n == t@.len(),
                            i < t@.len(),
                            k <= i + 1,
                            p@ == t@.take(k as int),
                        decreases i + 1 - k,
                    {
                        p.push(t[k]);
                        k += 1;
                    }
                    proof {
                        lemma_first_pos(t@, ')', i as int);
                    }
                    return string_from_chars(p.as_slice());
                }
                proof {
                    lemma_first_pos(t@, ')', i as int);
                }
                owned("(...)")
            } else {
                owned("(...)")
            }
        },
        None => owned("(...)"),
    }
}

/// The signature of a macro that is not an enum value.
pub fn macro_signature(name: &str, kind: SymbolKind, value: &Option<String>) -> (r: String)
    requires
        kind != SymbolKind::EnumValue,
    ensures
        r@ == macro_signature_spec(name@, kind, value.deep_view()),
{
    let mut s = owned("#define ");
    push_str(&mut s, name);
    match kind {
        SymbolKind::MacroFn => {
            let p = macro_params_exec(value);
            push_str(&mut s, p.as_str());
        },
        _ => {},
    }
    s
}

fn enum_value_signature_exec(name: &str, value: &Option<String>) -> (r: String)
    ensures
        r@ == enum_value_signature(name@, value.deep_view()),
{
    let mut s = owned(name);
    match value {
        Some(v) => {
            push_str(&mut s, " = ");
            push_str(&mut s, v.as_str());
        },
        None => {},
    }
    s
}

/// The entries gathered so far, as the specification sees them.
pub open spec fn entries_view(keyed: Seq<((u32, u32), SymbolEntry)>) -> Seq<SymbolEntryV> {
    keyed.map_values(|p: ((u32, u32), SymbolEntry)| p.1.deep_view())
}

/// Where an entry of kind `k` stands among entries on one line: functions, variables, types,
/// macros, then enum values.
pub open spec fn kind_rank(k: Seq<char>) -> u32 {
    if k == "function"@ {
        0
    } else if k == "variable"@ {
        1
    } else if k == "macro"@ {
        3
    } else if k == "enum_value"@ {
        4
    } else {
        2
    }
}

fn kind_rank_exec(k: &str) -> (r: u32)
    ensures
        r == kind_rank(k@),
{
    if str_eq(k, "function") {
        0
    } else if str_eq(k, "variable") {
        1
    } else if str_eq(k, "macro") {
        3
    } else if str_eq(k, "enum_value") {
        4
    } else {
        2
    }
}

/// Each entry is keyed by its line and then its kind's rank.
pub open spec fn keyed_by_line(keyed: Seq<((u32, u32), SymbolEntry)>) -> bool {
    forall|i: int| 0 <= i < keyed.len() ==> #[trigger] keyed[i].0 == (keyed[i].1.line, kind_rank(keyed[i].1.kind@))
}

fn push_entry(keyed: &mut Vec<((u32, u32), SymbolEntry)>, e: SymbolEntry)
    requires
        keyed_by_line(old(keyed)@),
    ensures
        keyed_by_line(final(keyed)@),
        entries_view(final(keyed)@) == entries_view(old(keyed)@).push(e.deep_view()),
{
    let line = e.line;
    let rank = kind_rank_exec(e.kind.as_str());
    let ghost ev = e.deep_view();
    keyed.push(((line, rank), e));
    proof {
        assert(entries_view(keyed@) =~= entries_view(old(keyed)@).push(ev));
    }
}

fn push_functions(graph: &CodebaseGraph, file: &str, keyed: &mut Vec<((u32, u32), SymbolEntry)>)
    requires
        keyed_by_line(old(keyed)@),
    ensures
        keyed_by_line(final(keyed)@),
        entries_view(final(keyed)@) == entries_view(old(keyed)@) + graph@.nodes.filter(
            |n: FunctionNodeV| contains_ci(n.file, file@),
        ).map_values(|n: FunctionNodeV| fn_entry(n)),
{
    let q = lower_chars(file);
    let ghost pred = |n: FunctionNodeV| contains_ci(n.file, file@);
    let ghost f = |n: FunctionNodeV| fn_entry(n);
    let ghost e0 = entries_view(keyed@);
    let mut i: usize = 0;
    while i < graph.nodes.len()
        invariant
            q@ == lowercase(file@),
            pred == (|n: FunctionNodeV| contains_ci(n.file, file@)),
            f == (|n: FunctionNodeV| fn_entry(n)),
            i <= graph@.nodes.len(),
            keyed_by_line(keyed@),
            entries_view(keyed@) == e0 + graph@.nodes.take(i as int).filter(pred).map_values(f),
        decreases graph@.nodes.len() - i,
    {
        let n = &graph.nodes[i];
        proof {
            assert(graph@.nodes.take(i + 1) =~= graph@.nodes.take(i as int).push(n.deep_view()));
        }
        if lower_contains(n.file.as_str(), &q) {
            proof {
                assert(graph.nodes@[i as int].deep_view() == graph@.nodes[i as int]);
                assert(contains_ci(graph@.nodes[i as int].file, file@));
            }
            let sig = extract_fn_signature(n.source.as_str());
            push_entry(keyed, SymbolEntry { name: n.name.clone(), kind: owned("function"), line: n.line, signature: sig });
            proof {
                reveal_strlit("function");
            }
        }
        i += 1;
        proof {
            assert(entries_view(keyed@) =~= e0 + graph@.nodes.take(i as int).filter(pred).map_values(f));
        }
    }
    assert(graph@.nodes.take(graph@.nodes.len() as int) =~= graph@.nodes);
}

fn push_variables(graph: &CodebaseGraph, file: &str, keyed: &mut Vec<((u32, u32), SymbolEntry)>)
    requires
        keyed_by_line(old(keyed)@),
    ensures
        keyed_by_line(final(keyed)@),
        entries_view(final(keyed)@) == entries_view(old(keyed)@) + graph@.globals.filter(
            |v: GlobalVarV| contains_ci(v.file, file@),
        ).map_values(|v: GlobalVarV| var_entry(v)),
{
    let q = lower_chars(file);
    let ghost pred = |v: GlobalVarV| contains_ci(v.file, file@);
    let ghost f = |v: GlobalVarV| var_entry(v);
    let ghost e0 = entries_view(keyed@);
    let mut i: usize = 0;
    while i < graph.globals.len()
        invariant
            q@ == lowercase(file@),
            pred == (|v: GlobalVarV| contains_ci(v.file, file@)),
            f == (|v: GlobalVarV| var_entry(v)),
            i <= graph@.globals.len(),
            keyed_by_line(keyed@),
            entries_view(keyed@) == e0 + graph@.globals.take(i as int).filter(pred).map_values(f),
        decreases graph@.globals.len() - i,
    {
        let v = &graph.globals[i];
        proof {
            assert(graph@.globals.take(i + 1) =~= graph@.globals.take(i as int).push(v.deep_view()));
        }
        if lower_contains(v.file.as_str(), &q) {
            push_entry(keyed, SymbolEntry { name: v.name.clone(), kind: owned("variable"), line: v.line, signature: v.decl.clone() });
            proof {
                reveal_strlit("variable");
            }
        }
        i += 1;
        proof {
            assert(entries_view(keyed@) =~= e0 + graph@.globals.take(i as int).filter(pred).map_values(f));
        }
    }
    assert(graph@.globals.take(graph@.globals.len() as int) =~= graph@.globals);
}

fn admits_exec(kind: &Option<String>, k: &str) -> (r: bool)
    ensures
        r == admits(kind.deep_view(), k@),
{
    match kind {
        Some(x) => str_eq(x.as_str(), k),
        None => true,
    }
}

fn push_types(graph: &CodebaseGraph, file: &str, kind: &Option<String>, keyed: &mut Vec<((u32, u32), SymbolEntry)>)
    requires
        keyed_by_line(old(keyed)@),
    ensures
        keyed_by_line(final(keyed)@),
        entries_view(final(keyed)@) == entries_view(old(keyed)@) + graph@.types.filter(
            |t: TypeNodeV| contains_ci(t.file, file@) && admits(kind.deep_view(), t.kind.name_spec()),
        ).map_values(|t: TypeNodeV| type_entry(t)),
{
    let q = lower_chars(file);
    let ghost pred = |t: TypeNodeV| contains_ci(t.file, file@) && admits(kind.deep_view(), t.kind.name_spec());
    let ghost f = |t: TypeNodeV| type_entry(t);
    let ghost e0 = entries_view(keyed@);
    let mut i: usize = 0;
    while i < graph.types.len()
        invariant
            q@ == lowercase(file@),
            pred == (|t: TypeNodeV| contains_ci(t.file, file@) && admits(kind.deep_view(), t.kind.name_spec())),
            f == (|t: TypeNodeV| type_entry(t)),
            i <= graph@.types.len(),
            keyed_by_line(keyed@),
            entries_view(keyed@) == e0 + graph@.types.take(i as int).filter(pred).map_values(f),
        decreases graph@.types.len() - i,
    {
        let t = &graph.types[i];
        proof {
            assert(graph@.types.take(i + 1) =~= graph@.types.take(i as int).push(t.deep_view()));
        }
        if lower_contains(t.file.as_str(), &q) && admits_exec(kind, t.kind.as_str()) {
            let d = chars_of(t.definition.as_str());
            let l = first_line(&d);
            let sig = trim_chars(&l);
            push_entry(
                keyed,
                SymbolEntry { name: t.name.clone(), kind: owned(t.kind.as_str()), line: t.line, signature: string_from_chars(sig.as_slice()) },
            );
        }
        i += 1;
        proof {
            assert(entries_view(keyed@) =~= e0 + graph@.types.take(i as int).filter(pred).map_values(f));
        }
    }
    assert(graph@.types.take(graph@.types.len() as int) =~= graph@.types);
}

fn push_macros(graph: &CodebaseGraph, file: &str, enum_values: bool, keyed: &mut Vec<((u32, u32), SymbolEntry)>)
    requires
        keyed_by_line(old(keyed)@),
    ensures
        keyed_by_line(final(keyed)@),
        !enum_values ==> entries_view(final(keyed)@) == entries_view(old(keyed)@) + graph@.symbols.filter(
            |s: SymbolNodeV| contains_ci(s.file, file@) && s.kind != SymbolKind::EnumValue,
        ).map_values(|s: SymbolNodeV| macro_entry(s)),
        enum_values ==> entries_view(final(keyed)@) == entries_view(old(keyed)@) + graph@.symbols.filter(
            |s: SymbolNodeV| contains_ci(s.file, file@) && s.kind == SymbolKind::EnumValue,
        ).map_values(|s: SymbolNodeV| enum_entry(s)),
{
    let q = lower_chars(file);
    let ghost pred = |s: SymbolNodeV| contains_ci(s.file, file@) && (s.kind == SymbolKind::EnumValue) == enum_values;
    let ghost f = |s: SymbolNodeV| if enum_values { enum_entry(s) } else { macro_entry(s) };
    let ghost e0 = entries_view(keyed@);
    let mut i: usize = 0;
    while i < graph.symbols.len()
        invariant
            q@ == lowercase(file@),
            pred == (|s: SymbolNodeV| contains_ci(s.file, file@) && (s.kind == SymbolKind::EnumValue) == enum_values),
            f == (|s: SymbolNodeV| if enum_values { enum_entry(s) } else { macro_entry(s) }),
            i <= graph@.symbols.len(),
            keyed_by_line(keyed@),
            entries_view(keyed@) == e0 + graph@.symbols.take(i as int).filter(pred).map_values(f),
        decreases graph@.symbols.len() - i,
    {
        let s = &graph.symbols[i];
        proof {
            assert(graph@.symbols.take(i + 1) =~= graph@.symbols.take(i as int).push(s.deep_view()));
        }
        let is_enum = s.kind == SymbolKind::EnumValue;
        if lower_contains(s.file.as_str(), &q) && is_enum == enum_values {
            if enum_values {
                let sig = enum_value_signature_exec(s.name.as_str(), &s.value);
                push_entry(keyed, SymbolEntry { name: s.name.clone(), kind: owned("enum_value"), line: s.line, signature: sig });
                proof {
                    reveal_strlit("enum_value");
                }
            } else {
                let sig = macro_signature(s.name.as_str(), s.kind, &s.value);
                push_entry(keyed, SymbolEntry { name: s.name.clone(), kind: owned("macro"), line: s.line, signature: sig });
                proof {
                    reveal_strlit("macro");
                }
            }
        }
        i += 1;
        proof {
            assert(entries_view(keyed@) =~= e0 + graph@.symbols.take(i as int).filter(pred).map_values(f));
        }
    }
    proof {
        assert(graph@.symbols.take(graph@.symbols.len() as int) =~= graph@.symbols);
        if enum_values {
            assert(pred =~= (|s: SymbolNodeV| contains_ci(s.file, file@) && s.kind == SymbolKind::EnumValue));
            assert(graph@.symbols.filter(pred).map_values(f) =~= graph@.symbols.filter(pred).map_values(|s: SymbolNodeV| enum_entry(s)));
        } else {
            assert(pred =~= (|s: SymbolNodeV| contains_ci(s.file, file@) && s.kind != SymbolKind::EnumValue));
            assert(graph@.symbols.filter(pred).map_values(f) =~= graph@.symbols.filter(pred).map_values(|s: SymbolNodeV| macro_entry(s)));
        }
    }
}

fn is_valid_kind(k: &str) -> (r: bool)
    ensures
        r == valid_kinds().contains(k@),
{
    proof {
        reveal_strlit("function");
        reveal_strlit("variable");
        reveal_strlit("typedef");
        reveal_strlit("struct");
        reveal_strlit("union");
        reveal_strlit("enum");
        reveal_strlit("macro");
        reveal_strlit("enum_value");
        let v = valid_kinds();
        if v.contains(k@) {
            let i = choose|i: int| 0 <= i < v.len() && v[i] == k@;
            assert(i == 0 || i == 1 || i == 2 || i == 3 || i == 4 || i == 5 || i == 6 || i == 7);
        }
    }
    let r = str_eq(k, "function") || str_eq(k, "variable") || str_eq(k, "typedef") || str_eq(k, "struct") || str_eq(
        k,
        "union",
    ) || str_eq(k, "enum") || str_eq(k, "macro") || str_eq(k, "enum_value");
    proof {
        let v = valid_kinds();
        if r {
            if k@ == "function"@ { assert(v[0] == k@); }
            if k@ == "variable"@ { assert(v[1] == k@); }
            if k@ == "typedef"@ { assert(v[2] == k@); }
            if k@ == "struct"@ { assert(v[3] == k@); }
            if k@ == "union"@ { assert(v[4] == k@); }
            if k@ == "enum"@ { assert(v[5] == k@); }
            if k@ == "macro"@ { assert(v[6] == k@); }
            if k@ == "enum_value"@ { assert(v[7] == k@); }
        }
    }
    r
}

/// The answer to a lookup of the files matching `file` for `kind`: an error message for an
/// unknown kind; otherwise the listing of `lookup_entries`, ordered by line, and entries on one
/// line in the order of their kinds (`kind_rank`).
pub open spec fn lookup_answer(g: CodebaseGraphV, file: Seq<char>, kind: Option<String>, r: Result<SymbolListing, String>) -> bool {
    match kind {
        Some(k) if !valid_kinds().contains(k@) => r matches Err(m) && m@ == unknown_kind_message(k@),
        _ => r matches Ok(l) && {
            &&& l.file@ == file
            &&& l.symbols.deep_view().to_multiset() == lookup_entries(g, file, kind.deep_view()).to_multiset()
            &&& forall|i: int, j: int| 0 <= i < j < l.symbols@.len() ==> (#[trigger] l.symbols@[i]).line <= (#[trigger] l.symbols@[j]).line
            &&& forall|i: int, j: int|
                0 <= i < j < l.symbols@.len() && (#[trigger] l.symbols@[i]).line == (#[trigger] l.symbols@[j]).line
                    ==> kind_rank(l.symbols@[i].kind@) <= kind_rank(l.symbols@[j].kind@)
        },
    }
}

/// Lists the symbols of the files whose path contains `params.file` (case ignored): functions
/// with their signatures, variables with their declarations, types with the first line of their
/// definitions, macros and enum values, all ordered by line. `params.kind` restricts the list to
/// one kind; an unknown kind is answered with an error message.
pub fn symbol_lookup(graph: &CodebaseGraph, params: SymbolLookupParams) -> (r: Result<SymbolListing, String>)
    ensures
        lookup_answer(graph@, params.file@, params.kind, r),
{
    let SymbolLookupParams { file, kind } = params;
    match &kind {
        Some(k) => {
            if !is_valid_kind(k.as_str()) {
                let mut m = owned("unknown kind '");
                push_str(&mut m, k.as_str());
                push_str(&mut m, "', valid: function|variable|typedef|struct|union|enum|macro|enum_value");
                return Err(m);
            }
        },
        None => {},
    }
    let ghost kv = kind.deep_view();
    let mut keyed: Vec<((u32, u32), SymbolEntry)> = Vec::new();
    proof {
        assert(entries_view(keyed@) =~= Seq::<SymbolEntryV>::empty());
    }
    let ghost e1 = entries_view(keyed@);
    if admits_exec(&kind, "function") {
        push_functions(graph, file.as_str(), &mut keyed);
    }
    let ghost e2 = entries_view(keyed@);
    if admits_exec(&kind, "variable") {
        push_variables(graph, file.as_str(), &mut keyed);
    }
    let ghost e3 = entries_view(keyed@);
    let want_types = admits_exec(&kind, "typedef") && kind.is_some() || admits_exec(&kind, "struct") && kind.is_some()
        || admits_exec(&kind, "union") && kind.is_some() || admits_exec(&kind, "enum") && kind.is_some() || kind.is_none();
    if want_types {
        push_types(graph, file.as_str(), &kind, &mut keyed);
    }
    let ghost e4 = entries_view(keyed@);
    if admits_exec(&kind, "macro") {
        push_macros(graph, file.as_str(), false, &mut keyed);
    }
    let ghost e5 = entries_view(keyed@);
    if admits_exec(&kind, "enum_value") {
        push_macros(graph, file.as_str(), true, &mut keyed);
    }
    proof {
        let all = lookup_entries(graph@, file@, kv);
        assert(entries_view(keyed@) =~= all);
    }
    let ghost kd = keyed@;
    let ghost key = |e: SymbolEntry| (e.line, kind_rank(e.kind@));
    proof {
        assert forall|i: int| 0 <= i < kd.len() implies #[trigger] kd[i].0 == key(kd[i].1) by {
            assert(keyed_by_line(kd));
        }
    }
    let sorted = sort_by_spec_key(keyed, Ghost(key));
    proof {
        let items = kd.map_values(|p: ((u32, u32), SymbolEntry)| p.1);
        lemma_multiset_map(sorted@, items, |e: SymbolEntry| e.deep_view());
        assert(sorted.deep_view() =~= sorted@.map_values(|e: SymbolEntry| e.deep_view()));
        assert(items.map_values(|e: SymbolEntry| e.deep_view()) =~= entries_view(kd));
        assert forall|i: int, j: int| 0 <= i < j < sorted@.len() implies (#[trigger] sorted@[i]).line <= (#[trigger] sorted@[j]).line
            && (sorted@[i].line == sorted@[j].line ==> kind_rank(sorted@[i].kind@) <= kind_rank(sorted@[j].kind@)) by {
            assert(key(sorted@[i]).key_le(&key(sorted@[j])));
        }
    }
    Ok(SymbolListing { file, symbols: sorted })
}

} // verus!
