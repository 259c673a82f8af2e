//! `get_source`: the full source of a symbol by exact name, or the candidates when the name is
//! ambiguous.
use vstd::prelude::*;

use crate::graph::codebase::{CodebaseGraph, CodebaseGraphV};
use crate::graph::types::{FunctionNodeV, GlobalVarV, SymbolKind, SymbolNodeV, TypeNodeV};
use crate::text::{
    chars_of, contains_ci, decimal, first_line, first_line_spec, lower_chars, lower_contains, lowercase, owned,
    push_decimal, push_str, string_from_chars, trim_chars, trim_spec,
};
use crate::tools::{extract_fn_signature, fn_signature};

verus! {

broadcast use {vstd::seq_lib::group_seq_properties, Seq::lemma_filter_push};

/// The request: an exact name, and optionally a file name (any part of the path, case ignored).
pub struct GetSourceParams {
    pub name: String,
    pub file: Option<String>,
}

/// One definition of the name.
pub struct SourceMatch {
    /// function, typedef, variable or macro
    pub kind: String,
    pub file: String,
    pub line: u32,
    pub signature: String,
    pub source: String,
}

pub struct SourceMatchV {
    pub kind: Seq<char>,
    pub file: Seq<char>,
    pub line: u32,
    pub signature: Seq<char>,
    pub source: Seq<char>,
}

impl DeepView for SourceMatch {
    type V = SourceMatchV;

    open spec fn deep_view(&self) -> SourceMatchV {
        SourceMatchV {
            kind: self.kind@,
            file: self.file@,
            line: self.line,
            signature: self.signature@,
            source: self.source@,
        }
    }
}

/// The answer to a `get_source` request.
pub enum SourceAnswer {
    /// No definition of the name: the message says so
    NotFound(String),
    /// The one definition, headed by its file and line
    Source(String),
    /// Several definitions: the name, and each definition's kind, file and signature
    Ambiguous(String, Vec<SourceMatch>),
}

/// `file` passes the optional file filter.
pub open spec fn file_ok(filter: Option<Seq<char>>, file: Seq<char>) -> bool {
    match filter {
        Some(q) => contains_ci(file, q),
        None => true,
    }
}

pub open spec fn mk_match(kind: Seq<char>, file: Seq<char>, line: u32, signature: Seq<char>, source: Seq<char>) -> SourceMatchV {
    SourceMatchV { kind, file, line, signature, source }
}

/// The text a preprocessor symbol is shown as.
pub open spec fn symbol_source(name: Seq<char>, kind: SymbolKind, value: Option<Seq<char>>) -> Seq<char> {
    match (kind, value) {
        (SymbolKind::MacroFn, Some(v)) => "#define "@ + name + v,
        (SymbolKind::Define, Some(v)) => "#define "@ + name + " "@ + v,
        (SymbolKind::Define, None) => "#define "@ + name,
        (SymbolKind::EnumValue, Some(v)) => name + " = "@ + v,
        _ => name,
    }
}

/// The source shown for a preprocessor symbol: an object-like `#define` with value `v` reads
/// `#define NAME v` (the value is never lost, and it ends the text), one without a value
/// `#define NAME`; a function-like macro reads `#define NAME` followed directly by its stored
/// parameters and body; an enum value with a value reads `NAME = v`.
pub proof fn lemma_define_shows_its_value(name: Seq<char>, v: Seq<char>)
    ensures
        symbol_source(name, SymbolKind::Define, Some(v)) == "#define "@ + name + " "@ + v,
        symbol_source(name, SymbolKind::Define, None) == "#define "@ + name,
        symbol_source(name, SymbolKind::Define, Some(v)).len() == symbol_source(name, SymbolKind::Define, None).len()
            + 1 + v.len(),
        ("#define "@ + name).is_prefix_of(symbol_source(name, SymbolKind::Define, Some(v))),
        symbol_source(name, SymbolKind::Define, Some(v)).subrange(
            symbol_source(name, SymbolKind::Define, Some(v)).len() - v.len(),
            symbol_source(name, SymbolKind::Define, Some(v)).len() as int,
        ) == v,
        symbol_source(name, SymbolKind::MacroFn, Some(v)) == "#define "@ + name + v,
        symbol_source(name, SymbolKind::EnumValue, Some(v)) == name + " = "@ + v,
{
    reveal_strlit(" ");
    reveal_strlit("#define ");
    let a = symbol_source(name, SymbolKind::Define, None);
    let b = symbol_source(name, SymbolKind::Define, Some(v));
    assert(b =~= a + " "@ + v);
    assert(b.subrange(b.len() - v.len(), b.len() as int) =~= v);
    assert(b.subrange(0, ("#define "@ + name).len() as int) =~= "#define "@ + name);
}

/// The definitions of `name` in files passing `filter`: functions, types, variables, then
/// preprocessor symbols, each in graph order.
pub open spec fn source_matches(g: CodebaseGraphV, name: Seq<char>, filter: Option<Seq<char>>) -> Seq<SourceMatchV> {
    g.nodes.filter(|n: FunctionNodeV| n.name == name && file_ok(filter, n.file)).map_values(
        |n: FunctionNodeV| mk_match("function"@, n.file, n.line, fn_signature(n.source), n.source),
    ) + g.types.filter(|t: TypeNodeV| t.name == name && file_ok(filter, t.file)).map_values(
        |t: TypeNodeV| mk_match("typedef"@, t.file, t.line, trim_spec(first_line_spec(t.definition)), t.definition),
    ) + g.globals.filter(|v: GlobalVarV| v.name == name && file_ok(filter, v.file)).map_values(
        |v: GlobalVarV| mk_match("variable"@, v.file, v.line, v.decl, v.decl),
    ) + g.symbols.filter(|s: SymbolNodeV| s.name == name && file_ok(filter, s.file)).map_values(
        |s: SymbolNodeV|
            mk_match("macro"@, s.file, s.line, symbol_source(s.name, s.kind, s.value), symbol_source(s.name, s.kind, s.value)),
    )
}

/// The answer to `name` not being found.
pub open spec fn not_found_message(name: Seq<char>) -> Seq<char> {
    "symbol '"@ + name + "' not found"@
}

/// One definition shown with its file and line.
pub open spec fn sourced(m: SourceMatchV) -> Seq<char> {
    "// file: "@ + m.file + "\n// line: "@ + decimal(m.line as nat) + "\n\n"@ + m.source
}

fn file_ok_exec(q: &Option<Vec<char>>, file: &str, Ghost(filter): Ghost<Option<Seq<char>>>) -> (r: bool)
    requires
        match filter {
            Some(f) => q matches Some(v) && v@ == lowercase(f),
            None => q is None,
        },
    ensures
        r == file_ok(filter, file@),
{
    match q {
        Some(v) => lower_contains(file, v),
        None => true,
    }
}

fn symbol_source_exec(name: &str, kind: SymbolKind, value: &Option<String>) -> (r: String)
    ensures
        r@ == symbol_source(name@, kind, value.deep_view()),
{
    match (kind, value) {
        (SymbolKind::MacroFn, Some(v)) => {
            let mut s = owned("#define ");
            push_str(&mut s, name);
            push_str(&mut s, v.as_str());
            s
        },
        (SymbolKind::Define, Some(v)) => {
            let mut s = owned("#define ");
            push_str(&mut s, name);
            push_str(&mut s, " ");
            push_str(&mut s, v.as_str());
            s
        },
        (SymbolKind::Define, None) => {
            let mut s = owned("#define ");
            push_str(&mut s, name);
            s
        },
        (SymbolKind::EnumValue, Some(v)) => {
            let mut s = owned(name);
            push_str(&mut s, " = ");
            push_str(&mut s, v.as_str());
            s
        },
        _ => owned(name),
    }
}

fn first_line_trimmed(s: &str) -> (r: String)
    ensures
        r@ == trim_spec(first_line_spec(s@)),
{
    let cs = chars_of(s);
    let l = first_line(&cs);
    let t = trim_chars(&l);
    string_from_chars(t.as_slice())
}

/// Gathers the definitions of `name` (`source_matches`).
fn gather(graph: &CodebaseGraph, name: &str, file: &Option<String>) -> (r: Vec<SourceMatch>)
    ensures
        r.deep_view() == source_matches(graph@, name@, file.deep_view()),
{
    let ghost filter = file.deep_view();
    let q: Option<Vec<char>> = match file {
        Some(f) => Some(lower_chars(f.as_str())),
        None => None,
    };
    let n = owned(name);
    let mut out: Vec<SourceMatch> = Vec::new();
    let ghost p1 = |x: FunctionNodeV| x.name == name@ && file_ok(filter, x.file);
    let ghost f1 = |x: FunctionNodeV| mk_match("function"@, x.file, x.line, fn_signature(x.source), x.source);
    let mut i: usize = 0;
    while i < graph.nodes.len()
        invariant
            n@ == name@,
            filter == file.deep_view(),
            match filter {
                Some(f) => q matches Some(v) && v@ == lowercase(f),
                None => q is None,
            },
            p1 == (|x: FunctionNodeV| x.name == name@ && file_ok(filter, x.file)),
            f1 == (|x: FunctionNodeV| mk_match("function"@, x.file, x.line, fn_signature(x.source), x.source)),
            i <= graph@.nodes.len(),
            out.deep_view() == graph@.nodes.take(i as int).filter(p1).map_values(f1),
        decreases graph@.nodes.len() - i,
    {
        let x = &graph.nodes[i];
        let ghost o = out.deep_view();
        proof {
            assert(graph@.nodes.take(i + 1) =~= graph@.nodes.take(i as int).push(x.deep_view()));
            assert(graph.nodes@[i as int].deep_view() == graph@.nodes[i as int]);
        }
        if x.name == n && file_ok_exec(&q, x.file.as_str(), Ghost(filter)) {
            let sig = extract_fn_signature(x.source.as_str());
            let m = SourceMatch { kind: owned("function"), file: x.file.clone(), line: x.line, signature: sig, source: x.source.clone() };
            out.push(m);
            proof {
                reveal_strlit("function");
                assert(out.deep_view() =~= o.push(f1(x.deep_view())));
            }
        }
        i += 1;
        proof {
            assert(out.deep_view() =~= graph@.nodes.take(i as int).filter(p1).map_values(f1));
        }
    }
    proof {
        assert(graph@.nodes.take(graph@.nodes.len() as int) =~= graph@.nodes);
    }
    let ghost s1 = out.deep_view();
    let ghost p2 = |x: TypeNodeV| x.name == name@ && file_ok(filter, x.file);
    let ghost f2 = |x: TypeNodeV| mk_match("typedef"@, x.file, x.line, trim_spec(first_line_spec(x.definition)), x.definition);
    let mut i: usize = 0;
    while i < graph.types.len()
        invariant
            n@ == name@,
            match filter {
                Some(f) => q matches Some(v) && v@ == lowercase(f),
                None => q is None,
            },
            p2 == (|x: TypeNodeV| x.name == name@ && file_ok(filter, x.file)),
            f2 == (|x: TypeNodeV| mk_match("typedef"@, x.file, x.line, trim_spec(first_line_spec(x.definition)), x.definition)),
            i <= graph@.types.len(),
            out.deep_view() == s1 + graph@.types.take(i as int).filter(p2).map_values(f2),
        decreases graph@.types.len() - i,
    {
        let x = &graph.types[i];
        let ghost o = out.deep_view();
        proof {
            assert(graph@.types.take(i + 1) =~= graph@.types.take(i as int).push(x.deep_view()));
        }
        if x.name == n && file_ok_exec(&q, x.file.as_str(), Ghost(filter)) {
            let m = SourceMatch {
                kind: owned("typedef"),
                file: x.file.clone(),
                line: x.line,
                signature: first_line_trimmed(x.definition.as_str()),
                source: x.definition.clone(),
            };
            out.push(m);
            proof {
                reveal_strlit("typedef");
                assert(out.deep_view() =~= o.push(f2(x.deep_view())));
            }
        }
        i += 1;
        proof {
            assert(out.deep_view() =~= s1 + graph@.types.take(i as int).filter(p2).map_values(f2));
        }
    }
    proof {
        assert(graph@.types.take(graph@.types.len() as int) =~= graph@.types);
    }
    let ghost s2 = out.deep_view();
    let ghost p3 = |x: GlobalVarV| x.name == name@ && file_ok(filter, x.file);
    let ghost f3 = |x: GlobalVarV| mk_match("variable"@, x.file, x.line, x.decl, x.decl);
    let mut i: usize = 0;
    while i < graph.globals.len()
        invariant
            n@ == name@,
            match filter {
                Some(f) => q matches Some(v) && v@ == lowercase(f),
                None => q is None,
            },
            p3 == (|x: GlobalVarV| x.name == name@ && file_ok(filter, x.file)),
            f3 == (|x: GlobalVarV| mk_match("variable"@, x.file, x.line, x.decl, x.decl)),
            i <= graph@.globals.len(),
            out.deep_view() == s2 + graph@.globals.take(i as int).filter(p3).map_values(f3),
        decreases graph@.globals.len() - i,
    {
        let x = &graph.globals[i];
        let ghost o = out.deep_view();
        proof {
            assert(graph@.globals.take(i + 1) =~= graph@.globals.take(i as int).push(x.deep_view()));
        }
        if x.name == n && file_ok_exec(&q, x.file.as_str(), Ghost(filter)) {
            let m = SourceMatch { kind: owned("variable"), file: x.file.clone(), line: x.line, signature: x.decl.clone(), source: x.decl.clone() };
            out.push(m);
            proof {
                reveal_strlit("variable");
                assert(out.deep_view() =~= o.push(f3(x.deep_view())));
            }
        }
        i += 1;
        proof {
            assert(out.deep_view() =~= s2 + graph@.globals.take(i as int).filter(p3).map_values(f3));
        }
    }
    proof {
        assert(graph@.globals.take(graph@.globals.len() as int) =~= graph@.globals);
    }
    let ghost s3 = out.deep_view();
    let ghost p4 = |x: SymbolNodeV| x.name == name@ && file_ok(filter, x.file);
    let ghost f4 = |x: SymbolNodeV|
        mk_match("macro"@, x.file, x.line, symbol_source(x.name, x.kind, x.value), symbol_source(x.name, x.kind, x.value));
    let mut i: usize = 0;
    while i < graph.symbols.len()
        invariant
            n@ == name@,
            match filter {
                Some(f) => q matches Some(v) && v@ == lowercase(f),
                None => q is None,
            },
            p4 == (|x: SymbolNodeV| x.name == name@ && file_ok(filter, x.file)),
            f4 == (|x: SymbolNodeV|
                mk_match("macro"@, x.file, x.line, symbol_source(x.name, x.kind, x.value), symbol_source(x.name, x.kind, x.value))),
            i <= graph@.symbols.len(),
            out.deep_view() == s3 + graph@.symbols.take(i as int).filter(p4).map_values(f4),
        decreases graph@.symbols.len() - i,
    {
        let x = &graph.symbols[i];
        let ghost o = out.deep_view();
        proof {
            assert(graph@.symbols.take(i + 1) =~= graph@.symbols.take(i as int).push(x.deep_view()));
        }
        if x.name == n && file_ok_exec(&q, x.file.as_str(), Ghost(filter)) {
            let src = symbol_source_exec(x.name.as_str(), x.kind, &x.value);
            let sig = src.clone();
            let m = SourceMatch { kind: owned("macro"), file: x.file.clone(), line: x.line, signature: sig, source: src };
            out.push(m);
            proof {
                reveal_strlit("macro");
                assert(out.deep_view() =~= o.push(f4(x.deep_view())));
            }
        }
        i += 1;
        proof {
            assert(out.deep_view() =~= s3 + graph@.symbols.take(i as int).filter(p4).map_values(f4));
        }
    }
    proof {
        assert(graph@.symbols.take(graph@.symbols.len() as int) =~= graph@.symbols);
        assert(out.deep_view() =~= source_matches(graph@, name@, filter));
    }
    out
}

/// The source of the symbol named `params.name` (in a file matching `params.file`, when given):
/// its one definition headed by `// file:` and `// line:`, the list of candidates when there are
/// several, or a message when there is none.
pub fn get_source(graph: &CodebaseGraph, params: GetSourceParams) -> (r: SourceAnswer)
    ensures
        ({
            let ms = source_matches(graph@, params.name@, params.file.deep_view());
            match r {
                SourceAnswer::NotFound(m) => ms.len() == 0 && m@ == not_found_message(params.name@),
                SourceAnswer::Source(s) => ms.len() == 1 && s@ == sourced(ms[0]),
                SourceAnswer::Ambiguous(n, v) => ms.len() > 1 && n@ == params.name@ && v.deep_view() == ms,
            }
        }),
{
    let GetSourceParams { name, file } = params;
    let mut ms = gather(graph, name.as_str(), &file);
    if ms.len() == 0 {
        let mut m = owned("symbol '");
        push_str(&mut m, name.as_str());
        push_str(&mut m, "' not found");
        return SourceAnswer::NotFound(m);
    }
    if ms.len() == 1 {
        let m = ms.pop().unwrap();
        let mut s = owned("// file: ");
        push_str(&mut s, m.file.as_str());
        push_str(&mut s, "\n// line: ");
        push_decimal(&mut s, m.line as u64);
        push_str(&mut s, "\n\n");
        push_str(&mut s, m.source.as_str());
        return SourceAnswer::Source(s);
    }
    SourceAnswer::Ambiguous(name, ms)
}

} // verus!
