//! Type definitions, `#include` directives, file-scope variables, and the identifiers passed to
//! macro calls.
use vstd::prelude::*;

use crate::graph::types::{GlobalVar, GlobalVarV, IncludeEdge, IncludeEdgeV, TypeKind, TypeNode, TypeNodeV};
use crate::parser::nodes::{
    field_child_of_kind, field_child_of_kind_exec, has_field, has_static, has_static_exec, kind, kind_is, line_no,
    line_of, node_text, text_of,
};
use crate::parser::source::{cap_chars, cap_chars_exec, SourceText};
use crate::parser::symbols::{conds, conds_exec};
use crate::parser::syntax::{SyntaxTree, SyntaxTreeV};
use crate::text::{chars_of, owned, str_eq, string_from_chars, trim_chars, trim_spec};

verus! {

broadcast use {vstd::seq_lib::group_seq_properties, Seq::lemma_filter_push};

/// The name of a tagged definition `(spec_kind name: (type_identifier) body: (body_kind))`.
pub open spec fn tagged(t: SyntaxTreeV, j: int, spec_kind: Seq<char>, body_kind: Seq<char>) -> Seq<int> {
    if kind(t, j) == spec_kind && field_child_of_kind(t, j, "body"@, body_kind) is Some {
        match field_child_of_kind(t, j, "name"@, "type_identifier"@) {
            Some(n) => seq![n],
            None => Seq::empty(),
        }
    } else {
        Seq::empty()
    }
}

/// The children of `j` under field `f` of kind `k`, in order.
pub open spec fn children_with(t: SyntaxTreeV, j: int, f: Seq<char>, k: Seq<char>) -> Seq<int> {
    t.children[j].filter(|c: usize| has_field(t, c as int, f) && kind(t, c as int) == k).map_values(|c: usize| c as int)
}

/// The name nodes by which node `j` defines a type of kind `k`: one for a named struct, union
/// or enum with a body, one per type-identifier declarator of a typedef.
#[verifier::opaque]
pub open spec fn type_names_at(t: SyntaxTreeV, j: int, k: TypeKind) -> Seq<int> {
    match k {
        TypeKind::Struct => tagged(t, j, "struct_specifier"@, "field_declaration_list"@),
        TypeKind::Union => tagged(t, j, "union_specifier"@, "field_declaration_list"@),
        TypeKind::Enum => tagged(t, j, "enum_specifier"@, "enumerator_list"@),
        TypeKind::Typedef => if kind(t, j) == "type_definition"@ {
            children_with(t, j, "declarator"@, "type_identifier"@)
        } else {
            Seq::empty()
        },
    }
}

/// The text of node `i`, or nothing when it cannot be taken.
pub open spec fn text_or_empty(t: SyntaxTreeV, s: Seq<char>, i: int) -> Seq<char> {
    match node_text(t, s, i) {
        Some(x) => x,
        None => Seq::empty(),
    }
}

/// The type defined by node `j` under the name node `n`, its definition trimmed (and, without
/// `rich`, cut after 500 characters with an ellipsis); `None` when the name cannot be read.
pub open spec fn type_rec(t: SyntaxTreeV, s: Seq<char>, path: Seq<char>, j: int, n: int, k: TypeKind, rich: bool) -> Option<TypeNodeV> {
    match node_text(t, s, n) {
        None => None,
        Some(name) => {
            let raw = trim_spec(text_or_empty(t, s, j));
            let d = if rich {
                raw
            } else {
                cap_chars(raw, 500)
            };
            Some(
                TypeNodeV {
                    name,
                    kind: k,
                    definition: d,
                    conditions: conds(t, s, j, rich),
                    file: path,
                    line: line_no(t.nodes[n].start_row),
                },
            )
        },
    }
}

/// The types node `j` defines under the name nodes `names`.
pub open spec fn type_recs(t: SyntaxTreeV, s: Seq<char>, path: Seq<char>, j: int, names: Seq<int>, k: TypeKind, rich: bool) -> Option<Seq<TypeNodeV>>
    decreases names.len(),
{
    if names.len() == 0 {
        Some(Seq::empty())
    } else {
        match (type_recs(t, s, path, j, names.drop_last(), k, rich), type_rec(t, s, path, j, names.last(), k, rich)) {
            (Some(prev), Some(r)) => Some(prev.push(r)),
            _ => None,
        }
    }
}

/// The types of kind `k` defined among the first `n` nodes.
pub open spec fn types_upto(t: SyntaxTreeV, s: Seq<char>, path: Seq<char>, k: TypeKind, rich: bool, n: int) -> Option<Seq<TypeNodeV>>
    decreases n,
{
    if n <= 0 {
        Some(Seq::empty())
    } else {
        match (types_upto(t, s, path, k, rich, n - 1), type_recs(t, s, path, n - 1, type_names_at(t, n - 1, k), k, rich)) {
            (Some(prev), Some(rs)) => Some(prev + rs),
            _ => None,
        }
    }
}

/// The types a file defines: structs, then unions, then enums, then typedefs, each in source order.
pub open spec fn types_spec(t: SyntaxTreeV, s: Seq<char>, path: Seq<char>, rich: bool) -> Option<Seq<TypeNodeV>> {
    let n = t.nodes.len() as int;
    match (
        types_upto(t, s, path, TypeKind::Struct, rich, n),
        types_upto(t, s, path, TypeKind::Union, rich, n),
        types_upto(t, s, path, TypeKind::Enum, rich, n),
        types_upto(t, s, path, TypeKind::Typedef, rich, n),
    ) {
        (Some(a), Some(b), Some(c), Some(d)) => Some(a + b + c + d),
        _ => None,
    }
}

/// The children of `j` under field `f` of kind `k`.
fn children_with_exec(t: &SyntaxTree, j: usize, f: &str, k: &str) -> (r: Vec<usize>)
    requires
        t@.wf(),
        j < t@.nodes.len(),
    ensures
        r@.map_values(|c: usize| c as int) == children_with(t@, j as int, f@, k@),
        forall|q: int| 0 <= q < r@.len() ==> #[trigger] r@[q] < t@.nodes.len(),
{
    let ghost tv = t@;
    let ghost pred = |c: usize| has_field(tv, c as int, f@) && kind(tv, c as int) == k@;
    let kids = &t.children[j];
    let mut r: Vec<usize> = Vec::new();
    let mut q: usize = 0;
    while q < kids.len()
        invariant
            tv == t@,
            tv.wf(),
            j < tv.nodes.len(),
            kids@ == tv.children[j as int],
            pred == (|c: usize| has_field(tv, c as int, f@) && kind(tv, c as int) == k@),
            q <= kids@.len(),
            r@ == kids@.take(q as int).filter(pred),
            forall|w: int| 0 <= w < r@.len() ==> #[trigger] r@[w] < tv.nodes.len(),
        decreases kids@.len() - q,
    {
        let c = kids[q];
        proof {
            assert(kids@.take(q + 1) =~= kids@.take(q as int).push(c));
            assert(j < c < tv.sub_end[j as int]);
        }
        let hit = match &t.nodes[c].field {
            Some(x) => str_eq(x.as_str(), f),
            None => false,
        } && kind_is(t, c, k);
        if hit {
            r.push(c);
        }
        q += 1;
    }
    proof {
        assert(kids@.take(kids@.len() as int) =~= kids@);
    }
    r
}

fn tagged_exec(t: &SyntaxTree, j: usize, spec_kind: &str, body_kind: &str) -> (r: Vec<usize>)
    requires
        t@.wf(),
        j < t@.nodes.len(),
    ensures
        r@.map_values(|c: usize| c as int) == tagged(t@, j as int, spec_kind@, body_kind@),
        forall|q: int| 0 <= q < r@.len() ==> #[trigger] r@[q] < t@.nodes.len(),
{
    let mut r: Vec<usize> = Vec::new();
    if kind_is(t, j, spec_kind) && field_child_of_kind_exec(t, j, "body", body_kind).is_some() {
        match field_child_of_kind_exec(t, j, "name", "type_identifier") {
            Some(n) => {
                r.push(n);
            },
            None => {},
        }
    }
    assert(r@.map_values(|c: usize| c as int) =~= tagged(t@, j as int, spec_kind@, body_kind@));
    r
}

fn type_names_at_exec(t: &SyntaxTree, j: usize, k: TypeKind) -> (r: Vec<usize>)
    requires
        t@.wf(),
        j < t@.nodes.len(),
    ensures
        r@.map_values(|c: usize| c as int) == type_names_at(t@, j as int, k),
        forall|q: int| 0 <= q < r@.len() ==> #[trigger] r@[q] < t@.nodes.len(),
{
    proof {
        reveal(type_names_at);
    }
    match k {
        TypeKind::Struct => tagged_exec(t, j, "struct_specifier", "field_declaration_list"),
        TypeKind::Union => tagged_exec(t, j, "union_specifier", "field_declaration_list"),
        TypeKind::Enum => tagged_exec(t, j, "enum_specifier", "enumerator_list"),
        TypeKind::Typedef => {
            if kind_is(t, j, "type_definition") {
                children_with_exec(t, j, "declarator", "type_identifier")
            } else {
                let r: Vec<usize> = Vec::new();
                assert(r@.map_values(|c: usize| c as int) =~= Seq::<int>::empty());
                r
            }
        },
    }
}

pub fn text_or_empty_exec(t: &SyntaxTree, src: &SourceText, i: usize) -> (r: String)
    requires
        t@.wf(),
        src.wf(),
        i < t@.nodes.len(),
    ensures
        r@ == text_or_empty(t@, src.chars@, i as int),
{
    match text_of(t, src, i) {
        Some(x) => x,
        None => String::new(),
    }
}

fn type_rec_exec(t: &SyntaxTree, src: &SourceText, path: &str, j: usize, n: usize, k: TypeKind, rich: bool) -> (r: Option<TypeNode>)
    requires
        t@.wf(),
        src.wf(),
        j < t@.nodes.len(),
        n < t@.nodes.len(),
    ensures
        r.deep_view() == type_rec(t@, src.chars@, path@, j as int, n as int, k, rich),
{
    let name = match text_of(t, src, n) {
        Some(x) => x,
        None => return None,
    };
    let raw_text = text_or_empty_exec(t, src, j);
    let cs = chars_of(raw_text.as_str());
    let raw = trim_chars(&cs);
    let def = if rich {
        string_from_chars(raw.as_slice())
    } else {
        let c = cap_chars_exec(&raw, 500);
        string_from_chars(c.as_slice())
    };
    let c = conds_exec(t, src, j, rich);
    Some(TypeNode { name, kind: k, definition: def, conditions: c, file: owned(path), line: line_of(t.nodes[n].start_row) })
}

proof fn lemma_types_stuck(t: SyntaxTreeV, s: Seq<char>, path: Seq<char>, k: TypeKind, rich: bool, a: int, b: int)
    requires
        a <= b,
        types_upto(t, s, path, k, rich, a) is None,
    ensures
        types_upto(t, s, path, k, rich, b) is None,
    decreases b - a,
{
    if a < b {
        lemma_types_stuck(t, s, path, k, rich, a, b - 1);
    }
}

/// The types of kind `k` node `j` defines, appended to `out`; false on a failure.
fn push_type_recs(t: &SyntaxTree, src: &SourceText, path: &str, j: usize, k: TypeKind, rich: bool, out: &mut Vec<TypeNode>) -> (ok: bool)
    requires
        t@.wf(),
        src.wf(),
        j < t@.nodes.len(),
    ensures
        match type_recs(t@, src.chars@, path@, j as int, type_names_at(t@, j as int, k), k, rich) {
            Some(rs) => ok && final(out).deep_view() == old(out).deep_view() + rs,
            None => !ok,
        },
{
    let names = type_names_at_exec(t, j, k);
    let ghost nv = names@.map_values(|c: usize| c as int);
    let ghost o0 = out.deep_view();
    let mut q: usize = 0;
    proof {
        assert(nv.take(0) =~= Seq::<int>::empty());
        assert(o0 + Seq::<TypeNodeV>::empty() =~= o0);
    }
    while q < names.len()
        invariant
            t@.wf(),
            src.wf(),
            j < t@.nodes.len(),
            nv == names@.map_values(|c: usize| c as int),
            nv == type_names_at(t@, j as int, k),
            forall|w: int| 0 <= w < names@.len() ==> #[trigger] names@[w] < t@.nodes.len(),
            q <= names@.len(),
            type_recs(t@, src.chars@, path@, j as int, nv.take(q as int), k, rich) matches Some(rs) && out.deep_view() == o0 + rs,
        decreases names@.len() - q,
    {
        proof {
            assert(nv.take(q + 1).drop_last() =~= nv.take(q as int));
            assert(nv.take(q + 1).last() == names@[q as int] as int);
        }
        let ghost before = out.deep_view();
        match type_rec_exec(t, src, path, j, names[q], k, rich) {
            Some(r) => {
                out.push(r);
                proof {
                    assert(out.deep_view() =~= before.push(r.deep_view()));
                }
            },
            None => {
                proof {
                    lemma_type_recs_stuck(t@, src.chars@, path@, j as int, nv, k, rich, q + 1);
                }
                return false;
            },
        }
        q += 1;
    }
    proof {
        assert(nv.take(names@.len() as int) =~= nv);
    }
    true
}

proof fn lemma_type_recs_stuck(t: SyntaxTreeV, s: Seq<char>, path: Seq<char>, j: int, names: Seq<int>, k: TypeKind, rich: bool, a: int)
    requires
        0 <= a <= names.len(),
        type_recs(t, s, path, j, names.take(a), k, rich) is None,
    ensures
        type_recs(t, s, path, j, names, k, rich) is None,
    decreases names.len() - a,
{
    if a < names.len() {
        assert(names.take(a + 1).drop_last() =~= names.take(a));
        lemma_type_recs_stuck(t, s, path, j, names, k, rich, a + 1);
    } else {
        assert(names.take(a) =~= names);
    }
}

fn push_types(t: &SyntaxTree, src: &SourceText, path: &str, k: TypeKind, rich: bool, out: &mut Vec<TypeNode>) -> (ok: bool)
    requires
        t@.wf(),
        src.wf(),
    ensures
        match types_upto(t@, src.chars@, path@, k, rich, t@.nodes.len() as int) {
            Some(ts) => ok && final(out).deep_view() == old(out).deep_view() + ts,
            None => !ok,
        },
{
    let ghost o0 = out.deep_view();
    let mut j: usize = 0;
    proof {
        assert(o0 + Seq::<TypeNodeV>::empty() =~= o0);
    }
    while j < t.nodes.len()
        invariant
            t@.wf(),
            src.wf(),
            j <= t@.nodes.len(),
            types_upto(t@, src.chars@, path@, k, rich, j as int) matches Some(ts) && out.deep_view() == o0 + ts,
        decreases t@.nodes.len() - j,
    {
        let ghost before = out.deep_view();
        let ghost ts = types_upto(t@, src.chars@, path@, k, rich, j as int)->0;
        if !push_type_recs(t, src, path, j, k, rich, out) {
            proof {
                lemma_types_stuck(t@, src.chars@, path@, k, rich, j + 1, t@.nodes.len() as int);
            }
            return false;
        }
        proof {
            let rs = type_recs(t@, src.chars@, path@, j as int, type_names_at(t@, j as int, k), k, rich)->0;
            assert(o0 + ts + rs =~= o0 + (ts + rs));
        }
        j += 1;
    }
    true
}

/// The types the tree defines: structs, unions, enums, then typedefs, each in source order;
/// `None` on a failure.
pub fn types(t: &SyntaxTree, src: &SourceText, path: &str, rich: bool) -> (r: Option<Vec<TypeNode>>)
    requires
        t@.wf(),
        src.wf(),
    ensures
        r.deep_view() == types_spec(t@, src.chars@, path@, rich),
{
    let mut out: Vec<TypeNode> = Vec::new();
    if !push_types(t, src, path, TypeKind::Struct, rich, &mut out) {
        return None;
    }
    if !push_types(t, src, path, TypeKind::Union, rich, &mut out) {
        return None;
    }
    if !push_types(t, src, path, TypeKind::Enum, rich, &mut out) {
        return None;
    }
    if !push_types(t, src, path, TypeKind::Typedef, rich, &mut out) {
        return None;
    }
    proof {
        let n = t@.nodes.len() as int;
        let a = types_upto(t@, src.chars@, path@, TypeKind::Struct, rich, n)->0;
        assert(Seq::<TypeNodeV>::empty() + a =~= a);
    }
    Some(out)
}


/// A quote or angle bracket, the characters that enclose an include path.
pub open spec fn is_quote(c: char) -> bool {
    c == '"' || c == '<' || c == '>'
}

/// `s` without its leading quotes.
pub open spec fn strip_front(s: Seq<char>) -> Seq<char>
    decreases s.len(),
{
    if s.len() > 0 && is_quote(s[0]) {
        strip_front(s.drop_first())
    } else {
        s
    }
}

/// `s` without its trailing quotes.
pub open spec fn strip_back(s: Seq<char>) -> Seq<char>
    decreases s.len(),
{
    if s.len() > 0 && is_quote(s.last()) {
        strip_back(s.drop_last())
    } else {
        s
    }
}

/// `s` with the quotes and angle brackets at both ends removed (`str::trim_matches`).
pub open spec fn strip_quotes(s: Seq<char>) -> Seq<char> {
    strip_back(strip_front(s))
}

proof fn lemma_strip_front(s: Seq<char>, a: int)
    requires
        0 <= a <= s.len(),
        forall|i: int| 0 <= i < a ==> is_quote(#[trigger] s[i]),
        a == s.len() || !is_quote(s[a]),
    ensures
        strip_front(s) == s.subrange(a, s.len() as int),
    decreases a,
{
    if a > 0 {
        let t = s.drop_first();
        assert forall|i: int| 0 <= i < a - 1 implies is_quote(#[trigger] t[i]) by {
            assert(t[i] == s[i + 1]);
        }
        lemma_strip_front(t, a - 1);
        assert(t.subrange(a - 1, t.len() as int) =~= s.subrange(a, s.len() as int));
    } else {
        assert(s.subrange(0, s.len() as int) =~= s);
    }
}

proof fn lemma_strip_back(s: Seq<char>, b: int)
    requires
        0 <= b <= s.len(),
        forall|i: int| b <= i < s.len() ==> is_quote(#[trigger] s[i]),
        b == 0 || !is_quote(s[b - 1]),
    ensures
        strip_back(s) == s.subrange(0, b),
    decreases s.len() - b,
{
    if b < s.len() {
        let t = s.drop_last();
        assert forall|i: int| b <= i < t.len() implies is_quote(#[trigger] t[i]) by {
            assert(t[i] == s[i]);
        }
        lemma_strip_back(t, b);
        assert(t.subrange(0, b) =~= s.subrange(0, b));
    } else {
        assert(s.subrange(0, b) =~= s);
    }
}

fn is_quote_exec(c: char) -> (r: bool)
    ensures
        r == is_quote(c),
{
    c == '"' || c == '<' || c == '>'
}

/// `strip_quotes` in executable form.
pub fn strip_quotes_exec(s: &str) -> (r: String)
    ensures
        r@ == strip_quotes(s@),
{
    let cs = chars_of(s);
    let mut a: usize = 0;
    while a < cs.len() && is_quote_exec(cs[a])
        invariant
            a <= cs@.len(),
            forall|i: int| 0 <= i < a ==> is_quote(#[trigger] cs@[i]),
        decreases cs@.len() - a,
    {
        a += 1;
    }
    proof {
        lemma_strip_front(cs@, a as int);
    }
    let ghost f = cs@.subrange(a as int, cs@.len() as int);
    let mut b: usize = cs.len();
    while b > a && is_quote_exec(cs[b - 1])
        invariant
            a <= b <= cs@.len(),
            f == cs@.subrange(a as int, cs@.len() as int),
            forall|i: int| b <= i < cs@.len() ==> is_quote(#[trigger] cs@[i]),
        decreases b,
    {
        b -= 1;
    }
    proof {
        assert forall|i: int| b - a <= i < f.len() implies is_quote(#[trigger] f[i]) by {
            assert(f[i] == cs@[a + i]);
        }
        lemma_strip_back(f, b - a);
    }
    let mut out: Vec<char> = Vec::new();
    let mut i = a;
    while i < b
        invariant
            a <= i <= b <= cs@.len(),
            out@ == cs@.subrange(a as int, i as int),
        decreases b - i,
    {
        out.push(cs[i]);
        i += 1;
    }
    proof {
        assert(out@ =~= f.subrange(0, b - a));
    }
    string_from_chars(out.as_slice())
}

/// The directive recorded for the path node `c` of an `#include`.
pub open spec fn include_edge(t: SyntaxTreeV, s: Seq<char>, c: int) -> IncludeEdgeV {
    IncludeEdgeV { path: strip_quotes(text_or_empty(t, s, c)), is_system: kind(t, c) == "system_lib_string"@ }
}

/// The path nodes of node `j` when it is an `#include`.
pub open spec fn include_paths_at(t: SyntaxTreeV, j: int) -> Seq<int> {
    if kind(t, j) == "preproc_include"@ {
        t.children[j].filter(|c: usize| has_field(t, c as int, "path"@)).map_values(|c: usize| c as int)
    } else {
        Seq::empty()
    }
}

/// The `#include` directives among the first `n` nodes, in order.
pub open spec fn includes_upto(t: SyntaxTreeV, s: Seq<char>, n: int) -> Seq<IncludeEdgeV>
    decreases n,
{
    if n <= 0 {
        Seq::empty()
    } else {
        includes_upto(t, s, n - 1) + include_paths_at(t, n - 1).map_values(|c: int| include_edge(t, s, c))
    }
}

/// The `#include` directives of a file, in order.
pub open spec fn includes_spec(t: SyntaxTreeV, s: Seq<char>) -> Seq<IncludeEdgeV> {
    includes_upto(t, s, t.nodes.len() as int)
}

/// The `#include` directives of the tree, in order: the path as written without its quotes or
/// angle brackets, and whether it is a system header.
pub fn includes(t: &SyntaxTree, src: &SourceText) -> (r: Vec<IncludeEdge>)
    requires
        t@.wf(),
        src.wf(),
    ensures
        r.deep_view() == includes_spec(t@, src.chars@),
{
    let ghost tv = t@;
    let ghost sv = src.chars@;
    let mut out: Vec<IncludeEdge> = Vec::new();
    let mut j: usize = 0;
    while j < t.nodes.len()
        invariant
            tv == t@,
            sv == src.chars@,
            tv.wf(),
            src.wf(),
            j <= tv.nodes.len(),
            out.deep_view() == includes_upto(tv, sv, j as int),
        decreases tv.nodes.len() - j,
    {
        let ghost before = out.deep_view();
        if kind_is(t, j, "preproc_include") {
            let kids = &t.children[j];
            let ghost ch = tv.children[j as int];
            let ghost pred = |c: usize| has_field(tv, c as int, "path"@);
            let ghost mk = |c: int| include_edge(tv, sv, c);
            let mut q: usize = 0;
            while q < kids.len()
                invariant
                    tv == t@,
                    sv == src.chars@,
                    tv.wf(),
                    src.wf(),
                    j < tv.nodes.len(),
                    kids@ == ch,
                    ch == tv.children[j as int],
                    pred == (|c: usize| has_field(tv, c as int, "path"@)),
                    mk == (|c: int| include_edge(tv, sv, c)),
                    q <= ch.len(),
                    out.deep_view() == before + ch.take(q as int).filter(pred).map_values(|c: usize| c as int).map_values(mk),
                decreases ch.len() - q,
            {
                let c = kids[q];
                let ghost o1 = out.deep_view();
                proof {
                    assert(ch.take(q + 1) =~= ch.take(q as int).push(c));
                    assert(j < c < tv.sub_end[j as int]);
                }
                let hit = match &t.nodes[c].field {
                    Some(x) => str_eq(x.as_str(), "path"),
                    None => false,
                };
                if hit {
                    let raw = text_or_empty_exec(t, src, c);
                    let e = IncludeEdge { path: strip_quotes_exec(raw.as_str()), is_system: kind_is(t, c, "system_lib_string") };
                    out.push(e);
                    proof {
                        reveal_strlit("path");
                        assert(out.deep_view() =~= o1.push(mk(c as int)));
                    }
                } else {
                    proof {
                        reveal_strlit("path");
                    }
                }
                q += 1;
                proof {
                    assert(out.deep_view() =~= before + ch.take(q as int).filter(pred).map_values(|c: usize| c as int).map_values(mk));
                }
            }
            proof {
                assert(ch.take(ch.len() as int) =~= ch);
                assert(include_paths_at(tv, j as int).map_values(|c: int| include_edge(tv, sv, c)) =~= ch.filter(pred).map_values(
                    |c: usize| c as int,
                ).map_values(mk));
            }
        } else {
            proof {
                assert(include_paths_at(tv, j as int).map_values(|c: int| include_edge(tv, sv, c)) =~= Seq::<IncludeEdgeV>::empty());
            }
        }
        j += 1;
        proof {
            assert(out.deep_view() =~= includes_upto(tv, sv, j as int));
        }
    }
    out
}

} // verus!
