//! File-scope variables, and the identifiers passed to calls of macros.
use vstd::prelude::*;

use crate::graph::types::{GlobalVar, GlobalVarV};
use crate::parser::decls::{text_or_empty, text_or_empty_exec};
use crate::parser::nodes::{
    field_child_of_kind, field_child_of_kind_exec, has_static, has_static_exec, kind, kind_is, line_no, line_of,
    node_text, text_of,
};
use crate::parser::source::SourceText;
use crate::parser::syntax::{SyntaxTree, SyntaxTreeV};
use crate::text::{chars_of, owned, trim, trim_spec};

verus! {

broadcast use vstd::seq_lib::group_seq_properties;

/// Some child of `d` is a function declarator, or a pointer declarator with one as a child:
/// `d` declares a function.
pub open spec fn has_fn_declarator(t: SyntaxTreeV, d: int) -> bool {
    exists|k: int|
        0 <= k < t.children[d].len() && {
            let c = #[trigger] t.children[d][k] as int;
            kind(t, c) == "function_declarator"@ || kind(t, c) == "pointer_declarator"@ && exists|q: int|
                0 <= q < t.children[c].len() && kind(t, #[trigger] t.children[c][q] as int) == "function_declarator"@
        }
}

/// A kind of declarator that holds the declared name deeper down.
pub open spec fn is_nested_declarator(k: Seq<char>) -> bool {
    k == "init_declarator"@ || k == "pointer_declarator"@ || k == "array_declarator"@
}

/// The declared name found from the `k`-th child of `i` on: the text of the first identifier
/// child (nothing when that text cannot be taken), or the first name found inside a nested
/// declarator child.
pub open spec fn var_name_from(t: SyntaxTreeV, s: Seq<char>, i: int, k: int) -> Option<Seq<char>>
    decreases t.nodes.len() - i, t.children[i].len() - k,
{
    if 0 <= i < t.nodes.len() && 0 <= k < t.children[i].len() {
        let c = t.children[i][k] as int;
        if kind(t, c) == "identifier"@ {
            node_text(t, s, c)
        } else if is_nested_declarator(kind(t, c)) && i < c < t.nodes.len() {
            match var_name_from(t, s, c, 0) {
                Some(n) => Some(n),
                None => var_name_from(t, s, i, k + 1),
            }
        } else {
            var_name_from(t, s, i, k + 1)
        }
    } else {
        None
    }
}

fn has_fn_declarator_exec(t: &SyntaxTree, d: usize) -> (r: bool)
    requires
        t@.wf(),
        d < t@.nodes.len(),
    ensures
        r == has_fn_declarator(t@, d as int),
{
    let ghost tv = t@;
    let kids = &t.children[d];
    let mut k: usize = 0;
    while k < kids.len()
        invariant
            tv == t@,
            tv.wf(),
            d < tv.nodes.len(),
            kids@ == tv.children[d as int],
            k <= kids@.len(),
            forall|j: int|
                0 <= j < k ==> {
                    let c = #[trigger] tv.children[d as int][j] as int;
                    !(kind(tv, c) == "function_declarator"@ || kind(tv, c) == "pointer_declarator"@ && exists|q: int|
                        0 <= q < tv.children[c].len() && kind(tv, #[trigger] tv.children[c][q] as int) == "function_declarator"@)
                },
        decreases kids@.len() - k,
    {
        let c = kids[k];
        proof {
            assert(tv.children[d as int][k as int] == c);
            assert(d < c < tv.sub_end[d as int]);
        }
        if kind_is(t, c, "function_declarator") {
            return true;
        }
        if kind_is(t, c, "pointer_declarator") {
            let gk = &t.children[c];
            let mut q: usize = 0;
            while q < gk.len()
                invariant
                    tv == t@,
                    tv.wf(),
                    c < tv.nodes.len(),
                    d < tv.nodes.len(),
                    k < tv.children[d as int].len(),
                    tv.children[d as int][k as int] == c,
                    kind(tv, c as int) == "pointer_declarator"@,
                    gk@ == tv.children[c as int],
                    q <= gk@.len(),
                    forall|w: int| 0 <= w < q ==> kind(tv, #[trigger] tv.children[c as int][w] as int) != "function_declarator"@,
                decreases gk@.len() - q,
            {
                let g = gk[q];
                proof {
                    assert(tv.children[c as int][q as int] == g);
                    assert(c < g < tv.sub_end[c as int]);
                }
                if kind_is(t, g, "function_declarator") {
                    proof {
                        assert(tv.children[d as int][k as int] == c);
                        assert(tv.children[c as int][q as int] == g);
                    }
                    return true;
                }
                q += 1;
            }
        }
        k += 1;
    }
    false
}

fn is_nested_declarator_exec(t: &SyntaxTree, c: usize) -> (r: bool)
    requires
        c < t@.nodes.len(),
    ensures
        r == is_nested_declarator(kind(t@, c as int)),
{
    kind_is(t, c, "init_declarator") || kind_is(t, c, "pointer_declarator") || kind_is(t, c, "array_declarator")
}

/// The name a declaration node declares (`extract_var_name`).
fn var_name_exec(t: &SyntaxTree, src: &SourceText, i: usize, k: usize) -> (r: Option<String>)
    requires
        t@.wf(),
        src.wf(),
        i < t@.nodes.len(),
    ensures
        r.deep_view() == var_name_from(t@, src.chars@, i as int, k as int),
    decreases t@.nodes.len() - i, t@.children[i as int].len() - k,
{
    let ghost tv = t@;
    if k >= t.children[i].len() {
        return None;
    }
    let c = t.children[i][k];
    proof {
        assert(i < c < tv.sub_end[i as int]);
    }
    if kind_is(t, c, "identifier") {
        return text_of(t, src, c);
    }
    if is_nested_declarator_exec(t, c) {
        match var_name_exec(t, src, c, 0) {
            Some(n) => return Some(n),
            None => {},
        }
    }
    var_name_exec(t, src, i, k + 1)
}

/// The variable declared by the top-level declaration `c`, unless it declares a function or
/// no name is found in it.
pub open spec fn global_at(t: SyntaxTreeV, s: Seq<char>, path: Seq<char>, c: int) -> Option<GlobalVarV> {
    if has_fn_declarator(t, c) {
        None
    } else {
        match var_name_from(t, s, c, 0) {
            Some(name) => Some(
                GlobalVarV {
                    name,
                    decl: trim_spec(text_or_empty(t, s, c)),
                    conditions: Seq::empty(),
                    is_static: has_static(t, s, c),
                    file: path,
                    line: line_no(t.nodes[c].start_row),
                },
            ),
            None => None,
        }
    }
}

/// The variables declared among the first `q` children of the root.
pub open spec fn globals_upto(t: SyntaxTreeV, s: Seq<char>, path: Seq<char>, q: int) -> Seq<GlobalVarV>
    decreases q,
{
    if q <= 0 {
        Seq::empty()
    } else {
        let prev = globals_upto(t, s, path, q - 1);
        let c = t.children[0][q - 1] as int;
        if kind(t, c) == "declaration"@ {
            match global_at(t, s, path, c) {
                Some(g) => prev.push(g),
                None => prev,
            }
        } else {
            prev
        }
    }
}

/// The file-scope variables of a file: the declarations directly under its translation unit
/// that do not declare functions, in order.
pub open spec fn globals_spec(t: SyntaxTreeV, s: Seq<char>, path: Seq<char>) -> Seq<GlobalVarV> {
    if kind(t, 0) == "translation_unit"@ {
        globals_upto(t, s, path, t.children[0].len() as int)
    } else {
        Seq::empty()
    }
}

/// The file-scope variables of the tree, in order.
pub fn globals(t: &SyntaxTree, src: &SourceText, path: &str) -> (r: Vec<GlobalVar>)
    requires
        t@.wf(),
        src.wf(),
    ensures
        r.deep_view() == globals_spec(t@, src.chars@, path@),
{
    let ghost tv = t@;
    let mut out: Vec<GlobalVar> = Vec::new();
    if !kind_is(t, 0, "translation_unit") {
        proof {
            assert(out.deep_view() =~= Seq::<GlobalVarV>::empty());
        }
        return out;
    }
    let kids = &t.children[0];
    let mut q: usize = 0;
    while q < kids.len()
        invariant
            tv == t@,
            tv.wf(),
            src.wf(),
            kids@ == tv.children[0],
            q <= kids@.len(),
            out.deep_view() == globals_upto(tv, src.chars@, path@, q as int),
        decreases kids@.len() - q,
    {
        let c = kids[q];
        let ghost before = out.deep_view();
        proof {
            assert(tv.children[0][q as int] == c);
            assert(0 < c < tv.sub_end[0]);
        }
        if kind_is(t, c, "declaration") && !has_fn_declarator_exec(t, c) {
            match var_name_exec(t, src, c, 0) {
                Some(name) => {
                    let raw = text_or_empty_exec(t, src, c);
                    let g = GlobalVar {
                        name,
                        decl: trim(raw.as_str()),
                        conditions: Vec::new(),
                        is_static: has_static_exec(t, src, c),
                        file: owned(path),
                        line: line_of(t.nodes[c].start_row),
                    };
                    out.push(g);
                    proof {
                        assert(g.conditions.deep_view() =~= Seq::<Seq<char>>::empty());
                        assert(out.deep_view() =~= before.push(g.deep_view()));
                    }
                },
                None => {},
            }
        }
        q += 1;
    }
    out
}

/// A macro's name: at least two characters, all capital ASCII letters, digits or underscores.
pub open spec fn is_macro_name_spec(s: Seq<char>) -> bool {
    s.len() >= 2 && forall|i: int| 0 <= i < s.len() ==> is_macro_char(#[trigger] s[i])
}

pub open spec fn is_macro_char(c: char) -> bool {
    ('A' <= c && c <= 'Z') || ('0' <= c && c <= '9') || c == '_'
}

/// Does `name` look like a macro's name (`FOO_BAR2`)?
pub fn is_macro_name(name: &str) -> (r: bool)
    ensures
        r == is_macro_name_spec(name@),
{
    let cs = chars_of(name);
    if cs.len() < 2 {
        return false;
    }
    let mut i: usize = 0;
    while i < cs.len()
        invariant
            cs@ == name@,
            i <= cs@.len(),
            forall|j: int| 0 <= j < i ==> is_macro_char(#[trigger] cs@[j]),
        decreases cs@.len() - i,
    {
        let c = cs[i];
        if !(('A' <= c && c <= 'Z') || ('0' <= c && c <= '9') || c == '_') {
            return false;
        }
        i += 1;
    }
    true
}

/// The texts of the identifier nodes among `cs`, in order.
pub open spec fn ident_texts(t: SyntaxTreeV, s: Seq<char>, cs: Seq<usize>) -> Seq<Seq<char>>
    decreases cs.len(),
{
    if cs.len() == 0 {
        Seq::empty()
    } else {
        let prev = ident_texts(t, s, cs.drop_last());
        let c = cs.last() as int;
        if kind(t, c) == "identifier"@ {
            match node_text(t, s, c) {
                Some(x) => prev.push(x),
                None => prev,
            }
        } else {
            prev
        }
    }
}

/// The argument list of node `j` when it calls a macro by name.
#[verifier::opaque]
pub open spec fn macro_call_args(t: SyntaxTreeV, s: Seq<char>, j: int) -> Option<int> {
    if kind(t, j) == "call_expression"@ {
        match field_child_of_kind(t, j, "function"@, "identifier"@) {
            Some(f) => match node_text(t, s, f) {
                Some(name) => if is_macro_name_spec(name) {
                    field_child_of_kind(t, j, "arguments"@, "argument_list"@)
                } else {
                    None
                },
                None => None,
            },
            None => None,
        }
    } else {
        None
    }
}

/// The identifiers passed to node `j` when it calls a macro by name.
pub open spec fn macro_args_at(t: SyntaxTreeV, s: Seq<char>, j: int) -> Seq<Seq<char>> {
    match macro_call_args(t, s, j) {
        Some(al) => ident_texts(t, s, t.children[al]),
        None => Seq::empty(),
    }
}

fn macro_call_args_exec(t: &SyntaxTree, src: &SourceText, j: usize) -> (r: Option<usize>)
    requires
        t@.wf(),
        src.wf(),
        j < t@.nodes.len(),
    ensures
        match r {
            Some(al) => macro_call_args(t@, src.chars@, j as int) == Some(al as int) && al < t@.nodes.len(),
            None => macro_call_args(t@, src.chars@, j as int) is None,
        },
{
    proof {
        reveal(macro_call_args);
    }
    if !kind_is(t, j, "call_expression") {
        return None;
    }
    let f = match field_child_of_kind_exec(t, j, "function", "identifier") {
        Some(f) => f,
        None => return None,
    };
    let name = match text_of(t, src, f) {
        Some(x) => x,
        None => return None,
    };
    if !is_macro_name(name.as_str()) {
        return None;
    }
    field_child_of_kind_exec(t, j, "arguments", "argument_list")
}

/// The identifiers passed to macro calls among the first `n` nodes, in order.
pub open spec fn macro_args_upto(t: SyntaxTreeV, s: Seq<char>, n: int) -> Seq<Seq<char>>
    decreases n,
{
    if n <= 0 {
        Seq::empty()
    } else {
        macro_args_upto(t, s, n - 1) + macro_args_at(t, s, n - 1)
    }
}

/// The identifiers passed to macro calls in a file, in order, repeats included.
pub open spec fn macro_args_spec(t: SyntaxTreeV, s: Seq<char>) -> Seq<Seq<char>> {
    macro_args_upto(t, s, t.nodes.len() as int)
}

fn macro_args_at_exec(t: &SyntaxTree, src: &SourceText, j: usize, out: &mut Vec<String>)
    requires
        t@.wf(),
        src.wf(),
        j < t@.nodes.len(),
    ensures
        final(out).deep_view() == old(out).deep_view() + macro_args_at(t@, src.chars@, j as int),
{
    let ghost tv = t@;
    let ghost sv = src.chars@;
    let ghost o0 = out.deep_view();
    proof {
        assert(o0 + Seq::<Seq<char>>::empty() =~= o0);
    }
    let al = match macro_call_args_exec(t, src, j) {
        Some(al) => al,
        None => return,
    };
    let kids = &t.children[al];
    let ghost ch = tv.children[al as int];
    let mut q: usize = 0;
    while q < kids.len()
        invariant
            tv == t@,
            sv == src.chars@,
            tv.wf(),
            src.wf(),
            al < tv.nodes.len(),
            kids@ == ch,
            ch == tv.children[al as int],
            q <= ch.len(),
            out.deep_view() == o0 + ident_texts(tv, sv, ch.take(q as int)),
        decreases ch.len() - q,
    {
        let c = kids[q];
        let ghost o1 = out.deep_view();
        proof {
            assert(ch.take(q + 1).drop_last() =~= ch.take(q as int));
            assert(ch.take(q + 1).last() == c);
            assert(al < c < tv.sub_end[al as int]);
        }
        if kind_is(t, c, "identifier") {
            match text_of(t, src, c) {
                Some(x) => {
                    let ghost xv = x@;
                    out.push(x);
                    proof {
                        assert(out.deep_view() =~= o1.push(xv));
                    }
                },
                None => {},
            }
        }
        q += 1;
    }
    proof {
        assert(ch.take(ch.len() as int) =~= ch);
    }
}

/// The identifiers passed to macro calls in the tree (`FOO(handler)` gives `handler`), in
/// order, repeats included.
pub fn macro_args(t: &SyntaxTree, src: &SourceText) -> (r: Vec<String>)
    requires
        t@.wf(),
        src.wf(),
    ensures
        r.deep_view() == macro_args_spec(t@, src.chars@),
{
    let mut out: Vec<String> = Vec::new();
    let mut j: usize = 0;
    while j < t.nodes.len()
        invariant
            t@.wf(),
            src.wf(),
            j <= t@.nodes.len(),
            out.deep_view() == macro_args_upto(t@, src.chars@, j as int),
        decreases t@.nodes.len() - j,
    {
        macro_args_at_exec(t, src, j, &mut out);
        j += 1;
    }
    out
}

} // verus!
