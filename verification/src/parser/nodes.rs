//! Questions asked of single nodes of a syntax tree: kind, fields, text, siblings, the
//! comments just before a node and the preprocessor conditions around it.
use vstd::prelude::*;

use crate::parser::source::{byte_slice, SourceText};
use crate::parser::syntax::{SyntaxTree, SyntaxTreeV};
use crate::text::{first_line, first_line_spec, push_char, push_str, str_eq, string_from_chars, trim_chars, trim_spec};

verus! {

broadcast use vstd::seq_lib::group_seq_properties;

/// The text of node `i`, when its byte span lies on character boundaries.
#[verifier::opaque]
pub open spec fn node_text(t: SyntaxTreeV, s: Seq<char>, i: int) -> Option<Seq<char>> {
    byte_slice(s, t.nodes[i].start_byte as int, t.nodes[i].end_byte as int)
}

/// The kind of node `i`.
pub open spec fn kind(t: SyntaxTreeV, i: int) -> Seq<char> {
    t.nodes[i].kind
}

/// The 1-based line of a zero-based row (the last line number for rows past it).
pub open spec fn line_no(row: usize) -> u32 {
    if row < 0xFFFF_FFFF {
        (row + 1) as u32
    } else {
        0xFFFF_FFFF
    }
}

pub fn line_of(row: usize) -> (l: u32)
    ensures
        l == line_no(row),
{
    if row < 0xFFFF_FFFF {
        (row + 1) as u32
    } else {
        0xFFFF_FFFF
    }
}

/// The text of node `i`.
pub fn text_of(t: &SyntaxTree, src: &SourceText, i: usize) -> (r: Option<String>)
    requires
        t@.wf(),
        src.wf(),
        i < t@.nodes.len(),
    ensures
        r.deep_view() == node_text(t@, src.chars@, i as int),
{
    proof {
        reveal(node_text);
    }
    src.slice(t.nodes[i].start_byte, t.nodes[i].end_byte)
}

/// Is node `i` of kind `k`?
pub fn kind_is(t: &SyntaxTree, i: usize, k: &str) -> (r: bool)
    requires
        i < t@.nodes.len(),
    ensures
        r == (kind(t@, i as int) == k@),
{
    str_eq(t.nodes[i].kind.as_str(), k)
}

/// Node `c` stands in its parent under field `f`.
pub open spec fn has_field(t: SyntaxTreeV, c: int, f: Seq<char>) -> bool {
    t.nodes[c].field == Some(f)
}

/// The first child of `i` under field `f`.
#[verifier::opaque]
pub open spec fn field_child(t: SyntaxTreeV, i: int, f: Seq<char>) -> Option<int> {
    let ch = t.children[i];
    if exists|k: int| 0 <= k < ch.len() && has_field(t, ch[k] as int, f) {
        let k = choose|k: int|
            0 <= k < ch.len() && has_field(t, ch[k] as int, f) && forall|j: int| 0 <= j < k ==> !has_field(t, #[trigger] ch[j] as int, f);
        Some(ch[k] as int)
    } else {
        None
    }
}

/// The first child of `i` under field `f`, when it is of kind `k`.
pub open spec fn field_child_of_kind(t: SyntaxTreeV, i: int, f: Seq<char>, k: Seq<char>) -> Option<int> {
    match field_child(t, i, f) {
        Some(c) => if kind(t, c) == k {
            Some(c)
        } else {
            None
        },
        None => None,
    }
}

pub fn field_child_exec(t: &SyntaxTree, i: usize, f: &str) -> (r: Option<usize>)
    requires
        t@.wf(),
        i < t@.nodes.len(),
    ensures
        match r {
            Some(c) => field_child(t@, i as int, f@) == Some(c as int) && i < c < t@.nodes.len(),
            None => field_child(t@, i as int, f@) is None,
        },
{
    proof {
        reveal(field_child);
    }
    let ghost tv = t@;
    let ghost ch = tv.children[i as int];
    let kids = &t.children[i];
    proof {
        assert(kids@ == ch);
    }
    let mut k: usize = 0;
    while k < kids.len()
        invariant
            tv == t@,
            kids@ == ch,
            ch == tv.children[i as int],
            tv.wf(),
            i < tv.nodes.len(),
            k <= ch.len(),
            forall|j: int| 0 <= j < k ==> !has_field(tv, #[trigger] ch[j] as int, f@),
        decreases ch.len() - k,
    {
        let c = kids[k];
        proof {
            assert(ch[k as int] == c);
            assert(i < c < tv.sub_end[i as int]);
        }
        let hit = match &t.nodes[c].field {
            Some(x) => str_eq(x.as_str(), f),
            None => false,
        };
        if hit {
            proof {
                reveal(field_child);
                assert(has_field(tv, ch[k as int] as int, f@));
                let q = choose|q: int|
                    0 <= q < ch.len() && has_field(tv, ch[q] as int, f@) && forall|j: int| 0 <= j < q ==> !has_field(tv, #[trigger] ch[j] as int, f@);
                if q < k {
                } else if q > k {
                    assert(!has_field(tv, ch[k as int] as int, f@));
                }
            }
            return Some(c);
        }
        k += 1;
    }
    None
}

pub fn field_child_of_kind_exec(t: &SyntaxTree, i: usize, f: &str, k: &str) -> (r: Option<usize>)
    requires
        t@.wf(),
        i < t@.nodes.len(),
    ensures
        match r {
            Some(c) => field_child_of_kind(t@, i as int, f@, k@) == Some(c as int) && i < c < t@.nodes.len(),
            None => field_child_of_kind(t@, i as int, f@, k@) is None,
        },
{
    match field_child_exec(t, i, f) {
        Some(c) => if kind_is(t, c, k) {
            Some(c)
        } else {
            None
        },
        None => None,
    }
}

/// The sibling just before `x` among its parent's children.
#[verifier::opaque]
pub open spec fn prev_sibling(t: SyntaxTreeV, x: int) -> Option<int> {
    match t.nodes[x].parent {
        Some(p) => {
            let ch = t.children[p as int];
            if exists|q: int| 1 <= q < ch.len() && ch[q] == x {
                Some(ch[(choose|q: int| 1 <= q < ch.len() && ch[q] == x) - 1] as int)
            } else {
                None
            }
        },
        None => None,
    }
}

pub fn prev_sibling_exec(t: &SyntaxTree, x: usize) -> (r: Option<usize>)
    requires
        t@.wf(),
        x < t@.nodes.len(),
    ensures
        match r {
            Some(p) => prev_sibling(t@, x as int) == Some(p as int) && p < x,
            None => prev_sibling(t@, x as int) is None,
        },
{
    proof {
        reveal(prev_sibling);
    }
    let ghost tv = t@;
    match t.nodes[x].parent {
        Some(p) => {
            proof {
                assert(crate::parser::syntax::parent_ok(tv, x as int));
            }
            let kids = &t.children[p];
            let ghost ch = tv.children[p as int];
            proof {
                assert(kids@ == ch);
            }
            let mut q: usize = 1;
            while q < kids.len()
                invariant
                    tv == t@,
                    tv.wf(),
                    p < tv.nodes.len(),
                    kids@ == ch,
                    ch == tv.children[p as int],
                    1 <= q,
                    forall|j: int| 1 <= j < q && j < ch.len() ==> ch[j] != x,
                decreases ch.len() - q,
            {
                if kids[q] == x {
                    proof {
                        reveal(prev_sibling);
                        let w = choose|w: int| 1 <= w < ch.len() && ch[w] == x;
                        if w != q {
                            if w < q {
                                assert(ch[w] < ch[q as int]);
                            } else {
                                assert(ch[q as int] < ch[w]);
                            }
                        }
                        assert(ch[q - 1] < ch[q as int]);
                        assert(ch[q - 1] < tv.nodes.len()) by {
                            let c = ch[q - 1];
                            assert(p < c < tv.sub_end[p as int]);
                        }
                    }
                    return Some(kids[q - 1]);
                }
                q += 1;
            }
            None
        },
        None => None,
    }
}

/// The comments just before node `x`, earliest first: siblings of kind `comment`, each on the
/// line before the next one or on the same line, with no blank line between.
pub open spec fn comment_run(t: SyntaxTreeV, x: int) -> Seq<int>
    decreases x,
{
    if x < 0 {
        Seq::empty()
    } else {
        match prev_sibling(t, x) {
            Some(p) => if 0 <= p < x && kind(t, p) == "comment"@ && t.nodes[x].start_row <= t.nodes[p].end_row + 1 {
                comment_run(t, p).push(p)
            } else {
                Seq::empty()
            },
            None => Seq::empty(),
        }
    }
}

/// The comments just before node `x`.
pub fn comment_run_exec(t: &SyntaxTree, x: usize) -> (r: Vec<usize>)
    requires
        t@.wf(),
        x < t@.nodes.len(),
    ensures
        r@.map_values(|i: usize| i as int) == comment_run(t@, x as int),
        forall|k: int| 0 <= k < r@.len() ==> #[trigger] r@[k] < t@.nodes.len(),
{
    let ghost tv = t@;
    let mut found: Vec<usize> = Vec::new();
    let mut cur = x;
    loop
        invariant
            tv == t@,
            tv.wf(),
            cur < tv.nodes.len(),
            comment_run(tv, x as int) == comment_run(tv, cur as int) + found@.map_values(|i: usize| i as int).reverse(),
            forall|k: int| 0 <= k < found@.len() ==> #[trigger] found@[k] < tv.nodes.len(),
        ensures
            comment_run(tv, x as int) == found@.map_values(|i: usize| i as int).reverse(),
            forall|k: int| 0 <= k < found@.len() ==> #[trigger] found@[k] < tv.nodes.len(),
        decreases cur,
    {
        match prev_sibling_exec(t, cur) {
            Some(p) => {
                let adjacent = t.nodes[cur].start_row == 0 || t.nodes[cur].start_row - 1 <= t.nodes[p].end_row;
                if kind_is(t, p, "comment") && adjacent {
                    proof {
                        reveal_strlit("comment");
                        let fv = found@.map_values(|i: usize| i as int);
                        assert(comment_run(tv, cur as int) == comment_run(tv, p as int).push(p as int));
                        assert(found@.push(p).map_values(|i: usize| i as int) =~= fv.push(p as int));
                        assert(fv.push(p as int).reverse() =~= seq![p as int] + fv.reverse());
                        assert(comment_run(tv, p as int).push(p as int) + fv.reverse() =~= comment_run(tv, p as int) + (
                        seq![p as int] + fv.reverse()));
                    }
                    found.push(p);
                    cur = p;
                } else {
                    proof {
                        reveal_strlit("comment");
                        assert(comment_run(tv, cur as int) =~= Seq::<int>::empty());
                        assert(Seq::<int>::empty() + found@.map_values(|i: usize| i as int).reverse()
                            =~= found@.map_values(|i: usize| i as int).reverse());
                    }
                    break;
                }
            },
            None => {
                proof {
                    assert(comment_run(tv, cur as int) =~= Seq::<int>::empty());
                    assert(Seq::<int>::empty() + found@.map_values(|i: usize| i as int).reverse()
                        =~= found@.map_values(|i: usize| i as int).reverse());
                }
                break;
            },
        }
    }
    let mut r: Vec<usize> = Vec::new();
    let mut k: usize = found.len();
    while k > 0
        invariant
            k <= found@.len(),
            r@.len() == found@.len() - k,
            forall|j: int| 0 <= j < r@.len() ==> #[trigger] r@[j] == found@[found@.len() - 1 - j],
            forall|j: int| 0 <= j < found@.len() ==> #[trigger] found@[j] < tv.nodes.len(),
        decreases k,
    {
        k -= 1;
        r.push(found[k]);
    }
    assert(r@.map_values(|i: usize| i as int) =~= found@.map_values(|i: usize| i as int).reverse());
    r
}

/// The comments of a run joined as the source carries them, each followed by a newline; a
/// comment whose text cannot be taken is left out.
pub open spec fn comment_prefix(t: SyntaxTreeV, s: Seq<char>, run: Seq<int>) -> Seq<char>
    decreases run.len(),
{
    if run.len() == 0 {
        Seq::empty()
    } else {
        comment_prefix(t, s, run.drop_last()) + match node_text(t, s, run.last()) {
            Some(x) => x.push('\n'),
            None => Seq::empty(),
        }
    }
}

pub fn comment_prefix_exec(t: &SyntaxTree, src: &SourceText, run: &Vec<usize>) -> (r: String)
    requires
        t@.wf(),
        src.wf(),
        forall|k: int| 0 <= k < run@.len() ==> #[trigger] run@[k] < t@.nodes.len(),
    ensures
        r@ == comment_prefix(t@, src.chars@, run@.map_values(|i: usize| i as int)),
{
    let ghost rv = run@.map_values(|i: usize| i as int);
    let mut r = String::new();
    let mut k: usize = 0;
    while k < run.len()
        invariant
            t@.wf(),
            src.wf(),
            rv == run@.map_values(|i: usize| i as int),
            forall|j: int| 0 <= j < run@.len() ==> #[trigger] run@[j] < t@.nodes.len(),
            k <= run@.len(),
            r@ == comment_prefix(t@, src.chars@, rv.take(k as int)),
        decreases run@.len() - k,
    {
        proof {
            assert(rv.take(k + 1).drop_last() =~= rv.take(k as int));
            assert(rv.take(k + 1).last() == run@[k as int] as int);
        }
        match text_of(t, src, run[k]) {
            Some(x) => {
                push_str(&mut r, x.as_str());
                push_char(&mut r, '\n');
            },
            None => {},
        }
        k += 1;
        proof {
            assert(r@ =~= comment_prefix(t@, src.chars@, rv.take(k as int)));
        }
    }
    assert(rv.take(run@.len() as int) =~= rv);
    r
}

/// A kind of node that opens a preprocessor branch.
pub open spec fn is_cond_kind(k: Seq<char>) -> bool {
    "preproc_if"@.is_prefix_of(k) || k == "preproc_else"@ || k == "preproc_elif"@
}

/// The condition line node `p` contributes: the first line of its text, trimmed.
pub open spec fn cond_line(t: SyntaxTreeV, s: Seq<char>, p: int) -> Option<Seq<char>> {
    if is_cond_kind(kind(t, p)) {
        match node_text(t, s, p) {
            Some(x) => if x.len() > 0 {
                Some(trim_spec(first_line_spec(x)))
            } else {
                None
            },
            None => None,
        }
    } else {
        None
    }
}

pub open spec fn opt_rank(x: Option<usize>) -> nat {
    match x {
        Some(p) => p as nat + 1,
        None => 0,
    }
}

/// The condition lines of `x` and its ancestors, innermost first.
pub open spec fn cond_chain(t: SyntaxTreeV, s: Seq<char>, x: Option<usize>) -> Seq<Seq<char>>
    decreases opt_rank(x),
{
    match x {
        Some(p) => if p < t.nodes.len() && (t.nodes[p as int].parent is None || t.nodes[p as int].parent->0 < p) {
            let rest = cond_chain(t, s, t.nodes[p as int].parent);
            match cond_line(t, s, p as int) {
                Some(l) => seq![l] + rest,
                None => rest,
            }
        } else {
            Seq::empty()
        },
        None => Seq::empty(),
    }
}

/// The preprocessor conditions around node `i`, outermost first.
pub open spec fn conditions_of(t: SyntaxTreeV, s: Seq<char>, i: int) -> Seq<Seq<char>> {
    cond_chain(t, s, t.nodes[i].parent).reverse()
}

fn is_cond_kind_exec(k: &str) -> (r: bool)
    ensures
        r == is_cond_kind(k@),
{
    let c = crate::text::chars_of(k);
    let p = crate::text::chars_of("preproc_if");
    let mut pre = p.len() <= c.len();
    let mut i: usize = 0;
    while pre && i < p.len()
        invariant
            p@ == "preproc_if"@,
            c@ == k@,
            pre ==> p@.len() <= c@.len(),
            i <= p@.len(),
            pre ==> forall|j: int| 0 <= j < i ==> c@[j] == p@[j],
            !pre ==> !"preproc_if"@.is_prefix_of(k@),
        decreases p@.len() - i,
    {
        if c[i] != p[i] {
            pre = false;
            proof {
                assert(k@.subrange(0, p@.len() as int)[i as int] != p@[i as int]);
            }
        }
        i += 1;
    }
    proof {
        if pre {
            assert(k@.subrange(0, p@.len() as int) =~= p@);
        }
    }
    pre || str_eq(k, "preproc_else") || str_eq(k, "preproc_elif")
}

fn cond_line_exec(t: &SyntaxTree, src: &SourceText, p: usize) -> (r: Option<String>)
    requires
        t@.wf(),
        src.wf(),
        p < t@.nodes.len(),
    ensures
        r.deep_view() == cond_line(t@, src.chars@, p as int),
{
    if is_cond_kind_exec(t.nodes[p].kind.as_str()) {
        match text_of(t, src, p) {
            Some(x) => {
                let cs = crate::text::chars_of(x.as_str());
                if cs.len() > 0 {
                    let l = first_line(&cs);
                    let tl = trim_chars(&l);
                    Some(string_from_chars(tl.as_slice()))
                } else {
                    None
                }
            },
            None => None,
        }
    } else {
        None
    }
}

/// The preprocessor conditions around node `i` (`#ifdef X`, `#else`, ...), outermost first.
pub fn extract_conditions(t: &SyntaxTree, src: &SourceText, i: usize) -> (r: Vec<String>)
    requires
        t@.wf(),
        src.wf(),
        i < t@.nodes.len(),
    ensures
        r.deep_view() == conditions_of(t@, src.chars@, i as int),
{
    let ghost tv = t@;
    let ghost s = src.chars@;
    let mut up: Vec<String> = Vec::new();
    let mut cur = t.nodes[i].parent;
    proof {
        assert(crate::parser::syntax::parent_ok(tv, i as int));
    }
    while cur.is_some()
        invariant
            tv == t@,
            s == src.chars@,
            tv.wf(),
            src.wf(),
            cur matches Some(p) ==> p < tv.nodes.len(),
            cond_chain(tv, s, tv.nodes[i as int].parent) == up.deep_view() + cond_chain(tv, s, cur),
        decreases opt_rank(cur),
    {
        let p = cur.unwrap();
        proof {
            assert(crate::parser::syntax::parent_ok(tv, p as int));
        }
        let ghost before = up.deep_view();
        match cond_line_exec(t, src, p) {
            Some(l) => {
                let ghost lv = l@;
                up.push(l);
                proof {
                    assert(up.deep_view() =~= before.push(lv));
                    assert(before.push(lv) + cond_chain(tv, s, tv.nodes[p as int].parent) =~= before + (seq![lv]
                        + cond_chain(tv, s, tv.nodes[p as int].parent)));
                }
            },
            None => {},
        }
        cur = t.nodes[p].parent;
    }
    proof {
        assert(up.deep_view() + Seq::<Seq<char>>::empty() =~= up.deep_view());
    }
    let mut r: Vec<String> = Vec::new();
    let mut k: usize = up.len();
    while k > 0
        invariant
            k <= up@.len(),
            r@.len() == up@.len() - k,
            forall|j: int| 0 <= j < r@.len() ==> #[trigger] r.deep_view()[j] == up.deep_view()[up@.len() - 1 - j],
        decreases k,
    {
        k -= 1;
        let ghost before = r.deep_view();
        r.push(up[k].clone());
        proof {
            assert(r.deep_view() =~= before.push(up.deep_view()[k as int]));
        }
    }
    assert(r.deep_view() =~= up.deep_view().reverse());
    r
}

/// A definition directly inside a preprocessor branch (`#if...`, `#ifdef`, `#ifndef`, `#elif`
/// or `#else`) has that branch's first line, trimmed, as its last (innermost) condition; so a
/// definition in an `#else` branch is reported under `#else`.
pub proof fn lemma_branch_line_is_innermost_condition(t: SyntaxTreeV, s: Seq<char>, i: int)
    requires
        t.wf(),
        0 <= i < t.nodes.len(),
        t.nodes[i].parent is Some,
        ({
            let k = t.nodes[t.nodes[i].parent->0 as int].kind;
            k == "preproc_else"@ || k == "preproc_elif"@ || "preproc_if"@.is_prefix_of(k)
        }),
        node_text(t, s, t.nodes[i].parent->0 as int) matches Some(x) && x.len() > 0,
    ensures
        conditions_of(t, s, i).len() >= 1,
        conditions_of(t, s, i).last() == trim_spec(first_line_spec(node_text(t, s, t.nodes[i].parent->0 as int)->0)),
{
    reveal_strlit("preproc_else");
    reveal_strlit("preproc_elif");
    reveal_strlit("preproc_if");
    let p = t.nodes[i].parent->0;
    assert(crate::parser::syntax::parent_ok(t, i));
    assert(crate::parser::syntax::parent_ok(t, p as int));
    assert(is_cond_kind(kind(t, p as int)));
    let l = trim_spec(first_line_spec(node_text(t, s, p as int)->0));
    assert(cond_line(t, s, p as int) == Some(l));
    let rest = cond_chain(t, s, t.nodes[p as int].parent);
    assert(cond_chain(t, s, Some(p)) == seq![l] + rest);
    let c = seq![l] + rest;
    assert(c.reverse().len() == c.len());
    assert(c.reverse()[c.len() - 1] == c[0]);
}

/// The conditions of a node are those of its parent, followed by the parent's own first line
/// (trimmed) when the parent is a preprocessor branch (`#if...`, `#ifdef`, `#ifndef`, `#elif`,
/// `#else`) with text; so every enclosing branch contributes its line, outermost first, and
/// the root has none.
pub proof fn lemma_conditions_follow_parent(t: SyntaxTreeV, s: Seq<char>, i: int)
    requires
        t.wf(),
        0 <= i < t.nodes.len(),
    ensures
        t.nodes[i].parent is None ==> conditions_of(t, s, i).len() == 0,
        t.nodes[i].parent is Some ==> ({
            let p = t.nodes[i].parent->0 as int;
            let k = t.nodes[p].kind;
            let branch = k == "preproc_else"@ || k == "preproc_elif"@ || "preproc_if"@.is_prefix_of(k);
            &&& branch && node_text(t, s, p) is Some && node_text(t, s, p)->0.len() > 0
                ==> conditions_of(t, s, i) == conditions_of(t, s, p).push(
                trim_spec(first_line_spec(node_text(t, s, p)->0)),
            )
            &&& !branch ==> conditions_of(t, s, i) == conditions_of(t, s, p)
            &&& node_text(t, s, p) is None || node_text(t, s, p)->0.len() == 0 ==> conditions_of(
                t,
                s,
                i,
            ) == conditions_of(t, s, p)
        }),
{
    reveal_strlit("preproc_else");
    reveal_strlit("preproc_elif");
    reveal_strlit("preproc_if");
    assert(crate::parser::syntax::parent_ok(t, i));
    if let Some(p) = t.nodes[i].parent {
        assert(crate::parser::syntax::parent_ok(t, p as int));
        let rest = cond_chain(t, s, t.nodes[p as int].parent);
        match cond_line(t, s, p as int) {
            Some(l) => {
                assert(cond_chain(t, s, Some(p)) == seq![l] + rest);
                assert((seq![l] + rest).reverse() =~= rest.reverse().push(l));
            },
            None => {
                assert(cond_chain(t, s, Some(p)) == rest);
            },
        }
    }
}

/// Node `d` has a child `static` storage class specifier.
#[verifier::opaque]
pub open spec fn has_static(t: SyntaxTreeV, s: Seq<char>, d: int) -> bool {
    exists|k: int|
        0 <= k < t.children[d].len() && kind(t, #[trigger] t.children[d][k] as int) == "storage_class_specifier"@
            && node_text(t, s, t.children[d][k] as int) == Some("static"@)
}

pub fn has_static_exec(t: &SyntaxTree, src: &SourceText, d: usize) -> (r: bool)
    requires
        t@.wf(),
        src.wf(),
        d < t@.nodes.len(),
    ensures
        r == has_static(t@, src.chars@, d as int),
{
    proof {
        reveal(has_static);
    }
    let ghost tv = t@;
    let kids = &t.children[d];
    let mut k: usize = 0;
    while k < kids.len()
        invariant
            tv == t@,
            tv.wf(),
            src.wf(),
            d < tv.nodes.len(),
            kids@ == tv.children[d as int],
            k <= kids@.len(),
            forall|j: int|
                0 <= j < k ==> !(kind(tv, #[trigger] tv.children[d as int][j] as int) == "storage_class_specifier"@
                    && node_text(tv, src.chars@, tv.children[d as int][j] as int) == Some("static"@)),
        decreases kids@.len() - k,
    {
        let c = kids[k];
        proof {
            assert(tv.children[d as int][k as int] == c);
            assert(d < c < tv.sub_end[d as int]);
        }
        if kind_is(t, c, "storage_class_specifier") {
            match text_of(t, src, c) {
                Some(x) => {
                    if str_eq(x.as_str(), "static") {
                        proof {
                            reveal(has_static);
                        }
                        return true;
                    }
                },
                None => {},
            }
        }
        k += 1;
    }
    false
}

} // verus!
