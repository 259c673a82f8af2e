//! The questions the server answers about an indexed codebase, as plain results.
pub mod annotate;
pub mod annotations;
pub mod get_source;
pub mod includes;
pub mod index;
pub mod query_call_graph;
pub mod search;
pub mod symbol_lookup;
pub mod traverse;

use vstd::prelude::*;

use crate::parser::source::byte_offset;
use crate::text::{chars_of, string_from_chars, trim_chars, trim_spec};

verus! {

broadcast use vstd::seq_lib::group_seq_properties;

/// Space, tab, newline or carriage return.
pub open spec fn is_blank(c: char) -> bool {
    c == ' ' || c == '\t' || c == '\n' || c == '\r'
}

/// The first index from `p` on that is not blank (`s.len()` when there is none).
pub open spec fn skip_blanks(s: Seq<char>, p: int) -> int
    decreases s.len() - p,
{
    if p < s.len() && is_blank(s[p]) {
        skip_blanks(s, p + 1)
    } else {
        p
    }
}

/// The first newline from `p` on (`s.len()` when there is none).
pub open spec fn line_end(s: Seq<char>, p: int) -> int
    decreases s.len() - p,
{
    if p < s.len() && s[p] != '\n' {
        line_end(s, p + 1)
    } else {
        p
    }
}

/// The index of the `*/` that closes a block comment whose text starts at `p`; `None` when
/// the comment is not closed.
pub open spec fn block_close(s: Seq<char>, p: int) -> Option<int>
    decreases s.len() - p,
{
    if p + 1 < s.len() {
        if s[p] == '*' && s[p + 1] == '/' {
            Some(p)
        } else {
            block_close(s, p + 1)
        }
    } else {
        None
    }
}

/// The index of the first character from `p` on that is neither blank nor part of a `//` or
/// `/* */` comment; `None` when an unclosed block comment is met.
pub open spec fn skip_comments_from(s: Seq<char>, p: int) -> Option<int>
    decreases s.len() - p,
{
    if p < 0 {
        None
    } else {
        let q = skip_blanks(s, p);
        if q + 1 >= s.len() {
            Some(q)
        } else if s[q] == '/' && s[q + 1] == '/' {
            let e = line_end(s, q);
            if p < e <= s.len() {
                skip_comments_from(s, e)
            } else {
                None
            }
        } else if s[q] == '/' && s[q + 1] == '*' {
            match block_close(s, q + 2) {
                Some(c) => if p < c + 2 <= s.len() {
                    skip_comments_from(s, c + 2)
                } else {
                    None
                },
                None => None,
            }
        } else {
            Some(q)
        }
    }
}

proof fn lemma_skip_blanks_bounds(s: Seq<char>, p: int)
    requires
        0 <= p <= s.len(),
    ensures
        p <= skip_blanks(s, p) <= s.len(),
    decreases s.len() - p,
{
    if p < s.len() && is_blank(s[p]) {
        lemma_skip_blanks_bounds(s, p + 1);
    }
}

proof fn lemma_line_end_bounds(s: Seq<char>, p: int)
    requires
        0 <= p <= s.len(),
    ensures
        p <= line_end(s, p) <= s.len(),
    decreases s.len() - p,
{
    if p < s.len() && s[p] != '\n' {
        lemma_line_end_bounds(s, p + 1);
    }
}

proof fn lemma_block_close_bounds(s: Seq<char>, p: int)
    requires
        0 <= p,
    ensures
        block_close(s, p) matches Some(c) ==> p <= c && c + 1 < s.len(),
    decreases s.len() - p,
{
    if p + 1 < s.len() && !(s[p] == '*' && s[p + 1] == '/') {
        lemma_block_close_bounds(s, p + 1);
    }
}

/// The index of the first character of `s` that is neither blank nor part of a leading comment.
pub fn leading_comments_end(s: &Vec<char>) -> (r: usize)
    requires
        skip_comments_from(s@, 0) is Some,
    ensures
        skip_comments_from(s@, 0) == Some(r as int),
        r <= s@.len(),
{
    let n = s.len();
    let mut pos: usize = 0;
    loop
        invariant
            n == s@.len(),
            pos <= n,
            skip_comments_from(s@, pos as int) == skip_comments_from(s@, 0),
            skip_comments_from(s@, 0) is Some,
        decreases n - pos,
    {
        let start = pos;
        while pos < n && (s[pos] == ' ' || s[pos] == '\t' || s[pos] == '\n' || s[pos] == '\r')
            invariant
                n == s@.len(),
                start <= pos <= n,
                skip_blanks(s@, start as int) == skip_blanks(s@, pos as int),
            decreases n - pos,
        {
            pos += 1;
        }
        proof {
            assert(skip_blanks(s@, pos as int) == pos);
        }
        if n - pos <= 1 {
            return pos;
        }
        if s[pos] == '/' && s[pos + 1] == '/' {
            let q = pos;
            proof {
                lemma_line_end_bounds(s@, q + 1);
            }
            while pos < n && s[pos] != '\n'
                invariant
                    n == s@.len(),
                    q <= pos <= n,
                    line_end(s@, q as int) == line_end(s@, pos as int),
                decreases n - pos,
            {
                pos += 1;
            }
            proof {
                assert(line_end(s@, pos as int) == pos);
            }
        } else if s[pos] == '/' && s[pos + 1] == '*' {
            let q = pos;
            pos += 2;
            while n - pos > 1 && !(s[pos] == '*' && s[pos + 1] == '/')
                invariant
                    n == s@.len(),
                    q + 2 <= pos <= n,
                    block_close(s@, q + 2) == block_close(s@, pos as int),
                decreases n - pos,
            {
                pos += 1;
            }
            proof {
                lemma_block_close_bounds(s@, q + 2);
            }
            pos += 2;
        } else {
            return pos;
        }
    }
}

/// Are the leading comments of `source` closed (so that its signature can be taken)?
pub fn comments_closed(source: &str) -> (r: bool)
    ensures
        r == (skip_comments_from(source@, 0) is Some),
{
    let s = chars_of(source);
    let n = s.len();
    let mut pos: usize = 0;
    loop
        invariant
            s@ == source@,
            n == s@.len(),
            pos <= n,
            skip_comments_from(s@, pos as int) == skip_comments_from(s@, 0),
        decreases n - pos,
    {
        let start = pos;
        while pos < n && (s[pos] == ' ' || s[pos] == '\t' || s[pos] == '\n' || s[pos] == '\r')
            invariant
                n == s@.len(),
                start <= pos <= n,
                skip_blanks(s@, start as int) == skip_blanks(s@, pos as int),
            decreases n - pos,
        {
            pos += 1;
        }
        proof {
            assert(skip_blanks(s@, pos as int) == pos);
        }
        if n - pos <= 1 {
            return true;
        }
        if s[pos] == '/' && s[pos + 1] == '/' {
            let q = pos;
            proof {
                lemma_line_end_bounds(s@, q + 1);
            }
            while pos < n && s[pos] != '\n'
                invariant
                    n == s@.len(),
                    q <= pos <= n,
                    line_end(s@, q as int) == line_end(s@, pos as int),
                decreases n - pos,
            {
                pos += 1;
            }
            proof {
                assert(line_end(s@, pos as int) == pos);
            }
        } else if s[pos] == '/' && s[pos + 1] == '*' {
            let q = pos;
            pos += 2;
            while n - pos > 1 && !(s[pos] == '*' && s[pos + 1] == '/')
                invariant
                    n == s@.len(),
                    q + 2 <= pos <= n,
                    block_close(s@, q + 2) == block_close(s@, pos as int),
                decreases n - pos,
            {
                pos += 1;
            }
            proof {
                lemma_block_close_bounds(s@, q + 2);
            }
            if n - pos <= 1 {
                return false;
            }
            pos += 2;
        } else {
            return true;
        }
    }
}

/// Where the leading blanks and comments of `s` end: the first character after them, or the end
/// of the text when a block comment is never closed.
pub open spec fn comments_end(s: Seq<char>) -> int {
    match skip_comments_from(s, 0) {
        Some(k) => k,
        None => s.len() as int,
    }
}

/// The byte offset of the first character of `source` that is neither blank nor part of a
/// leading `//` or `/* */` comment; the byte length of `source` when a leading block comment is
/// never closed.
pub fn skip_leading_comments(source: &str) -> (pos: usize)
    requires
        byte_offset(source@, source@.len() as int) <= usize::MAX,
    ensures
        pos == byte_offset(source@, comments_end(source@)),
        pos <= byte_offset(source@, source@.len() as int),
{
    let cs = chars_of(source);
    let k = if comments_closed(source) {
        leading_comments_end(&cs)
    } else {
        cs.len()
    };
    let mut off: usize = 0;
    let mut i: usize = 0;
    while i < k
        invariant
            cs@ == source@,
            k <= cs@.len(),
            i <= k,
            off == byte_offset(cs@, i as int),
            byte_offset(cs@, cs@.len() as int) <= usize::MAX,
        decreases k - i,
    {
        proof {
            crate::parser::source::lemma_offset_monotone(cs@, i + 1, cs@.len() as int);
        }
        off = off + crate::parser::source::utf8_len_exec(cs[i]);
        i += 1;
    }
    proof {
        crate::parser::source::lemma_offset_monotone(cs@, k as int, cs@.len() as int);
    }
    off
}

/// The index of the first `c` in `s`, or `s.len()`.
pub open spec fn first_pos(s: Seq<char>, c: char) -> int
    decreases s.len(),
{
    if s.len() == 0 {
        0
    } else if s[0] == c {
        0
    } else {
        1 + first_pos(s.drop_first(), c)
    }
}

/// The index of the first `{` in `s`, or `s.len()`.
pub open spec fn brace_pos(s: Seq<char>) -> int {
    first_pos(s, '{')
}

/// The signature of a function from its source: what comes before the first `{` once the
/// leading blanks and comments are skipped, trimmed; empty when a leading comment is never
/// closed (it runs to the end of the text).
pub open spec fn fn_signature(source: Seq<char>) -> Seq<char> {
    match skip_comments_from(source, 0) {
        Some(k) => {
            let body = source.skip(k);
            trim_spec(body.take(brace_pos(body)))
        },
        None => Seq::empty(),
    }
}

pub proof fn lemma_first_pos(s: Seq<char>, c: char, i: int)
    requires
        0 <= i <= s.len(),
        forall|j: int| 0 <= j < i ==> s[j] != c,
        i == s.len() || s[i] == c,
    ensures
        first_pos(s, c) == i,
    decreases i,
{
    if i > 0 {
        assert forall|j: int| 0 <= j < i - 1 implies s.drop_first()[j] != c by {
            assert(s.drop_first()[j] == s[j + 1]);
        }
        lemma_first_pos(s.drop_first(), c, i - 1);
    }
}

/// The signature of a function: everything before the first `{` once the leading blanks and
/// comments are skipped, trimmed; empty when a leading comment is never closed.
pub fn extract_fn_signature(source: &str) -> (r: String)
    ensures
        r@ == fn_signature(source@),
{
    if !comments_closed(source) {
        return String::new();
    }
    let cs = chars_of(source);
    let k = leading_comments_end(&cs);
    let mut body: Vec<char> = Vec::new();
    let mut i = k;
    while i < cs.len() && cs[i] != '{'
        invariant
            k <= i <= cs@.len(),
            body@ == cs@.subrange(k as int, i as int),
            forall|j: int| k <= j < i ==> cs@[j] != '{',
        decreases cs@.len() - i,
    {
        body.push(cs[i]);
        i += 1;
    }
    proof {
        let b = cs@.skip(k as int);
        assert forall|j: int| 0 <= j < i - k implies b[j] != '{' by {
            assert(b[j] == cs@[k + j]);
        }
        if i < cs@.len() {
            assert(b[i - k] == cs@[i as int]);
        }
        lemma_first_pos(b, '{', i - k);
        assert(body@ =~= b.take(i - k));
    }
    let t = trim_chars(&body);
    string_from_chars(t.as_slice())
}

} // verus!
