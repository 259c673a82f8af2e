//! Text renderings of the graph queries: each tool takes the graph and its parameters and
//! answers with the text the service sends back.
use vstd::prelude::*;

use crate::graph::types::{FunctionNode, FunctionNodeV};
use crate::order::{sort_strings, sorted_perm};

use crate::text::{decimal, join, join_strings, owned, push_decimal, push_str};

pub mod analysis;
pub mod functions;
pub mod globals;
pub mod includes;
pub mod symbols;
pub mod traverse;
pub mod types;

verus! {

/// ` [static]` for a file-private definition, nothing otherwise.
pub open spec fn static_tag(is_static: bool) -> Seq<char> {
    if is_static { " [static]"@ } else { Seq::empty() }
}

/// `name [static] @ file:line`: one function on one line.
pub open spec fn fmt_fn_spec(n: FunctionNodeV) -> Seq<char> {
    n.name + static_tag(n.is_static) + " @ "@ + n.file + ":"@ + decimal(n.line as nat)
}

/// Renders one function as `name [static] @ file:line`.
pub fn fmt_fn(n: &FunctionNode) -> (r: String)
    ensures
        r@ == fmt_fn_spec(n.deep_view()),
{
    let mut s = owned(n.name.as_str());
    if n.is_static {
        push_str(&mut s, " [static]");
    }
    push_str(&mut s, " @ ");
    push_str(&mut s, n.file.as_str());
    push_str(&mut s, ":");
    push_decimal(&mut s, n.line as u64);
    s
}

/// Renders each function with `fmt_fn`, in order.
pub(crate) fn fmt_fns(found: &Vec<&FunctionNode>) -> (r: Vec<String>)
    ensures
        r.deep_view() == found.deep_view().map_values(|n: FunctionNodeV| fmt_fn_spec(n)),
{
    let mut r: Vec<String> = Vec::new();
    let mut i: usize = 0;
    while i < found.len()
        invariant
            i <= found@.len(),
            r.deep_view() == found.deep_view().take(i as int).map_values(|n: FunctionNodeV| fmt_fn_spec(n)),
        decreases found@.len() - i,
    {
        let line = fmt_fn(found[i]);
        let ghost before = r.deep_view();
        r.push(line);
        i += 1;
        proof {
            assert(found.deep_view().take(i as int) =~= found.deep_view().take(i - 1).push(found.deep_view()[i - 1]));
            assert(r.deep_view() =~= before.push(line@));
            assert(r.deep_view() =~= found.deep_view().take(i as int).map_values(|n: FunctionNodeV| fmt_fn_spec(n)));
        }
    }
    assert(found.deep_view().take(found@.len() as int) =~= found.deep_view());
    r
}

/// The lines, sorted, one per line.
pub(crate) fn sorted_lines(lines: Vec<String>) -> (r: String)
    ensures
        exists|s: Seq<Seq<char>>| sorted_perm(s, lines.deep_view()) && r@ == join(s, "\n"@),
{
    let sorted = sort_strings(lines);
    let r = join_strings(&sorted, "\n");
    assert(sorted_perm(sorted.deep_view(), lines.deep_view()));
    r
}

/// `a`, `b` and `c` one after the other.
pub(crate) fn concat3(a: &str, b: &str, c: &str) -> (r: String)
    ensures
        r@ == a@ + b@ + c@,
{
    let mut s = owned(a);
    push_str(&mut s, b);
    push_str(&mut s, c);
    s
}

/// A lowercase hexadecimal digit.
pub open spec fn hex_digit(d: int) -> char {
    if d < 10 {
        (48 + d) as char
    } else {
        (87 + d) as char
    }
}

/// How serde_json writes one character inside a JSON string: `"` and `\` behind a backslash,
/// backspace, tab, newline, form feed and carriage return as `\b \t \n \f \r`, the other
/// characters below 0x20 as `\u00` and two lowercase hex digits, every other character as is.
pub open spec fn json_escape(c: char) -> Seq<char> {
    if c == '"' {
        seq!['\\', '"']
    } else if c == '\\' {
        seq!['\\', '\\']
    } else if c == '\u{8}' {
        seq!['\\', 'b']
    } else if c == '\t' {
        seq!['\\', 't']
    } else if c == '\n' {
        seq!['\\', 'n']
    } else if c == '\u{c}' {
        seq!['\\', 'f']
    } else if c == '\r' {
        seq!['\\', 'r']
    } else if (c as int) < 0x20 {
        seq!['\\', 'u', '0', '0', hex_digit((c as int) / 16), hex_digit((c as int) % 16)]
    } else {
        seq![c]
    }
}

/// The characters of `s`, each as serde_json writes it inside a JSON string.
pub open spec fn json_escaped(s: Seq<char>) -> Seq<char>
    decreases s.len(),
{
    if s.len() == 0 {
        Seq::empty()
    } else {
        json_escaped(s.drop_last()) + json_escape(s.last())
    }
}

/// serde_json's rendering of `s` as a JSON string: in double quotes, each character escaped
/// as `json_escape` says.
pub open spec fn json_quoted(s: Seq<char>) -> Seq<char> {
    seq!['"'] + json_escaped(s) + seq!['"']
}

/// Renders `s` as a JSON string (serde_json's `Value::String` written with `to_string`, which
/// goes through `format_escaped_str` and its `ESCAPE` table).
#[verifier::external_body]
pub(crate) fn json_quote(s: &str) -> (r: String)
    ensures
        r@ == json_quoted(s@),
{
    serde_json::Value::String(s.to_string()).to_string()
}

/// `true` or `false`.
pub open spec fn json_bool(b: bool) -> Seq<char> {
    if b { "true"@ } else { "false"@ }
}

/// A JSON array of strings.
pub open spec fn json_strings(items: Seq<Seq<char>>) -> Seq<char> {
    "["@ + join(items.map_values(|x: Seq<char>| json_quoted(x)), ","@) + "]"@
}

/// `{"error":msg}`.
pub open spec fn json_error(msg: Seq<char>) -> Seq<char> {
    "{\"error\":"@ + json_quoted(msg) + "}"@
}

/// Appends `true` or `false`.
pub(crate) fn push_json_bool(s: &mut String, b: bool)
    ensures
        final(s)@ == old(s)@ + json_bool(b),
{
    if b {
        push_str(s, "true");
    } else {
        push_str(s, "false");
    }
}

/// Renders a JSON array of strings.
pub(crate) fn json_strings_exec(items: &Vec<String>) -> (r: String)
    ensures
        r@ == json_strings(items.deep_view()),
{
    let ghost t = items.deep_view();
    let mut parts: Vec<String> = Vec::new();
    let mut i: usize = 0;
    while i < items.len()
        invariant
            i <= t.len(),
            t == items.deep_view(),
            parts.deep_view() == t.take(i as int).map_values(|x: Seq<char>| json_quoted(x)),
        decreases t.len() - i,
    {
        let q = json_quote(items[i].as_str());
        let ghost before = parts.deep_view();
        parts.push(q);
        i += 1;
        proof {
            assert(t.take(i as int) =~= t.take(i - 1).push(t[i - 1]));
            assert(parts.deep_view() =~= before.push(q@));
            assert(parts.deep_view() =~= t.take(i as int).map_values(|x: Seq<char>| json_quoted(x)));
        }
    }
    assert(t.take(t.len() as int) =~= t);
    let body = join_strings(&parts, ",");
    concat3("[", body.as_str(), "]")
}

/// Renders `{"error":msg}`.
pub(crate) fn json_error_exec(msg: &str) -> (r: String)
    ensures
        r@ == json_error(msg@),
{
    let q = json_quote(msg);
    concat3("{\"error\":", q.as_str(), "}")
}

} // verus!
