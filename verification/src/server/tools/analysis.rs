//! Whole-graph reports: functions nothing calls, and summary statistics.
use vstd::prelude::*;

use crate::graph::call_graph::{dead_code_spec, fan_entries, is_top, CallGraph, DeadCodeKind};
use crate::graph::types::{FunctionNode, FunctionNodeV};
use crate::order::{chars_le, lemma_multiset_map, sort_by_spec_key, KeyOrd};
use crate::text::{decimal, join, join_strings, owned, push_decimal, push_str};

verus! {

broadcast use {vstd::seq_lib::group_seq_properties, Seq::lemma_filter_push};

/// A function without callers.
pub type DeadEntry = (FunctionNodeV, DeadCodeKind);

/// `[kind] name @ file:line`.
pub open spec fn dead_line(e: DeadEntry) -> Seq<char> {
    "["@ + e.1.name_spec() + "] "@ + e.0.name + " @ "@ + e.0.file + ":"@ + decimal(e.0.line as nat)
}

/// The entries of one kind, in order.
pub open spec fn of_kind(d: Seq<DeadEntry>, k: DeadCodeKind) -> Seq<DeadEntry> {
    d.filter(|e: DeadEntry| e.1 == k)
}

/// A titled section: the count in the heading, then one line per entry.
pub open spec fn section(title: Seq<char>, es: Seq<DeadEntry>) -> Seq<char> {
    "=== "@ + title + " ("@ + decimal(es.len()) + ") ===\n"@ + join(es.map_values(|e: DeadEntry| dead_line(e)), "\n"@)
}

/// The section, when it has entries.
pub open spec fn opt_section(title: Seq<char>, es: Seq<DeadEntry>) -> Seq<Seq<char>> {
    if es.len() == 0 { Seq::empty() } else { seq![section(title, es)] }
}

/// The sections of the report: the suspicious functions always (with `(none)` when there are
/// none), then the macro-registered ones, the callbacks and the entrypoints when there are any.
pub open spec fn dead_sections(d: Seq<DeadEntry>) -> Seq<Seq<char>> {
    let sus = of_kind(d, DeadCodeKind::Suspicious);
    seq![
        if sus.len() == 0 {
            "=== Suspicious (no evidence of use) (0) ===\n(none)"@
        } else {
            section("Suspicious (no evidence of use)"@, sus)
        },
    ] + opt_section("Registered via macro"@, of_kind(d, DeadCodeKind::MacroRegistered)) + opt_section(
        "Likely callbacks by name"@,
        of_kind(d, DeadCodeKind::CallbackByName),
    ) + opt_section("Entrypoints"@, of_kind(d, DeadCodeKind::Entrypoint))
}

/// The dead-code report on the entries `d`.
pub open spec fn dead_report(d: Seq<DeadEntry>) -> Seq<char> {
    if d.len() == 0 {
        "No dead code found (all functions have at least one caller)"@
    } else {
        join(dead_sections(d), "\n\n"@)
    }
}

/// The entries are ordered by function name.
pub open spec fn by_name(d: Seq<DeadEntry>) -> bool {
    forall|i: int, j: int| 0 <= i < j < d.len() ==> chars_le(#[trigger] d[i].0.name, #[trigger] d[j].0.name)
}

/// Renders one entry.
fn dead_line_exec(n: &FunctionNode, k: DeadCodeKind) -> (r: String)
    ensures
        r@ == dead_line((n.deep_view(), k)),
{
    let mut s = owned("[");
    push_str(&mut s, k.as_str());
    push_str(&mut s, "] ");
    push_str(&mut s, n.name.as_str());
    push_str(&mut s, " @ ");
    push_str(&mut s, n.file.as_str());
    push_str(&mut s, ":");
    push_decimal(&mut s, n.line as u64);
    s
}

/// The lines of the entries of kind `k`, in order.
fn kind_lines(d: &Vec<(&FunctionNode, DeadCodeKind)>, k: DeadCodeKind) -> (r: Vec<String>)
    ensures
        r.deep_view() == of_kind(d.deep_view(), k).map_values(|e: DeadEntry| dead_line(e)),
{
    let ghost dv = d.deep_view();
    let mut r: Vec<String> = Vec::new();
    let mut i: usize = 0;
    while i < d.len()
        invariant
            i <= dv.len(),
            dv == d.deep_view(),
            r.deep_view() == of_kind(dv.take(i as int), k).map_values(|e: DeadEntry| dead_line(e)),
        decreases dv.len() - i,
    {
        let (n, kind) = d[i];
        let ghost before = r.deep_view();
        proof {
            assert(dv.take(i + 1) =~= dv.take(i as int).push(dv[i as int]));
            assert(dv[i as int] == (n.deep_view(), kind));
        }
        if kind == k {
            let line = dead_line_exec(n, kind);
            r.push(line);
            proof {
                assert(r.deep_view() =~= before.push(line@));
            }
        }
        i += 1;
        proof {
            assert(r.deep_view() =~= of_kind(dv.take(i as int), k).map_values(|e: DeadEntry| dead_line(e)));
        }
    }
    assert(dv.take(dv.len() as int) =~= dv);
    r
}

/// `=== title (n) ===` over the lines.
fn section_text(title: &str, lines: &Vec<String>) -> (r: String)
    ensures
        r@ == "=== "@ + title@ + " ("@ + decimal(lines@.len() as nat) + ") ===\n"@ + join(lines.deep_view(), "\n"@),
{
    let mut s = owned("=== ");
    push_str(&mut s, title);
    push_str(&mut s, " (");
    push_decimal(&mut s, lines.len() as u64);
    push_str(&mut s, ") ===\n");
    let body = join_strings(lines, "\n");
    push_str(&mut s, body.as_str());
    s
}

/// The functions that nothing calls, sorted by name, in sections by the reason they may still be
/// in use.
pub fn find_dead_code(graph: &CallGraph) -> (r: String)
    ensures
        exists|d: Seq<DeadEntry>|
            d.to_multiset() == dead_code_spec(graph@).to_multiset() && by_name(d) && r@ == dead_report(d),
{
    let dead = graph.find_dead_code();
    let ghost key = |p: (&FunctionNode, DeadCodeKind)| p.0.name;
    let mut keyed: Vec<(String, (&FunctionNode, DeadCodeKind))> = Vec::new();
    let mut i: usize = 0;
    while i < dead.len()
        invariant
            i <= dead@.len(),
            key == (|p: (&FunctionNode, DeadCodeKind)| p.0.name),
            forall|k: int| 0 <= k < keyed@.len() ==> #[trigger] keyed@[k].0 == key(keyed@[k].1),
            keyed@.map_values(|p: (String, (&FunctionNode, DeadCodeKind))| p.1) == dead@.take(i as int),
        decreases dead@.len() - i,
    {
        let e = dead[i];
        let ghost before = keyed@.map_values(|p: (String, (&FunctionNode, DeadCodeKind))| p.1);
        keyed.push((e.0.name.clone(), e));
        i += 1;
        proof {
            assert(dead@.take(i as int) =~= dead@.take(i - 1).push(e));
            assert(keyed@.map_values(|p: (String, (&FunctionNode, DeadCodeKind))| p.1) =~= before.push(e));
        }
    }
    assert(dead@.take(dead@.len() as int) =~= dead@);
    let sorted = sort_by_spec_key(keyed, Ghost(key));
    let ghost dv = sorted.deep_view();
    proof {
        lemma_multiset_map(sorted@, dead@, |x: (&FunctionNode, DeadCodeKind)| x.deep_view());
        assert(dv =~= sorted@.map_values(|x: (&FunctionNode, DeadCodeKind)| x.deep_view()));
        assert(dead.deep_view() =~= dead@.map_values(|x: (&FunctionNode, DeadCodeKind)| x.deep_view()));
        assert forall|a: int, b: int| 0 <= a < b < dv.len() implies chars_le(#[trigger] dv[a].0.name, #[trigger] dv[b].0.name) by {
            assert(key(sorted@[a]).key_le(&key(sorted@[b])));
        }
        assert(by_name(dv));
        assert(dv.to_multiset() == dead_code_spec(graph@).to_multiset());
    }
    if sorted.len() == 0 {
        let r = owned("No dead code found (all functions have at least one caller)");
        assert(r@ == dead_report(dv));
        return r;
    }
    let sus = kind_lines(&sorted, DeadCodeKind::Suspicious);
    let reg = kind_lines(&sorted, DeadCodeKind::MacroRegistered);
    let cb = kind_lines(&sorted, DeadCodeKind::CallbackByName);
    let entry = kind_lines(&sorted, DeadCodeKind::Entrypoint);
    let mut sections: Vec<String> = Vec::new();
    if sus.len() > 0 {
        sections.push(section_text("Suspicious (no evidence of use)", &sus));
    } else {
        sections.push(owned("=== Suspicious (no evidence of use) (0) ===\n(none)"));
    }
    let ghost s1 = sections.deep_view();
    if reg.len() > 0 {
        sections.push(section_text("Registered via macro", &reg));
    }
    let ghost s2 = sections.deep_view();
    if cb.len() > 0 {
        sections.push(section_text("Likely callbacks by name", &cb));
    }
    let ghost s3 = sections.deep_view();
    if entry.len() > 0 {
        sections.push(section_text("Entrypoints", &entry));
    }
    proof {
        let sk = of_kind(dv, DeadCodeKind::Suspicious);
        let rk = of_kind(dv, DeadCodeKind::MacroRegistered);
        let ck = of_kind(dv, DeadCodeKind::CallbackByName);
        let ek = of_kind(dv, DeadCodeKind::Entrypoint);
        assert(s1 =~= dead_sections(dv).take(1));
        assert(s2 =~= seq![s1[0]] + opt_section("Registered via macro"@, rk));
        assert(s3 =~= seq![s1[0]] + opt_section("Registered via macro"@, rk) + opt_section(
            "Likely callbacks by name"@,
            ck,
        ));
        assert(sections.deep_view() =~= dead_sections(dv));
    }
    let r = join_strings(&sections, "\n\n");
    assert(r@ == dead_report(dv));
    r
}

/// `  name (count what)`, one per ranking entry.
pub open spec fn fan_lines(t: Seq<(Seq<char>, usize)>, what: Seq<char>) -> Seq<Seq<char>> {
    t.map_values(|e: (Seq<char>, usize)| "  "@ + e.0 + " ("@ + decimal(e.1 as nat) + " "@ + what + ")"@)
}

/// The statistics text.
pub open spec fn stats_text(
    fn_count: nat,
    edge_count: nat,
    dead_count: nat,
    true_dead_count: nat,
    fan_in: Seq<(Seq<char>, usize)>,
    fan_out: Seq<(Seq<char>, usize)>,
) -> Seq<char> {
    "Functions : "@ + decimal(fn_count) + "\nCall edges: "@ + decimal(edge_count) + "\nDead code : "@ + decimal(dead_count)
        + " (no callers, "@ + decimal(true_dead_count) + " true dead)\n\nTop fan-in (most callers):\n"@ + join(
        fan_lines(fan_in, "callers"@),
        "\n"@,
    ) + "\n\nTop fan-out (most callees):\n"@ + join(fan_lines(fan_out, "callees"@), "\n"@)
}

/// The ranking lines.
fn fan_text(t: &Vec<(&str, usize)>, what: &str) -> (r: String)
    ensures
        r@ == join(fan_lines(t.deep_view(), what@), "\n"@),
{
    let ghost tv = t.deep_view();
    let mut lines: Vec<String> = Vec::new();
    let mut i: usize = 0;
    while i < t.len()
        invariant
            i <= tv.len(),
            tv == t.deep_view(),
            lines.deep_view() == fan_lines(tv, what@).take(i as int),
        decreases tv.len() - i,
    {
        let (name, count) = t[i];
        let mut s = owned("  ");
        push_str(&mut s, name);
        push_str(&mut s, " (");
        push_decimal(&mut s, count as u64);
        push_str(&mut s, " ");
        push_str(&mut s, what);
        push_str(&mut s, ")");
        let ghost before = lines.deep_view();
        proof {
            assert(fan_lines(tv, what@).take(i + 1) =~= fan_lines(tv, what@).take(i as int).push(s@));
        }
        lines.push(s);
        i += 1;
        proof {
            assert(lines.deep_view() =~= before.push(s@));
        }
    }
    assert(fan_lines(tv, what@).take(tv.len() as int) =~= fan_lines(tv, what@));
    join_strings(&lines, "\n")
}

/// Counts of functions, call edges and functions without callers, and the five functions with
/// the most callers and with the most callees.
pub fn get_stats(graph: &CallGraph) -> (r: String)
    ensures
        exists|fi: Seq<(Seq<char>, usize)>, fo: Seq<(Seq<char>, usize)>|
            is_top(fi, fan_entries(graph@.nodes, graph@.callers), 5) && is_top(
                fo,
                fan_entries(graph@.nodes, graph@.callees),
                5,
            ) && r@ == stats_text(
                graph@.nodes.len(),
                graph@.callees.len(),
                dead_code_spec(graph@).len(),
                of_kind(dead_code_spec(graph@), DeadCodeKind::Suspicious).len(),
                fi,
                fo,
            ),
{
    let fn_count = graph.nodes.len();
    let edge_count = graph.callees.len();
    let dead = graph.find_dead_code();
    let mut true_dead: usize = 0;
    let mut i: usize = 0;
    let ghost dv = dead.deep_view();
    while i < dead.len()
        invariant
            i <= dv.len(),
            dv == dead.deep_view(),
            true_dead == of_kind(dv.take(i as int), DeadCodeKind::Suspicious).len(),
            true_dead <= i,
        decreases dv.len() - i,
    {
        proof {
            assert(dv.take(i + 1) =~= dv.take(i as int).push(dv[i as int]));
        }
        if dead[i].1 == DeadCodeKind::Suspicious {
            true_dead += 1;
        }
        i += 1;
    }
    assert(dv.take(dv.len() as int) =~= dv);
    let fan_in = graph.top_by_fan_in(5);
    let fan_out = graph.top_by_fan_out(5);
    let mut s = owned("Functions : ");
    push_decimal(&mut s, fn_count as u64);
    push_str(&mut s, "\nCall edges: ");
    push_decimal(&mut s, edge_count as u64);
    push_str(&mut s, "\nDead code : ");
    push_decimal(&mut s, dead.len() as u64);
    push_str(&mut s, " (no callers, ");
    push_decimal(&mut s, true_dead as u64);
    push_str(&mut s, " true dead)\n\nTop fan-in (most callers):\n");
    let fi = fan_text(&fan_in, "callers");
    push_str(&mut s, fi.as_str());
    push_str(&mut s, "\n\nTop fan-out (most callees):\n");
    let fo = fan_text(&fan_out, "callees");
    push_str(&mut s, fo.as_str());
    proof {
        assert(s@ =~= stats_text(
            graph@.nodes.len(),
            graph@.callees.len(),
            dead_code_spec(graph@).len(),
            of_kind(dead_code_spec(graph@), DeadCodeKind::Suspicious).len(),
            fan_in.deep_view(),
            fan_out.deep_view(),
        ));
    }
    s
}

} // verus!
