//! What holds of the call graphs across operations: the two directions of the call edges
//! mirror each other, one-step callers and callees are converse, and a deeper traversal finds
//! everything a shallower one finds.
use vstd::prelude::*;

use crate::graph::bfs::{lemma_reach_monotone, reach, within, Vertex};
use crate::graph::call_graph::{classify_spec, dead_code_spec, dead_entry, ends_with, has_key, is_callback_name, DeadCodeKind, pair_succ, pair_succ_upto, unique_names, with_pair, CallGraphV};
use crate::graph::types::FunctionNodeV;
use crate::text::{contains_word_spec, lowercase};
use crate::graph::codebase::{callee_file, dir_edges, file_succ, file_succ_upto, keep_edge, next_file, no_file, reverse_edges, static_in_file, CodebaseGraphV, Direction};
use crate::graph::types::FileGraphV;
use crate::parser::with_file;

verus! {

broadcast use vstd::seq_lib::group_seq_properties;

/// The two edge lists of a call graph mirror each other: `a` calls `b` exactly when `b` is
/// called by `a`.
pub open spec fn mirrored(g: CallGraphV) -> bool {
    forall|a: Seq<char>, b: Seq<char>| g.callees.contains((a, b)) <==> g.callers.contains((b, a))
}

/// A graph with no edges is mirrored.
pub proof fn lemma_empty_mirrored(g: CallGraphV)
    requires
        g.callees.len() == 0,
        g.callers.len() == 0,
    ensures
        mirrored(g),
{
}

/// Adding a call (`CallGraph::add_edge`) keeps the two edge lists mirrored.
pub proof fn lemma_add_edge_keeps_mirror(g: CallGraphV, caller: Seq<char>, callee: Seq<char>)
    requires
        mirrored(g),
    ensures
        mirrored(
            CallGraphV {
                callees: with_pair(g.callees, (caller, callee)),
                callers: with_pair(g.callers, (callee, caller)),
                ..g
            },
        ),
{
    let cs = with_pair(g.callees, (caller, callee));
    let rs = with_pair(g.callers, (callee, caller));
    assert forall|a: Seq<char>, b: Seq<char>| cs.contains((a, b)) <==> rs.contains((b, a)) by {
        if !g.callees.contains((caller, callee)) {
            assert(cs =~= g.callees.push((caller, callee)));
            assert(cs.contains((a, b)) <==> (g.callees.contains((a, b)) || (a, b) == (caller, callee)));
        }
        if !g.callers.contains((callee, caller)) {
            assert(rs =~= g.callers.push((callee, caller)));
            assert(rs.contains((b, a)) <==> (g.callers.contains((b, a)) || (b, a) == (callee, caller)));
        }
    }
}

/// A vertex follows `key` along `pairs` exactly when the pair is there.
pub proof fn lemma_pair_succ_contains(pairs: Seq<(Seq<char>, Seq<char>)>, key: Seq<char>, v: Seq<char>)
    ensures
        pair_succ(pairs, (key, no_file())).contains((v, no_file())) <==> pairs.contains((key, v)),
{
    lemma_pair_succ_upto(pairs, key, v, pairs.len() as int);
    if pairs.contains((key, v)) {
        let i = choose|i: int| 0 <= i < pairs.len() && pairs[i] == (key, v);
        assert(pairs.take(pairs.len() as int)[i] == (key, v));
    }
    assert(pairs.take(pairs.len() as int) =~= pairs);
}

proof fn lemma_pair_succ_upto(pairs: Seq<(Seq<char>, Seq<char>)>, key: Seq<char>, v: Seq<char>, k: int)
    requires
        0 <= k <= pairs.len(),
    ensures
        pair_succ_upto(pairs, key, k).contains((v, no_file())) <==> pairs.take(k).contains((key, v)),
    decreases k,
{
    if k > 0 {
        lemma_pair_succ_upto(pairs, key, v, k - 1);
        assert(pairs.take(k) =~= pairs.take(k - 1).push(pairs[k - 1]));
        let rest = pair_succ_upto(pairs, key, k - 1);
        if pairs[k - 1].0 == key {
            assert(pair_succ_upto(pairs, key, k) == rest.push((pairs[k - 1].1, no_file())));
        }
    }
}

/// What a one-level traversal from `y` reports contains `x` exactly when `y` has the pair to `x`
/// (and `x` is not `y`).
proof fn lemma_within_one(pairs: Seq<(Seq<char>, Seq<char>)>, y: Seq<char>, x: Seq<char>)
    ensures
        within(|v: Vertex| pair_succ(pairs, v), (y, no_file()), 1).contains((x, no_file())) <==> (x != y && pairs.contains((y, x))),
{
    let f = |v: Vertex| pair_succ(pairs, v);
    let s = (y, no_file());
    let r0 = reach(f, s, 0);
    assert(r0 == set![s]);
    lemma_pair_succ_contains(pairs, y, x);
    let w = (x, no_file());
    if pairs.contains((y, x)) {
        assert(r0.contains(s));
        assert(f(s).contains(w));
    }
    if reach(f, s, 1).contains(w) && w != s {
        let u = choose|u: Vertex| r0.contains(u) && #[trigger] f(u).contains(w);
        assert(u == s);
    }
}

/// One-step callers and callees are converse: in a mirrored graph, `x` is among the callers of
/// `y` at depth 1 exactly when `y` is among the callees of `x` at depth 1.
pub proof fn lemma_callers_callees_converse(g: CallGraphV, x: Seq<char>, y: Seq<char>)
    requires
        mirrored(g),
    ensures
        within(|v: Vertex| pair_succ(g.callers, v), (y, no_file()), 1).contains((x, no_file())) <==> within(
            |v: Vertex| pair_succ(g.callees, v),
            (x, no_file()),
            1,
        ).contains((y, no_file())),
{
    lemma_within_one(g.callers, y, x);
    lemma_within_one(g.callees, x, y);
}

/// A deeper traversal reports everything a shallower one reports.
pub proof fn lemma_within_monotone(f: spec_fn(Vertex) -> Seq<Vertex>, start: Vertex, d1: nat, d2: nat)
    requires
        d1 <= d2,
    ensures
        within(f, start, d1).subset_of(within(f, start, d2)),
{
    lemma_reach_monotone(f, start, d1, d2);
}

/// The reverse edges of a concatenation are the concatenated reverse edges.
pub proof fn lemma_reverse_edges_concat(
    a: Seq<(Seq<char>, crate::graph::types::CallEdgeV)>,
    b: Seq<(Seq<char>, crate::graph::types::CallEdgeV)>,
)
    ensures
        reverse_edges(a + b) == reverse_edges(a) + reverse_edges(b),
{
    assert(reverse_edges(a + b) =~= reverse_edges(a) + reverse_edges(b));
}

/// Adding what a file contributes keeps the reverse edges of a codebase graph derived from its
/// forward edges.
pub proof fn lemma_with_file_keeps_reverse(g: CodebaseGraphV, f: FileGraphV)
    requires
        g.callers == reverse_edges(g.callees),
    ensures
        with_file(g, f).callers == reverse_edges(with_file(g, f).callees),
{
    lemma_reverse_edges_concat(g.callees, f.callees);
}


/// Keeping some of the functions of a list whose names are all different keeps the names
/// different, and keeps only functions of the list.
proof fn lemma_filter_unique_names(s: Seq<FunctionNodeV>, p: spec_fn(FunctionNodeV) -> bool)
    requires
        unique_names(s),
    ensures
        unique_names(s.filter(p)),
        forall|x: FunctionNodeV| s.filter(p).contains(x) ==> s.contains(x),
    decreases s.len(),
{
    reveal(Seq::filter);
    if s.len() > 0 {
        let d = s.drop_last();
        assert(unique_names(d));
        lemma_filter_unique_names(d, p);
        let f = d.filter(p);
        if p(s.last()) {
            let f2 = f.push(s.last());
            assert(s.filter(p) == f2);
            assert forall|i: int, j: int| 0 <= i < j < f2.len() implies f2[i].name != f2[j].name by {
                if j == f.len() {
                    assert(f2[i] == f[i]);
                    assert(f.contains(f2[i]));
                    assert(d.contains(f2[i]));
                    let k = choose|k: int| 0 <= k < d.len() && d[k] == f2[i];
                    assert(s[k] == d[k]);
                    assert(s[s.len() - 1] == s.last());
                }
            }
            assert forall|x: FunctionNodeV| f2.contains(x) implies s.contains(x) by {
                if x != s.last() {
                    let k = choose|k: int| 0 <= k < f2.len() && f2[k] == x;
                    assert(f2[k] == f[k]);
                    assert(f.contains(x));
                    assert(d.contains(x));
                    let q = choose|q: int| 0 <= q < d.len() && d[q] == x;
                    assert(s[q] == x);
                } else {
                    assert(s[s.len() - 1] == x);
                }
            }
        } else {
            assert forall|x: FunctionNodeV| f.contains(x) implies s.contains(x) by {
                assert(d.contains(x));
                let q = choose|q: int| 0 <= q < d.len() && d[q] == x;
                assert(s[q] == x);
            }
        }
    }
}

/// The dead-code report of a well-formed graph names each function once, and names exactly the
/// functions that nothing calls.
pub proof fn lemma_dead_code_entries(g: CallGraphV)
    requires
        g.wf(),
    ensures
        forall|i: int, j: int|
            0 <= i < j < dead_code_spec(g).len() ==> (#[trigger] dead_code_spec(g)[i]).0.name != (
            #[trigger] dead_code_spec(g)[j]).0.name,
        forall|n: FunctionNodeV|
            (exists|i: int| 0 <= i < dead_code_spec(g).len() && (#[trigger] dead_code_spec(g)[i]).0 == n) <==> (
            g.nodes.contains(n) && !has_key(g.callers, n.name)),
{
    let p = |n: FunctionNodeV| !has_key(g.callers, n.name);
    let f = g.nodes.filter(p);
    lemma_filter_unique_names(g.nodes, p);
    let d = dead_code_spec(g);
    assert(d == f.map_values(|n: FunctionNodeV| dead_entry(g.macro_referenced, n)));
    assert forall|i: int| 0 <= i < d.len() implies (#[trigger] d[i]).0 == f[i] by {}
    assert forall|n: FunctionNodeV|
        (exists|i: int| 0 <= i < d.len() && (#[trigger] d[i]).0 == n) <==> (g.nodes.contains(n) && !has_key(g.callers, n.name)) by {
        if exists|i: int| 0 <= i < d.len() && (#[trigger] d[i]).0 == n {
            let i = choose|i: int| 0 <= i < d.len() && (#[trigger] d[i]).0 == n;
            assert(f[i] == n);
            assert(f.contains(n));
            g.nodes.lemma_filter_pred(p, i);
        }
        if g.nodes.contains(n) && !has_key(g.callers, n.name) {
            let k = choose|k: int| 0 <= k < g.nodes.len() && g.nodes[k] == n;
            g.nodes.lemma_filter_contains(p, k);
            let i = choose|i: int| 0 <= i < f.len() && f[i] == n;
            assert(d[i].0 == n);
        }
    }
}


/// No function uses a type with an empty name: the whole-word search for an empty word finds
/// nothing, so `get_type_users("")` is empty.
pub proof fn lemma_empty_word_has_no_users(g: CallGraphV)
    ensures
        g.nodes.filter(|n: FunctionNodeV| contains_word_spec(n.source, Seq::<char>::empty())).len() == 0,
{
    let p = |n: FunctionNodeV| contains_word_spec(n.source, Seq::<char>::empty());
    if g.nodes.filter(p).len() > 0 {
        g.nodes.lemma_filter_pred(p, 0);
    }
}


/// A function that no definition in `file` marks static has no static flag there.
proof fn lemma_not_static(nodes: Seq<FunctionNodeV>, name: Seq<char>, file: Seq<char>)
    requires
        forall|i: int| 0 <= i < nodes.len() && nodes[i].name == name && nodes[i].file == file ==> !nodes[i].is_static,
    ensures
        !static_in_file(nodes, name, file),
    decreases nodes.len(),
{
    if nodes.len() > 0 {
        assert forall|i: int| 0 <= i < nodes.drop_first().len() && nodes.drop_first()[i].name == name
            && nodes.drop_first()[i].file == file implies !nodes.drop_first()[i].is_static by {
            assert(nodes.drop_first()[i] == nodes[i + 1]);
        }
        lemma_not_static(nodes.drop_first(), name, file);
    }
}

/// Every recorded call into `v.0` among the first `k` caller edges is a file-aware caller step
/// of `v` when `v` is not static in its file.
proof fn lemma_caller_step(g: CodebaseGraphV, v: Vertex, k: int, j: int)
    requires
        0 <= j < k <= g.callers.len(),
        g.callers[j].0 == v.0,
        !static_in_file(g.nodes, v.0, v.1),
    ensures
        file_succ_upto(g, Direction::Callers, v, k).contains((g.callers[j].1.name, g.callers[j].1.caller_file)),
    decreases k,
{
    let w = (g.callers[j].1.name, g.callers[j].1.caller_file);
    if j == k - 1 {
        assert(file_succ_upto(g, Direction::Callers, v, k) == file_succ_upto(g, Direction::Callers, v, k - 1).push(w));
        assert(file_succ_upto(g, Direction::Callers, v, k)[file_succ_upto(g, Direction::Callers, v, k - 1).len() as int] == w);
    } else {
        lemma_caller_step(g, v, k - 1, j);
        let r = file_succ_upto(g, Direction::Callers, v, k - 1);
        let i = choose|i: int| 0 <= i < r.len() && r[i] == w;
        let p = g.callers[k - 1];
        if p.0 == v.0 && keep_edge(g, Direction::Callers, v, p.1) {
            assert(file_succ_upto(g, Direction::Callers, v, k)[i] == w);
        }
    }
}

proof fn lemma_is_static(nodes: Seq<FunctionNodeV>, name: Seq<char>, file: Seq<char>, k: int)
    requires
        0 <= k < nodes.len(),
        nodes[k].name == name && nodes[k].file == file,
        forall|i: int| 0 <= i < nodes.len() && nodes[i].name == name && nodes[i].file == file ==> nodes[i].is_static,
    ensures
        static_in_file(nodes, name, file),
    decreases nodes.len(),
{
    if !(nodes[0].name == name && nodes[0].file == file) {
        assert forall|i: int| 0 <= i < nodes.drop_first().len() && nodes.drop_first()[i].name == name
            && nodes.drop_first()[i].file == file implies nodes.drop_first()[i].is_static by {
            assert(nodes.drop_first()[i] == nodes[i + 1]);
        }
        assert(nodes.drop_first()[k - 1] == nodes[k]);
        lemma_is_static(nodes.drop_first(), name, file, k - 1);
    }
}

/// Every file-aware caller step of a function static in its file stays in that file.
proof fn lemma_static_caller_steps(g: CodebaseGraphV, v: Vertex, k: int)
    requires
        0 <= k <= g.callers.len(),
        static_in_file(g.nodes, v.0, v.1),
    ensures
        forall|i: int|
            0 <= i < file_succ_upto(g, Direction::Callers, v, k).len() ==> (#[trigger] file_succ_upto(
                g,
                Direction::Callers,
                v,
                k,
            )[i]).1 == v.1,
    decreases k,
{
    if k > 0 {
        lemma_static_caller_steps(g, v, k - 1);
        let rest = file_succ_upto(g, Direction::Callers, v, k - 1);
        let p = g.callers[k - 1];
        if p.0 == v.0 && keep_edge(g, Direction::Callers, v, p.1) {
            assert(p.1.caller_file == v.1);
            assert(file_succ_upto(g, Direction::Callers, v, k) == rest.push((p.1.name, p.1.caller_file)));
        } else {
            assert(file_succ_upto(g, Direction::Callers, v, k) == rest);
        }
    }
}

/// Calls into a function that is static in its file reach it from that file only: every caller
/// of `(f, file)` at depth 1, as `get_callers_from` and `query_call_graph` report them, is a
/// function of `file`.
pub proof fn lemma_static_function_callers(g: CodebaseGraphV, f: Seq<char>, file: Seq<char>, k: int, w: Vertex)
    requires
        0 <= k < g.nodes.len(),
        g.nodes[k].name == f && g.nodes[k].file == file,
        forall|i: int| 0 <= i < g.nodes.len() && g.nodes[i].name == f && g.nodes[i].file == file ==> g.nodes[i].is_static,
        within(|x: Vertex| file_succ(g, Direction::Callers, x), (f, file), 1).contains(w),
    ensures
        w.1 == file,
{
    let v = (f, file);
    let sf = |x: Vertex| file_succ(g, Direction::Callers, x);
    lemma_is_static(g.nodes, f, file, k);
    lemma_static_caller_steps(g, v, g.callers.len() as int);
    assert(reach(sf, v, 0) == set![v]);
    assert(reach(sf, v, 1).contains(w));
    assert(w != v);
    assert(crate::graph::bfs::image(sf, reach(sf, v, 0)).contains(w));
    let u = choose|u: Vertex| reach(sf, v, 0).contains(u) && #[trigger] sf(u).contains(w);
    assert(u == v);
    let i = choose|i: int| 0 <= i < file_succ(g, Direction::Callers, v).len() && file_succ(g, Direction::Callers, v)[i] == w;
    assert(file_succ(g, Direction::Callers, v)[i].1 == file);
}

proof fn lemma_steps_upto(g: CodebaseGraphV, dir: Direction, v: Vertex, k: int, w: Vertex)
    requires
        0 <= k <= dir_edges(g, dir).len(),
    ensures
        file_succ_upto(g, dir, v, k).contains(w) <==> exists|j: int|
            0 <= j < k && (#[trigger] dir_edges(g, dir)[j]).0 == v.0 && keep_edge(g, dir, v, dir_edges(g, dir)[j].1)
                && w == (dir_edges(g, dir)[j].1.name, next_file(g, dir, v, dir_edges(g, dir)[j].1)),
    decreases k,
{
    if k > 0 {
        lemma_steps_upto(g, dir, v, k - 1, w);
        let rest = file_succ_upto(g, dir, v, k - 1);
        let p = dir_edges(g, dir)[k - 1];
        if p.0 == v.0 && keep_edge(g, dir, v, p.1) {
            let x = (p.1.name, next_file(g, dir, v, p.1));
            assert(file_succ_upto(g, dir, v, k) == rest.push(x));
            assert(rest.push(x)[rest.len() as int] == x);
        } else {
            assert(file_succ_upto(g, dir, v, k) == rest);
        }
    }
}

proof fn lemma_depth_one(g: CodebaseGraphV, dir: Direction, v: Vertex, w: Vertex)
    ensures
        within(|x: Vertex| file_succ(g, dir, x), v, 1).contains(w) <==> w != v && file_succ(g, dir, v).contains(w),
{
    let sf = |x: Vertex| file_succ(g, dir, x);
    assert(reach(sf, v, 0) == set![v]);
    if within(sf, v, 1).contains(w) {
        assert(crate::graph::bfs::image(sf, reach(sf, v, 0)).contains(w));
        let u = choose|u: Vertex| reach(sf, v, 0).contains(u) && #[trigger] sf(u).contains(w);
        assert(u == v);
    }
    if w != v && file_succ(g, dir, v).contains(w) {
        assert(sf(v).contains(w));
        assert(crate::graph::bfs::image(sf, reach(sf, v, 0)).contains(w));
    }
}

/// The callers of `(f, file)` at depth 1, as `get_callers_from` and `query_call_graph` report
/// them, are exactly the `(caller, caller file)` pairs of the recorded calls into `f`, other
/// than `(f, file)` itself, where the call comes from `file` or `f` is not static there.
pub proof fn lemma_callers_at_depth_one(g: CodebaseGraphV, f: Seq<char>, file: Seq<char>, w: Vertex)
    ensures
        within(|x: Vertex| file_succ(g, Direction::Callers, x), (f, file), 1).contains(w) <==> w != (f, file)
            && exists|j: int|
            0 <= j < g.callers.len() && (#[trigger] g.callers[j]).0 == f && w == (
                g.callers[j].1.name,
                g.callers[j].1.caller_file,
            ) && (!static_in_file(g.nodes, f, file) || g.callers[j].1.caller_file == file),
{
    lemma_depth_one(g, Direction::Callers, (f, file), w);
    lemma_steps_upto(g, Direction::Callers, (f, file), g.callers.len() as int, w);
    if exists|j: int|
        0 <= j < g.callers.len() && (#[trigger] g.callers[j]).0 == f && w == (
            g.callers[j].1.name,
            g.callers[j].1.caller_file,
        ) && (!static_in_file(g.nodes, f, file) || g.callers[j].1.caller_file == file) {
        let j = choose|j: int|
            0 <= j < g.callers.len() && (#[trigger] g.callers[j]).0 == f && w == (
                g.callers[j].1.name,
                g.callers[j].1.caller_file,
            ) && (!static_in_file(g.nodes, f, file) || g.callers[j].1.caller_file == file);
        assert(dir_edges(g, Direction::Callers)[j] == g.callers[j]);
    }
}

/// The callees of `(f, file)` at depth 1, as `get_callees_from` and `query_call_graph` report
/// them, are exactly the callees of the calls recorded from `f` in `file`, other than `(f,
/// file)` itself, each in `file` when it is defined there and else in the first file that
/// defines it.
pub proof fn lemma_callees_at_depth_one(g: CodebaseGraphV, f: Seq<char>, file: Seq<char>, w: Vertex)
    ensures
        within(|x: Vertex| file_succ(g, Direction::Callees, x), (f, file), 1).contains(w) <==> w != (f, file)
            && exists|j: int|
            0 <= j < g.callees.len() && (#[trigger] g.callees[j]).0 == f && g.callees[j].1.caller_file == file
                && w == (g.callees[j].1.name, callee_file(g.nodes, g.callees[j].1.name, file)),
{
    lemma_depth_one(g, Direction::Callees, (f, file), w);
    lemma_steps_upto(g, Direction::Callees, (f, file), g.callees.len() as int, w);
    if exists|j: int|
        0 <= j < g.callees.len() && (#[trigger] g.callees[j]).0 == f && g.callees[j].1.caller_file == file
            && w == (g.callees[j].1.name, callee_file(g.nodes, g.callees[j].1.name, file)) {
        let j = choose|j: int|
            0 <= j < g.callees.len() && (#[trigger] g.callees[j]).0 == f && g.callees[j].1.caller_file == file
                && w == (g.callees[j].1.name, callee_file(g.nodes, g.callees[j].1.name, file));
        assert(dir_edges(g, Direction::Callees)[j] == g.callees[j]);
    }
}

/// How a function without callers is classified: `main` is an entry point; a name referenced
/// from a macro is macro-registered; otherwise a name whose lower-cased form ends with
/// `_handler`, `_callback`, `_cb`, `_isr`, `_irq`, `_evt` or `_event`, or starts with `on_` or
/// `assert_`, is a callback by name; every other one is suspicious.
pub proof fn lemma_dead_code_classification(g: CallGraphV, k: int)
    requires
        0 <= k < dead_code_spec(g).len(),
    ensures
        ({
            let n = dead_code_spec(g)[k].0;
            let kind = dead_code_spec(g)[k].1;
            let l = lowercase(n.name);
            let by_name = ends_with(l, "_handler"@) || ends_with(l, "_callback"@) || ends_with(l, "_cb"@)
                || ends_with(l, "_isr"@) || ends_with(l, "_irq"@) || ends_with(l, "_evt"@) || ends_with(
                l,
                "_event"@,
            ) || "on_"@.is_prefix_of(l) || "assert_"@.is_prefix_of(l);
            &&& g.nodes.contains(n) && !has_key(g.callers, n.name)
            &&& kind == DeadCodeKind::Entrypoint <==> n.name == "main"@
            &&& kind == DeadCodeKind::MacroRegistered <==> n.name != "main"@ && g.macro_referenced.contains(n.name)
            &&& kind == DeadCodeKind::CallbackByName <==> n.name != "main"@ && !g.macro_referenced.contains(n.name)
                && by_name
            &&& kind == DeadCodeKind::Suspicious <==> n.name != "main"@ && !g.macro_referenced.contains(n.name)
                && !by_name
        }),
{
    let p = |n: FunctionNodeV| !has_key(g.callers, n.name);
    let f = g.nodes.filter(p);
    let d = dead_code_spec(g);
    assert(d == f.map_values(|n: FunctionNodeV| dead_entry(g.macro_referenced, n)));
    assert(d[k] == dead_entry(g.macro_referenced, f[k]));
    g.nodes.lemma_filter_pred(p, k);
    assert(f.contains(f[k]));
    g.nodes.lemma_filter_contains_rev(p, f[k]);
    let n = f[k];
    let l = lowercase(n.name);
    assert(d[k].1 == classify_spec(n.name, g.macro_referenced));
}

/// Calls into a function that is not static reach it from any file: for a function `f` of
/// `file` that no definition there marks static, every recorded call into `f` (from `caller` in
/// `caller_file`) makes `(caller, caller_file)` a caller of `(f, file)` at depth 1, as
/// `get_callers_from` and `query_call_graph` report them.
pub proof fn lemma_public_function_callers(g: CodebaseGraphV, f: Seq<char>, file: Seq<char>, j: int)
    requires
        forall|i: int| 0 <= i < g.nodes.len() && g.nodes[i].name == f && g.nodes[i].file == file ==> !g.nodes[i].is_static,
        0 <= j < g.callers.len(),
        g.callers[j].0 == f,
        (g.callers[j].1.name, g.callers[j].1.caller_file) != (f, file),
    ensures
        within(|x: Vertex| file_succ(g, Direction::Callers, x), (f, file), 1).contains(
            (g.callers[j].1.name, g.callers[j].1.caller_file),
        ),
{
    let v = (f, file);
    let sf = |x: Vertex| file_succ(g, Direction::Callers, x);
    let w = (g.callers[j].1.name, g.callers[j].1.caller_file);
    lemma_not_static(g.nodes, f, file);
    lemma_caller_step(g, v, g.callers.len() as int, j);
    assert(sf(v).contains(w));
    assert(reach(sf, v, 0).contains(v));
    assert(crate::graph::bfs::image(sf, reach(sf, v, 0)).contains(w));
    assert(reach(sf, v, 1).contains(w));
}

} // verus!
