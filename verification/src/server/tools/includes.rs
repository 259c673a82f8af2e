//! `#include` lookups, answered as JSON: what a file includes, and who includes a header.
use vstd::prelude::*;

use crate::graph::call_graph::{includers_of, CallGraph};
use crate::graph::paths::path_le;
use crate::graph::types::{IncludeEdge, IncludeEdgeV};
use crate::server::tools::{concat3, json_bool, json_error, json_error_exec, json_quote, json_quoted, push_json_bool};
use crate::text::{contains_ci, join, join_strings, owned, push_str};

verus! {

broadcast use vstd::seq_lib::group_seq_properties;

pub struct GetIncludesParams {
    /// Filename substring to match against indexed file paths (case-insensitive)
    pub file: String,
}

pub struct GetIncludersParams {
    /// Header name substring to search for within #include paths (case-insensitive)
    pub header: String,
}

/// Ordered by path.
pub open spec fn by_path<T>(t: Seq<(Seq<char>, T)>) -> bool {
    forall|i: int, j: int| 0 <= i < j < t.len() ==> path_le(#[trigger] t[i].0, #[trigger] t[j].0)
}

/// `{"path":..,"is_system":..}`.
pub open spec fn include_json(e: IncludeEdgeV) -> Seq<char> {
    "{\"path\":"@ + json_quoted(e.path) + ",\"is_system\":"@ + json_bool(e.is_system) + "}"@
}

/// `{"file":..,"includes":[..]}`.
pub open spec fn file_includes_json(f: (Seq<char>, Seq<IncludeEdgeV>)) -> Seq<char> {
    "{\"file\":"@ + json_quoted(f.0) + ",\"includes\":["@ + join(f.1.map_values(|e: IncludeEdgeV| include_json(e)), ","@)
        + "]}"@
}

/// The include entries of the files whose path contains `file`, ignoring case, in graph order.
pub open spec fn files_matching(
    incs: Seq<(Seq<char>, Seq<IncludeEdgeV>)>,
    file: Seq<char>,
) -> Seq<(Seq<char>, Seq<IncludeEdgeV>)> {
    incs.filter(|e: (Seq<char>, Seq<IncludeEdgeV>)| contains_ci(e.0, file))
}

fn include_json_exec(e: &IncludeEdge) -> (r: String)
    ensures
        r@ == include_json(e.deep_view()),
{
    let mut s = owned("{\"path\":");
    let q = json_quote(e.path.as_str());
    push_str(&mut s, q.as_str());
    push_str(&mut s, ",\"is_system\":");
    push_json_bool(&mut s, e.is_system);
    push_str(&mut s, "}");
    s
}

fn file_includes_json_exec(f: &(String, Vec<IncludeEdge>)) -> (r: String)
    ensures
        r@ == file_includes_json(f.deep_view()),
{
    let ghost ev = f.1.deep_view();
    let mut parts: Vec<String> = Vec::new();
    let mut i: usize = 0;
    while i < f.1.len()
        invariant
            i <= ev.len(),
            ev == f.1.deep_view(),
            parts.deep_view() == ev.take(i as int).map_values(|e: IncludeEdgeV| include_json(e)),
        decreases ev.len() - i,
    {
        let p = include_json_exec(&f.1[i]);
        let ghost before = parts.deep_view();
        parts.push(p);
        i += 1;
        proof {
            assert(ev.take(i as int) =~= ev.take(i - 1).push(ev[i - 1]));
            assert(parts.deep_view() =~= before.push(p@));
            assert(parts.deep_view() =~= ev.take(i as int).map_values(|e: IncludeEdgeV| include_json(e)));
        }
    }
    assert(ev.take(ev.len() as int) =~= ev);
    let mut s = owned("{\"file\":");
    let q = json_quote(f.0.as_str());
    push_str(&mut s, q.as_str());
    push_str(&mut s, ",\"includes\":[");
    let body = join_strings(&parts, ",");
    push_str(&mut s, body.as_str());
    push_str(&mut s, "]}");
    s
}

/// What the files whose path contains `file` (ignoring case) include, ordered by path, as
/// `{"results":[{"file":..,"includes":[{"path":..,"is_system":..}]}]}`.
#[verifier::spinoff_prover]
#[verifier::rlimit(30)]
pub fn get_includes(graph: &CallGraph, params: GetIncludesParams) -> (r: String)
    ensures
        files_matching(graph@.includes, params.file@).len() == 0 ==> r@ == json_error(
            "No indexed files matching '"@ + params.file@ + "'"@,
        ),
        files_matching(graph@.includes, params.file@).len() > 0 ==> exists|t: Seq<(Seq<char>, Seq<IncludeEdgeV>)>|
            t.to_multiset() == files_matching(graph@.includes, params.file@).to_multiset() && by_path(t) && r@ == "{\"results\":["@ + join(
                t.map_values(|f: (Seq<char>, Seq<IncludeEdgeV>)| file_includes_json(f)),
                ","@,
            ) + "]}"@,
{
    let GetIncludesParams { file } = params;
    let results = graph.get_includes(file.as_str());
    let ghost t = results.deep_view();
    proof {
        assert(t.to_multiset().len() == t.len());
        assert(files_matching(graph@.includes, file@).to_multiset().len() == files_matching(graph@.includes, file@).len());
    }
    if results.len() == 0 {
        let msg = concat3("No indexed files matching '", file.as_str(), "'");
        return json_error_exec(msg.as_str());
    }
    let mut parts: Vec<String> = Vec::new();
    let mut i: usize = 0;
    while i < results.len()
        invariant
            i <= t.len(),
            t == results.deep_view(),
            parts.deep_view() == t.take(i as int).map_values(|f: (Seq<char>, Seq<IncludeEdgeV>)| file_includes_json(f)),
        decreases t.len() - i,
    {
        let p = file_includes_json_exec(results[i]);
        let ghost before = parts.deep_view();
        parts.push(p);
        i += 1;
        proof {
            assert(t.take(i as int) =~= t.take(i - 1).push(t[i - 1]));
            assert(parts.deep_view() =~= before.push(p@));
            assert(parts.deep_view() =~= t.take(i as int).map_values(
                |f: (Seq<char>, Seq<IncludeEdgeV>)| file_includes_json(f),
            ));
        }
    }
    assert(t.take(t.len() as int) =~= t);
    let body = join_strings(&parts, ",");
    let r = concat3("{\"results\":[", body.as_str(), "]}");
    assert(by_path(t));
    assert(r@ == "{\"results\":["@ + join(
        t.map_values(|f: (Seq<char>, Seq<IncludeEdgeV>)| file_includes_json(f)),
        ","@,
    ) + "]}"@);
    r
}

/// `{"file":..,"path":..,"is_system":..}`.
pub open spec fn includer_json(p: (Seq<char>, IncludeEdgeV)) -> Seq<char> {
    "{\"file\":"@ + json_quoted(p.0) + ",\"path\":"@ + json_quoted(p.1.path) + ",\"is_system\":"@ + json_bool(
        p.1.is_system,
    ) + "}"@
}

/// The files that include a header whose path contains `header` (ignoring case), ordered by
/// file, as `{"header":..,"includers":[{"file":..,"path":..,"is_system":..}]}`.
#[verifier::spinoff_prover]
#[verifier::rlimit(30)]
pub fn get_includers(graph: &CallGraph, params: GetIncludersParams) -> (r: String)
    ensures
        includers_of(graph@.includes, params.header@).len() == 0 ==> r@ == json_error(
            "No files include '"@ + params.header@ + "'"@,
        ),
        includers_of(graph@.includes, params.header@).len() > 0 ==> exists|t: Seq<(Seq<char>, IncludeEdgeV)>|
            t.to_multiset() == includers_of(graph@.includes, params.header@).to_multiset() && by_path(t) && r@ == "{\"header\":"@
                + json_quoted(params.header@) + ",\"includers\":["@ + join(
                t.map_values(|p: (Seq<char>, IncludeEdgeV)| includer_json(p)),
                ","@,
            ) + "]}"@,
{
    let GetIncludersParams { header } = params;
    let results = graph.get_includers(header.as_str());
    let ghost t = results.deep_view();
    proof {
        assert(t.to_multiset().len() == t.len());
        assert(includers_of(graph@.includes, header@).to_multiset().len() == includers_of(graph@.includes, header@).len());
    }
    if results.len() == 0 {
        let msg = concat3("No files include '", header.as_str(), "'");
        return json_error_exec(msg.as_str());
    }
    let mut parts: Vec<String> = Vec::new();
    let mut i: usize = 0;
    while i < results.len()
        invariant
            i <= t.len(),
            t == results.deep_view(),
            parts.deep_view() == t.take(i as int).map_values(|p: (Seq<char>, IncludeEdgeV)| includer_json(p)),
        decreases t.len() - i,
    {
        let (file, edge) = results[i];
        let mut s = owned("{\"file\":");
        let qf = json_quote(file.as_str());
        push_str(&mut s, qf.as_str());
        push_str(&mut s, ",\"path\":");
        let qp = json_quote(edge.path.as_str());
        push_str(&mut s, qp.as_str());
        push_str(&mut s, ",\"is_system\":");
        push_json_bool(&mut s, edge.is_system);
        push_str(&mut s, "}");
        let ghost before = parts.deep_view();
        parts.push(s);
        i += 1;
        proof {
            assert(t.take(i as int) =~= t.take(i - 1).push(t[i - 1]));
            assert(parts.deep_view() =~= before.push(s@));
            assert(parts.deep_view() =~= t.take(i as int).map_values(|p: (Seq<char>, IncludeEdgeV)| includer_json(p)));
        }
    }
    assert(t.take(t.len() as int) =~= t);
    let body = join_strings(&parts, ",");
    let mut r = owned("{\"header\":");
    let qh = json_quote(header.as_str());
    push_str(&mut r, qh.as_str());
    push_str(&mut r, ",\"includers\":[");
    push_str(&mut r, body.as_str());
    push_str(&mut r, "]}");
    assert(by_path(t));
    assert(r@ == "{\"header\":"@ + json_quoted(header@) + ",\"includers\":["@ + join(
        t.map_values(|p: (Seq<char>, IncludeEdgeV)| includer_json(p)),
        ","@,
    ) + "]}"@);
    r
}

} // verus!
