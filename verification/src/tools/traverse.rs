//! Batch call-graph traversals over the codebase graph: the callers or callees of several
//! functions at once.
use vstd::prelude::*;

use crate::graph::bfs::{within, Vertex};
use crate::graph::codebase::{name_succ, no_file, CodebaseGraph, CodebaseGraphV};
use crate::order::{sort_strings, sorted_strs};
use crate::server::tools::traverse::lemma_same_names;
use crate::text::{owned, push_str, str_eq};
use crate::tools::annotate::dedup;

verus! {

broadcast use {vstd::seq_lib::group_seq_properties, Seq::lemma_filter_push};

pub struct CallersParams {
    /// One or more function names — batch all related lookups into one call
    pub names: Vec<String>,
    /// BFS traversal depth (default: 1)
    pub depth: Option<u32>,
}

pub struct CalleesParams {
    /// One or more function names — batch all related lookups into one call
    pub names: Vec<String>,
    /// BFS traversal depth (default: 1)
    pub depth: Option<u32>,
}

pub struct TraverseParams {
    /// One or more function names — batch all related lookups into one call
    pub names: Vec<String>,
    /// BFS traversal depth (default: 1)
    pub depth: Option<u32>,
    /// "callers" — who calls these functions; "callees" — what these functions call
    pub direction: String,
}

/// `x` is within `depth` calls of `name`, following callers or callees.
pub open spec fn related(g: CodebaseGraphV, callers: bool, name: Seq<char>, depth: nat, x: Seq<char>) -> bool {
    within(
        |v: Vertex| name_succ(if callers { g.callers } else { g.callees }, v),
        (name, no_file()),
        depth,
    ).contains((x, no_file()))
}

/// Something is within `depth` calls of `name`.
pub open spec fn has_related(g: CodebaseGraphV, callers: bool, name: Seq<char>, depth: nat) -> bool {
    exists|x: Seq<char>| related(g, callers, name, depth, x)
}

/// `v` lists, once each and sorted, what is within `depth` calls of `name`.
pub open spec fn related_list(g: CodebaseGraphV, callers: bool, name: Seq<char>, depth: nat, v: Seq<Seq<char>>) -> bool {
    &&& v.no_duplicates()
    &&& sorted_strs(v)
    &&& forall|x: Seq<char>| v.contains(x) <==> related(g, callers, name, depth, x)
}

/// The answer for `names`: one entry per name that has something related, in order of first
/// mention, each with its related names.
pub open spec fn relationships_ok(
    g: CodebaseGraphV,
    callers: bool,
    names: Seq<Seq<char>>,
    depth: nat,
    r: Seq<(Seq<char>, Seq<Seq<char>>)>,
) -> bool {
    &&& r.map_values(|e: (Seq<char>, Seq<Seq<char>>)| e.0) == dedup(
        names.filter(|n: Seq<char>| has_related(g, callers, n, depth)),
    )
    &&& forall|i: int| 0 <= i < r.len() ==> related_list(g, callers, (#[trigger] r[i]).0, depth, r[i].1)
}

/// The related names of each of `names` that has any.
fn collect_relationships(graph: &CodebaseGraph, names: &Vec<String>, depth: usize, callers: bool) -> (r: Result<
    Vec<(String, Vec<String>)>,
    String,
>)
    ensures
        match r {
            Ok(v) => relationships_ok(graph@, callers, names.deep_view(), depth as nat, v.deep_view()) && v@.len() > 0,
            Err(e) => e@ == (if callers {
                "No callers found for any of the given functions"@
            } else {
                "No callees found for any of the given functions"@
            }) && relationships_ok(
                graph@,
                callers,
                names.deep_view(),
                depth as nat,
                Seq::empty(),
            ),
        },
{
    let ghost nv = names.deep_view();
    let ghost pred = |n: Seq<char>| has_related(graph@, callers, n, depth as nat);
    let mut result: Vec<(String, Vec<String>)> = Vec::new();
    let mut i: usize = 0;
    proof {
        assert(nv.take(0).filter(pred) =~= Seq::<Seq<char>>::empty());
        assert(result.deep_view().map_values(|e: (Seq<char>, Seq<Seq<char>>)| e.0) =~= Seq::<Seq<char>>::empty());
    }
    while i < names.len()
        invariant
            i <= nv.len(),
            nv == names.deep_view(),
            pred == (|n: Seq<char>| has_related(graph@, callers, n, depth as nat)),
            relationships_ok(graph@, callers, nv.take(i as int), depth as nat, result.deep_view()),
        decreases nv.len() - i,
    {
        let name = &names[i];
        let rels = if callers {
            graph.get_callers(name.as_str(), depth)
        } else {
            graph.get_callees(name.as_str(), depth)
        };
        proof {
            assert(nv.take(i + 1) =~= nv.take(i as int).push(name@));
            assert(forall|x: Seq<char>| rels.deep_view().contains(x) <==> related(graph@, callers, name@, depth as nat, x));
        }
        let ghost before = result.deep_view();
        let ghost keys0 = before.map_values(|e: (Seq<char>, Seq<Seq<char>>)| e.0);
        if rels.len() > 0 {
            proof {
                assert(rels.deep_view().contains(rels.deep_view()[0]));
                assert(related(graph@, callers, name@, depth as nat, rels.deep_view()[0]));
                assert(pred(name@));
            }
            let ghost rv = rels.deep_view();
            let sorted = sort_strings(rels);
            proof {
                lemma_same_names(sorted.deep_view(), rv);
                assert(related_list(graph@, callers, name@, depth as nat, sorted.deep_view()));
            }
            let mut k: usize = 0;
            while k < result.len() && !str_eq(result[k].0.as_str(), name.as_str())
                invariant
                    k <= result@.len(),
                    result.deep_view() == before,
                    forall|j: int| 0 <= j < k ==> before[j].0 != name@,
                decreases result@.len() - k,
            {
                k += 1;
            }
            let ghost sv = sorted.deep_view();
            if k < result.len() {
                result.set(k, (name.clone(), sorted));
                proof {
                    assert(before[k as int].0 == name@);
                    assert(result.deep_view() =~= before.update(k as int, (name@, sv)));
                    assert(result.deep_view().map_values(|e: (Seq<char>, Seq<Seq<char>>)| e.0) =~= keys0);
                    assert(keys0[k as int] == name@);
                    assert(keys0.contains(name@));
                    assert(nv.take(i + 1).filter(pred) =~= nv.take(i as int).filter(pred).push(name@));
                    assert(nv.take(i + 1).filter(pred).drop_last() =~= nv.take(i as int).filter(pred));
                    assert(dedup(nv.take(i + 1).filter(pred)) == keys0);
                    let rv2 = result.deep_view();
                    assert forall|j: int| 0 <= j < rv2.len() implies related_list(
                        graph@,
                        callers,
                        (#[trigger] rv2[j]).0,
                        depth as nat,
                        rv2[j].1,
                    ) by {
                        if j != k {
                            assert(rv2[j] == before[j]);
                        }
                    }
                }
            } else {
                result.push((name.clone(), sorted));
                proof {
                    assert(result.deep_view() =~= before.push((name@, sv)));
                    assert(result.deep_view().map_values(|e: (Seq<char>, Seq<Seq<char>>)| e.0) =~= keys0.push(name@));
                    assert(!keys0.contains(name@)) by {
                        if keys0.contains(name@) {
                            let j = choose|j: int| 0 <= j < keys0.len() && keys0[j] == name@;
                            assert(before[j].0 == name@);
                        }
                    }
                    assert(nv.take(i + 1).filter(pred) =~= nv.take(i as int).filter(pred).push(name@));
                    assert(nv.take(i + 1).filter(pred).drop_last() =~= nv.take(i as int).filter(pred));
                    assert(dedup(nv.take(i + 1).filter(pred)) == keys0.push(name@));
                    let rv2 = result.deep_view();
                    assert forall|j: int| 0 <= j < rv2.len() implies related_list(
                        graph@,
                        callers,
                        (#[trigger] rv2[j]).0,
                        depth as nat,
                        rv2[j].1,
                    ) by {
                        if j < before.len() {
                            assert(rv2[j] == before[j]);
                        }
                    }
                }
            }
        } else {
            proof {
                assert(!pred(name@)) by {
                    if pred(name@) {
                        let x = choose|x: Seq<char>| related(graph@, callers, name@, depth as nat, x);
                        assert(rels.deep_view().contains(x));
                    }
                }
                assert(nv.take(i + 1).filter(pred) =~= nv.take(i as int).filter(pred));
            }
        }
        i += 1;
    }
    proof {
        assert(nv.take(nv.len() as int) =~= nv);
    }
    if result.len() == 0 {
        let e = if callers {
            owned("No callers found for any of the given functions")
        } else {
            owned("No callees found for any of the given functions")
        };
        proof {
            assert(result.deep_view() =~= Seq::<(Seq<char>, Seq<Seq<char>>)>::empty());
        }
        return Err(e);
    }
    Ok(result)
}

/// The traversal depth asked for: the given one, 1 by default.
pub open spec fn depth_or_one(d: Option<u32>) -> nat {
    match d {
        Some(x) => x as nat,
        None => 1,
    }
}

/// For each of `params.names` that has callers within the depth (1 by default): its callers,
/// sorted.
pub fn get_callers(graph: &CodebaseGraph, params: CallersParams) -> (r: Result<Vec<(String, Vec<String>)>, String>)
    ensures
        match r {
            Ok(v) => relationships_ok(graph@, true, params.names.deep_view(), depth_or_one(params.depth), v.deep_view())
                && v@.len() > 0,
            Err(e) => e@ == "No callers found for any of the given functions"@ && relationships_ok(
                graph@,
                true,
                params.names.deep_view(),
                depth_or_one(params.depth),
                Seq::empty(),
            ),
        },
{
    let d: u32 = match params.depth {
        Some(x) => x,
        None => 1,
    };
    collect_relationships(graph, &params.names, d as usize, true)
}

/// For each of `params.names` that has callees within the depth (1 by default): its callees,
/// sorted.
pub fn get_callees(graph: &CodebaseGraph, params: CalleesParams) -> (r: Result<Vec<(String, Vec<String>)>, String>)
    ensures
        match r {
            Ok(v) => relationships_ok(graph@, false, params.names.deep_view(), depth_or_one(params.depth), v.deep_view())
                && v@.len() > 0,
            Err(e) => e@ == "No callees found for any of the given functions"@ && relationships_ok(
                graph@,
                false,
                params.names.deep_view(),
                depth_or_one(params.depth),
                Seq::empty(),
            ),
        },
{
    let d: u32 = match params.depth {
        Some(x) => x,
        None => 1,
    };
    collect_relationships(graph, &params.names, d as usize, false)
}

/// Callers or callees of several functions, by `params.direction`.
pub fn traverse(graph: &CodebaseGraph, params: TraverseParams) -> (r: Result<Vec<(String, Vec<String>)>, String>)
    ensures
        params.direction@ == "callers"@ ==> match r {
            Ok(v) => relationships_ok(graph@, true, params.names.deep_view(), depth_or_one(params.depth), v.deep_view())
                && v@.len() > 0,
            Err(e) => e@ == "No callers found for any of the given functions"@ && relationships_ok(
                graph@,
                true,
                params.names.deep_view(),
                depth_or_one(params.depth),
                Seq::empty(),
            ),
        },
        params.direction@ == "callees"@ ==> match r {
            Ok(v) => relationships_ok(graph@, false, params.names.deep_view(), depth_or_one(params.depth), v.deep_view())
                && v@.len() > 0,
            Err(e) => e@ == "No callees found for any of the given functions"@ && relationships_ok(
                graph@,
                false,
                params.names.deep_view(),
                depth_or_one(params.depth),
                Seq::empty(),
            ),
        },
        params.direction@ != "callers"@ && params.direction@ != "callees"@ ==> (r matches Err(e) && e@
            == "direction must be 'callers' or 'callees', got '"@ + params.direction@ + "'"@),
{
    let TraverseParams { names, depth, direction } = params;
    proof {
        reveal_strlit("callers");
        reveal_strlit("callees");
    }
    if str_eq(direction.as_str(), "callers") {
        get_callers(graph, CallersParams { names, depth })
    } else if str_eq(direction.as_str(), "callees") {
        proof {
            assert("callees"@ != "callers"@) by {
                reveal_strlit("callees");
                reveal_strlit("callers");
                assert("callees"@[5] != "callers"@[5]);
            }
        }
        get_callees(graph, CalleesParams { names, depth })
    } else {
        let mut e = owned("direction must be 'callers' or 'callees', got '");
        push_str(&mut e, direction.as_str());
        push_str(&mut e, "'");
        Err(e)
    }
}

} // verus!
