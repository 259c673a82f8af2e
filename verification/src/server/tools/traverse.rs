//! Call-graph traversals, answered as JSON: callers and callees within a depth, and a shortest
//! call path.
use vstd::prelude::*;

use crate::graph::bfs::{within, Vertex};
use crate::graph::call_graph::{pair_succ, CallGraph};
use crate::graph::codebase::no_file;
use crate::graph::path::path_between;

use crate::server::tools::{concat3, json_error, json_error_exec, json_quote, json_quoted, json_strings, json_strings_exec};
use crate::order::{sort_strings, sorted_strs};
use crate::text::{owned, push_str};

verus! {

broadcast use vstd::seq_lib::group_seq_properties;

pub struct TraverseParams {
    /// Function name
    pub name: String,
    /// BFS traversal depth (default: 1)
    pub depth: Option<u32>,
}

pub struct GetPathParams {
    /// Starting function name
    pub from: String,
    /// Target function name
    pub to: String,
}

/// The traversal depth asked for: the given one, 1 by default.
pub open spec fn depth_of(d: Option<u32>) -> nat {
    match d {
        Some(x) => x as nat,
        None => 1,
    }
}

/// `t` lists, once each, the names within `depth` steps of `name` along `pairs`, `name` excepted.
pub open spec fn reach_list(t: Seq<Seq<char>>, pairs: Seq<(Seq<char>, Seq<char>)>, name: Seq<char>, depth: nat) -> bool {
    &&& t.no_duplicates()
    &&& forall|n: Seq<char>|
        t.contains(n) <==> within(|v: Vertex| pair_succ(pairs, v), (name, no_file()), depth).contains((n, no_file()))
}

/// The traversal answer: `{"function":name,"<key>":[..]}`, or `{"error":none_msg}` when the list
/// is empty.
pub open spec fn traverse_json(t: Seq<Seq<char>>, name: Seq<char>, key: Seq<char>, none_msg: Seq<char>) -> Seq<char> {
    if t.len() == 0 {
        json_error(none_msg)
    } else {
        "{\"function\":"@ + json_quoted(name) + ",\""@ + key + "\":"@ + json_strings(t) + "}"@
    }
}

/// Sorts the names and renders the traversal answer.
fn traverse_answer(names: Vec<String>, name: &str, key: &str, none_msg: &str) -> (r: String)
    ensures
        exists|t: Seq<Seq<char>>|
            t.to_multiset() == names.deep_view().to_multiset() && sorted_strs(t) && r@ == traverse_json(
                t,
                name@,
                key@,
                none_msg@,
            ),
{
    let sorted = sort_strings(names);
    let ghost t = sorted.deep_view();
    assert(sorted_strs(t));
    if sorted.len() == 0 {
        return json_error_exec(none_msg);
    }
    let mut s = owned("{\"function\":");
    let q = json_quote(name);
    push_str(&mut s, q.as_str());
    push_str(&mut s, ",\"");
    push_str(&mut s, key);
    push_str(&mut s, "\":");
    let list = json_strings_exec(&sorted);
    push_str(&mut s, list.as_str());
    push_str(&mut s, "}");
    s
}

/// A list with the same elements as a list without repeats, and no repeats itself, holds the
/// same names.
pub proof fn lemma_same_names(t: Seq<Seq<char>>, u: Seq<Seq<char>>)
    requires
        t.to_multiset() == u.to_multiset(),
        u.no_duplicates(),
    ensures
        t.no_duplicates(),
        forall|n: Seq<char>| t.contains(n) <==> u.contains(n),
{
    assert forall|n: Seq<char>| t.contains(n) <==> u.contains(n) by {
        assert(t.contains(n) <==> t.to_multiset().count(n) > 0);
        assert(u.contains(n) <==> u.to_multiset().count(n) > 0);
    }
    u.lemma_multiset_has_no_duplicates();
    t.lemma_multiset_has_no_duplicates_conv();
}

/// Every function that reaches `name` in at most `depth` calls (1 by default), sorted, as
/// `{"function":name,"callers":[..]}`.
pub fn get_callers(graph: &CallGraph, params: TraverseParams) -> (r: String)
    ensures
        exists|t: Seq<Seq<char>>|
            reach_list(t, graph@.callers, params.name@, depth_of(params.depth)) && sorted_strs(t) && r@ == traverse_json(
                t,
                params.name@,
                "callers"@,
                "No callers found for '"@ + params.name@ + "'"@,
            ),
{
    let TraverseParams { name, depth } = params;
    let d: u32 = match depth {
        Some(x) => x,
        None => 1,
    };
    let callers = graph.get_callers(name.as_str(), d as usize);
    let msg = concat3("No callers found for '", name.as_str(), "'");
    let r = traverse_answer(callers, name.as_str(), "callers", msg.as_str());
    proof {
        let t = choose|t: Seq<Seq<char>>|
            t.to_multiset() == callers.deep_view().to_multiset() && sorted_strs(t) && r@ == traverse_json(
                t,
                name@,
                "callers"@,
                msg@,
            );
        lemma_same_names(t, callers.deep_view());
        assert(reach_list(t, graph@.callers, name@, depth_of(depth)));
    }
    r
}

/// Every function that `name` reaches in at most `depth` calls (1 by default), sorted, as
/// `{"function":name,"callees":[..]}`.
pub fn get_callees(graph: &CallGraph, params: TraverseParams) -> (r: String)
    ensures
        exists|t: Seq<Seq<char>>|
            reach_list(t, graph@.callees, params.name@, depth_of(params.depth)) && sorted_strs(t) && r@ == traverse_json(
                t,
                params.name@,
                "callees"@,
                "No callees found for '"@ + params.name@ + "'"@,
            ),
{
    let TraverseParams { name, depth } = params;
    let d: u32 = match depth {
        Some(x) => x,
        None => 1,
    };
    let callees = graph.get_callees(name.as_str(), d as usize);
    let msg = concat3("No callees found for '", name.as_str(), "'");
    let r = traverse_answer(callees, name.as_str(), "callees", msg.as_str());
    proof {
        let t = choose|t: Seq<Seq<char>>|
            t.to_multiset() == callees.deep_view().to_multiset() && sorted_strs(t) && r@ == traverse_json(
                t,
                name@,
                "callees"@,
                msg@,
            );
        lemma_same_names(t, callees.deep_view());
        assert(reach_list(t, graph@.callees, name@, depth_of(depth)));
    }
    r
}

/// `{"from":..,"to":..,"path":[..]}`.
pub open spec fn path_json(from: Seq<char>, to: Seq<char>, p: Seq<Seq<char>>) -> Seq<char> {
    "{\"from\":"@ + json_quoted(from) + ",\"to\":"@ + json_quoted(to) + ",\"path\":"@ + json_strings(p) + "}"@
}

/// A shortest call path from `from` to `to`, or an error when there is none.
pub fn get_path(graph: &CallGraph, params: GetPathParams) -> (r: String)
    ensures
        (forall|q: Seq<Seq<char>>| !path_between(graph@.callees, q, params.from@, params.to@)) ==> r@ == json_error(
            "No call path from '"@ + params.from@ + "' to '"@ + params.to@ + "'"@,
        ),
        (exists|q: Seq<Seq<char>>| path_between(graph@.callees, q, params.from@, params.to@)) ==> exists|p: Seq<Seq<char>>|
            path_between(graph@.callees, p, params.from@, params.to@) && (forall|q: Seq<Seq<char>>|
                path_between(graph@.callees, q, params.from@, params.to@) ==> p.len() <= q.len()) && r@ == path_json(
                params.from@,
                params.to@,
                p,
            ),
{
    let GetPathParams { from, to } = params;
    match graph.find_path(from.as_str(), to.as_str()) {
        Some(path) => {
            let mut s = owned("{\"from\":");
            let qf = json_quote(from.as_str());
            push_str(&mut s, qf.as_str());
            push_str(&mut s, ",\"to\":");
            let qt = json_quote(to.as_str());
            push_str(&mut s, qt.as_str());
            push_str(&mut s, ",\"path\":");
            let list = json_strings_exec(&path);
            push_str(&mut s, list.as_str());
            push_str(&mut s, "}");
            proof {
                let pv = path.deep_view();
                assert(path_between(graph@.callees, pv, from@, to@));
                assert(pv.len() == path@.len());
                assert(forall|q: Seq<Seq<char>>| path_between(graph@.callees, q, from@, to@) ==> pv.len() <= q.len());
                assert(s@ == path_json(from@, to@, pv));
            }
            s
        },
        None => {
            let mut m = concat3("No call path from '", from.as_str(), "' to '");
            push_str(&mut m, to.as_str());
            push_str(&mut m, "'");
            json_error_exec(m.as_str())
        },
    }
}

} // verus!
