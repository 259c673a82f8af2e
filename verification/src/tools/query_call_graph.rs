//! `query_call_graph`: the callers and/or callees of one function definition, file-aware.
use vstd::prelude::*;

use crate::graph::bfs::{nearer_first, within, Vertex};
use crate::graph::codebase::{file_succ, CodebaseGraph, CodebaseGraphV, Direction};
use crate::graph::types::{CallEdge, CallEdgeV, FunctionNode, FunctionNodeV};
use crate::text::{contains_ci, lower_chars, lowercase, owned, push_str, str_eq};
use crate::tools::get_source::file_ok;
use crate::tools::{extract_fn_signature, fn_signature};

verus! {

broadcast use {vstd::seq_lib::group_seq_properties, Seq::lemma_filter_push};

/// The request: a function name, optionally a file to pick its definition, the direction
/// (`callers`, `callees` or `both`) and the depth (1 when absent).
pub struct QueryCallGraphParams {
    pub name: String,
    pub file: Option<String>,
    pub direction: String,
    pub depth: Option<u32>,
}

/// A function reached, its file, and (at depth 1) the line of the call.
pub struct RelatedEntry {
    pub name: String,
    pub file: String,
    pub line: Option<u32>,
}

pub struct RelatedEntryV {
    pub name: Seq<char>,
    pub file: Seq<char>,
    pub line: Option<u32>,
}

impl DeepView for RelatedEntry {
    type V = RelatedEntryV;

    open spec fn deep_view(&self) -> RelatedEntryV {
        RelatedEntryV { name: self.name@, file: self.file@, line: self.line }
    }
}

/// One definition of an ambiguous name.
pub struct Candidate {
    pub name: String,
    pub kind: String,
    pub file: String,
    pub signature: String,
}

pub struct CandidateV {
    pub name: Seq<char>,
    pub kind: Seq<char>,
    pub file: Seq<char>,
    pub signature: Seq<char>,
}

impl DeepView for Candidate {
    type V = CandidateV;

    open spec fn deep_view(&self) -> CandidateV {
        CandidateV { name: self.name@, kind: self.kind@, file: self.file@, signature: self.signature@ }
    }
}

/// The callers and callees of the definition found.
pub struct CallGraphReport {
    pub name: String,
    pub file: String,
    pub callers: Option<Vec<RelatedEntry>>,
    pub callees: Option<Vec<RelatedEntry>>,
}

/// The answer to a `query_call_graph` request.
pub enum CallGraphAnswer {
    Error(String),
    Ambiguous(Vec<Candidate>),
    Report(CallGraphReport),
}

/// The line of the first edge under `key` to `name` made from `file`.
pub open spec fn edge_line(edges: Seq<(Seq<char>, CallEdgeV)>, key: Seq<char>, name: Seq<char>, file: Seq<char>) -> Option<u32>
    decreases edges.len(),
{
    if edges.len() == 0 {
        None
    } else if edges[0].0 == key && edges[0].1.name == name && edges[0].1.caller_file == file {
        Some(edges[0].1.line)
    } else {
        edge_line(edges.drop_first(), key, name, file)
    }
}

/// The call line reported for `(name, file)` reached from `node`: at depth 1 the line of the
/// first matching edge (for callers, a call made from `file`; for callees, a call made from the
/// node's own file); none at greater depths.
pub open spec fn entry_line(g: CodebaseGraphV, node: FunctionNodeV, depth: usize, callers: bool, name: Seq<char>, file: Seq<char>) -> Option<u32> {
    if depth == 1 {
        if callers {
            edge_line(g.callers, node.name, name, file)
        } else {
            edge_line(g.callees, node.name, name, node.file)
        }
    } else {
        None
    }
}

/// The traversal direction.
pub open spec fn dir_of(callers: bool) -> Direction {
    if callers {
        Direction::Callers
    } else {
        Direction::Callees
    }
}

/// The definitions named `name` in files passing the filter.
pub open spec fn candidates(g: CodebaseGraphV, name: Seq<char>, filter: Option<Seq<char>>) -> Seq<FunctionNodeV> {
    g.nodes.filter(|n: FunctionNodeV| n.name == name && file_ok(filter, n.file))
}

/// Some definition is named `name`.
pub open spec fn has_name(g: CodebaseGraphV, name: Seq<char>) -> bool {
    exists|i: int| 0 <= i < g.nodes.len() && g.nodes[i].name == name
}

pub open spec fn candidate_of(n: FunctionNodeV) -> CandidateV {
    CandidateV { name: n.name, kind: "function"@, file: n.file, signature: fn_signature(n.source) }
}

fn edge_line_exec(edges: &Vec<(String, CallEdge)>, key: &String, name: &String, file: &String) -> (r: Option<u32>)
    ensures
        r == edge_line(edges.deep_view(), key@, name@, file@),
{
    let ghost ev = edges.deep_view();
    let mut i: usize = 0;
    while i < edges.len()
        invariant
            ev == edges.deep_view(),
            i <= ev.len(),
            edge_line(ev, key@, name@, file@) == edge_line(ev.skip(i as int), key@, name@, file@),
        decreases ev.len() - i,
    {
        proof {
            assert(ev.skip(i as int).drop_first() =~= ev.skip(i + 1));
            assert(ev.skip(i as int)[0] == ev[i as int]);
        }
        if edges[i].0 == *key && edges[i].1.name == *name && edges[i].1.caller_file == *file {
            return Some(edges[i].1.line);
        }
        i += 1;
    }
    None
}

/// The functions reached from the definition `node`, each with its file and (at depth 1) the
/// line of the call.
pub fn build_entries(graph: &CodebaseGraph, node: &FunctionNode, depth: usize, is_callers: bool) -> (r: Vec<RelatedEntry>)
    ensures
        r.deep_view().map_values(|e: RelatedEntryV| (e.name, e.file)).no_duplicates(),
        r.deep_view().map_values(|e: RelatedEntryV| (e.name, e.file)).to_set() == within(
            |v: Vertex| file_succ(graph@, dir_of(is_callers), v),
            (node.name@, node.file@),
            depth as nat,
        ),
        nearer_first(
            |v: Vertex| file_succ(graph@, dir_of(is_callers), v),
            (node.name@, node.file@),
            r.deep_view().map_values(|e: RelatedEntryV| (e.name, e.file)),
        ),
        forall|i: int|
            0 <= i < r@.len() ==> #[trigger] r.deep_view()[i].line == entry_line(
                graph@,
                node.deep_view(),
                depth,
                is_callers,
                r.deep_view()[i].name,
                r.deep_view()[i].file,
            ),
{
    let entries = if is_callers {
        graph.get_callers_from(node.name.as_str(), node.file.as_str(), depth)
    } else {
        graph.get_callees_from(node.name.as_str(), node.file.as_str(), depth)
    };
    let ghost es = entries.deep_view();
    let mut r: Vec<RelatedEntry> = Vec::new();
    let mut i: usize = 0;
    while i < entries.len()
        invariant
            es == entries.deep_view(),
            i <= es.len(),
            r.deep_view().map_values(|e: RelatedEntryV| (e.name, e.file)) == es.take(i as int),
            forall|j: int|
                0 <= j < r@.len() ==> #[trigger] r.deep_view()[j].line == entry_line(
                    graph@,
                    node.deep_view(),
                    depth,
                    is_callers,
                    r.deep_view()[j].name,
                    r.deep_view()[j].file,
                ),
        decreases es.len() - i,
    {
        let name = &entries[i].0;
        let file = &entries[i].1;
        let line = if depth == 1 {
            if is_callers {
                edge_line_exec(&graph.callers, &node.name, name, file)
            } else {
                edge_line_exec(&graph.callees, &node.name, name, &node.file)
            }
        } else {
            None
        };
        let ghost before = r.deep_view();
        let e = RelatedEntry { name: name.clone(), file: file.clone(), line };
        r.push(e);
        proof {
            assert(r.deep_view() =~= before.push(e.deep_view()));
            assert(es.take(i + 1) =~= es.take(i as int).push(es[i as int]));
            assert(r.deep_view().map_values(|e: RelatedEntryV| (e.name, e.file)) =~= es.take(i + 1));
        }
        i += 1;
    }
    proof {
        assert(es.take(es.len() as int) =~= es);
    }
    r
}

/// The file filter as the exec code holds it: lower-cased, or absent.
spec fn filter_matches(q: Option<Vec<char>>, filter: Option<Seq<char>>) -> bool {
    match filter {
        Some(f) => q matches Some(v) && v@ == lowercase(f),
        None => q is None,
    }
}

fn file_ok_q(q: &Option<Vec<char>>, file: &str, Ghost(filter): Ghost<Option<Seq<char>>>) -> (r: bool)
    requires
        filter_matches(*q, filter),
    ensures
        r == file_ok(filter, file@),
{
    match q {
        Some(v) => crate::text::lower_contains(file, v),
        None => true,
    }
}

/// The callers and/or callees of the function named `params.name` (its definition in a file
/// matching `params.file`, when given), to `params.depth` levels (1 by default). An error when
/// no definition has the name or none matches the file; the candidates when several do.
pub fn query_call_graph(graph: &CodebaseGraph, params: QueryCallGraphParams) -> (r: CallGraphAnswer)
    ensures
        ({
            let cs = candidates(graph@, params.name@, params.file.deep_view());
            let depth: usize = match params.depth {
                Some(d) => d as usize,
                None => 1,
            };
            match r {
                CallGraphAnswer::Error(m) => if !has_name(graph@, params.name@) {
                    m@ == "function '"@ + params.name@ + "' not found"@
                } else {
                    cs.len() == 0 && m@ == "function '"@ + params.name@ + "' not found in files matching '"@ + match params.file {
                        Some(f) => f@,
                        None => Seq::empty(),
                    } + "'"@
                },
                CallGraphAnswer::Ambiguous(v) => has_name(graph@, params.name@) && cs.len() > 1 && v.deep_view()
                    == cs.map_values(|n: FunctionNodeV| candidate_of(n)),
                CallGraphAnswer::Report(rep) => {
                    &&& has_name(graph@, params.name@)
                    &&& cs.len() == 1
                    &&& rep.name@ == params.name@
                    &&& rep.file@ == cs[0].file
                    &&& (rep.callers is Some <==> (params.direction@ == "callers"@ || params.direction@ == "both"@))
                    &&& (rep.callees is Some <==> (params.direction@ == "callees"@ || params.direction@ == "both"@))
                    &&& (rep.callers matches Some(v) ==> {
                        &&& v.deep_view().map_values(|e: RelatedEntryV| (e.name, e.file)).no_duplicates()
                        &&& v.deep_view().map_values(|e: RelatedEntryV| (e.name, e.file)).to_set() == within(
                            |x: Vertex| file_succ(graph@, Direction::Callers, x),
                            (cs[0].name, cs[0].file),
                            depth as nat,
                        )
                        &&& nearer_first(
                            |x: Vertex| file_succ(graph@, Direction::Callers, x),
                            (cs[0].name, cs[0].file),
                            v.deep_view().map_values(|e: RelatedEntryV| (e.name, e.file)),
                        )
                        &&& forall|i: int| 0 <= i < v@.len() ==> #[trigger] v.deep_view()[i].line == entry_line(
                            graph@, cs[0], depth, true, v.deep_view()[i].name, v.deep_view()[i].file)
                    })
                    &&& (rep.callees matches Some(v) ==> {
                        &&& v.deep_view().map_values(|e: RelatedEntryV| (e.name, e.file)).no_duplicates()
                        &&& v.deep_view().map_values(|e: RelatedEntryV| (e.name, e.file)).to_set() == within(
                            |x: Vertex| file_succ(graph@, Direction::Callees, x),
                            (cs[0].name, cs[0].file),
                            depth as nat,
                        )
                        &&& nearer_first(
                            |x: Vertex| file_succ(graph@, Direction::Callees, x),
                            (cs[0].name, cs[0].file),
                            v.deep_view().map_values(|e: RelatedEntryV| (e.name, e.file)),
                        )
                        &&& forall|i: int| 0 <= i < v@.len() ==> #[trigger] v.deep_view()[i].line == entry_line(
                            graph@, cs[0], depth, false, v.deep_view()[i].name, v.deep_view()[i].file)
                    })
                },
            }
        }),
{
    let QueryCallGraphParams { name, file, direction, depth } = params;
    let depth: usize = match depth {
        Some(d) => d as usize,
        None => 1,
    };
    let ghost filter = file.deep_view();
    let q: Option<Vec<char>> = match &file {
        Some(f) => Some(lower_chars(f.as_str())),
        None => None,
    };
    let ghost pred = |n: FunctionNodeV| n.name == name@ && file_ok(filter, n.file);
    let mut found = false;
    let mut cands: Vec<&FunctionNode> = Vec::new();
    let mut i: usize = 0;
    while i < graph.nodes.len()
        invariant
            filter == file.deep_view(),
            filter_matches(q, filter),
            pred == (|n: FunctionNodeV| n.name == name@ && file_ok(filter, n.file)),
            i <= graph@.nodes.len(),
            found == exists|j: int| 0 <= j < i && graph@.nodes[j].name == name@,
            cands.deep_view() == graph@.nodes.take(i as int).filter(pred),
            forall|j: int| 0 <= j < cands@.len() ==> pred(#[trigger] cands.deep_view()[j]),
            forall|j: int| 0 <= j < cands@.len() ==> graph@.nodes.contains(#[trigger] cands.deep_view()[j]),
        decreases graph@.nodes.len() - i,
    {
        let n = &graph.nodes[i];
        proof {
            assert(graph@.nodes.take(i + 1) =~= graph@.nodes.take(i as int).push(n.deep_view()));
            assert(graph.nodes@[i as int].deep_view() == graph@.nodes[i as int]);
        }
        if n.name == name {
            found = true;
            if file_ok_q(&q, n.file.as_str(), Ghost(filter)) {
                let ghost before = cands.deep_view();
                cands.push(n);
                proof {
                    assert(cands.deep_view() =~= before.push(n.deep_view()));
                    assert(graph@.nodes[i as int] == n.deep_view());
                }
            }
        }
        i += 1;
        proof {
            assert(cands.deep_view() =~= graph@.nodes.take(i as int).filter(pred));
        }
    }
    proof {
        assert(graph@.nodes.take(graph@.nodes.len() as int) =~= graph@.nodes);
    }
    if !found {
        let mut m = owned("function '");
        push_str(&mut m, name.as_str());
        push_str(&mut m, "' not found");
        return CallGraphAnswer::Error(m);
    }
    if cands.len() == 0 {
        let mut m = owned("function '");
        push_str(&mut m, name.as_str());
        push_str(&mut m, "' not found in files matching '");
        match &file {
            Some(f) => push_str(&mut m, f.as_str()),
            None => {},
        }
        push_str(&mut m, "'");
        proof {
            if file is None {
                assert(m@ =~= "function '"@ + name@ + "' not found in files matching '"@ + Seq::<char>::empty() + "'"@);
            }
        }
        return CallGraphAnswer::Error(m);
    }
    if cands.len() > 1 {
        let mut v: Vec<Candidate> = Vec::new();
        let mut k: usize = 0;
        while k < cands.len()
            invariant
                k <= cands@.len(),
                pred == (|n: FunctionNodeV| n.name == name@ && file_ok(filter, n.file)),
                forall|j: int| 0 <= j < cands@.len() ==> pred(#[trigger] cands.deep_view()[j]),
                forall|j: int| 0 <= j < cands@.len() ==> graph@.nodes.contains(#[trigger] cands.deep_view()[j]),
                v.deep_view() == cands.deep_view().take(k as int).map_values(|n: FunctionNodeV| candidate_of(n)),
            decreases cands@.len() - k,
        {
            let c = cands[k];
            proof {
                let cv = cands.deep_view()[k as int];
                assert(pred(cv));
            }
            let sig = extract_fn_signature(c.source.as_str());
            let ghost before = v.deep_view();
            let cand = Candidate { name: c.name.clone(), kind: owned("function"), file: c.file.clone(), signature: sig };
            v.push(cand);
            proof {
                reveal_strlit("function");
                assert(v.deep_view() =~= before.push(candidate_of(cands.deep_view()[k as int])));
                assert(cands.deep_view().take(k + 1) =~= cands.deep_view().take(k as int).push(cands.deep_view()[k as int]));
            }
            k += 1;
        }
        proof {
            assert(cands.deep_view().take(cands@.len() as int) =~= cands.deep_view());
        }
        return CallGraphAnswer::Ambiguous(v);
    }
    let node = cands[0];
    let include_callers = str_eq(direction.as_str(), "callers") || str_eq(direction.as_str(), "both");
    let include_callees = str_eq(direction.as_str(), "callees") || str_eq(direction.as_str(), "both");
    let callers = if include_callers {
        Some(build_entries(graph, node, depth, true))
    } else {
        None
    };
    let callees = if include_callees {
        Some(build_entries(graph, node, depth, false))
    } else {
        None
    };
    CallGraphAnswer::Report(CallGraphReport { name, file: node.file.clone(), callers, callees })
}

} // verus!
