//! The code graph of a whole codebase: functions, call edges in both directions, symbols,
//! types and globals.
use vstd::prelude::*;

use crate::graph::bfs::{bfs, nearer_first, within, Successors, Vertex};
use crate::graph::types::{
    CallEdge, CallEdgeV, FileGraph, FileGraphV, FunctionNode, FunctionNodeV, GlobalVar, GlobalVarV,
    SymbolNode, SymbolNodeV, TypeNode, TypeNodeV,
};
use crate::text::{contains_ci, contains_word, contains_word_spec, lower_chars, lower_contains, owned};

verus! {

broadcast use {vstd::seq_lib::group_seq_properties, Seq::lemma_filter_push};

/// The graph of a codebase. Entries sharing a name are kept in the order they were added.
pub struct CodebaseGraph {
    /// All function definitions (same-name static functions of different files included)
    pub nodes: Vec<FunctionNode>,
    /// Reverse edges: (callee, edge naming a caller, the call line and the caller's file)
    pub callers: Vec<(String, CallEdge)>,
    /// Forward edges: (caller, edge naming a callee, the call line and the caller's file)
    pub callees: Vec<(String, CallEdge)>,
    /// `#define` constants, function-like macros and enum values
    pub symbols: Vec<SymbolNode>,
    /// struct / union / enum / typedef definitions
    pub types: Vec<TypeNode>,
    /// File-scope variable declarations
    pub globals: Vec<GlobalVar>,
}

pub struct CodebaseGraphV {
    pub nodes: Seq<FunctionNodeV>,
    pub callers: Seq<(Seq<char>, CallEdgeV)>,
    pub callees: Seq<(Seq<char>, CallEdgeV)>,
    pub symbols: Seq<SymbolNodeV>,
    pub types: Seq<TypeNodeV>,
    pub globals: Seq<GlobalVarV>,
}

impl View for CodebaseGraph {
    type V = CodebaseGraphV;

    open spec fn view(&self) -> CodebaseGraphV {
        CodebaseGraphV {
            nodes: self.nodes.deep_view(),
            callers: self.callers.deep_view(),
            callees: self.callees.deep_view(),
            symbols: self.symbols.deep_view(),
            types: self.types.deep_view(),
            globals: self.globals.deep_view(),
        }
    }
}

/// The graph with nothing in it.
pub open spec fn empty_graph() -> CodebaseGraphV {
    CodebaseGraphV {
        nodes: Seq::empty(),
        callers: Seq::empty(),
        callees: Seq::empty(),
        symbols: Seq::empty(),
        types: Seq::empty(),
        globals: Seq::empty(),
    }
}

/// Which way a traversal follows call edges.
#[derive(PartialEq, Eq, Structural, Clone, Copy)]
pub enum Direction {
    Callers,
    Callees,
}

/// The empty path, the file of a vertex where files play no part.
pub open spec fn no_file() -> Seq<char> {
    Seq::empty()
}

/// The reverse of a forward edge list: each (caller, edge to callee) becomes
/// (callee, edge to caller) with the same line and caller file.
pub open spec fn reverse_edges(s: Seq<(Seq<char>, CallEdgeV)>) -> Seq<(Seq<char>, CallEdgeV)> {
    s.map_values(
        |p: (Seq<char>, CallEdgeV)|
            (p.1.name, CallEdgeV { name: p.0, line: p.1.line, caller_file: p.1.caller_file }),
    )
}

/// The neighbours of `name` along `edges`, in edge order, among the first `k` edges.
pub open spec fn name_succ_upto(edges: Seq<(Seq<char>, CallEdgeV)>, name: Seq<char>, k: int) -> Seq<Vertex>
    decreases k,
{
    if k <= 0 {
        Seq::empty()
    } else {
        let rest = name_succ_upto(edges, name, k - 1);
        if edges[k - 1].0 == name {
            rest.push((edges[k - 1].1.name, no_file()))
        } else {
            rest
        }
    }
}

/// The neighbours of a vertex along `edges`, ignoring files.
pub open spec fn name_succ(edges: Seq<(Seq<char>, CallEdgeV)>, v: Vertex) -> Seq<Vertex> {
    name_succ_upto(edges, v.0, edges.len() as int)
}

/// The `is_static` flag of the first function named `name` defined in `file`; false when none is.
pub open spec fn static_in_file(nodes: Seq<FunctionNodeV>, name: Seq<char>, file: Seq<char>) -> bool
    decreases nodes.len(),
{
    if nodes.len() == 0 {
        false
    } else if nodes[0].name == name && nodes[0].file == file {
        nodes[0].is_static
    } else {
        static_in_file(nodes.drop_first(), name, file)
    }
}

/// Some function named `name` is defined in `file`.
pub open spec fn defined_in(nodes: Seq<FunctionNodeV>, name: Seq<char>, file: Seq<char>) -> bool {
    exists|i: int| 0 <= i < nodes.len() && nodes[i].name == name && nodes[i].file == file
}

/// The file of the first function named `name`; the empty path when there is none.
pub open spec fn first_file(nodes: Seq<FunctionNodeV>, name: Seq<char>) -> Seq<char>
    decreases nodes.len(),
{
    if nodes.len() == 0 {
        no_file()
    } else if nodes[0].name == name {
        nodes[0].file
    } else {
        first_file(nodes.drop_first(), name)
    }
}

/// Where a call from a function in `current_file` to `callee` lands: `current_file` when a
/// function of that name is defined there, else the file of the first function of that name.
pub open spec fn callee_file(nodes: Seq<FunctionNodeV>, callee: Seq<char>, current_file: Seq<char>) -> Seq<char> {
    if defined_in(nodes, callee, current_file) {
        current_file
    } else {
        first_file(nodes, callee)
    }
}

/// The edge list a traversal in direction `dir` follows.
pub open spec fn dir_edges(g: CodebaseGraphV, dir: Direction) -> Seq<(Seq<char>, CallEdgeV)> {
    match dir {
        Direction::Callers => g.callers,
        Direction::Callees => g.callees,
    }
}

/// File-aware traversal keeps an edge when: following callees, the call is made from the
/// current file; following callers, the current function is not static or the caller is in
/// the same file.
pub open spec fn keep_edge(g: CodebaseGraphV, dir: Direction, v: Vertex, e: CallEdgeV) -> bool {
    match dir {
        Direction::Callees => e.caller_file == v.1,
        Direction::Callers => !static_in_file(g.nodes, v.0, v.1) || e.caller_file == v.1,
    }
}

/// The file of the vertex an edge leads to.
pub open spec fn next_file(g: CodebaseGraphV, dir: Direction, v: Vertex, e: CallEdgeV) -> Seq<char> {
    match dir {
        Direction::Callees => callee_file(g.nodes, e.name, v.1),
        Direction::Callers => e.caller_file,
    }
}

/// File-aware neighbours of `v` among the first `k` edges of direction `dir`.
pub open spec fn file_succ_upto(g: CodebaseGraphV, dir: Direction, v: Vertex, k: int) -> Seq<Vertex>
    decreases k,
{
    if k <= 0 {
        Seq::empty()
    } else {
        let rest = file_succ_upto(g, dir, v, k - 1);
        let p = dir_edges(g, dir)[k - 1];
        if p.0 == v.0 && keep_edge(g, dir, v, p.1) {
            rest.push((p.1.name, next_file(g, dir, v, p.1)))
        } else {
            rest
        }
    }
}

/// File-aware neighbours of `v` in direction `dir`.
pub open spec fn file_succ(g: CodebaseGraphV, dir: Direction, v: Vertex) -> Seq<Vertex> {
    file_succ_upto(g, dir, v, dir_edges(g, dir).len() as int)
}

/// The first function named `name` with `file == path`, if any, and its `is_static` flag.
fn static_flag(nodes: &Vec<FunctionNode>, name: &String, file: &String) -> (r: bool)
    ensures
        r == static_in_file(nodes.deep_view(), name@, file@),
{
    let mut i: usize = 0;
    while i < nodes.len()
        invariant
            i <= nodes@.len(),
            static_in_file(nodes.deep_view(), name@, file@) == static_in_file(
                nodes.deep_view().skip(i as int),
                name@,
                file@,
            ),
        decreases nodes@.len() - i,
    {
        let ghost rest = nodes.deep_view().skip(i as int);
        if nodes[i].name == *name && nodes[i].file == *file {
            assert(rest[0] == nodes.deep_view()[i as int]);
            return nodes[i].is_static;
        }
        assert(rest.drop_first() =~= nodes.deep_view().skip(i + 1));
        i += 1;
    }
    false
}

/// `callee_file` in executable form.
fn find_callee_file(nodes: &Vec<FunctionNode>, callee: &String, current_file: &String) -> (r: String)
    ensures
        r@ == callee_file(nodes.deep_view(), callee@, current_file@),
{
    let ghost nv = nodes.deep_view();
    let mut i: usize = 0;
    while i < nodes.len()
        invariant
            nv == nodes.deep_view(),
            i <= nodes@.len(),
            forall|j: int| 0 <= j < i ==> !(nv[j].name == callee@ && nv[j].file == current_file@),
        decreases nodes@.len() - i,
    {
        if nodes[i].name == *callee && nodes[i].file == *current_file {
            assert(nv[i as int].name == callee@ && nv[i as int].file == current_file@);
            assert(defined_in(nv, callee@, current_file@));
            return current_file.clone();
        }
        i += 1;
    }
    assert(!defined_in(nv, callee@, current_file@));
    let mut k: usize = 0;
    while k < nodes.len()
        invariant
            nv == nodes.deep_view(),
            k <= nodes@.len(),
            !defined_in(nv, callee@, current_file@),
            first_file(nv, callee@) == first_file(nv.skip(k as int), callee@),
        decreases nodes@.len() - k,
    {
        let ghost rest = nv.skip(k as int);
        if nodes[k].name == *callee {
            assert(rest[0] == nv[k as int]);
            assert(rest.len() > 0);
            return nodes[k].file.clone();
        }
        assert(rest.drop_first() =~= nv.skip(k + 1));
        k += 1;
    }
    assert(nv.skip(nodes@.len() as int) =~= Seq::<FunctionNodeV>::empty());
    String::new()
}

/// Name-only traversal over one edge list.
pub struct NameSteps<'a> {
    pub edges: &'a Vec<(String, CallEdge)>,
}

impl<'a> Successors for NameSteps<'a> {
    open spec fn succ(&self, v: Vertex) -> Seq<Vertex> {
        name_succ(self.edges.deep_view(), v)
    }

    fn successors(&self, v: &(String, String)) -> (r: Vec<(String, String)>) {
        let ghost ev = self.edges.deep_view();
        let mut r: Vec<(String, String)> = Vec::new();
        let mut i: usize = 0;
        while i < self.edges.len()
            invariant
                ev == self.edges.deep_view(),
                i <= ev.len(),
                r.deep_view() == name_succ_upto(ev, v.0@, i as int),
            decreases ev.len() - i,
        {
            if self.edges[i].0 == v.0 {
                r.push((self.edges[i].1.name.clone(), String::new()));
            }
            i += 1;
            proof {
                assert(r.deep_view() =~= name_succ_upto(ev, v.0@, i as int));
            }
        }
        r
    }
}

/// File-aware traversal over a codebase graph.
pub struct FileSteps<'a> {
    pub graph: &'a CodebaseGraph,
    pub dir: Direction,
}

impl<'a> Successors for FileSteps<'a> {
    open spec fn succ(&self, v: Vertex) -> Seq<Vertex> {
        file_succ(self.graph@, self.dir, v)
    }

    fn successors(&self, v: &(String, String)) -> (r: Vec<(String, String)>) {
        let g = self.graph;
        let edges = match self.dir {
            Direction::Callers => &g.callers,
            Direction::Callees => &g.callees,
        };
        let ghost ev = edges.deep_view();
        let is_static = static_flag(&g.nodes, &v.0, &v.1);
        let mut r: Vec<(String, String)> = Vec::new();
        let mut i: usize = 0;
        while i < edges.len()
            invariant
                ev == edges.deep_view(),
                ev == dir_edges(g@, self.dir),
                is_static == static_in_file(g@.nodes, v.0@, v.1@),
                i <= ev.len(),
                r.deep_view() == file_succ_upto(g@, self.dir, v.deep_view(), i as int),
            decreases ev.len() - i,
        {
            let e = &edges[i].1;
            if edges[i].0 == v.0 {
                let keep = match self.dir {
                    Direction::Callees => e.caller_file == v.1,
                    Direction::Callers => !is_static || e.caller_file == v.1,
                };
                if keep {
                    let nf = match self.dir {
                        Direction::Callees => find_callee_file(&g.nodes, &e.name, &v.1),
                        Direction::Callers => e.caller_file.clone(),
                    };
                    r.push((e.name.clone(), nf));
                }
            }
            i += 1;
            proof {
                assert(r.deep_view() =~= file_succ_upto(g@, self.dir, v.deep_view(), i as int));
            }
        }
        r
    }
}

/// Every vertex reachable along name-only edges has the empty file.
proof fn lemma_name_reach_no_file(
    edges: Seq<(Seq<char>, CallEdgeV)>,
    f: spec_fn(Vertex) -> Seq<Vertex>,
    start: Seq<char>,
    k: nat,
)
    requires
        forall|v: Vertex| #[trigger] f(v) == name_succ(edges, v),
    ensures
        forall|w: Vertex| #[trigger]
            crate::graph::bfs::reach(f, (start, no_file()), k).contains(w) ==> w.1 == no_file(),
    decreases k,
{
    if k > 0 {
        lemma_name_reach_no_file(edges, f, start, (k - 1) as nat);
        assert forall|w: Vertex| #[trigger]
            crate::graph::bfs::reach(f, (start, no_file()), k).contains(w) implies w.1 == no_file() by {
            let r0 = crate::graph::bfs::reach(f, (start, no_file()), (k - 1) as nat);
            if !r0.contains(w) {
                let v = choose|v: Vertex| r0.contains(v) && #[trigger] f(v).contains(w);
                lemma_name_succ_no_file(edges, v.0, edges.len() as int);
            }
        }
    }
}

proof fn lemma_name_succ_no_file(edges: Seq<(Seq<char>, CallEdgeV)>, name: Seq<char>, k: int)
    ensures
        forall|w: Vertex| #[trigger] name_succ_upto(edges, name, k).contains(w) ==> w.1 == no_file(),
    decreases k,
{
    if k > 0 {
        lemma_name_succ_no_file(edges, name, k - 1);
        let rest = name_succ_upto(edges, name, k - 1);
        assert forall|w: Vertex| #[trigger] name_succ_upto(edges, name, k).contains(w) implies w.1
            == no_file() by {
            let cur = name_succ_upto(edges, name, k);
            let idx = choose|idx: int| 0 <= idx < cur.len() && cur[idx] == w;
            if idx < rest.len() {
                assert(rest[idx] == w);
                assert(rest.contains(w));
            }
        }
    }
}

/// A traversal from `name` over name-only `edges`, reported as names.
fn name_bfs(edges: &Vec<(String, CallEdge)>, name: &str, depth: usize) -> (r: Vec<String>)
    ensures
        r.deep_view().no_duplicates(),
        forall|n: Seq<char>|
            r.deep_view().contains(n) <==> within(
                |v: Vertex| name_succ(edges.deep_view(), v),
                (name@, no_file()),
                depth as nat,
            ).contains((n, no_file())),
        nearer_first(
            |v: Vertex| name_succ(edges.deep_view(), v),
            (name@, no_file()),
            r.deep_view().map_values(|n: Seq<char>| (n, no_file())),
        ),
{
    let steps = NameSteps { edges };
    let start = (owned(name), String::new());
    let vs = bfs(&steps, &start, depth);
    let ghost f = |v: Vertex| name_succ(edges.deep_view(), v);
    let ghost s = (name@, no_file());
    proof {
        assert(start.deep_view() == s);
        assert((|v: Vertex| steps.succ(v)) =~= f);
        lemma_name_reach_no_file(edges.deep_view(), f, name@, depth as nat);
    }
    let mut r: Vec<String> = Vec::new();
    let mut i: usize = 0;
    while i < vs.len()
        invariant
            i <= vs@.len(),
            r.deep_view() == vs.deep_view().take(i as int).map_values(|w: Vertex| w.0),
        decreases vs@.len() - i,
    {
        let ghost or = r.deep_view();
        r.push(vs[i].0.clone());
        i += 1;
        proof {
            assert(r.deep_view() =~= or.push(vs.deep_view()[i - 1].0));
            assert(vs.deep_view().take(i as int) =~= vs.deep_view().take(i - 1).push(vs.deep_view()[i - 1]));
            assert(r.deep_view() =~= vs.deep_view().take(i as int).map_values(|w: Vertex| w.0));
        }
    }
    proof {
        let vd = vs.deep_view();
        assert(vd.take(vd.len() as int) =~= vd);
        assert forall|w: Vertex| vd.contains(w) implies w.1 == no_file() by {
            assert(vd.to_set().contains(w));
            assert(crate::graph::bfs::reach(f, s, depth as nat).contains(w));
        }
        assert(vd =~= r.deep_view().map_values(|n: Seq<char>| (n, no_file()))) by {
            assert forall|q: int| 0 <= q < vd.len() implies vd[q] == (r.deep_view()[q], no_file()) by {
                assert(vd.contains(vd[q]));
            }
        }
        assert forall|a: int, b: int| 0 <= a < b < r.deep_view().len() implies r.deep_view()[a]
            != r.deep_view()[b] by {
            assert(vd.contains(vd[a]));
            assert(vd.contains(vd[b]));
        }
        assert forall|n: Seq<char>| r.deep_view().contains(n) <==> within(f, s, depth as nat).contains(
            (n, no_file()),
        ) by {
            if r.deep_view().contains(n) {
                let k = choose|k: int| 0 <= k < r.deep_view().len() && r.deep_view()[k] == n;
                assert(vd.contains(vd[k]));
                assert(vd[k] == (n, no_file()));
                assert(vd.to_set().contains(vd[k]));
            }
            if within(f, s, depth as nat).contains((n, no_file())) {
                assert(vd.to_set().contains((n, no_file())));
                let k = choose|k: int| 0 <= k < vd.len() && vd[k] == (n, no_file());
                assert(r.deep_view()[k] == n);
            }
        }
    }
    r
}

impl CodebaseGraph {
    /// An empty graph.
    pub fn new() -> (g: Self)
        ensures
            g@.nodes.len() == 0,
            g@.callers.len() == 0,
            g@.callees.len() == 0,
            g@.symbols.len() == 0,
            g@.types.len() == 0,
            g@.globals.len() == 0,
    {
        CodebaseGraph {
            nodes: Vec::new(),
            callers: Vec::new(),
            callees: Vec::new(),
            symbols: Vec::new(),
            types: Vec::new(),
            globals: Vec::new(),
        }
    }

    pub fn insert_node(&mut self, node: FunctionNode)
        ensures
            final(self)@ == (CodebaseGraphV { nodes: old(self)@.nodes.push(node.deep_view()), ..old(self)@ }),
    {
        self.nodes.push(node);
        assert(self@.nodes =~= old(self)@.nodes.push(node.deep_view()));
    }

    /// Records a call from `caller` (defined in `caller_file`) to `callee` at `line`, in both directions.
    pub fn add_edge(&mut self, caller: &str, callee: &str, line: u32, caller_file: String)
        ensures
            final(self)@ == (CodebaseGraphV {
                callees: old(self)@.callees.push(
                    (caller@, CallEdgeV { name: callee@, line, caller_file: caller_file@ }),
                ),
                callers: old(self)@.callers.push(
                    (callee@, CallEdgeV { name: caller@, line, caller_file: caller_file@ }),
                ),
                ..old(self)@
            }),
    {
        let f2 = caller_file.clone();
        self.callees.push((owned(caller), CallEdge { name: owned(callee), line, caller_file }));
        self.callers.push((owned(callee), CallEdge { name: owned(caller), line, caller_file: f2 }));
        proof {
            assert(self@.callees =~= old(self)@.callees.push(
                (caller@, CallEdgeV { name: callee@, line, caller_file: caller_file@ }),
            ));
            assert(self@.callers =~= old(self)@.callers.push(
                (callee@, CallEdgeV { name: caller@, line, caller_file: caller_file@ }),
            ));
        }
    }

    pub fn clear(&mut self)
        ensures
            final(self)@ == empty_graph(),
    {
        self.nodes.clear();
        self.callers.clear();
        self.callees.clear();
        self.symbols.clear();
        self.types.clear();
        self.globals.clear();
        proof {
            assert(self@.nodes =~= Seq::empty());
            assert(self@.callers =~= Seq::empty());
            assert(self@.callees =~= Seq::empty());
            assert(self@.symbols =~= Seq::empty());
            assert(self@.types =~= Seq::empty());
            assert(self@.globals =~= Seq::empty());
        }
    }

    /// Adds everything a file contributes, after what is already there; each call edge is
    /// recorded in both directions.
    pub fn add_file_graph(&mut self, fg: FileGraph)
        ensures
            final(self)@ == (CodebaseGraphV {
                nodes: old(self)@.nodes + fg@.nodes,
                callers: old(self)@.callers + reverse_edges(fg@.callees),
                callees: old(self)@.callees + fg@.callees,
                symbols: old(self)@.symbols + fg@.symbols,
                types: old(self)@.types + fg@.types,
                globals: old(self)@.globals + fg@.globals,
            }),
    {
        let mut fg = fg;
        let ghost fv = fg@;
        let ghost c0 = self@.callers;
        let mut i: usize = 0;
        while i < fg.callees.len()
            invariant
                fv.callees == fg.callees.deep_view(),
                i <= fv.callees.len(),
                self@ == (CodebaseGraphV { callers: c0 + reverse_edges(fv.callees.take(i as int)), ..old(self)@ }),
            decreases fv.callees.len() - i,
        {
            let caller = fg.callees[i].0.clone();
            let callee = fg.callees[i].1.name.clone();
            let line = fg.callees[i].1.line;
            let file = fg.callees[i].1.caller_file.clone();
            let ghost before = self@.callers;
            self.callers.push((callee, CallEdge { name: caller, line, caller_file: file }));
            proof {
                let e = fv.callees[i as int];
                let r = (e.1.name, CallEdgeV { name: e.0, line: e.1.line, caller_file: e.1.caller_file });
                assert(self@.callers =~= before.push(r));
                assert(fv.callees.take(i + 1) =~= fv.callees.take(i as int).push(e));
                assert(reverse_edges(fv.callees.take(i + 1)) =~= reverse_edges(fv.callees.take(i as int)).push(r));
                assert(self@.callers =~= c0 + reverse_edges(fv.callees.take(i + 1)));
            }
            i += 1;
        }
        proof {
            assert(fv.callees.take(fv.callees.len() as int) =~= fv.callees);
        }
        self.nodes.append(&mut fg.nodes);
        self.callees.append(&mut fg.callees);
        self.symbols.append(&mut fg.symbols);
        self.types.append(&mut fg.types);
        self.globals.append(&mut fg.globals);
        proof {
            assert(self@.nodes =~= old(self)@.nodes + fv.nodes);
            assert(self@.callees =~= old(self)@.callees + fv.callees);
            assert(self@.symbols =~= old(self)@.symbols + fv.symbols);
            assert(self@.types =~= old(self)@.types + fv.types);
            assert(self@.globals =~= old(self)@.globals + fv.globals);
        }
    }

    /// Moves everything of `other` into this graph, after what is already there.
    pub fn merge(&mut self, other: CodebaseGraph)
        ensures
            final(self)@ == (CodebaseGraphV {
                nodes: old(self)@.nodes + other@.nodes,
                callers: old(self)@.callers + other@.callers,
                callees: old(self)@.callees + other@.callees,
                symbols: old(self)@.symbols + other@.symbols,
                types: old(self)@.types + other@.types,
                globals: old(self)@.globals + other@.globals,
            }),
    {
        let mut other = other;
        let ghost o = other@;
        self.nodes.append(&mut other.nodes);
        self.callers.append(&mut other.callers);
        self.callees.append(&mut other.callees);
        self.symbols.append(&mut other.symbols);
        self.types.append(&mut other.types);
        self.globals.append(&mut other.globals);
        proof {
            assert(self@.nodes =~= old(self)@.nodes + o.nodes);
            assert(self@.callers =~= old(self)@.callers + o.callers);
            assert(self@.callees =~= old(self)@.callees + o.callees);
            assert(self@.symbols =~= old(self)@.symbols + o.symbols);
            assert(self@.types =~= old(self)@.types + o.types);
            assert(self@.globals =~= old(self)@.globals + o.globals);
        }
    }

    pub fn insert_global(&mut self, var: GlobalVar)
        ensures
            final(self)@ == (CodebaseGraphV { globals: old(self)@.globals.push(var.deep_view()), ..old(self)@ }),
    {
        self.globals.push(var);
        assert(self@.globals =~= old(self)@.globals.push(var.deep_view()));
    }

    pub fn insert_type(&mut self, node: TypeNode)
        ensures
            final(self)@ == (CodebaseGraphV { types: old(self)@.types.push(node.deep_view()), ..old(self)@ }),
    {
        self.types.push(node);
        assert(self@.types =~= old(self)@.types.push(node.deep_view()));
    }

    pub fn insert_symbol(&mut self, node: SymbolNode)
        ensures
            final(self)@ == (CodebaseGraphV { symbols: old(self)@.symbols.push(node.deep_view()), ..old(self)@ }),
    {
        self.symbols.push(node);
        assert(self@.symbols =~= old(self)@.symbols.push(node.deep_view()));
    }

    /// Functions whose name contains `query`, ignoring case, in graph order.
    pub fn find_function(&self, query: &str) -> (r: Vec<&FunctionNode>)
        ensures
            r.deep_view() == self@.nodes.filter(|n: FunctionNodeV| contains_ci(n.name, query@)),
    {
        let q = lower_chars(query);
        let ghost pred = |n: FunctionNodeV| contains_ci(n.name, query@);
        let mut r: Vec<&FunctionNode> = Vec::new();
        let mut i: usize = 0;
        while i < self.nodes.len()
            invariant
                i <= self@.nodes.len(),
                q@ == crate::text::lowercase(query@),
                pred == (|n: FunctionNodeV| contains_ci(n.name, query@)),
                r.deep_view() == self@.nodes.take(i as int).filter(pred),
            decreases self@.nodes.len() - i,
        {
            let n = &self.nodes[i];
            proof {
                assert(self@.nodes.take(i + 1) =~= self@.nodes.take(i as int).push(n.deep_view()));
            }
            if lower_contains(n.name.as_str(), &q) {
                r.push(n);
            }
            i += 1;
            proof {
                assert(r.deep_view() =~= self@.nodes.take(i as int).filter(pred));
            }
        }
        assert(self@.nodes.take(self@.nodes.len() as int) =~= self@.nodes);
        r
    }

    /// Functions defined in files whose path contains `filename`, ignoring case, in graph order.
    pub fn find_functions_in_file(&self, filename: &str) -> (r: Vec<&FunctionNode>)
        ensures
            r.deep_view() == self@.nodes.filter(|n: FunctionNodeV| contains_ci(n.file, filename@)),
    {
        let q = lower_chars(filename);
        let ghost pred = |n: FunctionNodeV| contains_ci(n.file, filename@);
        let mut r: Vec<&FunctionNode> = Vec::new();
        let mut i: usize = 0;
        while i < self.nodes.len()
            invariant
                i <= self@.nodes.len(),
                q@ == crate::text::lowercase(filename@),
                pred == (|n: FunctionNodeV| contains_ci(n.file, filename@)),
                r.deep_view() == self@.nodes.take(i as int).filter(pred),
            decreases self@.nodes.len() - i,
        {
            let n = &self.nodes[i];
            proof {
                assert(self@.nodes.take(i + 1) =~= self@.nodes.take(i as int).push(n.deep_view()));
            }
            if lower_contains(n.file.as_str(), &q) {
                r.push(n);
            }
            i += 1;
            proof {
                assert(r.deep_view() =~= self@.nodes.take(i as int).filter(pred));
            }
        }
        assert(self@.nodes.take(self@.nodes.len() as int) =~= self@.nodes);
        r
    }

    /// Every function that reaches `name` in at most `depth` calls, each reported once.
    pub fn get_callers(&self, name: &str, depth: usize) -> (r: Vec<String>)
        ensures
            r.deep_view().no_duplicates(),
            forall|n: Seq<char>|
                r.deep_view().contains(n) <==> within(
                    |v: Vertex| name_succ(self@.callers, v),
                    (name@, no_file()),
                    depth as nat,
                ).contains((n, no_file())),
            nearer_first(
                |v: Vertex| name_succ(self@.callers, v),
                (name@, no_file()),
                r.deep_view().map_values(|n: Seq<char>| (n, no_file())),
            ),
    {
        self.bfs(name, depth, Direction::Callers)
    }

    /// Every function that `name` reaches in at most `depth` calls, each reported once.
    pub fn get_callees(&self, name: &str, depth: usize) -> (r: Vec<String>)
        ensures
            r.deep_view().no_duplicates(),
            forall|n: Seq<char>|
                r.deep_view().contains(n) <==> within(
                    |v: Vertex| name_succ(self@.callees, v),
                    (name@, no_file()),
                    depth as nat,
                ).contains((n, no_file())),
            nearer_first(
                |v: Vertex| name_succ(self@.callees, v),
                (name@, no_file()),
                r.deep_view().map_values(|n: Seq<char>| (n, no_file())),
            ),
    {
        self.bfs(name, depth, Direction::Callees)
    }

    fn bfs(&self, start: &str, depth: usize, dir: Direction) -> (r: Vec<String>)
        ensures
            r.deep_view().no_duplicates(),
            forall|n: Seq<char>|
                r.deep_view().contains(n) <==> within(
                    |v: Vertex| name_succ(dir_edges(self@, dir), v),
                    (start@, no_file()),
                    depth as nat,
                ).contains((n, no_file())),
            nearer_first(
                |v: Vertex| name_succ(dir_edges(self@, dir), v),
                (start@, no_file()),
                r.deep_view().map_values(|n: Seq<char>| (n, no_file())),
            ),
    {
        let edges = match dir {
            Direction::Callers => &self.callers,
            Direction::Callees => &self.callees,
        };
        name_bfs(edges, start, depth)
    }

    /// File-aware traversal towards callers: static functions only count callers of their own file.
    pub fn get_callers_from(&self, name: &str, file: &str, depth: usize) -> (r: Vec<(String, String)>)
        ensures
            r.deep_view().no_duplicates(),
            r.deep_view().to_set() == within(
                |v: Vertex| file_succ(self@, Direction::Callers, v),
                (name@, file@),
                depth as nat,
            ),
            nearer_first(|v: Vertex| file_succ(self@, Direction::Callers, v), (name@, file@), r.deep_view()),
    {
        self.bfs_from(name, file, depth, Direction::Callers)
    }

    /// File-aware traversal towards callees: only calls made from the current file are followed,
    /// each landing in the callee's definition in that file when there is one.
    pub fn get_callees_from(&self, name: &str, file: &str, depth: usize) -> (r: Vec<(String, String)>)
        ensures
            r.deep_view().no_duplicates(),
            r.deep_view().to_set() == within(
                |v: Vertex| file_succ(self@, Direction::Callees, v),
                (name@, file@),
                depth as nat,
            ),
            nearer_first(|v: Vertex| file_succ(self@, Direction::Callees, v), (name@, file@), r.deep_view()),
    {
        self.bfs_from(name, file, depth, Direction::Callees)
    }

    fn bfs_from(&self, start: &str, start_file: &str, depth: usize, dir: Direction) -> (r: Vec<(String, String)>)
        ensures
            r.deep_view().no_duplicates(),
            r.deep_view().to_set() == within(
                |v: Vertex| file_succ(self@, dir, v),
                (start@, start_file@),
                depth as nat,
            ),
            nearer_first(|v: Vertex| file_succ(self@, dir, v), (start@, start_file@), r.deep_view()),
    {
        let steps = FileSteps { graph: self, dir };
        let s = (owned(start), owned(start_file));
        let r = bfs(&steps, &s, depth);
        proof {
            assert((|v: Vertex| steps.succ(v)) =~= (|v: Vertex| file_succ(self@, dir, v)));
        }
        r
    }
}

/// The concatenation of the function lists of `fgs`.
pub open spec fn all_nodes(fgs: Seq<FileGraphV>) -> Seq<FunctionNodeV>
    decreases fgs.len(),
{
    if fgs.len() == 0 { Seq::empty() } else { all_nodes(fgs.drop_last()) + fgs.last().nodes }
}

/// The concatenation of the forward edge lists of `fgs`.
pub open spec fn all_callees(fgs: Seq<FileGraphV>) -> Seq<(Seq<char>, CallEdgeV)>
    decreases fgs.len(),
{
    if fgs.len() == 0 { Seq::empty() } else { all_callees(fgs.drop_last()) + fgs.last().callees }
}

pub open spec fn all_symbols(fgs: Seq<FileGraphV>) -> Seq<SymbolNodeV>
    decreases fgs.len(),
{
    if fgs.len() == 0 { Seq::empty() } else { all_symbols(fgs.drop_last()) + fgs.last().symbols }
}

pub open spec fn all_types(fgs: Seq<FileGraphV>) -> Seq<TypeNodeV>
    decreases fgs.len(),
{
    if fgs.len() == 0 { Seq::empty() } else { all_types(fgs.drop_last()) + fgs.last().types }
}

pub open spec fn all_globals(fgs: Seq<FileGraphV>) -> Seq<GlobalVarV>
    decreases fgs.len(),
{
    if fgs.len() == 0 { Seq::empty() } else { all_globals(fgs.drop_last()) + fgs.last().globals }
}

/// The views of a sequence of file graphs.
pub open spec fn file_graphs_view(fgs: Seq<FileGraph>) -> Seq<FileGraphV> {
    fgs.map_values(|fg: FileGraph| fg@)
}

/// Merges per-file graphs into one codebase graph, in order; the reverse edges are derived from
/// the forward ones.
pub fn merge_file_graphs(file_graphs: Vec<FileGraph>) -> (g: CodebaseGraph)
    ensures
        g@.nodes == all_nodes(file_graphs_view(file_graphs@)),
        g@.callees == all_callees(file_graphs_view(file_graphs@)),
        g@.callers == reverse_edges(all_callees(file_graphs_view(file_graphs@))),
        g@.symbols == all_symbols(file_graphs_view(file_graphs@)),
        g@.types == all_types(file_graphs_view(file_graphs@)),
        g@.globals == all_globals(file_graphs_view(file_graphs@)),
{
    let ghost fv = file_graphs_view(file_graphs@);
    let mut g = CodebaseGraph::new();
    for fg in it: file_graphs
        invariant
            fv == file_graphs_view(it.seq()),
            g@.nodes == all_nodes(fv.take(it.index() as int)),
            g@.callees == all_callees(fv.take(it.index() as int)),
            g@.callers == reverse_edges(all_callees(fv.take(it.index() as int))),
            g@.symbols == all_symbols(fv.take(it.index() as int)),
            g@.types == all_types(fv.take(it.index() as int)),
            g@.globals == all_globals(fv.take(it.index() as int)),
    {
        let ghost idx = it.index();
        let ghost fgv = fg@;
        let mut fg = fg;
        let ghost pre = fv.take(idx as int);
        proof {
            assert(fv.take(idx + 1).drop_last() =~= pre);
            assert(fv.take(idx + 1).last() == fgv);
        }
        let ghost callers0 = g@.callers;
        let ghost callees0 = g@.callees;
        let mut j: usize = 0;
        while j < fg.callees.len()
            invariant
                j <= fg@.callees.len(),
                fg@ == fgv,
                g@.callers == callers0 + reverse_edges(fgv.callees.take(j as int)),
                g@.callees == callees0,
                g@.nodes == all_nodes(pre),
                g@.symbols == all_symbols(pre),
                g@.types == all_types(pre),
                g@.globals == all_globals(pre),
            decreases fg@.callees.len() - j,
        {
            let caller = &fg.callees[j].0;
            let edge = &fg.callees[j].1;
            let ghost oc = g@.callers;
            g.callers.push(
                (edge.name.clone(), CallEdge { name: caller.clone(), line: edge.line, caller_file: edge.caller_file.clone() }),
            );
            j += 1;
            proof {
                let p = fgv.callees[j - 1];
                assert(g@.callers =~= oc.push(
                    (p.1.name, CallEdgeV { name: p.0, line: p.1.line, caller_file: p.1.caller_file }),
                ));
                assert(fgv.callees.take(j as int) =~= fgv.callees.take(j - 1).push(fgv.callees[j - 1]));
                assert(g@.callers =~= callers0 + reverse_edges(fgv.callees.take(j as int)));
            }
        }
        proof {
            assert(fgv.callees.take(fgv.callees.len() as int) =~= fgv.callees);
        }
        let ghost before = g@;
        g.nodes.append(&mut fg.nodes);
        g.callees.append(&mut fg.callees);
        g.symbols.append(&mut fg.symbols);
        g.types.append(&mut fg.types);
        g.globals.append(&mut fg.globals);
        proof {
            let post = fv.take(idx + 1);
            assert(g@.nodes =~= before.nodes + fgv.nodes);
            assert(g@.callees =~= before.callees + fgv.callees);
            assert(g@.symbols =~= before.symbols + fgv.symbols);
            assert(g@.types =~= before.types + fgv.types);
            assert(g@.globals =~= before.globals + fgv.globals);
            assert(reverse_edges(all_callees(pre) + fgv.callees) =~= reverse_edges(all_callees(pre))
                + reverse_edges(fgv.callees));
            assert(g@.callers == reverse_edges(all_callees(post)));
        }
    }
    proof {
        assert(fv.take(fv.len() as int) =~= fv);
    }
    g
}

/// Some function named `fname` mentions `word` as a whole word in its source.
pub open spec fn mentioned_by(nodes: Seq<FunctionNodeV>, fname: Seq<char>, word: Seq<char>) -> bool {
    exists|i: int| 0 <= i < nodes.len() && #[trigger] nodes[i].name == fname && contains_word_spec(nodes[i].source, word)
}

impl CodebaseGraph {
    /// Global variables declared in files whose path contains `filename`, ignoring case, in graph
    /// order.
    pub fn find_globals(&self, filename: &str) -> (r: Vec<&GlobalVar>)
        ensures
            r.deep_view() == self@.globals.filter(|v: GlobalVarV| contains_ci(v.file, filename@)),
    {
        let q = lower_chars(filename);
        let ghost pred = |v: GlobalVarV| contains_ci(v.file, filename@);
        let mut r: Vec<&GlobalVar> = Vec::new();
        let mut i: usize = 0;
        while i < self.globals.len()
            invariant
                i <= self@.globals.len(),
                q@ == crate::text::lowercase(filename@),
                pred == (|v: GlobalVarV| contains_ci(v.file, filename@)),
                r.deep_view() == self@.globals.take(i as int).filter(pred),
            decreases self@.globals.len() - i,
        {
            let v = &self.globals[i];
            proof {
                assert(self@.globals.take(i + 1) =~= self@.globals.take(i as int).push(v.deep_view()));
            }
            if lower_contains(v.file.as_str(), &q) {
                r.push(v);
            }
            i += 1;
            proof {
                assert(r.deep_view() =~= self@.globals.take(i as int).filter(pred));
            }
        }
        assert(self@.globals.take(self@.globals.len() as int) =~= self@.globals);
        r
    }

    /// Functions whose source mentions `name` as a whole word, in graph order.
    pub fn get_global_users(&self, name: &str) -> (r: Vec<&FunctionNode>)
        ensures
            r.deep_view() == self@.nodes.filter(|n: FunctionNodeV| contains_word_spec(n.source, name@)),
    {
        let ghost pred = |n: FunctionNodeV| contains_word_spec(n.source, name@);
        let mut r: Vec<&FunctionNode> = Vec::new();
        let mut i: usize = 0;
        while i < self.nodes.len()
            invariant
                i <= self@.nodes.len(),
                pred == (|n: FunctionNodeV| contains_word_spec(n.source, name@)),
                r.deep_view() == self@.nodes.take(i as int).filter(pred),
            decreases self@.nodes.len() - i,
        {
            let n = &self.nodes[i];
            proof {
                assert(self@.nodes.take(i + 1) =~= self@.nodes.take(i as int).push(n.deep_view()));
            }
            if contains_word(n.source.as_str(), name) {
                r.push(n);
            }
            i += 1;
            proof {
                assert(r.deep_view() =~= self@.nodes.take(i as int).filter(pred));
            }
        }
        assert(self@.nodes.take(self@.nodes.len() as int) =~= self@.nodes);
        r
    }

    /// Does a function named `fname` mention `word` as a whole word?
    fn mentions(&self, fname: &str, word: &str) -> (r: bool)
        ensures
            r == mentioned_by(self@.nodes, fname@, word@),
    {
        let key = owned(fname);
        let mut i: usize = 0;
        while i < self.nodes.len()
            invariant
                i <= self@.nodes.len(),
                key@ == fname@,
                forall|j: int| 0 <= j < i ==> !(#[trigger] self@.nodes[j].name == fname@ && contains_word_spec(self@.nodes[j].source, word@)),
            decreases self@.nodes.len() - i,
        {
            let n = &self.nodes[i];
            if n.name == key && contains_word(n.source.as_str(), word) {
                assert(self@.nodes[i as int].name == fname@);
                return true;
            }
            i += 1;
        }
        false
    }

    /// Global variables that the functions named `name` mention as whole words, in graph order.
    pub fn get_fn_globals(&self, name: &str) -> (r: Vec<&GlobalVar>)
        ensures
            r.deep_view() == self@.globals.filter(|v: GlobalVarV| mentioned_by(self@.nodes, name@, v.name)),
    {
        let ghost pred = |v: GlobalVarV| mentioned_by(self@.nodes, name@, v.name);
        let mut r: Vec<&GlobalVar> = Vec::new();
        let mut i: usize = 0;
        while i < self.globals.len()
            invariant
                i <= self@.globals.len(),
                pred == (|v: GlobalVarV| mentioned_by(self@.nodes, name@, v.name)),
                r.deep_view() == self@.globals.take(i as int).filter(pred),
            decreases self@.globals.len() - i,
        {
            let v = &self.globals[i];
            proof {
                assert(self@.globals.take(i + 1) =~= self@.globals.take(i as int).push(v.deep_view()));
            }
            if self.mentions(name, v.name.as_str()) {
                r.push(v);
            }
            i += 1;
            proof {
                assert(r.deep_view() =~= self@.globals.take(i as int).filter(pred));
            }
        }
        assert(self@.globals.take(self@.globals.len() as int) =~= self@.globals);
        r
    }

    /// Is some function named `name`?
    pub fn has_function(&self, name: &str) -> (r: bool)
        ensures
            r == exists|i: int| 0 <= i < self@.nodes.len() && #[trigger] self@.nodes[i].name == name@,
    {
        let key = owned(name);
        let mut i: usize = 0;
        while i < self.nodes.len()
            invariant
                i <= self@.nodes.len(),
                key@ == name@,
                forall|j: int| 0 <= j < i ==> #[trigger] self@.nodes[j].name != name@,
            decreases self@.nodes.len() - i,
        {
            if self.nodes[i].name == key {
                assert(self@.nodes[i as int].name == name@);
                return true;
            }
            i += 1;
        }
        false
    }
}

impl CodebaseGraph {
    /// Types whose name contains `query`, ignoring case, in graph order.
    pub fn find_type(&self, query: &str) -> (r: Vec<&TypeNode>)
        ensures
            r.deep_view() == self@.types.filter(|t: TypeNodeV| contains_ci(t.name, query@)),
    {
        let q = lower_chars(query);
        let ghost pred = |t: TypeNodeV| contains_ci(t.name, query@);
        let mut r: Vec<&TypeNode> = Vec::new();
        let mut i: usize = 0;
        while i < self.types.len()
            invariant
                i <= self@.types.len(),
                q@ == crate::text::lowercase(query@),
                pred == (|t: TypeNodeV| contains_ci(t.name, query@)),
                r.deep_view() == self@.types.take(i as int).filter(pred),
            decreases self@.types.len() - i,
        {
            let t = &self.types[i];
            proof {
                assert(self@.types.take(i + 1) =~= self@.types.take(i as int).push(t.deep_view()));
            }
            if lower_contains(t.name.as_str(), &q) {
                r.push(t);
            }
            i += 1;
            proof {
                assert(r.deep_view() =~= self@.types.take(i as int).filter(pred));
            }
        }
        assert(self@.types.take(self@.types.len() as int) =~= self@.types);
        r
    }

    /// Symbols whose name contains `query`, ignoring case, in graph order.
    pub fn find_symbol(&self, query: &str) -> (r: Vec<&SymbolNode>)
        ensures
            r.deep_view() == self@.symbols.filter(|t: SymbolNodeV| contains_ci(t.name, query@)),
    {
        let q = lower_chars(query);
        let ghost pred = |t: SymbolNodeV| contains_ci(t.name, query@);
        let mut r: Vec<&SymbolNode> = Vec::new();
        let mut i: usize = 0;
        while i < self.symbols.len()
            invariant
                i <= self@.symbols.len(),
                q@ == crate::text::lowercase(query@),
                pred == (|t: SymbolNodeV| contains_ci(t.name, query@)),
                r.deep_view() == self@.symbols.take(i as int).filter(pred),
            decreases self@.symbols.len() - i,
        {
            let t = &self.symbols[i];
            proof {
                assert(self@.symbols.take(i + 1) =~= self@.symbols.take(i as int).push(t.deep_view()));
            }
            if lower_contains(t.name.as_str(), &q) {
                r.push(t);
            }
            i += 1;
            proof {
                assert(r.deep_view() =~= self@.symbols.take(i as int).filter(pred));
            }
        }
        assert(self@.symbols.take(self@.symbols.len() as int) =~= self@.symbols);
        r
    }
}

} // verus!
