//! The name-keyed call graph: one definition per function name, call edges as sets of pairs,
//! symbols, types, includes, and the functions that macros take as arguments.
use vstd::prelude::*;

use crate::graph::bfs::{bfs, contains_vertex, nearer_first, within, Successors, Vertex};
use crate::graph::codebase::no_file;
use crate::graph::paths::{path_le, PathKey};
use crate::graph::types::{
    FunctionNode, FunctionNodeV, IncludeEdge, IncludeEdgeV, SymbolNode, SymbolNodeV, TypeNode,
    TypeNodeV,
};
use crate::order::{chars_le, sort_by_spec_key, Desc, KeyOrd, lemma_multiset_map};
use crate::text::{chars_of, str_eq, contains_ci, contains_word, contains_word_spec, lower_chars, lower_contains, lowercase, owned, to_lowercase};

verus! {

broadcast use {vstd::seq_lib::group_seq_properties, Seq::lemma_filter_push};

/// Why a function without callers may still be in use.
#[derive(PartialEq, Eq, Structural, Clone, Copy, Debug)]
pub enum DeadCodeKind {
    /// Appears as an argument to a macro call (e.g. NRF_SDH_BLE_OBSERVER(..., my_handler, ...))
    MacroRegistered,
    /// Name matches common callback/handler naming conventions
    CallbackByName,
    /// Known entrypoint (main, etc.)
    Entrypoint,
    /// No evidence of use: genuinely suspicious
    Suspicious,
}

impl DeepView for DeadCodeKind {
    type V = DeadCodeKind;

    open spec fn deep_view(&self) -> DeadCodeKind {
        *self
    }
}

impl DeadCodeKind {
    pub open spec fn name_spec(self) -> Seq<char> {
        match self {
            DeadCodeKind::MacroRegistered => "macro_registered"@,
            DeadCodeKind::CallbackByName => "callback_by_name"@,
            DeadCodeKind::Entrypoint => "entrypoint"@,
            DeadCodeKind::Suspicious => "suspicious"@,
        }
    }

    /// The kind's name as the tools print it.
    pub fn as_str(&self) -> (r: &'static str)
        ensures
            r@ == self.name_spec(),
    {
        match self {
            DeadCodeKind::MacroRegistered => "macro_registered",
            DeadCodeKind::CallbackByName => "callback_by_name",
            DeadCodeKind::Entrypoint => "entrypoint",
            DeadCodeKind::Suspicious => "suspicious",
        }
    }
}

/// The graph keyed by function name.
pub struct CallGraph {
    /// Function definitions, at most one per name
    pub nodes: Vec<FunctionNode>,
    /// (callee, caller) pairs, each at most once
    pub callers: Vec<(String, String)>,
    /// (caller, callee) pairs, each at most once
    pub callees: Vec<(String, String)>,
    /// Functions that appear as arguments to macro calls, each at most once
    pub macro_referenced: Vec<String>,
    /// `#define` constants, function-like macros and enum values
    pub symbols: Vec<SymbolNode>,
    /// The `#include` directives of each file, at most one entry per file
    pub includes: Vec<(String, Vec<IncludeEdge>)>,
    /// struct / union / enum / typedef definitions
    pub types: Vec<TypeNode>,
}

pub struct CallGraphV {
    pub nodes: Seq<FunctionNodeV>,
    pub callers: Seq<(Seq<char>, Seq<char>)>,
    pub callees: Seq<(Seq<char>, Seq<char>)>,
    pub macro_referenced: Seq<Seq<char>>,
    pub symbols: Seq<SymbolNodeV>,
    pub includes: Seq<(Seq<char>, Seq<IncludeEdgeV>)>,
    pub types: Seq<TypeNodeV>,
}

impl View for CallGraph {
    type V = CallGraphV;

    open spec fn view(&self) -> CallGraphV {
        CallGraphV {
            nodes: self.nodes.deep_view(),
            callers: self.callers.deep_view(),
            callees: self.callees.deep_view(),
            macro_referenced: self.macro_referenced.deep_view(),
            symbols: self.symbols.deep_view(),
            includes: self.includes.deep_view(),
            types: self.types.deep_view(),
        }
    }
}

/// No two functions share a name.
pub open spec fn unique_names(nodes: Seq<FunctionNodeV>) -> bool {
    forall|i: int, j: int| 0 <= i < j < nodes.len() ==> nodes[i].name != nodes[j].name
}

/// No two include entries share a file.
pub open spec fn unique_files(incs: Seq<(Seq<char>, Seq<IncludeEdgeV>)>) -> bool {
    forall|i: int, j: int| 0 <= i < j < incs.len() ==> incs[i].0 != incs[j].0
}

impl CallGraphV {
    /// The map-and-set structure of the graph: unique keys, no repeated pairs.
    pub open spec fn wf(self) -> bool {
        &&& unique_names(self.nodes)
        &&& self.callers.no_duplicates()
        &&& self.callees.no_duplicates()
        &&& self.macro_referenced.no_duplicates()
        &&& unique_files(self.includes)
        &&& crate::graph::laws::mirrored(self)
    }
}

/// `nodes` with `n` stored under its name: replacing the definition of that name, or added last.
pub open spec fn with_node(nodes: Seq<FunctionNodeV>, n: FunctionNodeV) -> Seq<FunctionNodeV> {
    if exists|i: int| 0 <= i < nodes.len() && nodes[i].name == n.name {
        nodes.update(choose|i: int| 0 <= i < nodes.len() && nodes[i].name == n.name, n)
    } else {
        nodes.push(n)
    }
}

/// `s` with the pair `p` added unless already present.
pub open spec fn with_pair(s: Seq<(Seq<char>, Seq<char>)>, p: (Seq<char>, Seq<char>)) -> Seq<(Seq<char>, Seq<char>)> {
    if s.contains(p) {
        s
    } else {
        s.push(p)
    }
}

/// `incs` with `edges` stored for `file`: replacing the entry of that file, or added last.
pub open spec fn with_includes(
    incs: Seq<(Seq<char>, Seq<IncludeEdgeV>)>,
    file: Seq<char>,
    edges: Seq<IncludeEdgeV>,
) -> Seq<(Seq<char>, Seq<IncludeEdgeV>)> {
    if exists|i: int| 0 <= i < incs.len() && incs[i].0 == file {
        incs.update(choose|i: int| 0 <= i < incs.len() && incs[i].0 == file, (file, edges))
    } else {
        incs.push((file, edges))
    }
}

/// The second components of the pairs whose first component is `key`, among the first `k`.
pub open spec fn pair_succ_upto(pairs: Seq<(Seq<char>, Seq<char>)>, key: Seq<char>, k: int) -> Seq<Vertex>
    decreases k,
{
    if k <= 0 {
        Seq::empty()
    } else {
        let rest = pair_succ_upto(pairs, key, k - 1);
        if pairs[k - 1].0 == key {
            rest.push((pairs[k - 1].1, no_file()))
        } else {
            rest
        }
    }
}

/// The neighbours of a vertex along a pair set, ignoring files.
pub open spec fn pair_succ(pairs: Seq<(Seq<char>, Seq<char>)>, v: Vertex) -> Seq<Vertex> {
    pair_succ_upto(pairs, v.0, pairs.len() as int)
}

/// The number of pairs whose first component is `key`.
pub open spec fn fan(pairs: Seq<(Seq<char>, Seq<char>)>, key: Seq<char>) -> nat {
    pair_succ(pairs, (key, no_file())).len()
}

/// Some pair has `key` as its first component.
pub open spec fn has_key(pairs: Seq<(Seq<char>, Seq<char>)>, key: Seq<char>) -> bool {
    exists|i: int| 0 <= i < pairs.len() && pairs[i].0 == key
}

/// `s` ends with `t`.
pub open spec fn ends_with(s: Seq<char>, t: Seq<char>) -> bool {
    t.len() <= s.len() && s.subrange(s.len() - t.len(), s.len() as int) == t
}

/// A lower-cased name that follows a callback / handler naming convention.
pub open spec fn is_callback_name(l: Seq<char>) -> bool {
    ||| ends_with(l, "_handler"@) || ends_with(l, "_callback"@) || ends_with(l, "_cb"@)
    ||| ends_with(l, "_isr"@) || ends_with(l, "_irq"@) || ends_with(l, "_evt"@) || ends_with(l, "_event"@)
    ||| "on_"@.is_prefix_of(l) || "assert_"@.is_prefix_of(l)
}

/// Why a function named `name` without callers may still be used.
pub open spec fn classify_spec(name: Seq<char>, macro_refs: Seq<Seq<char>>) -> DeadCodeKind {
    if name == "main"@ {
        DeadCodeKind::Entrypoint
    } else if macro_refs.contains(name) {
        DeadCodeKind::MacroRegistered
    } else if is_callback_name(lowercase(name)) {
        DeadCodeKind::CallbackByName
    } else {
        DeadCodeKind::Suspicious
    }
}

/// Ranking order: larger counts first, then names in order.
pub open spec fn fan_le(a: (Seq<char>, usize), b: (Seq<char>, usize)) -> bool {
    ||| a.1 > b.1
    ||| a.1 == b.1 && chars_le(a.0, b.0)
}

/// Ordered by name, then by file as a path.
pub open spec fn name_path_le(an: Seq<char>, af: Seq<char>, bn: Seq<char>, bf: Seq<char>) -> bool {
    ||| chars_le(an, bn) && !chars_le(bn, an)
    ||| chars_le(an, bn) && chars_le(bn, an) && path_le(af, bf)
}

/// Pairs along the callee edges, name-only.
pub struct PairSteps<'a> {
    pub pairs: &'a Vec<(String, String)>,
}

impl<'a> Successors for PairSteps<'a> {
    open spec fn succ(&self, v: Vertex) -> Seq<Vertex> {
        pair_succ(self.pairs.deep_view(), v)
    }

    fn successors(&self, v: &(String, String)) -> (r: Vec<(String, String)>) {
        let ghost pv = self.pairs.deep_view();
        let mut r: Vec<(String, String)> = Vec::new();
        let mut i: usize = 0;
        while i < self.pairs.len()
            invariant
                pv == self.pairs.deep_view(),
                i <= pv.len(),
                r.deep_view() == pair_succ_upto(pv, v.0@, i as int),
            decreases pv.len() - i,
        {
            if self.pairs[i].0 == v.0 {
                r.push((self.pairs[i].1.clone(), String::new()));
            }
            i += 1;
            proof {
                assert(r.deep_view() =~= pair_succ_upto(pv, v.0@, i as int));
            }
        }
        r
    }
}

proof fn lemma_pair_succ_no_file(pairs: Seq<(Seq<char>, Seq<char>)>, key: Seq<char>, k: int)
    ensures
        forall|w: Vertex| #[trigger] pair_succ_upto(pairs, key, k).contains(w) ==> w.1 == no_file(),
    decreases k,
{
    if k > 0 {
        lemma_pair_succ_no_file(pairs, key, k - 1);
        let rest = pair_succ_upto(pairs, key, k - 1);
        assert forall|w: Vertex| #[trigger] pair_succ_upto(pairs, key, k).contains(w) implies w.1
            == no_file() by {
            let cur = pair_succ_upto(pairs, key, k);
            let idx = choose|idx: int| 0 <= idx < cur.len() && cur[idx] == w;
            if idx < rest.len() {
                assert(rest[idx] == w);
                assert(rest.contains(w));
            }
        }
    }
}

proof fn lemma_pair_reach_no_file(
    pairs: Seq<(Seq<char>, Seq<char>)>,
    f: spec_fn(Vertex) -> Seq<Vertex>,
    start: Seq<char>,
    k: nat,
)
    requires
        forall|v: Vertex| #[trigger] f(v) == pair_succ(pairs, v),
    ensures
        forall|w: Vertex| #[trigger]
            crate::graph::bfs::reach(f, (start, no_file()), k).contains(w) ==> w.1 == no_file(),
    decreases k,
{
    if k > 0 {
        lemma_pair_reach_no_file(pairs, f, start, (k - 1) as nat);
        assert forall|w: Vertex| #[trigger]
            crate::graph::bfs::reach(f, (start, no_file()), k).contains(w) implies w.1 == no_file() by {
            let r0 = crate::graph::bfs::reach(f, (start, no_file()), (k - 1) as nat);
            if !r0.contains(w) {
                let v = choose|v: Vertex| r0.contains(v) && #[trigger] f(v).contains(w);
                lemma_pair_succ_no_file(pairs, v.0, pairs.len() as int);
            }
        }
    }
}

/// A traversal from `name` along a pair set, reported as names.
fn pair_bfs(pairs: &Vec<(String, String)>, name: &str, depth: usize) -> (r: Vec<String>)
    ensures
        r.deep_view().no_duplicates(),
        forall|n: Seq<char>|
            r.deep_view().contains(n) <==> within(
                |v: Vertex| pair_succ(pairs.deep_view(), v),
                (name@, no_file()),
                depth as nat,
            ).contains((n, no_file())),
        nearer_first(
            |v: Vertex| pair_succ(pairs.deep_view(), v),
            (name@, no_file()),
            r.deep_view().map_values(|n: Seq<char>| (n, no_file())),
        ),
{
    let steps = PairSteps { pairs };
    let start = (owned(name), String::new());
    let vs = bfs(&steps, &start, depth);
    let ghost f = |v: Vertex| pair_succ(pairs.deep_view(), v);
    let ghost s = (name@, no_file());
    proof {
        assert(start.deep_view() == s);
        assert((|v: Vertex| steps.succ(v)) =~= f);
        lemma_pair_reach_no_file(pairs.deep_view(), f, name@, depth as nat);
    }
    let mut r: Vec<String> = Vec::new();
    let mut i: usize = 0;
    while i < vs.len()
        invariant
            i <= vs@.len(),
            r.deep_view() == vs.deep_view().take(i as int).map_values(|w: Vertex| w.0),
        decreases vs@.len() - i,
    {
        let ghost or = r.deep_view();
        r.push(vs[i].0.clone());
        i += 1;
        proof {
            assert(r.deep_view() =~= or.push(vs.deep_view()[i - 1].0));
            assert(vs.deep_view().take(i as int) =~= vs.deep_view().take(i - 1).push(vs.deep_view()[i - 1]));
            assert(r.deep_view() =~= vs.deep_view().take(i as int).map_values(|w: Vertex| w.0));
        }
    }
    proof {
        let vd = vs.deep_view();
        assert(vd.take(vd.len() as int) =~= vd);
        assert forall|w: Vertex| vd.contains(w) implies w.1 == no_file() by {
            assert(vd.to_set().contains(w));
            assert(crate::graph::bfs::reach(f, s, depth as nat).contains(w));
        }
        assert(vd =~= r.deep_view().map_values(|n: Seq<char>| (n, no_file()))) by {
            assert forall|q: int| 0 <= q < vd.len() implies vd[q] == (r.deep_view()[q], no_file()) by {
                assert(vd.contains(vd[q]));
            }
        }
        assert forall|a: int, b: int| 0 <= a < b < r.deep_view().len() implies r.deep_view()[a]
            != r.deep_view()[b] by {
            assert(vd.contains(vd[a]));
            assert(vd.contains(vd[b]));
        }
        assert forall|n: Seq<char>| r.deep_view().contains(n) <==> within(f, s, depth as nat).contains(
            (n, no_file()),
        ) by {
            if r.deep_view().contains(n) {
                let k = choose|k: int| 0 <= k < r.deep_view().len() && r.deep_view()[k] == n;
                assert(vd.contains(vd[k]));
                assert(vd[k] == (n, no_file()));
                assert(vd.to_set().contains(vd[k]));
            }
            if within(f, s, depth as nat).contains((n, no_file())) {
                assert(vd.to_set().contains((n, no_file())));
                let k = choose|k: int| 0 <= k < vd.len() && vd[k] == (n, no_file());
                assert(r.deep_view()[k] == n);
            }
        }
    }
    r
}

/// The number of pairs with first component `key`.
fn count_key(pairs: &Vec<(String, String)>, key: &String) -> (n: usize)
    ensures
        n == fan(pairs.deep_view(), key@),
{
    let ghost pv = pairs.deep_view();
    let mut n: usize = 0;
    let mut i: usize = 0;
    while i < pairs.len()
        invariant
            pv == pairs.deep_view(),
            i <= pv.len(),
            n == pair_succ_upto(pv, key@, i as int).len(),
            n <= i,
        decreases pv.len() - i,
    {
        if pairs[i].0 == *key {
            n += 1;
        }
        i += 1;
    }
    n
}

/// Does some pair have first component `key`?
fn has_key_exec(pairs: &Vec<(String, String)>, key: &String) -> (r: bool)
    ensures
        r == has_key(pairs.deep_view(), key@),
{
    let mut i: usize = 0;
    while i < pairs.len()
        invariant
            i <= pairs@.len(),
            forall|j: int| 0 <= j < i ==> pairs.deep_view()[j].0 != key@,
        decreases pairs@.len() - i,
    {
        if pairs[i].0 == *key {
            assert(pairs.deep_view()[i as int].0 == key@);
            return true;
        }
        i += 1;
    }
    false
}

/// Does `s` end with `t`?
fn ends_with_exec(s: &Vec<char>, t: &str) -> (r: bool)
    ensures
        r == ends_with(s@, t@),
{
    let tc = chars_of(t);
    if tc.len() > s.len() {
        return false;
    }
    let sl = s.len();
    let off = sl - tc.len();
    let mut i: usize = 0;
    while i < tc.len()
        invariant
            tc@ == t@,
            sl == s@.len(),
            off + tc@.len() == s@.len(),
            i <= tc@.len(),
            forall|j: int| 0 <= j < i ==> s@[off + j] == tc@[j],
        decreases tc@.len() - i,
    {
        if s[off + i] != tc[i] {
            assert(s@.subrange(off as int, s@.len() as int)[i as int] != tc@[i as int]);
            assert(s@.subrange(off as int, s@.len() as int) != t@);
            return false;
        }
        i += 1;
    }
    assert(s@.subrange(off as int, s@.len() as int) =~= tc@);
    true
}

/// Does `s` start with `t`?
fn starts_with_exec(s: &Vec<char>, t: &str) -> (r: bool)
    ensures
        r == t@.is_prefix_of(s@),
{
    let tc = chars_of(t);
    if tc.len() > s.len() {
        return false;
    }
    let mut i: usize = 0;
    while i < tc.len()
        invariant
            tc@ == t@,
            tc@.len() <= s@.len(),
            i <= tc@.len(),
            forall|j: int| 0 <= j < i ==> s@[j] == tc@[j],
        decreases tc@.len() - i,
    {
        if s[i] != tc[i] {
            assert(s@.subrange(0, tc@.len() as int)[i as int] != tc@[i as int]);
            assert(s@.subrange(0, tc@.len() as int) != t@);
            return false;
        }
        i += 1;
    }
    true
}

/// Is `name` among `names`?
fn contains_name(names: &Vec<String>, name: &String) -> (r: bool)
    ensures
        r == names.deep_view().contains(name@),
{
    let mut i: usize = 0;
    while i < names.len()
        invariant
            i <= names@.len(),
            forall|j: int| 0 <= j < i ==> names.deep_view()[j] != name@,
        decreases names@.len() - i,
    {
        if names[i] == *name {
            assert(names.deep_view()[i as int] == name@);
            return true;
        }
        i += 1;
    }
    false
}

/// The ranking entry of a function: its name and its count of pairs.
pub open spec fn fan_entry(pairs: Seq<(Seq<char>, Seq<char>)>, x: FunctionNodeV) -> (Seq<char>, usize) {
    (x.name, fan(pairs, x.name) as usize)
}

/// Ranks the names of `nodes` by their count of pairs in `pairs`, larger first, names in order
/// among equal counts; keeps the first `n`.
fn top_by<'a>(nodes: &'a Vec<FunctionNode>, pairs: &Vec<(String, String)>, n: usize) -> (r: Vec<(&'a str, usize)>)
    ensures
        r@.len() == if n < nodes@.len() { n as int } else { nodes@.len() as int },
        r.deep_view().to_multiset().subset_of(
            nodes.deep_view().map_values(|x: FunctionNodeV| fan_entry(pairs.deep_view(), x)).to_multiset(),
        ),
        forall|i: int, j: int| 0 <= i < j < r@.len() ==> fan_le(r.deep_view()[i], r.deep_view()[j]),
        forall|i: int, e: (Seq<char>, usize)|
            0 <= i < r@.len() && !r.deep_view().contains(e) && nodes.deep_view().map_values(
                |x: FunctionNodeV| fan_entry(pairs.deep_view(), x),
            ).contains(e) ==> fan_le(r.deep_view()[i], e),
{
    let ghost nv = nodes.deep_view();
    let ghost pv = pairs.deep_view();
    let ghost entry = |x: FunctionNodeV| fan_entry(pv, x);
    let ghost key = |k: usize| (Desc(fan(pv, nodes@[k as int].name@) as usize), nodes@[k as int].name);
    let mut keyed: Vec<((Desc, String), usize)> = Vec::new();
    let mut counts: Vec<usize> = Vec::new();
    let mut i: usize = 0;
    while i < nodes.len()
        invariant
            nv == nodes.deep_view(),
            pv == pairs.deep_view(),
            key == (|k: usize| (Desc(fan(pv, nodes@[k as int].name@) as usize), nodes@[k as int].name)),
            i <= nodes@.len(),
            keyed@.len() == i,
            counts@.len() == i,
            forall|k: int| 0 <= k < i ==> #[trigger] keyed@[k].0 == key(keyed@[k].1),
            forall|k: int| 0 <= k < i ==> #[trigger] keyed@[k].1 == k,
            forall|k: int| 0 <= k < i ==> #[trigger] counts@[k] == fan(pv, nodes@[k].name@),
        decreases nodes@.len() - i,
    {
        let c = count_key(pairs, &nodes[i].name);
        keyed.push(((Desc(c), nodes[i].name.clone()), i));
        counts.push(c);
        i += 1;
    }
    let ghost kv = keyed@;
    let order = sort_by_spec_key(keyed, Ghost(key));
    proof {
        let idx = kv.map_values(|p: ((Desc, String), usize)| p.1);
        let small = |x: usize| x < nodes@.len();
        assert forall|k: int| 0 <= k < idx.len() implies #[trigger] small(idx[k]) by {
            assert(idx[k] == k);
        }
        crate::order::lemma_multiset_forall(order@, idx, small);
        assert forall|k: int| 0 <= k < order@.len() implies #[trigger] order@[k] < nodes@.len() by {
            assert(small(order@[k]));
        }
    }
    let m = if n < order.len() { n } else { order.len() };
    let mut r: Vec<(&str, usize)> = Vec::new();
    let mut j: usize = 0;
    while j < m
        invariant
            nv == nodes.deep_view(),
            pv == pairs.deep_view(),
            entry == (|x: FunctionNodeV| fan_entry(pv, x)),
            m <= order@.len(),
            order@.len() == nodes@.len(),
            j <= m,
            counts@.len() == nodes@.len(),
            forall|k: int| 0 <= k < nodes@.len() ==> #[trigger] counts@[k] == fan(pv, nodes@[k].name@),
            forall|k: int| 0 <= k < order@.len() ==> #[trigger] order@[k] < nodes@.len(),
            r.deep_view() == order@.take(j as int).map_values(|k: usize| entry(nv[k as int])),
        decreases m - j,
    {
        let k = order[j];
        let ghost orr = r.deep_view();
        r.push((nodes[k].name.as_str(), counts[k]));
        j += 1;
        proof {
            assert(r.deep_view() =~= orr.push(entry(nv[k as int])));
            assert(order@.take(j as int) =~= order@.take(j - 1).push(k));
            assert(r.deep_view() =~= order@.take(j as int).map_values(|k: usize| entry(nv[k as int])));
        }
    }
    proof {
        let ov = order@;
        let full = ov.map_values(|k: usize| entry(nv[k as int]));
        let idx = kv.map_values(|p: ((Desc, String), usize)| p.1);
        assert(idx =~= Seq::new(nodes@.len() as nat, |k: int| k as usize));
        lemma_multiset_map(ov, idx, |k: usize| entry(nv[k as int]));
        assert(idx.map_values(|k: usize| entry(nv[k as int])) =~= nv.map_values(entry));
        assert(r.deep_view() =~= full.take(m as int));
        // r is a prefix of `full`, whose multiset is that of the entries
        assert forall|e: (Seq<char>, usize)| r.deep_view().to_multiset().count(e) <= nv.map_values(
            entry,
        ).to_multiset().count(e) by {
            lemma_prefix_count(full, m as int, e);
        }
        assert forall|a: int, b: int| 0 <= a < b < r@.len() implies fan_le(
            r.deep_view()[a],
            r.deep_view()[b],
        ) by {
            assert(key(ov[a]).key_le(&key(ov[b])));
        }
        assert forall|a: int, e: (Seq<char>, usize)|
            0 <= a < r@.len() && !r.deep_view().contains(e) && nv.map_values(entry).contains(
                e,
            ) implies fan_le(r.deep_view()[a], e) by {
            assert(nv.map_values(entry).to_multiset().count(e) > 0);
            assert(full.to_multiset().count(e) > 0);
            assert(full.contains(e));
            let b = choose|b: int| 0 <= b < full.len() && full[b] == e;
            if b < m {
                assert(r.deep_view()[b] == e);
            }
            assert(key(ov[a]).key_le(&key(ov[b])));
        }
    }
    r
}

/// A prefix never holds an element more often than the whole.
proof fn lemma_prefix_count<A>(s: Seq<A>, m: int, e: A)
    requires
        0 <= m <= s.len(),
    ensures
        s.take(m).to_multiset().count(e) <= s.to_multiset().count(e),
    decreases s.len() - m,
{
    if m < s.len() {
        lemma_prefix_count(s, m + 1, e);
        assert(s.take(m + 1) =~= s.take(m).push(s[m]));
    } else {
        assert(s.take(m) =~= s);
    }
}

/// Sorts references by keys computed with `key`, and gives the sort's guarantees on their views.
fn sort_refs<'a, K: KeyOrd, T: DeepView>(keyed: Vec<(K, &'a T)>, Ghost(key): Ghost<spec_fn(&'a T) -> K>) -> (r: Vec<&'a T>)
    requires
        forall|i: int| 0 <= i < keyed@.len() ==> #[trigger] keyed@[i].0 == key(keyed@[i].1),
    ensures
        r@.to_multiset() == keyed@.map_values(|p: (K, &'a T)| p.1).to_multiset(),
        r.deep_view().to_multiset() == keyed@.map_values(|p: (K, &'a T)| p.1).map_values(
            |x: &'a T| x.deep_view(),
        ).to_multiset(),
        forall|i: int, j: int| 0 <= i < j < r@.len() ==> key(#[trigger] r@[i]).key_le(&key(#[trigger] r@[j])),
{
    let r = sort_by_spec_key(keyed, Ghost(key));
    proof {
        let items = keyed@.map_values(|p: (K, &'a T)| p.1);
        lemma_multiset_map(r@, items, |x: &'a T| x.deep_view());
        assert(r.deep_view() =~= r@.map_values(|x: &'a T| x.deep_view()));
    }
    r
}

/// The deep views of a sequence of references.
pub open spec fn views<T: DeepView>(s: Seq<&T>) -> Seq<T::V> {
    s.map_values(|x: &T| x.deep_view())
}

impl CallGraph {
    /// An empty graph.
    pub fn new() -> (g: Self)
        ensures
            g@.wf(),
            g@.nodes.len() == 0,
            g@.callers.len() == 0,
            g@.callees.len() == 0,
            g@.macro_referenced.len() == 0,
            g@.symbols.len() == 0,
            g@.includes.len() == 0,
            g@.types.len() == 0,
    {
        CallGraph {
            nodes: Vec::new(),
            callers: Vec::new(),
            callees: Vec::new(),
            macro_referenced: Vec::new(),
            symbols: Vec::new(),
            includes: Vec::new(),
            types: Vec::new(),
        }
    }

    /// Stores `node` under its name, replacing an earlier definition of that name.
    pub fn insert_node(&mut self, node: FunctionNode)
        requires
            old(self)@.wf(),
        ensures
            final(self)@.wf(),
            final(self)@ == (CallGraphV { nodes: with_node(old(self)@.nodes, node.deep_view()), ..old(self)@ }),
    {
        let ghost nv = self@.nodes;
        let ghost n = node.deep_view();
        let mut i: usize = 0;
        while i < self.nodes.len()
            invariant
                nv == self@.nodes,
                n == node.deep_view(),
                self@ == old(self)@,
                self@.wf(),
                i <= nv.len(),
                forall|j: int| 0 <= j < i ==> nv[j].name != n.name,
            decreases nv.len() - i,
        {
            if self.nodes[i].name == node.name {
                proof {
                    assert(nv[i as int].name == n.name);
                    let c = choose|c: int| 0 <= c < nv.len() && nv[c].name == n.name;
                    assert(c == i);
                }
                self.nodes.set(i, node);
                proof {
                    assert(self@.nodes =~= nv.update(i as int, n));
                }
                return;
            }
            i += 1;
        }
        self.nodes.push(node);
        proof {
            assert(self@.nodes =~= nv.push(n));
        }
    }

    /// Records that `caller` calls `callee` (each pair is kept once).
    pub fn add_edge(&mut self, caller: &str, callee: &str)
        requires
            old(self)@.wf(),
        ensures
            final(self)@.wf(),
            final(self)@ == (CallGraphV {
                callees: with_pair(old(self)@.callees, (caller@, callee@)),
                callers: with_pair(old(self)@.callers, (callee@, caller@)),
                ..old(self)@
            }),
    {
        let fwd = (owned(caller), owned(callee));
        let back = (owned(callee), owned(caller));
        if !contains_vertex(&self.callees, &fwd) {
            let ghost o = self@.callees;
            self.callees.push(fwd);
            proof {
                assert(self@.callees =~= o.push((caller@, callee@)));
            }
        }
        if !contains_vertex(&self.callers, &back) {
            let ghost o = self@.callers;
            self.callers.push(back);
            proof {
                assert(self@.callers =~= o.push((callee@, caller@)));
            }
        }
        proof {
            crate::graph::laws::lemma_add_edge_keeps_mirror(old(self)@, caller@, callee@);
        }
    }

    pub fn clear(&mut self)
        ensures
            final(self)@.wf(),
            final(self)@.nodes.len() == 0,
            final(self)@.callers.len() == 0,
            final(self)@.callees.len() == 0,
            final(self)@.macro_referenced.len() == 0,
            final(self)@.symbols.len() == 0,
            final(self)@.includes.len() == 0,
            final(self)@.types.len() == 0,
    {
        self.nodes.clear();
        self.callers.clear();
        self.callees.clear();
        self.macro_referenced.clear();
        self.symbols.clear();
        self.includes.clear();
        self.types.clear();
    }

    pub fn insert_type(&mut self, node: TypeNode)
        ensures
            final(self)@ == (CallGraphV { types: old(self)@.types.push(node.deep_view()), ..old(self)@ }),
    {
        self.types.push(node);
        assert(self@.types =~= old(self)@.types.push(node.deep_view()));
    }

    pub fn insert_symbol(&mut self, node: SymbolNode)
        ensures
            final(self)@ == (CallGraphV { symbols: old(self)@.symbols.push(node.deep_view()), ..old(self)@ }),
    {
        self.symbols.push(node);
        assert(self@.symbols =~= old(self)@.symbols.push(node.deep_view()));
    }

    /// Stores the `#include` directives of `file`, replacing what was stored for it.
    pub fn set_includes(&mut self, file: String, edges: Vec<IncludeEdge>)
        requires
            old(self)@.wf(),
        ensures
            final(self)@.wf(),
            final(self)@ == (CallGraphV {
                includes: with_includes(old(self)@.includes, file@, edges.deep_view()),
                ..old(self)@
            }),
    {
        let ghost iv = self@.includes;
        let ghost e = edges.deep_view();
        let mut i: usize = 0;
        while i < self.includes.len()
            invariant
                iv == self@.includes,
                e == edges.deep_view(),
                self@ == old(self)@,
                self@.wf(),
                i <= iv.len(),
                forall|j: int| 0 <= j < i ==> iv[j].0 != file@,
            decreases iv.len() - i,
        {
            if self.includes[i].0 == file {
                proof {
                    assert(iv[i as int].0 == file@);
                    let c = choose|c: int| 0 <= c < iv.len() && iv[c].0 == file@;
                    assert(c == i);
                }
                self.includes.set(i, (file, edges));
                proof {
                    assert(self@.includes =~= iv.update(i as int, (file@, e)));
                }
                return;
            }
            i += 1;
        }
        self.includes.push((file, edges));
        proof {
            assert(self@.includes =~= iv.push((file@, e)));
        }
    }

    /// Records that `name` is passed to a macro, when `name` is a known function.
    pub fn add_macro_ref(&mut self, name: &str)
        requires
            old(self)@.wf(),
        ensures
            final(self)@.wf(),
            final(self)@ == (CallGraphV {
                macro_referenced: if (exists|i: int| 0 <= i < old(self)@.nodes.len() && old(self)@.nodes[i].name == name@)
                    && !old(self)@.macro_referenced.contains(name@) {
                    old(self)@.macro_referenced.push(name@)
                } else {
                    old(self)@.macro_referenced
                },
                ..old(self)@
            }),
    {
        let n = owned(name);
        let mut known = false;
        let mut i: usize = 0;
        while i < self.nodes.len()
            invariant
                n@ == name@,
                i <= self@.nodes.len(),
                known == exists|j: int| 0 <= j < i && self@.nodes[j].name == name@,
            decreases self@.nodes.len() - i,
        {
            if self.nodes[i].name == n {
                known = true;
                assert(self@.nodes[i as int].name == name@);
            } else {
                assert(self@.nodes[i as int].name != name@);
            }
            i += 1;
        }
        if known && !contains_name(&self.macro_referenced, &n) {
            let ghost o = self@.macro_referenced;
            self.macro_referenced.push(n);
            proof {
                assert(self@.macro_referenced =~= o.push(name@));
            }
        }
    }

    /// Types whose name contains `query`, ignoring case, ordered by name and then by file.
    pub fn find_type(&self, query: &str) -> (r: Vec<&TypeNode>)
        ensures
            r.deep_view().to_multiset() == self@.types.filter(|t: TypeNodeV| contains_ci(t.name, query@)).to_multiset(),
            forall|i: int, j: int| 0 <= i < j < r@.len() ==> name_path_le(
                #[trigger] r.deep_view()[i].name,
                r.deep_view()[i].file,
                #[trigger] r.deep_view()[j].name,
                r.deep_view()[j].file,
            ),
    {
        let q = lower_chars(query);
        let ghost pred = |t: TypeNodeV| contains_ci(t.name, query@);
        let ghost key = |t: &TypeNode| (t.name, PathKey(t.file));
        let mut keyed: Vec<((String, PathKey), &TypeNode)> = Vec::new();
        let mut i: usize = 0;
        while i < self.types.len()
            invariant
                i <= self@.types.len(),
                q@ == lowercase(query@),
                pred == (|t: TypeNodeV| contains_ci(t.name, query@)),
                key == (|t: &TypeNode| (t.name, PathKey(t.file))),
                forall|k: int| 0 <= k < keyed@.len() ==> #[trigger] keyed@[k].0 == key(keyed@[k].1),
                views(keyed@.map_values(|p: ((String, PathKey), &TypeNode)| p.1)) == self@.types.take(i as int).filter(pred),
            decreases self@.types.len() - i,
        {
            let t = &self.types[i];
            let ghost ok = keyed@;
            proof {
                assert(self@.types.take(i + 1) =~= self@.types.take(i as int).push(t.deep_view()));
            }
            if lower_contains(t.name.as_str(), &q) {
                keyed.push(((t.name.clone(), PathKey(t.file.clone())), t));
                proof {
                    assert(keyed@.map_values(|p: ((String, PathKey), &TypeNode)| p.1) =~= ok.map_values(
                        |p: ((String, PathKey), &TypeNode)| p.1).push(t));
                }
            }
            i += 1;
            proof {
                assert(views(keyed@.map_values(|p: ((String, PathKey), &TypeNode)| p.1)) =~= self@.types.take(i as int).filter(pred));
            }
        }
        proof {
            assert(self@.types.take(self@.types.len() as int) =~= self@.types);
        }
        let r = sort_refs(keyed, Ghost(key));
        r
    }

    /// Functions whose source contains `ty_name` as a whole word, ordered by name.
    pub fn get_type_users(&self, ty_name: &str) -> (r: Vec<&FunctionNode>)
        ensures
            r.deep_view().to_multiset() == self@.nodes.filter(|n: FunctionNodeV| contains_word_spec(n.source, ty_name@)).to_multiset(),
            forall|i: int, j: int| 0 <= i < j < r@.len() ==> chars_le(#[trigger] r.deep_view()[i].name, #[trigger] r.deep_view()[j].name),
    {
        let ghost pred = |n: FunctionNodeV| contains_word_spec(n.source, ty_name@);
        let ghost key = |n: &FunctionNode| n.name;
        let mut keyed: Vec<(String, &FunctionNode)> = Vec::new();
        let mut i: usize = 0;
        while i < self.nodes.len()
            invariant
                i <= self@.nodes.len(),
                pred == (|n: FunctionNodeV| contains_word_spec(n.source, ty_name@)),
                key == (|n: &FunctionNode| n.name),
                forall|k: int| 0 <= k < keyed@.len() ==> #[trigger] keyed@[k].0 == key(keyed@[k].1),
                views(keyed@.map_values(|p: (String, &FunctionNode)| p.1)) == self@.nodes.take(i as int).filter(pred),
            decreases self@.nodes.len() - i,
        {
            let n = &self.nodes[i];
            let ghost ok = keyed@;
            proof {
                assert(self@.nodes.take(i + 1) =~= self@.nodes.take(i as int).push(n.deep_view()));
            }
            if contains_word(n.source.as_str(), ty_name) {
                keyed.push((n.name.clone(), n));
                proof {
                    assert(keyed@.map_values(|p: (String, &FunctionNode)| p.1) =~= ok.map_values(
                        |p: (String, &FunctionNode)| p.1).push(n));
                }
            }
            i += 1;
            proof {
                assert(views(keyed@.map_values(|p: (String, &FunctionNode)| p.1)) =~= self@.nodes.take(i as int).filter(pred));
            }
        }
        proof {
            assert(self@.nodes.take(self@.nodes.len() as int) =~= self@.nodes);
        }
        let r = sort_refs(keyed, Ghost(key));
        r
    }

    /// Symbols whose name contains `query`, ignoring case, ordered by name and then by file.
    pub fn find_symbol(&self, query: &str) -> (r: Vec<&SymbolNode>)
        ensures
            r.deep_view().to_multiset() == self@.symbols.filter(|t: SymbolNodeV| contains_ci(t.name, query@)).to_multiset(),
            forall|i: int, j: int| 0 <= i < j < r@.len() ==> name_path_le(
                #[trigger] r.deep_view()[i].name,
                r.deep_view()[i].file,
                #[trigger] r.deep_view()[j].name,
                r.deep_view()[j].file,
            ),
    {
        let q = lower_chars(query);
        let ghost pred = |t: SymbolNodeV| contains_ci(t.name, query@);
        let ghost key = |t: &SymbolNode| (t.name, PathKey(t.file));
        let mut keyed: Vec<((String, PathKey), &SymbolNode)> = Vec::new();
        let mut i: usize = 0;
        while i < self.symbols.len()
            invariant
                i <= self@.symbols.len(),
                q@ == lowercase(query@),
                pred == (|t: SymbolNodeV| contains_ci(t.name, query@)),
                key == (|t: &SymbolNode| (t.name, PathKey(t.file))),
                forall|k: int| 0 <= k < keyed@.len() ==> #[trigger] keyed@[k].0 == key(keyed@[k].1),
                views(keyed@.map_values(|p: ((String, PathKey), &SymbolNode)| p.1)) == self@.symbols.take(i as int).filter(pred),
            decreases self@.symbols.len() - i,
        {
            let t = &self.symbols[i];
            let ghost ok = keyed@;
            proof {
                assert(self@.symbols.take(i + 1) =~= self@.symbols.take(i as int).push(t.deep_view()));
            }
            if lower_contains(t.name.as_str(), &q) {
                keyed.push(((t.name.clone(), PathKey(t.file.clone())), t));
                proof {
                    assert(keyed@.map_values(|p: ((String, PathKey), &SymbolNode)| p.1) =~= ok.map_values(
                        |p: ((String, PathKey), &SymbolNode)| p.1).push(t));
                }
            }
            i += 1;
            proof {
                assert(views(keyed@.map_values(|p: ((String, PathKey), &SymbolNode)| p.1)) =~= self@.symbols.take(i as int).filter(pred));
            }
        }
        proof {
            assert(self@.symbols.take(self@.symbols.len() as int) =~= self@.symbols);
        }
        let r = sort_refs(keyed, Ghost(key));
        r
    }
}


/// The `#include` directives whose path contains `header`, ignoring case, each with its file,
/// file by file.
pub open spec fn includers_of(
    incs: Seq<(Seq<char>, Seq<IncludeEdgeV>)>,
    header: Seq<char>,
) -> Seq<(Seq<char>, IncludeEdgeV)>
    decreases incs.len(),
{
    if incs.len() == 0 {
        Seq::empty()
    } else {
        let last = incs.last();
        includers_of(incs.drop_last(), header) + last.1.filter(
            |e: IncludeEdgeV| contains_ci(e.path, header),
        ).map_values(|e: IncludeEdgeV| (last.0, e))
    }
}

/// The functions that nothing calls, in graph order, each with the reason it may still be in use.
pub open spec fn dead_code_spec(g: CallGraphV) -> Seq<(FunctionNodeV, DeadCodeKind)> {
    g.nodes.filter(|n: FunctionNodeV| !has_key(g.callers, n.name)).map_values(
        |n: FunctionNodeV| dead_entry(g.macro_referenced, n),
    )
}

/// The ranking entries of all functions, in graph order.
pub open spec fn fan_entries(nodes: Seq<FunctionNodeV>, pairs: Seq<(Seq<char>, Seq<char>)>) -> Seq<(Seq<char>, usize)> {
    nodes.map_values(|x: FunctionNodeV| fan_entry(pairs, x))
}

/// `r` is a top-`n` ranking of `all`: as many entries as there are (at most `n`), drawn from
/// `all`, in ranking order, and none left out that ranks before one taken.
pub open spec fn is_top(r: Seq<(Seq<char>, usize)>, all: Seq<(Seq<char>, usize)>, n: int) -> bool {
    &&& r.len() == if n < all.len() { n } else { all.len() as int }
    &&& r.to_multiset().subset_of(all.to_multiset())
    &&& forall|i: int, j: int| 0 <= i < j < r.len() ==> fan_le(#[trigger] r[i], #[trigger] r[j])
    &&& forall|i: int, e: (Seq<char>, usize)|
        0 <= i < r.len() && !r.contains(e) && #[trigger] all.contains(e) ==> fan_le(#[trigger] r[i], e)
}

/// A function without callers, with the reason it may still be in use.
pub open spec fn dead_entry(macro_refs: Seq<Seq<char>>, n: FunctionNodeV) -> (FunctionNodeV, DeadCodeKind) {
    (n, classify_spec(n.name, macro_refs))
}

impl CallGraph {
    /// Include entries of the files whose path contains `filename`, ignoring case, ordered by path.
    pub fn get_includes(&self, filename: &str) -> (r: Vec<&(String, Vec<IncludeEdge>)>)
        ensures
            r.deep_view().to_multiset() == self@.includes.filter(
                |e: (Seq<char>, Seq<IncludeEdgeV>)| contains_ci(e.0, filename@),
            ).to_multiset(),
            forall|i: int, j: int| 0 <= i < j < r@.len() ==> path_le(#[trigger] r.deep_view()[i].0, #[trigger] r.deep_view()[j].0),
    {
        let q = lower_chars(filename);
        let ghost pred = |e: (Seq<char>, Seq<IncludeEdgeV>)| contains_ci(e.0, filename@);
        let ghost key = |e: &(String, Vec<IncludeEdge>)| PathKey(e.0);
        let mut keyed: Vec<(PathKey, &(String, Vec<IncludeEdge>))> = Vec::new();
        let mut i: usize = 0;
        while i < self.includes.len()
            invariant
                i <= self@.includes.len(),
                q@ == lowercase(filename@),
                pred == (|e: (Seq<char>, Seq<IncludeEdgeV>)| contains_ci(e.0, filename@)),
                key == (|e: &(String, Vec<IncludeEdge>)| PathKey(e.0)),
                forall|k: int| 0 <= k < keyed@.len() ==> #[trigger] keyed@[k].0 == key(keyed@[k].1),
                views(keyed@.map_values(|p: (PathKey, &(String, Vec<IncludeEdge>))| p.1)) == self@.includes.take(
                    i as int,
                ).filter(pred),
            decreases self@.includes.len() - i,
        {
            let e = &self.includes[i];
            let ghost ok = keyed@;
            proof {
                assert(self@.includes.take(i + 1) =~= self@.includes.take(i as int).push(e.deep_view()));
            }
            if lower_contains(e.0.as_str(), &q) {
                keyed.push((PathKey(e.0.clone()), e));
                proof {
                    assert(keyed@.map_values(|p: (PathKey, &(String, Vec<IncludeEdge>))| p.1) =~= ok.map_values(
                        |p: (PathKey, &(String, Vec<IncludeEdge>))| p.1,
                    ).push(e));
                }
            }
            i += 1;
            proof {
                assert(views(keyed@.map_values(|p: (PathKey, &(String, Vec<IncludeEdge>))| p.1)) =~= self@.includes.take(
                    i as int,
                ).filter(pred));
            }
        }
        proof {
            assert(self@.includes.take(self@.includes.len() as int) =~= self@.includes);
        }
        let r = sort_refs(keyed, Ghost(key));
        proof {
            assert forall|a: int, b: int| 0 <= a < b < r@.len() implies path_le(#[trigger] r.deep_view()[a].0, #[trigger] r.deep_view()[b].0) by {
                assert(key(r@[a]).key_le(&key(r@[b])));
            }
        }
        r
    }

    /// The `#include` directives whose path contains `header`, ignoring case, each with the file
    /// that holds it, ordered by file path.
    pub fn get_includers(&self, header: &str) -> (r: Vec<(&String, &IncludeEdge)>)
        ensures
            r.deep_view().to_multiset() == includers_of(self@.includes, header@).to_multiset(),
            forall|i: int, j: int| 0 <= i < j < r@.len() ==> path_le(#[trigger] r.deep_view()[i].0, #[trigger] r.deep_view()[j].0),
    {
        let q = lower_chars(header);
        let ghost hv = header@;
        let ghost key = |p: (&String, &IncludeEdge)| PathKey(*p.0);
        let mut keyed: Vec<(PathKey, (&String, &IncludeEdge))> = Vec::new();
        let mut i: usize = 0;
        while i < self.includes.len()
            invariant
                i <= self@.includes.len(),
                q@ == lowercase(hv),
                hv == header@,
                key == (|p: (&String, &IncludeEdge)| PathKey(*p.0)),
                forall|k: int| 0 <= k < keyed@.len() ==> #[trigger] keyed@[k].0 == key(keyed@[k].1),
                keyed@.map_values(|p: (PathKey, (&String, &IncludeEdge))| p.1.deep_view()) == includers_of(
                    self@.includes.take(i as int),
                    hv,
                ),
            decreases self@.includes.len() - i,
        {
            let file = &self.includes[i].0;
            let edges = &self.includes[i].1;
            let ghost before = keyed@.map_values(|p: (PathKey, (&String, &IncludeEdge))| p.1.deep_view());
            let ghost ev = edges.deep_view();
            let ghost pe = |e: IncludeEdgeV| contains_ci(e.path, hv);
            let ghost tag = |e: IncludeEdgeV| (file@, e);
            proof {
                assert(self@.includes.take(i + 1).drop_last() =~= self@.includes.take(i as int));
                assert(self@.includes.take(i + 1).last() == (file@, ev));
            }
            let mut j: usize = 0;
            while j < edges.len()
                invariant
                    j <= ev.len(),
                    ev == edges.deep_view(),
                    q@ == lowercase(hv),
                    pe == (|e: IncludeEdgeV| contains_ci(e.path, hv)),
                    tag == (|e: IncludeEdgeV| (file@, e)),
                    key == (|p: (&String, &IncludeEdge)| PathKey(*p.0)),
                    forall|k: int| 0 <= k < keyed@.len() ==> #[trigger] keyed@[k].0 == key(keyed@[k].1),
                    keyed@.map_values(|p: (PathKey, (&String, &IncludeEdge))| p.1.deep_view()) == before + ev.take(
                        j as int,
                    ).filter(pe).map_values(tag),
                decreases ev.len() - j,
            {
                let e = &edges[j];
                let ghost ok = keyed@.map_values(|p: (PathKey, (&String, &IncludeEdge))| p.1.deep_view());
                proof {
                    assert(ev.take(j + 1) =~= ev.take(j as int).push(e.deep_view()));
                }
                if lower_contains(e.path.as_str(), &q) {
                    keyed.push((PathKey(file.clone()), (file, e)));
                    proof {
                        assert(keyed@.map_values(|p: (PathKey, (&String, &IncludeEdge))| p.1.deep_view()) =~= ok.push(
                            (file@, e.deep_view()),
                        ));
                    }
                }
                j += 1;
                proof {
                    assert(keyed@.map_values(|p: (PathKey, (&String, &IncludeEdge))| p.1.deep_view()) =~= before
                        + ev.take(j as int).filter(pe).map_values(tag));
                }
            }
            proof {
                assert(ev.take(ev.len() as int) =~= ev);
            }
            i += 1;
            proof {
                assert(keyed@.map_values(|p: (PathKey, (&String, &IncludeEdge))| p.1.deep_view()) =~= includers_of(
                    self@.includes.take(i as int),
                    hv,
                ));
            }
        }
        proof {
            assert(self@.includes.take(self@.includes.len() as int) =~= self@.includes);
        }
        let ghost kv = keyed@;
        let r = sort_by_spec_key(keyed, Ghost(key));
        proof {
            let items = kv.map_values(|p: (PathKey, (&String, &IncludeEdge))| p.1);
            lemma_multiset_map(r@, items, |x: (&String, &IncludeEdge)| x.deep_view());
            assert(r.deep_view() =~= r@.map_values(|x: (&String, &IncludeEdge)| x.deep_view()));
            assert(items.map_values(|x: (&String, &IncludeEdge)| x.deep_view()) =~= kv.map_values(
                |p: (PathKey, (&String, &IncludeEdge))| p.1.deep_view(),
            ));
            assert forall|a: int, b: int| 0 <= a < b < r@.len() implies path_le(#[trigger] r.deep_view()[a].0, #[trigger] r.deep_view()[b].0) by {
                assert(key(r@[a]).key_le(&key(r@[b])));
            }
        }
        r
    }

    /// Every function that reaches `name` in at most `depth` calls, each reported once.
    pub fn get_callers(&self, name: &str, depth: usize) -> (r: Vec<String>)
        ensures
            r.deep_view().no_duplicates(),
            forall|n: Seq<char>|
                r.deep_view().contains(n) <==> within(
                    |v: Vertex| pair_succ(self@.callers, v),
                    (name@, no_file()),
                    depth as nat,
                ).contains((n, no_file())),
            nearer_first(
                |v: Vertex| pair_succ(self@.callers, v),
                (name@, no_file()),
                r.deep_view().map_values(|n: Seq<char>| (n, no_file())),
            ),
    {
        pair_bfs(&self.callers, name, depth)
    }

    /// Every function that `name` reaches in at most `depth` calls, each reported once.
    pub fn get_callees(&self, name: &str, depth: usize) -> (r: Vec<String>)
        ensures
            r.deep_view().no_duplicates(),
            forall|n: Seq<char>|
                r.deep_view().contains(n) <==> within(
                    |v: Vertex| pair_succ(self@.callees, v),
                    (name@, no_file()),
                    depth as nat,
                ).contains((n, no_file())),
            nearer_first(
                |v: Vertex| pair_succ(self@.callees, v),
                (name@, no_file()),
                r.deep_view().map_values(|n: Seq<char>| (n, no_file())),
            ),
    {
        pair_bfs(&self.callees, name, depth)
    }

    /// Functions whose name contains `query`, ignoring case, in graph order.
    pub fn find_function(&self, query: &str) -> (r: Vec<&FunctionNode>)
        ensures
            r.deep_view() == self@.nodes.filter(|n: FunctionNodeV| contains_ci(n.name, query@)),
    {
        let q = lower_chars(query);
        let ghost pred = |n: FunctionNodeV| contains_ci(n.name, query@);
        let mut r: Vec<&FunctionNode> = Vec::new();
        let mut i: usize = 0;
        while i < self.nodes.len()
            invariant
                i <= self@.nodes.len(),
                q@ == lowercase(query@),
                pred == (|n: FunctionNodeV| contains_ci(n.name, query@)),
                r.deep_view() == self@.nodes.take(i as int).filter(pred),
            decreases self@.nodes.len() - i,
        {
            let n = &self.nodes[i];
            proof {
                assert(self@.nodes.take(i + 1) =~= self@.nodes.take(i as int).push(n.deep_view()));
            }
            if lower_contains(n.name.as_str(), &q) {
                r.push(n);
            }
            i += 1;
            proof {
                assert(r.deep_view() =~= self@.nodes.take(i as int).filter(pred));
            }
        }
        assert(self@.nodes.take(self@.nodes.len() as int) =~= self@.nodes);
        r
    }

    /// Functions defined in files whose path contains `filename`, ignoring case, in graph order.
    pub fn find_functions_in_file(&self, filename: &str) -> (r: Vec<&FunctionNode>)
        ensures
            r.deep_view() == self@.nodes.filter(|n: FunctionNodeV| contains_ci(n.file, filename@)),
    {
        let q = lower_chars(filename);
        let ghost pred = |n: FunctionNodeV| contains_ci(n.file, filename@);
        let mut r: Vec<&FunctionNode> = Vec::new();
        let mut i: usize = 0;
        while i < self.nodes.len()
            invariant
                i <= self@.nodes.len(),
                q@ == lowercase(filename@),
                pred == (|n: FunctionNodeV| contains_ci(n.file, filename@)),
                r.deep_view() == self@.nodes.take(i as int).filter(pred),
            decreases self@.nodes.len() - i,
        {
            let n = &self.nodes[i];
            proof {
                assert(self@.nodes.take(i + 1) =~= self@.nodes.take(i as int).push(n.deep_view()));
            }
            if lower_contains(n.file.as_str(), &q) {
                r.push(n);
            }
            i += 1;
            proof {
                assert(r.deep_view() =~= self@.nodes.take(i as int).filter(pred));
            }
        }
        assert(self@.nodes.take(self@.nodes.len() as int) =~= self@.nodes);
        r
    }

    /// The non-`static` functions of files whose path contains `filename`, ignoring case: the
    /// public API of those files, in graph order.
    pub fn get_public_api(&self, filename: &str) -> (r: Vec<&FunctionNode>)
        ensures
            r.deep_view() == self@.nodes.filter(|n: FunctionNodeV| !n.is_static && contains_ci(n.file, filename@)),
    {
        let q = lower_chars(filename);
        let ghost pred = |n: FunctionNodeV| !n.is_static && contains_ci(n.file, filename@);
        let mut r: Vec<&FunctionNode> = Vec::new();
        let mut i: usize = 0;
        while i < self.nodes.len()
            invariant
                i <= self@.nodes.len(),
                q@ == lowercase(filename@),
                pred == (|n: FunctionNodeV| !n.is_static && contains_ci(n.file, filename@)),
                r.deep_view() == self@.nodes.take(i as int).filter(pred),
            decreases self@.nodes.len() - i,
        {
            let n = &self.nodes[i];
            proof {
                assert(self@.nodes.take(i + 1) =~= self@.nodes.take(i as int).push(n.deep_view()));
            }
            if !n.is_static && lower_contains(n.file.as_str(), &q) {
                r.push(n);
            }
            i += 1;
            proof {
                assert(r.deep_view() =~= self@.nodes.take(i as int).filter(pred));
            }
        }
        assert(self@.nodes.take(self@.nodes.len() as int) =~= self@.nodes);
        r
    }

    /// Why a function named `name` that nothing calls may still be in use.
    fn classify_dead(&self, name: &str) -> (r: DeadCodeKind)
        ensures
            r == classify_spec(name@, self@.macro_referenced),
    {
        let n = owned(name);
        proof {
            reveal_strlit("main");
        }
        if str_eq(name, "main") {
            return DeadCodeKind::Entrypoint;
        }
        if contains_name(&self.macro_referenced, &n) {
            return DeadCodeKind::MacroRegistered;
        }
        let lower = lower_chars(name);
        if ends_with_exec(&lower, "_handler") || ends_with_exec(&lower, "_callback") || ends_with_exec(&lower, "_cb")
            || ends_with_exec(&lower, "_isr") || ends_with_exec(&lower, "_irq") || ends_with_exec(&lower, "_evt")
            || ends_with_exec(&lower, "_event") || starts_with_exec(&lower, "on_") || starts_with_exec(&lower, "assert_") {
            return DeadCodeKind::CallbackByName;
        }
        DeadCodeKind::Suspicious
    }

    /// The functions that nothing calls, in graph order, each with the reason it may still be in use.
    pub fn find_dead_code(&self) -> (r: Vec<(&FunctionNode, DeadCodeKind)>)
        ensures
            r.deep_view() == dead_code_spec(self@),
    {
        let ghost pred = |n: FunctionNodeV| !has_key(self@.callers, n.name);
        let ghost ent = |n: FunctionNodeV| dead_entry(self@.macro_referenced, n);
        let mut r: Vec<(&FunctionNode, DeadCodeKind)> = Vec::new();
        let mut i: usize = 0;
        while i < self.nodes.len()
            invariant
                i <= self@.nodes.len(),
                pred == (|n: FunctionNodeV| !has_key(self@.callers, n.name)),
                ent == (|n: FunctionNodeV| dead_entry(self@.macro_referenced, n)),
                r.deep_view() == self@.nodes.take(i as int).filter(pred).map_values(ent),
            decreases self@.nodes.len() - i,
        {
            let n = &self.nodes[i];
            let ghost or = r.deep_view();
            proof {
                assert(self@.nodes.take(i + 1) =~= self@.nodes.take(i as int).push(n.deep_view()));
            }
            if !has_key_exec(&self.callers, &n.name) {
                let kind = self.classify_dead(n.name.as_str());
                r.push((n, kind));
                proof {
                    assert(r.deep_view() =~= or.push(ent(n.deep_view())));
                }
            }
            i += 1;
            proof {
                assert(r.deep_view() =~= self@.nodes.take(i as int).filter(pred).map_values(ent));
            }
        }
        assert(self@.nodes.take(self@.nodes.len() as int) =~= self@.nodes);
        r
    }

    /// The `n` functions with the most distinct callers, most first, names in order among equal
    /// counts.
    pub fn top_by_fan_in(&self, n: usize) -> (r: Vec<(&str, usize)>)
        ensures
            is_top(r.deep_view(), fan_entries(self@.nodes, self@.callers), n as int),
    {
        top_by(&self.nodes, &self.callers, n)
    }

    /// The `n` functions with the most distinct callees, most first, names in order among equal
    /// counts.
    pub fn top_by_fan_out(&self, n: usize) -> (r: Vec<(&str, usize)>)
        ensures
            is_top(r.deep_view(), fan_entries(self@.nodes, self@.callees), n as int),
    {
        top_by(&self.nodes, &self.callees, n)
    }
}

} // verus!
