//! Indexing: which files are C sources, how many cache entries to keep, and building the graph
//! from sources parsed here or file graphs read back from the cache.
use vstd::prelude::*;

use crate::graph::codebase::{empty_graph, merge_file_graphs, CodebaseGraph, CodebaseGraphV, file_graphs_view, all_nodes, all_callees};
use crate::graph::types::{FileGraph, FileGraphV};
use crate::parser::source::byte_len;
use crate::parser::syntax::{big_tree, tree_of, SyntaxTreeV};
use crate::parser::{file_graph_spec, parse_file, parse_file_to_graph, parsed_as, with_file, ParseError};
use crate::graph::paths::{path_pieces, pieces_of};
use crate::text::chars_of;

verus! {

broadcast use vstd::seq_lib::group_seq_properties;

/// The last piece of `ps` that names something (neither empty nor `.`); empty when there is
/// none.
pub open spec fn last_name(ps: Seq<Seq<char>>) -> Seq<char>
    decreases ps.len(),
{
    if ps.len() == 0 {
        Seq::empty()
    } else if ps.last().len() > 0 && ps.last() != "."@ {
        ps.last()
    } else {
        last_name(ps.drop_last())
    }
}

/// The last component of a path, as `Path::file_name` finds it: repeated and trailing
/// separators and `.` components do not count (a `..` comes back as is, and names no file).
pub open spec fn file_name(path: Seq<char>) -> Seq<char> {
    last_name(path_pieces(path))
}

/// A C source or header: a file name that ends in `.c` or `.h` after at least one more
/// character (the names whose extension `Path::extension` reports as `c` or `h`).
pub open spec fn is_c_source_spec(path: Seq<char>) -> bool {
    let n = file_name(path);
    &&& n.len() >= 3
    &&& n[n.len() - 2] == '.'
    &&& (n.last() == 'c' || n.last() == 'h')
}

/// Is `path` a C source or header file (extension `c` or `h`)?
pub fn is_c_source(path: &str) -> (r: bool)
    ensures
        r == is_c_source_spec(path@),
{
    let cs = chars_of(path);
    let pieces = pieces_of(&cs);
    let ghost pv = pieces@.map_values(|v: Vec<char>| v@);
    let mut k: usize = pieces.len();
    proof {
        reveal_strlit(".");
        assert(pv.take(k as int) =~= pv);
    }
    while k > 0 && (pieces[k - 1].len() == 0 || (pieces[k - 1].len() == 1 && pieces[k - 1][0] == '.'))
        invariant
            k <= pv.len(),
            pv == pieces@.map_values(|v: Vec<char>| v@),
            last_name(pv.take(k as int)) == last_name(pv),
        decreases k,
    {
        proof {
            reveal_strlit(".");
            let q = pieces@[k - 1]@;
            assert(pv[k - 1] == q);
            if q.len() == 1 {
                assert(q =~= "."@);
            }
            assert(pv.take(k as int).drop_last() =~= pv.take(k - 1));
            assert(pv.take(k as int).last() == q);
        }
        k -= 1;
    }
    if k == 0 {
        proof {
            assert(pv.take(0) =~= Seq::<Seq<char>>::empty());
        }
        return false;
    }
    let n = &pieces[k - 1];
    proof {
        let q = n@;
        assert(pv[k - 1] == q);
        assert(q.len() > 0);
        if q.len() == 1 {
            assert(q[0] != '.');
            assert(q != "."@);
        } else {
            assert(q.len() != "."@.len());
        }
        assert(pv.take(k as int).last() == q);
        assert(last_name(pv) == q);
        assert(cs@ == path@);
    }
    let m = n.len();
    if m < 3 {
        return false;
    }
    let last = n[m - 1];
    n[m - 2] == '.' && (last == 'c' || last == 'h')
}

/// How many cache entries to keep for `n_files` source files: the file count plus the overhead
/// percentage, rounded down.
pub fn cache_capacity(n_files: usize, overhead_pct: usize) -> (r: usize)
    requires
        overhead_pct <= usize::MAX - 100,
        n_files * (100 + overhead_pct) <= usize::MAX,
    ensures
        r == n_files * (100 + overhead_pct) / 100,
{
    n_files * (100 + overhead_pct) / 100
}

/// `g` with the file graphs of `fs` added one after the other.
pub open spec fn with_files(g: CodebaseGraphV, fs: Seq<FileGraphV>) -> CodebaseGraphV
    decreases fs.len(),
{
    if fs.len() == 0 {
        g
    } else {
        with_file(with_files(g, fs.drop_last()), fs.last())
    }
}

/// The file graphs of the files that parsed, in order.
pub open spec fn parsed_graphs(outs: Seq<Option<FileGraphV>>) -> Seq<FileGraphV>
    decreases outs.len(),
{
    if outs.len() == 0 {
        Seq::empty()
    } else {
        match outs.last() {
            Some(f) => parsed_graphs(outs.drop_last()).push(f),
            None => parsed_graphs(outs.drop_last()),
        }
    }
}

/// What parsing `source` (the file at `path`) gives: the file graph read off the tree of the
/// text (`None` where a name's text cannot be taken), or `None` when the text is too long for
/// its byte offsets to fit a `usize` or its tree has more nodes than the copy takes.
pub open spec fn outcome_of(o: Option<FileGraphV>, source: Seq<char>, path: Seq<char>) -> bool {
    if byte_len(source) > usize::MAX {
        o is None
    } else {
        (o is None && big_tree(source)) || exists|t: SyntaxTreeV| tree_of(t, source) && file_graph_spec(t, source, path) == o
    }
}

/// `outs` records, source by source, what parsing gave (`outcome_of`).
pub open spec fn outcomes_of(outs: Seq<Option<FileGraphV>>, sources: Seq<(Seq<char>, Seq<char>)>) -> bool {
    &&& outs.len() == sources.len()
    &&& forall|i: int| 0 <= i < outs.len() ==> outcome_of(#[trigger] outs[i], sources[i].1, sources[i].0)
}

/// Parses each `(path, source)` pair and adds what each file contributes to `g`, in order;
/// answers with the numbers of files that parsed and that did not.
pub fn parse_sources_into_graph(g: &mut CodebaseGraph, sources: &Vec<(String, String)>) -> (r: (usize, usize))
    ensures
        exists|outs: Seq<Option<FileGraphV>>|
            outcomes_of(outs, sources.deep_view()) && final(g)@ == with_files(old(g)@, parsed_graphs(outs))
                && r.0 == parsed_graphs(outs).len() && r.0 + r.1 == sources@.len(),
{
    let ghost sv = sources.deep_view();
    let ghost mut outs: Seq<Option<FileGraphV>> = Seq::empty();
    let mut files_ok: usize = 0;
    let mut files_err: usize = 0;
    let mut i: usize = 0;
    while i < sources.len()
        invariant
            i <= sv.len(),
            sv == sources.deep_view(),
            outcomes_of(outs, sv.take(i as int)),
            g@ == with_files(old(g)@, parsed_graphs(outs)),
            files_ok == parsed_graphs(outs).len(),
            files_ok + files_err == i,
        decreases sv.len() - i,
    {
        let path = sources[i].0.as_str();
        let src = sources[i].1.as_str();
        let ghost before = g@;
        let mut local = CodebaseGraph::new();
        let ghost empty = local@;
        match parse_file(path, src, &mut local) {
            Ok(()) => {
                let ghost t = choose|t: SyntaxTreeV|
                    tree_of(t, src@) && match file_graph_spec(t, src@, path@) {
                        Some(f) => local@ == with_file(empty, f),
                        None => false,
                    };
                let ghost f = file_graph_spec(t, src@, path@)->0;
                proof {
                    assert(outcome_of(Some(f), src@, path@));
                }
                g.merge(local);
                proof {
                    assert(empty.nodes =~= Seq::empty());
                    assert(g@ == with_file(before, f)) by {
                        assert(g@.nodes =~= before.nodes + f.nodes);
                        assert(g@.callers =~= before.callers + reverse_edges_of(f));
                        assert(g@.callees =~= before.callees + f.callees);
                        assert(g@.symbols =~= before.symbols + f.symbols);
                        assert(g@.types =~= before.types + f.types);
                        assert(g@.globals =~= before.globals + f.globals);
                    }
                    let o2 = outs.push(Some(f));
                    assert(o2.drop_last() =~= outs);
                    assert(parsed_graphs(o2) == parsed_graphs(outs).push(f));
                    assert(parsed_graphs(o2).drop_last() =~= parsed_graphs(outs));
                    assert(sv.take(i + 1) =~= sv.take(i as int).push(sv[i as int]));
                    assert forall|k: int| 0 <= k < o2.len() implies outcome_of(#[trigger] o2[k], sv.take(i + 1)[k].1, sv.take(i + 1)[k].0) by {
                        if k < i {
                            assert(o2[k] == outs[k]);
                        }
                    }
                    outs = o2;
                }
                files_ok += 1;
            },
            Err(_) => {
                proof {
                    if byte_len(src@) <= usize::MAX && !big_tree(src@) {
                        let t = choose|t: SyntaxTreeV|
                            tree_of(t, src@) && match file_graph_spec(t, src@, path@) {
                                Some(f) => false,
                                None => true,
                            };
                        assert(tree_of(t, src@) && file_graph_spec(t, src@, path@) == None::<FileGraphV>);
                    }
                    assert(outcome_of(None, src@, path@));
                    let o2 = outs.push(None);
                    assert(o2.drop_last() =~= outs);
                    assert(sv.take(i + 1) =~= sv.take(i as int).push(sv[i as int]));
                    assert forall|k: int| 0 <= k < o2.len() implies outcome_of(#[trigger] o2[k], sv.take(i + 1)[k].1, sv.take(i + 1)[k].0) by {
                        if k < i {
                            assert(o2[k] == outs[k]);
                        }
                    }
                    outs = o2;
                }
                files_err += 1;
            },
        }
        i += 1;
    }
    proof {
        assert(sv.take(sv.len() as int) =~= sv);
    }
    (files_ok, files_err)
}

/// The reverse edges a file graph adds.
pub open spec fn reverse_edges_of(f: FileGraphV) -> Seq<(Seq<char>, crate::graph::types::CallEdgeV)> {
    crate::graph::codebase::reverse_edges(f.callees)
}

/// What an indexing run reports.
pub struct IndexReport {
    pub files_ok: usize,
    pub files_err: usize,
    /// Files whose graph came from the cache
    pub l2_hits: usize,
    /// Function definitions in the graph
    pub functions: usize,
    /// Forward call edges in the graph
    pub call_edges: usize,
}

/// Replaces the graph by the one built from in-memory sources; reports the counts.
pub fn index_sources(g: &mut CodebaseGraph, sources: &Vec<(String, String)>) -> (r: IndexReport)
    ensures
        exists|outs: Seq<Option<FileGraphV>>|
            outcomes_of(outs, sources.deep_view()) && final(g)@ == with_files(empty_graph(), parsed_graphs(outs))
                && r.files_ok == parsed_graphs(outs).len(),
        r.files_ok + r.files_err == sources@.len(),
        r.l2_hits == 0,
        r.functions == final(g)@.nodes.len(),
        r.call_edges == final(g)@.callees.len(),
{
    g.clear();
    let (files_ok, files_err) = parse_sources_into_graph(g, sources);
    IndexReport { files_ok, files_err, l2_hits: 0, functions: g.nodes.len(), call_edges: g.callees.len() }
}

/// An indexing run over the files of a project: the file graphs gathered so far (from the
/// cache or parsed here), the content key of each file indexed, and the counts.
pub struct IndexRun {
    pub file_graphs: Vec<FileGraph>,
    /// (path, content key) of each file whose graph was gathered
    pub file_keys: Vec<(String, String)>,
    pub files_ok: usize,
    pub files_err: usize,
    pub l2_hits: usize,
}

impl IndexRun {
    /// A run that has seen no file yet.
    pub fn new() -> (r: Self)
        ensures
            r.file_graphs@.len() == 0,
            r.file_keys@.len() == 0,
            r.files_ok == 0,
            r.files_err == 0,
            r.l2_hits == 0,
    {
        IndexRun { file_graphs: Vec::new(), file_keys: Vec::new(), files_ok: 0, files_err: 0, l2_hits: 0 }
    }

    /// A file that could not be read, or whose bytes are not UTF-8.
    pub fn unreadable(&mut self)
        requires
            old(self).files_err < usize::MAX,
        ensures
            final(self).files_err == old(self).files_err + 1,
            final(self).files_ok == old(self).files_ok,
            final(self).l2_hits == old(self).l2_hits,
            final(self).file_graphs@ == old(self).file_graphs@,
            final(self).file_keys@ == old(self).file_keys@,
    {
        self.files_err = self.files_err + 1;
    }

    /// A file whose graph the cache held under its content key.
    pub fn cached(&mut self, path: String, key: String, fg: FileGraph)
        requires
            old(self).files_ok < usize::MAX,
            old(self).l2_hits < usize::MAX,
        ensures
            final(self).files_ok == old(self).files_ok + 1,
            final(self).l2_hits == old(self).l2_hits + 1,
            final(self).files_err == old(self).files_err,
            file_graphs_view(final(self).file_graphs@) == file_graphs_view(old(self).file_graphs@).push(fg@),
            final(self).file_keys.deep_view() == old(self).file_keys.deep_view().push((path@, key@)),
    {
        let ghost fv = fg@;
        self.file_graphs.push(fg);
        self.file_keys.push((path, key));
        self.files_ok = self.files_ok + 1;
        self.l2_hits = self.l2_hits + 1;
        proof {
            assert(file_graphs_view(self.file_graphs@) =~= file_graphs_view(old(self).file_graphs@).push(fv));
        }
    }

    /// Parses a file the cache did not hold; answers whether it parsed (its graph is then the
    /// last one gathered).
    pub fn parse(&mut self, path: String, key: String, source: &str) -> (r: bool)
        requires
            old(self).files_ok < usize::MAX,
            old(self).files_err < usize::MAX,
        ensures
            final(self).l2_hits == old(self).l2_hits,
            r ==> final(self).files_ok == old(self).files_ok + 1 && final(self).files_err == old(self).files_err
                && final(self).file_keys.deep_view() == old(self).file_keys.deep_view().push((path@, key@))
                && exists|f: FileGraphV|
                outcome_of(Some(f), source@, path@) && parsed_as(f, source@, path@) && file_graphs_view(
                    final(self).file_graphs@,
                ) == file_graphs_view(old(self).file_graphs@).push(f),
            !r ==> outcome_of(None, source@, path@) && final(self).files_err == old(self).files_err + 1
                && final(self).files_ok == old(self).files_ok && final(self).file_graphs@ == old(self).file_graphs@
                && final(self).file_keys@ == old(self).file_keys@,
    {
        match parse_file_to_graph(path.as_str(), source) {
            Ok(fg) => {
                let ghost fv = fg@;
                self.file_graphs.push(fg);
                self.file_keys.push((path, key));
                self.files_ok = self.files_ok + 1;
                proof {
                    assert(file_graphs_view(self.file_graphs@) =~= file_graphs_view(old(self).file_graphs@).push(fv));
                    assert(parsed_as(fv, source@, path@));
                    let t = choose|t: SyntaxTreeV|
                        tree_of(t, source@) && match file_graph_spec(t, source@, path@) {
                            Some(f) => f == fv,
                            None => false,
                        };
                    assert(file_graph_spec(t, source@, path@) == Some(fv));
                    assert(outcome_of(Some(fv), source@, path@));
                }
                true
            },
            Err(_) => {
                proof {
                    if byte_len(source@) <= usize::MAX && !big_tree(source@) {
                        let t = choose|t: SyntaxTreeV|
                            tree_of(t, source@) && match file_graph_spec(t, source@, path@) {
                                Some(f) => false,
                                None => true,
                            };
                        assert(tree_of(t, source@) && file_graph_spec(t, source@, path@) == None::<FileGraphV>);
                    }
                }
                self.files_err = self.files_err + 1;
                false
            },
        }
    }

    /// The graph merged from the gathered file graphs, in order, and the run's report.
    pub fn finish(self) -> (r: (CodebaseGraph, IndexReport))
        ensures
            r.0@.nodes == all_nodes(file_graphs_view(self.file_graphs@)),
            r.0@.callees == all_callees(file_graphs_view(self.file_graphs@)),
            r.0@.callers == crate::graph::codebase::reverse_edges(all_callees(file_graphs_view(self.file_graphs@))),
            r.0@.symbols == crate::graph::codebase::all_symbols(file_graphs_view(self.file_graphs@)),
            r.0@.types == crate::graph::codebase::all_types(file_graphs_view(self.file_graphs@)),
            r.0@.globals == crate::graph::codebase::all_globals(file_graphs_view(self.file_graphs@)),
            r.1.files_ok == self.files_ok,
            r.1.files_err == self.files_err,
            r.1.l2_hits == self.l2_hits,
            r.1.functions == r.0@.nodes.len(),
            r.1.call_edges == r.0@.callees.len(),
    {
        let IndexRun { file_graphs, file_keys: _, files_ok, files_err, l2_hits } = self;
        let g = merge_file_graphs(file_graphs);
        let functions = g.nodes.len();
        let call_edges = g.callees.len();
        (g, IndexReport { files_ok, files_err, l2_hits, functions, call_edges })
    }
}

} // verus!
