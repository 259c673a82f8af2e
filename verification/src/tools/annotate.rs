//! Annotation tools: writing notes on files and symbols, reading them back with a staleness
//! flag, finding what has no note yet, and the full context of one file.
use vstd::prelude::*;

use crate::annotations::{lookup, unique_keys, upsert, AnnotationStore, AnnotationStoreV, FileAnnotation, FileAnnotationV, SymbolAnnotation};
use crate::graph::codebase::{CodebaseGraph, CodebaseGraphV};
use crate::graph::types::{CallEdgeV, FunctionNode, FunctionNodeV, GlobalVar, GlobalVarV, TypeKind, TypeNode, TypeNodeV};
use crate::parser::source::{byte_prefix, byte_prefix_exec};
use crate::hash::{short_hash, short_hash_of, short_hash_parts, source_hash};
use crate::order::{chars_le, lemma_sorted_of, sort_strings, sorted_of, sorted_perm};
use crate::text::{chars_of, contains_ci, decimal, join, join_strings, lower_chars, lower_contains, owned, push_decimal, push_str, string_from_chars};

verus! {

broadcast use {vstd::seq_lib::group_seq_properties, Seq::lemma_filter_push};

pub struct AnnotateFileParams {
    /// File path substring — must match exactly one indexed file (case-insensitive)
    pub path: String,
    /// Subsystem or module this file belongs to
    pub subsystem: String,
    /// Description of what this file does
    pub summary: String,
    /// Free-form notes: interrupt context, cross-file dependencies, design decisions
    pub notes: Option<String>,
}

pub struct AnnotateSymbolParams {
    /// Exact function, global variable, or type name to annotate
    pub name: String,
    /// Free-form semantic insight — interrupt context, ownership rules, invariants, design intent
    pub insight: String,
}

pub struct FilePathParams {
    /// File path substring to search for (case-insensitive)
    pub path: String,
}

pub struct FileContextParams {
    /// Filename substring — must match exactly one indexed file (case-insensitive)
    pub filename: String,
}

pub struct ListUnannotatedParams {
    /// File path substring — omit to list unannotated files; provide to list unannotated
    /// functions within that file
    pub file: Option<String>,
}

pub struct GetAnnotationsParams {
    /// File path substring to filter by — omit to list all annotated files
    pub path: Option<String>,
}

/// The sources of the functions defined in `file`, in graph order.
pub open spec fn sources_in(nodes: Seq<FunctionNodeV>, file: Seq<char>) -> Seq<Seq<char>> {
    nodes.filter(|n: FunctionNodeV| n.file == file).map_values(|n: FunctionNodeV| n.source)
}

/// The hash of a file's functions: the short hash of their sources, sorted.
pub open spec fn file_hash(g: CodebaseGraphV, file: Seq<char>) -> Seq<char> {
    short_hash_of(sorted_of(sources_in(g.nodes, file)))
}

/// The short hash of the sorted sources of the functions defined in `file`.
pub fn compute_hash(graph: &CodebaseGraph, file: &str) -> (r: String)
    ensures
        r@ == file_hash(graph@, file@),
{
    let ghost nv = graph@.nodes;
    let ghost pred = |n: FunctionNodeV| n.file == file@;
    let key = owned(file);
    let mut sources: Vec<String> = Vec::new();
    let mut i: usize = 0;
    while i < graph.nodes.len()
        invariant
            i <= nv.len(),
            nv == graph@.nodes,
            key@ == file@,
            pred == (|n: FunctionNodeV| n.file == file@),
            sources.deep_view() == nv.take(i as int).filter(pred).map_values(|n: FunctionNodeV| n.source),
        decreases nv.len() - i,
    {
        let n = &graph.nodes[i];
        let ghost before = sources.deep_view();
        proof {
            assert(nv.take(i + 1) =~= nv.take(i as int).push(n.deep_view()));
        }
        if n.file == key {
            let s = n.source.clone();
            sources.push(s);
            proof {
                assert(sources.deep_view() =~= before.push(n.source@));
            }
        }
        i += 1;
        proof {
            assert(sources.deep_view() =~= nv.take(i as int).filter(pred).map_values(|n: FunctionNodeV| n.source));
        }
    }
    proof {
        assert(nv.take(nv.len() as int) =~= nv);
    }
    let ghost sv = sources.deep_view();
    let sorted = sort_strings(sources);
    proof {
        assert(sorted_perm(sorted.deep_view(), sv));
        lemma_sorted_of(sorted.deep_view(), sv);
    }
    let mut parts: Vec<&str> = Vec::new();
    let mut j: usize = 0;
    while j < sorted.len()
        invariant
            j <= sorted@.len(),
            parts@.map_values(|p: &str| p@) == sorted.deep_view().take(j as int),
        decreases sorted@.len() - j,
    {
        let ghost before = parts@;
        parts.push(sorted[j].as_str());
        j += 1;
        proof {
            assert(parts@.map_values(|p: &str| p@) =~= before.map_values(|p: &str| p@).push(sorted.deep_view()[j - 1]));
            assert(parts@.map_values(|p: &str| p@) =~= sorted.deep_view().take(j as int));
        }
    }
    proof {
        assert(sorted.deep_view().take(sorted@.len() as int) =~= sorted.deep_view());
    }
    short_hash_parts(&parts)
}

/// The hash under which a note on `name` is kept: that of the first function named `name`,
/// else that of the definitions of the types named `name` taken together, else that of the
/// declaration of the first global named `name`; none when nothing has that name.
pub open spec fn symbol_hash(g: CodebaseGraphV, name: Seq<char>) -> Option<Seq<char>> {
    let fns = g.nodes.filter(|n: FunctionNodeV| n.name == name);
    let tys = g.types.filter(|t: TypeNodeV| t.name == name);
    let gls = g.globals.filter(|v: GlobalVarV| v.name == name);
    if fns.len() > 0 {
        Some(source_hash(fns[0].source))
    } else if tys.len() > 0 {
        Some(short_hash_of(tys.map_values(|t: TypeNodeV| t.definition)))
    } else if gls.len() > 0 {
        Some(source_hash(gls[0].decl))
    } else {
        None
    }
}

/// The hash under which a note on `name` is kept (see `symbol_hash`).
pub fn compute_symbol_hash(graph: &CodebaseGraph, name: &str) -> (r: Option<String>)
    ensures
        r.deep_view() == symbol_hash(graph@, name@),
{
    let key = owned(name);
    let ghost fp = |n: FunctionNodeV| n.name == name@;
    let ghost tp = |t: TypeNodeV| t.name == name@;
    let ghost gp = |v: GlobalVarV| v.name == name@;
    let mut i: usize = 0;
    while i < graph.nodes.len()
        invariant
            i <= graph@.nodes.len(),
            key@ == name@,
            fp == (|n: FunctionNodeV| n.name == name@),
            graph@.nodes.take(i as int).filter(fp).len() == 0,
        decreases graph@.nodes.len() - i,
    {
        proof {
            assert(graph@.nodes.take(i + 1) =~= graph@.nodes.take(i as int).push(graph@.nodes[i as int]));
        }
        if graph.nodes[i].name == key {
            proof {
                let all = graph@.nodes;
                assert(all =~= all.take(i + 1) + all.skip(i + 1));
                Seq::filter_distributes_over_add(all.take(i + 1), all.skip(i + 1), fp);
                assert(all.take(i + 1).filter(fp) =~= seq![all[i as int]]);
            }
            return Some(short_hash(graph.nodes[i].source.as_str()));
        }
        i += 1;
    }
    proof {
        assert(graph@.nodes.take(graph@.nodes.len() as int) =~= graph@.nodes);
    }
    let mut defs: Vec<&str> = Vec::new();
    let mut j: usize = 0;
    while j < graph.types.len()
        invariant
            j <= graph@.types.len(),
            key@ == name@,
            tp == (|t: TypeNodeV| t.name == name@),
            fp == (|n: FunctionNodeV| n.name == name@),
            graph@.nodes.filter(fp).len() == 0,
            defs@.map_values(|p: &str| p@) == graph@.types.take(j as int).filter(tp).map_values(|t: TypeNodeV| t.definition),
        decreases graph@.types.len() - j,
    {
        let t = &graph.types[j];
        let ghost before = defs@;
        proof {
            assert(graph@.types.take(j + 1) =~= graph@.types.take(j as int).push(t.deep_view()));
        }
        if t.name == key {
            defs.push(t.definition.as_str());
            proof {
                assert(defs@.map_values(|p: &str| p@) =~= before.map_values(|p: &str| p@).push(t.definition@));
            }
        }
        j += 1;
        proof {
            assert(defs@.map_values(|p: &str| p@) =~= graph@.types.take(j as int).filter(tp).map_values(
                |t: TypeNodeV| t.definition,
            ));
        }
    }
    proof {
        assert(graph@.types.take(graph@.types.len() as int) =~= graph@.types);
    }
    if defs.len() > 0 {
        return Some(short_hash_parts(&defs));
    }
    let mut k: usize = 0;
    while k < graph.globals.len()
        invariant
            k <= graph@.globals.len(),
            key@ == name@,
            gp == (|v: GlobalVarV| v.name == name@),
            fp == (|n: FunctionNodeV| n.name == name@),
            tp == (|t: TypeNodeV| t.name == name@),
            graph@.nodes.filter(fp).len() == 0,
            graph@.types.filter(tp).len() == 0,
            graph@.globals.take(k as int).filter(gp).len() == 0,
        decreases graph@.globals.len() - k,
    {
        proof {
            assert(graph@.globals.take(k + 1) =~= graph@.globals.take(k as int).push(graph@.globals[k as int]));
        }
        if graph.globals[k].name == key {
            proof {
                let all = graph@.globals;
                assert(all =~= all.take(k + 1) + all.skip(k + 1));
                Seq::filter_distributes_over_add(all.take(k + 1), all.skip(k + 1), gp);
                assert(all.take(k + 1).filter(gp) =~= seq![all[k as int]]);
            }
            return Some(short_hash(graph.globals[k].decl.as_str()));
        }
        k += 1;
    }
    proof {
        assert(graph@.globals.take(graph@.globals.len() as int) =~= graph@.globals);
    }
    None
}

/// The strings of `s` in order of first occurrence, each once.
pub open spec fn dedup(s: Seq<Seq<char>>) -> Seq<Seq<char>>
    decreases s.len(),
{
    if s.len() == 0 {
        s
    } else {
        let d = dedup(s.drop_last());
        if d.contains(s.last()) {
            d
        } else {
            d.push(s.last())
        }
    }
}

/// The files that define at least one function, each once, sorted.
pub open spec fn all_files_spec(g: CodebaseGraphV) -> Seq<Seq<char>> {
    sorted_of(dedup(g.nodes.map_values(|n: FunctionNodeV| n.file)))
}

/// Every file path that has at least one function, once each, sorted.
pub fn all_files(graph: &CodebaseGraph) -> (r: Vec<String>)
    ensures
        r.deep_view() == all_files_spec(graph@),
{
    let ghost files = graph@.nodes.map_values(|n: FunctionNodeV| n.file);
    let mut seen: Vec<String> = Vec::new();
    let mut i: usize = 0;
    while i < graph.nodes.len()
        invariant
            i <= graph@.nodes.len(),
            files == graph@.nodes.map_values(|n: FunctionNodeV| n.file),
            seen.deep_view() == dedup(files.take(i as int)),
        decreases graph@.nodes.len() - i,
    {
        let f = &graph.nodes[i].file;
        proof {
            assert(files.take(i + 1).drop_last() =~= files.take(i as int));
            assert(files.take(i + 1).last() == f@);
        }
        let mut found = false;
        let mut j: usize = 0;
        while j < seen.len()
            invariant
                j <= seen@.len(),
                found == seen.deep_view().take(j as int).contains(f@),
            decreases seen@.len() - j,
        {
            proof {
                assert(seen.deep_view().take(j + 1) =~= seen.deep_view().take(j as int).push(seen.deep_view()[j as int]));
            }
            if seen[j] == *f {
                found = true;
            }
            j += 1;
        }
        proof {
            assert(seen.deep_view().take(seen@.len() as int) =~= seen.deep_view());
        }
        if !found {
            let ghost before = seen.deep_view();
            seen.push(f.clone());
            proof {
                assert(seen.deep_view() =~= before.push(f@));
            }
        }
        i += 1;
    }
    proof {
        assert(files.take(files.len() as int) =~= files);
    }
    let ghost dv = seen.deep_view();
    let r = sort_strings(seen);
    proof {
        lemma_sorted_of(r.deep_view(), dv);
    }
    r
}

/// The indexed files whose path contains `substr`, ignoring case, sorted.
pub open spec fn file_matches(g: CodebaseGraphV, substr: Seq<char>) -> Seq<Seq<char>> {
    all_files_spec(g).filter(|f: Seq<char>| contains_ci(f, substr))
}

/// The one indexed file whose path contains `substr`, or why there is not exactly one.
pub open spec fn match_one_file_spec(g: CodebaseGraphV, substr: Seq<char>) -> Result<Seq<char>, Seq<char>> {
    let m = file_matches(g, substr);
    if m.len() == 0 {
        Err("no indexed files match '"@ + substr + "'"@)
    } else if m.len() == 1 {
        Ok(m[0])
    } else {
        Err("ambiguous: "@ + decimal(m.len()) + " files match '"@ + substr + "': "@ + join(m, ", "@))
    }
}

/// The one indexed file whose path contains `substr` (ignoring case); an error naming the
/// candidates when there are several, or saying there are none.
pub fn match_one_file(graph: &CodebaseGraph, substr: &str) -> (r: Result<String, String>)
    ensures
        match match_one_file_spec(graph@, substr@) {
            Ok(f) => r matches Ok(x) && x@ == f,
            Err(e) => r matches Err(x) && x@ == e,
        },
{
    let q = lower_chars(substr);
    let files = all_files(graph);
    let ghost fv = files.deep_view();
    let ghost pred = |f: Seq<char>| contains_ci(f, substr@);
    let mut matches: Vec<String> = Vec::new();
    let mut i: usize = 0;
    while i < files.len()
        invariant
            i <= fv.len(),
            fv == files.deep_view(),
            q@ == crate::text::lowercase(substr@),
            pred == (|f: Seq<char>| contains_ci(f, substr@)),
            matches.deep_view() == fv.take(i as int).filter(pred),
        decreases fv.len() - i,
    {
        proof {
            assert(fv.take(i + 1) =~= fv.take(i as int).push(fv[i as int]));
        }
        if lower_contains(files[i].as_str(), &q) {
            let ghost before = matches.deep_view();
            matches.push(files[i].clone());
            proof {
                assert(matches.deep_view() =~= before.push(fv[i as int]));
            }
        }
        i += 1;
    }
    proof {
        assert(fv.take(fv.len() as int) =~= fv);
    }
    if matches.len() == 0 {
        let mut e = owned("no indexed files match '");
        push_str(&mut e, substr);
        push_str(&mut e, "'");
        return Err(e);
    }
    if matches.len() == 1 {
        return Ok(matches[0].clone());
    }
    let mut e = owned("ambiguous: ");
    push_decimal(&mut e, matches.len() as u64);
    push_str(&mut e, " files match '");
    push_str(&mut e, substr);
    push_str(&mut e, "': ");
    let list = join_strings(&matches, ", ");
    push_str(&mut e, list.as_str());
    Err(e)
}

/// The note that `annotate_file` stores for `file`.
pub open spec fn file_note_for(g: CodebaseGraphV, file: Seq<char>, p: AnnotateFileParams) -> FileAnnotationV {
    FileAnnotationV {
        subsystem: p.subsystem@,
        summary: p.summary@,
        notes: p.notes.deep_view(),
        file_hash: file_hash(g, file),
    }
}

/// Stores a note on the one file whose path contains `p.path`, with the hash of its current
/// functions; answers with that file's path.
pub fn annotate_file(graph: &CodebaseGraph, store: &mut AnnotationStore, p: AnnotateFileParams) -> (r: Result<
    String,
    String,
>)
    requires
        old(store)@.wf(),
    ensures
        final(store)@.wf(),
        final(store).path == old(store).path,
        match match_one_file_spec(graph@, p.path@) {
            Ok(f) => r matches Ok(x) && x@ == f && final(store)@ == (AnnotationStoreV {
                files: upsert(old(store)@.files, f, file_note_for(graph@, f, p)),
                ..old(store)@
            }),
            Err(e) => r matches Err(x) && x@ == e && final(store)@ == old(store)@,
        },
{
    let ghost pv = p;
    let file = match match_one_file(graph, p.path.as_str()) {
        Ok(f) => f,
        Err(e) => return Err(e),
    };
    let file_hash = compute_hash(graph, file.as_str());
    let AnnotateFileParams { path: _, subsystem, summary, notes } = p;
    let ann = FileAnnotation { subsystem, summary, notes, file_hash };
    proof {
        assert(ann.deep_view() == file_note_for(graph@, file@, pv));
    }
    let answer = file.clone();
    store.set_file(file, ann);
    Ok(answer)
}

/// Stores a note on the function, type or global `p.name`, under the hash of its current text;
/// an error when nothing has that name.
pub fn annotate_symbol(graph: &CodebaseGraph, store: &mut AnnotationStore, p: AnnotateSymbolParams) -> (r: Result<
    String,
    String,
>)
    requires
        old(store)@.wf(),
    ensures
        final(store)@.wf(),
        final(store).path == old(store).path,
        match symbol_hash(graph@, p.name@) {
            Some(h) => r matches Ok(x) && x@ == p.name@ && final(store)@.files == old(store)@.files
                && final(store)@.symbol_note(p.name@, h) == Some(p.insight@) && forall|n: Seq<char>, k: Seq<char>|
                n != p.name@ || k != h ==> final(store)@.symbol_note(n, k) == old(store)@.symbol_note(n, k),
            None => r matches Err(x) && x@ == "No function, type, or global named '"@ + p.name@ + "' found in index"@
                && final(store)@ == old(store)@,
        },
{
    match compute_symbol_hash(graph, p.name.as_str()) {
        None => {
            let mut e = owned("No function, type, or global named '");
            push_str(&mut e, p.name.as_str());
            push_str(&mut e, "' found in index");
            Err(e)
        },
        Some(h) => {
            let AnnotateSymbolParams { name, insight } = p;
            let answer = name.clone();
            store.set_symbol(name, h, SymbolAnnotation { insight });
            Ok(answer)
        },
    }
}

/// A file note as the tools report it, with whether the file's functions changed since.
pub struct AnnotationStatus {
    pub file: String,
    pub subsystem: String,
    pub summary: String,
    pub notes: Option<String>,
    /// true when the file's functions no longer hash to what they hashed to when noted
    pub stale: bool,
}

pub struct AnnotationStatusV {
    pub file: Seq<char>,
    pub subsystem: Seq<char>,
    pub summary: Seq<char>,
    pub notes: Option<Seq<char>>,
    pub stale: bool,
}

impl DeepView for AnnotationStatus {
    type V = AnnotationStatusV;

    open spec fn deep_view(&self) -> AnnotationStatusV {
        AnnotationStatusV {
            file: self.file@,
            subsystem: self.subsystem@,
            summary: self.summary@,
            notes: self.notes.deep_view(),
            stale: self.stale,
        }
    }
}

/// The report on one stored file note.
pub open spec fn status_of(g: CodebaseGraphV, e: (Seq<char>, FileAnnotationV)) -> AnnotationStatusV {
    AnnotationStatusV {
        file: e.0,
        subsystem: e.1.subsystem,
        summary: e.1.summary,
        notes: e.1.notes,
        stale: file_hash(g, e.0) != e.1.file_hash,
    }
}

/// Ordered by key.
pub open spec fn by_key<V>(t: Seq<(Seq<char>, V)>) -> bool {
    forall|i: int, j: int| 0 <= i < j < t.len() ==> chars_le(#[trigger] t[i].0, #[trigger] t[j].0)
}

/// The stored file notes whose path contains `q` (all of them when `q` is `None`).
pub open spec fn notes_matching(
    files: Seq<(Seq<char>, FileAnnotationV)>,
    q: Option<Seq<char>>,
) -> Seq<(Seq<char>, FileAnnotationV)> {
    match q {
        Some(q) => files.filter(|e: (Seq<char>, FileAnnotationV)| contains_ci(e.0, q)),
        None => files,
    }
}

/// Reports the stored file notes whose path contains `q` (all when `None`), ordered by path.
fn note_reports(graph: &CodebaseGraph, store: &AnnotationStore, q: Option<&str>) -> (r: Vec<AnnotationStatus>)
    ensures
        exists|t: Seq<(Seq<char>, FileAnnotationV)>|
            t.to_multiset() == notes_matching(store@.files, q.deep_view()).to_multiset() && by_key(t)
                && r.deep_view() == t.map_values(|e: (Seq<char>, FileAnnotationV)| status_of(graph@, e)),
{
    let ghost fv = store@.files;
    let ghost qv = q.deep_view();
    let ghost pred = |e: (Seq<char>, FileAnnotationV)| match qv { Some(x) => contains_ci(e.0, x), None => true };
    let lq = match q {
        Some(x) => lower_chars(x),
        None => Vec::new(),
    };
    let ghost key = |e: &(String, FileAnnotation)| e.0;
    let mut keyed: Vec<(String, &(String, FileAnnotation))> = Vec::new();
    let mut i: usize = 0;
    while i < store.files.len()
        invariant
            i <= fv.len(),
            fv == store@.files,
            qv == q.deep_view(),
            pred == (|e: (Seq<char>, FileAnnotationV)| match qv { Some(x) => contains_ci(e.0, x), None => true }),
            q matches Some(x) ==> lq@ == crate::text::lowercase(x@),
            key == (|e: &(String, FileAnnotation)| e.0),
            forall|k: int| 0 <= k < keyed@.len() ==> #[trigger] keyed@[k].0 == key(keyed@[k].1),
            keyed@.map_values(|p: (String, &(String, FileAnnotation))| p.1.deep_view()) == fv.take(i as int).filter(pred),
        decreases fv.len() - i,
    {
        let e = &store.files[i];
        let ghost before = keyed@.map_values(|p: (String, &(String, FileAnnotation))| p.1.deep_view());
        proof {
            assert(fv.take(i + 1) =~= fv.take(i as int).push(e.deep_view()));
        }
        let take = match q {
            Some(_) => lower_contains(e.0.as_str(), &lq),
            None => true,
        };
        if take {
            keyed.push((e.0.clone(), e));
            proof {
                assert(keyed@.map_values(|p: (String, &(String, FileAnnotation))| p.1.deep_view()) =~= before.push(
                    e.deep_view(),
                ));
            }
        }
        i += 1;
    }
    proof {
        assert(fv.take(fv.len() as int) =~= fv);
        assert(fv.filter(pred) == notes_matching(fv, qv)) by {
            match qv {
                Some(x) => {
                    assert(pred =~= (|e: (Seq<char>, FileAnnotationV)| contains_ci(e.0, x)));
                },
                None => {
                    lemma_filter_true(fv, pred);
                },
            }
        }
    }
    let ghost kv = keyed@;
    let sorted = crate::order::sort_by_spec_key(keyed, Ghost(key));
    let ghost sv = sorted@.map_values(|x: &(String, FileAnnotation)| x.deep_view());
    proof {
        let items = kv.map_values(|p: (String, &(String, FileAnnotation))| p.1);
        crate::order::lemma_multiset_map(sorted@, items, |x: &(String, FileAnnotation)| x.deep_view());
        assert(items.map_values(|x: &(String, FileAnnotation)| x.deep_view()) =~= kv.map_values(
            |p: (String, &(String, FileAnnotation))| p.1.deep_view(),
        ));
        assert forall|a: int, b: int| 0 <= a < b < sv.len() implies chars_le(#[trigger] sv[a].0, #[trigger] sv[b].0) by {
            assert(crate::order::KeyOrd::key_le(&key(sorted@[a]), &key(sorted@[b])));
        }
    }
    let mut r: Vec<AnnotationStatus> = Vec::new();
    let mut j: usize = 0;
    while j < sorted.len()
        invariant
            j <= sv.len(),
            sv == sorted@.map_values(|x: &(String, FileAnnotation)| x.deep_view()),
            r.deep_view() == sv.take(j as int).map_values(|e: (Seq<char>, FileAnnotationV)| status_of(graph@, e)),
        decreases sv.len() - j,
    {
        let e = sorted[j];
        let current = compute_hash(graph, e.0.as_str());
        let st = AnnotationStatus {
            file: e.0.clone(),
            subsystem: e.1.subsystem.clone(),
            summary: e.1.summary.clone(),
            notes: clone_opt(&e.1.notes),
            stale: current != e.1.file_hash,
        };
        let ghost before = r.deep_view();
        proof {
            assert(sv[j as int] == e.deep_view());
            assert(st.deep_view() == status_of(graph@, sv[j as int]));
        }
        r.push(st);
        j += 1;
        proof {
            assert(sv.take(j as int) =~= sv.take(j - 1).push(sv[j - 1]));
            assert(r.deep_view() =~= before.push(status_of(graph@, sv[j - 1])));
        }
    }
    proof {
        assert(sv.take(sv.len() as int) =~= sv);
        assert(kv.map_values(|p: (String, &(String, FileAnnotation))| p.1.deep_view()) == fv.filter(pred));
        assert(sv.to_multiset() == notes_matching(fv, qv).to_multiset());
        assert(by_key(sv));
    }
    r
}

/// Keeping every element keeps the sequence.
proof fn lemma_filter_true<A>(s: Seq<A>, pred: spec_fn(A) -> bool)
    requires
        forall|x: A| #[trigger] pred(x),
    ensures
        s.filter(pred) == s,
    decreases s.len(),
{
    if s.len() > 0 {
        lemma_filter_true(s.drop_last(), pred);
        assert(s =~= s.drop_last().push(s.last()));
        assert(pred(s.last()));
    } else {
        assert(s.filter(pred) =~= s);
    }
}

/// A copy of an optional string.
pub(crate) fn clone_opt(o: &Option<String>) -> (r: Option<String>)
    ensures
        r.deep_view() == o.deep_view(),
{
    match o {
        Some(x) => Some(x.clone()),
        None => None,
    }
}

/// The notes on files whose path contains `p.path` (ignoring case), ordered by path, each with
/// whether its file changed since; none found when the list is empty.
pub fn get_file_annotation(graph: &CodebaseGraph, store: &AnnotationStore, p: FilePathParams) -> (r: Vec<AnnotationStatus>)
    ensures
        exists|t: Seq<(Seq<char>, FileAnnotationV)>|
            t.to_multiset() == notes_matching(store@.files, Some(p.path@)).to_multiset() && by_key(t)
                && r.deep_view() == t.map_values(|e: (Seq<char>, FileAnnotationV)| status_of(graph@, e)),
{
    note_reports(graph, store, Some(p.path.as_str()))
}

/// Every file note, ordered by path, each with whether its file changed since.
pub fn list_file_annotations(graph: &CodebaseGraph, store: &AnnotationStore) -> (r: Vec<AnnotationStatus>)
    ensures
        exists|t: Seq<(Seq<char>, FileAnnotationV)>|
            t.to_multiset() == store@.files.to_multiset() && by_key(t) && r.deep_view() == t.map_values(
                |e: (Seq<char>, FileAnnotationV)| status_of(graph@, e),
            ),
{
    note_reports(graph, store, None)
}

/// The notes asked for: those matching a path, or all of them.
pub enum AnnotationsAnswer {
    ForPath(Vec<AnnotationStatus>),
    All(Vec<AnnotationStatus>),
}

/// The notes on files whose path contains `p.path`, or every file note when no path is given.
pub fn get_annotations(graph: &CodebaseGraph, store: &AnnotationStore, p: GetAnnotationsParams) -> (r: AnnotationsAnswer)
    ensures
        match (p.path, r) {
            (Some(q), AnnotationsAnswer::ForPath(v)) => exists|t: Seq<(Seq<char>, FileAnnotationV)>|
                t.to_multiset() == notes_matching(store@.files, Some(q@)).to_multiset() && by_key(t)
                    && v.deep_view() == t.map_values(|e: (Seq<char>, FileAnnotationV)| status_of(graph@, e)),
            (None, AnnotationsAnswer::All(v)) => exists|t: Seq<(Seq<char>, FileAnnotationV)>|
                t.to_multiset() == store@.files.to_multiset() && by_key(t) && v.deep_view() == t.map_values(
                    |e: (Seq<char>, FileAnnotationV)| status_of(graph@, e),
                ),
            _ => false,
        },
{
    match p.path {
        Some(path) => AnnotationsAnswer::ForPath(get_file_annotation(graph, store, FilePathParams { path })),
        None => AnnotationsAnswer::All(list_file_annotations(graph, store)),
    }
}

/// The number of functions defined in `file`.
pub open spec fn fn_count(nodes: Seq<FunctionNodeV>, file: Seq<char>) -> nat {
    nodes.filter(|n: FunctionNodeV| n.file == file).len()
}

/// The files without a note, each with its number of functions, in path order.
pub open spec fn unannotated_files(g: CodebaseGraphV, st: AnnotationStoreV) -> Seq<(Seq<char>, usize)> {
    all_files_spec(g).filter(|f: Seq<char>| lookup(st.files, f) is None).map_values(
        |f: Seq<char>| (f, fn_count(g.nodes, f) as usize),
    )
}

/// Most functions first; equal counts by path.
pub open spec fn count_order(t: Seq<(Seq<char>, usize)>) -> bool {
    forall|i: int, j: int|
        0 <= i < j < t.len() ==> (#[trigger] t[i]).1 > (#[trigger] t[j]).1 || (t[i].1 == t[j].1 && chars_le(t[i].0, t[j].0))
}

/// The functions of `file` that have no note for their current source.
pub open spec fn unannotated_fns(g: CodebaseGraphV, st: AnnotationStoreV, file: Seq<char>) -> Seq<FunctionNodeV> {
    g.nodes.filter(|n: FunctionNodeV| n.file == file && st.symbol_note(n.name, source_hash(n.source)) is None)
}

/// Ordered by line.
pub open spec fn by_line(t: Seq<FunctionNodeV>) -> bool {
    forall|i: int, j: int| 0 <= i < j < t.len() ==> (#[trigger] t[i]).line <= (#[trigger] t[j]).line
}

/// What has no note yet.
pub enum Unannotated {
    /// Files without a note, each with its number of functions
    Files(Vec<(String, usize)>),
    /// The functions of one file without a note for their current source, each with its line
    Functions { file: String, functions: Vec<(String, u32)> },
}

/// The number of functions defined in `file`.
fn count_in_file(graph: &CodebaseGraph, file: &String) -> (r: usize)
    ensures
        r == fn_count(graph@.nodes, file@),
{
    let ghost pred = |n: FunctionNodeV| n.file == file@;
    let mut c: usize = 0;
    let mut i: usize = 0;
    while i < graph.nodes.len()
        invariant
            i <= graph@.nodes.len(),
            pred == (|n: FunctionNodeV| n.file == file@),
            c == graph@.nodes.take(i as int).filter(pred).len(),
            c <= i,
        decreases graph@.nodes.len() - i,
    {
        proof {
            assert(graph@.nodes.take(i + 1) =~= graph@.nodes.take(i as int).push(graph@.nodes[i as int]));
        }
        if graph.nodes[i].file == *file {
            c += 1;
        }
        i += 1;
    }
    proof {
        assert(graph@.nodes.take(graph@.nodes.len() as int) =~= graph@.nodes);
    }
    c
}

/// The files without a note, most functions first (then by path), each with its number of
/// functions.
fn unannotated_file_list(graph: &CodebaseGraph, store: &AnnotationStore) -> (r: Vec<(String, usize)>)
    requires
        store@.wf(),
    ensures
        exists|t: Seq<(Seq<char>, usize)>|
            t.to_multiset() == unannotated_files(graph@, store@).to_multiset() && count_order(t) && r.deep_view() == t,
{
    let files = all_files(graph);
    let ghost fv = files.deep_view();
    let ghost pred = |f: Seq<char>| lookup(store@.files, f) is None;
    let ghost ent = |f: Seq<char>| (f, fn_count(graph@.nodes, f) as usize);
    let ghost key = |p: (String, usize)| (crate::order::Desc(p.1), p.0);
    let mut keyed: Vec<((crate::order::Desc, String), (String, usize))> = Vec::new();
    let mut i: usize = 0;
    while i < files.len()
        invariant
            i <= fv.len(),
            fv == files.deep_view(),
            store@.wf(),
            pred == (|f: Seq<char>| lookup(store@.files, f) is None),
            ent == (|f: Seq<char>| (f, fn_count(graph@.nodes, f) as usize)),
            key == (|p: (String, usize)| (crate::order::Desc(p.1), p.0)),
            forall|k: int| 0 <= k < keyed@.len() ==> #[trigger] keyed@[k].0 == key(keyed@[k].1),
            keyed@.map_values(|p: ((crate::order::Desc, String), (String, usize))| p.1.deep_view()) == fv.take(
                i as int,
            ).filter(pred).map_values(ent),
        decreases fv.len() - i,
    {
        let f = &files[i];
        let ghost before = keyed@.map_values(|p: ((crate::order::Desc, String), (String, usize))| p.1.deep_view());
        proof {
            assert(fv.take(i + 1) =~= fv.take(i as int).push(f@));
        }
        if store.file_note(f.as_str()).is_none() {
            let n = count_in_file(graph, f);
            let item = (f.clone(), n);
            keyed.push(((crate::order::Desc(n), f.clone()), item));
            proof {
                assert(keyed@.map_values(|p: ((crate::order::Desc, String), (String, usize))| p.1.deep_view()) =~= before.push(
                    ent(f@),
                ));
            }
        }
        i += 1;
    }
    proof {
        assert(fv.take(fv.len() as int) =~= fv);
    }
    let ghost kv = keyed@;
    let sorted = crate::order::sort_by_spec_key(keyed, Ghost(key));
    proof {
        let items = kv.map_values(|p: ((crate::order::Desc, String), (String, usize))| p.1);
        crate::order::lemma_multiset_map(sorted@, items, |x: (String, usize)| x.deep_view());
        assert(items.map_values(|x: (String, usize)| x.deep_view()) =~= kv.map_values(
            |p: ((crate::order::Desc, String), (String, usize))| p.1.deep_view(),
        ));
        assert(sorted.deep_view() =~= sorted@.map_values(|x: (String, usize)| x.deep_view()));
        let t = sorted.deep_view();
        assert forall|a: int, b: int| 0 <= a < b < t.len() implies (#[trigger] t[a]).1 > (#[trigger] t[b]).1 || (t[a].1
            == t[b].1 && chars_le(t[a].0, t[b].0)) by {
            assert(crate::order::KeyOrd::key_le(&key(sorted@[a]), &key(sorted@[b])));
        }
        assert(count_order(t));
        assert(t.to_multiset() == unannotated_files(graph@, store@).to_multiset());
    }
    sorted
}

/// Without a file: the files that have no note, most functions first. With a file substring:
/// the functions of the one matching file that have no note for their current source, by line.
pub fn list_unannotated(graph: &CodebaseGraph, store: &AnnotationStore, p: ListUnannotatedParams) -> (r: Result<
    Unannotated,
    String,
>)
    requires
        store@.wf(),
    ensures
        match p.file {
            None => r matches Ok(Unannotated::Files(v)) && exists|t: Seq<(Seq<char>, usize)>|
                t.to_multiset() == unannotated_files(graph@, store@).to_multiset() && count_order(t) && v.deep_view() == t,
            Some(q) => match match_one_file_spec(graph@, q@) {
                Err(e) => r matches Err(x) && x@ == e,
                Ok(f) => r matches Ok(Unannotated::Functions { file, functions }) && file@ == f && exists|
                    t: Seq<FunctionNodeV>,
                |
                    t.to_multiset() == unannotated_fns(graph@, store@, f).to_multiset() && by_line(t)
                        && functions.deep_view() == t.map_values(|n: FunctionNodeV| (n.name, n.line)),
            },
        },
{
    match p.file {
        None => Ok(Unannotated::Files(unannotated_file_list(graph, store))),
        Some(q) => {
            let file = match match_one_file(graph, q.as_str()) {
                Ok(f) => f,
                Err(e) => return Err(e),
            };
            let ghost pred = |n: FunctionNodeV| n.file == file@ && store@.symbol_note(n.name, source_hash(n.source)) is None;
            let ghost key = |n: &crate::graph::types::FunctionNode| n.line;
            let mut keyed: Vec<(u32, &crate::graph::types::FunctionNode)> = Vec::new();
            let mut i: usize = 0;
            while i < graph.nodes.len()
                invariant
                    i <= graph@.nodes.len(),
                    store@.wf(),
                    pred == (|n: FunctionNodeV| n.file == file@ && store@.symbol_note(n.name, source_hash(n.source)) is None),
                    key == (|n: &crate::graph::types::FunctionNode| n.line),
                    forall|k: int| 0 <= k < keyed@.len() ==> #[trigger] keyed@[k].0 == key(keyed@[k].1),
                    keyed@.map_values(|p: (u32, &crate::graph::types::FunctionNode)| p.1.deep_view()) == graph@.nodes.take(
                        i as int,
                    ).filter(pred),
                decreases graph@.nodes.len() - i,
            {
                let n = &graph.nodes[i];
                let ghost before = keyed@.map_values(|p: (u32, &crate::graph::types::FunctionNode)| p.1.deep_view());
                proof {
                    assert(graph@.nodes.take(i + 1) =~= graph@.nodes.take(i as int).push(n.deep_view()));
                }
                if n.file == file && store.get_symbol(n.name.as_str(), n.source.as_str()).is_none() {
                    keyed.push((n.line, n));
                    proof {
                        assert(keyed@.map_values(|p: (u32, &crate::graph::types::FunctionNode)| p.1.deep_view()) =~= before.push(
                            n.deep_view(),
                        ));
                    }
                }
                i += 1;
            }
            proof {
                assert(graph@.nodes.take(graph@.nodes.len() as int) =~= graph@.nodes);
            }
            let ghost kv = keyed@;
            let sorted = crate::order::sort_by_spec_key(keyed, Ghost(key));
            let ghost t = sorted@.map_values(|x: &crate::graph::types::FunctionNode| x.deep_view());
            proof {
                let items = kv.map_values(|p: (u32, &crate::graph::types::FunctionNode)| p.1);
                crate::order::lemma_multiset_map(sorted@, items, |x: &crate::graph::types::FunctionNode| x.deep_view());
                assert(items.map_values(|x: &crate::graph::types::FunctionNode| x.deep_view()) =~= kv.map_values(
                    |p: (u32, &crate::graph::types::FunctionNode)| p.1.deep_view(),
                ));
                assert forall|a: int, b: int| 0 <= a < b < t.len() implies (#[trigger] t[a]).line <= (#[trigger] t[b]).line by {
                    assert(crate::order::KeyOrd::key_le(&key(sorted@[a]), &key(sorted@[b])));
                }
            }
            let mut functions: Vec<(String, u32)> = Vec::new();
            let mut j: usize = 0;
            while j < sorted.len()
                invariant
                    j <= t.len(),
                    t == sorted@.map_values(|x: &crate::graph::types::FunctionNode| x.deep_view()),
                    functions.deep_view() == t.take(j as int).map_values(|n: FunctionNodeV| (n.name, n.line)),
                decreases t.len() - j,
            {
                let n = sorted[j];
                let ghost before = functions.deep_view();
                functions.push((n.name.clone(), n.line));
                j += 1;
                proof {
                    assert(t.take(j as int) =~= t.take(j - 1).push(t[j - 1]));
                    assert(functions.deep_view() =~= before.push((t[j - 1].name, t[j - 1].line)));
                }
            }
            proof {
                assert(t.take(t.len() as int) =~= t);
                assert(by_line(t));
                assert(t.to_multiset() == unannotated_fns(graph@, store@, file@).to_multiset());
            }
            Ok(Unannotated::Functions { file, functions })
        },
    }
}

/// One function of a file, with its call counts, its callees and its note.
pub struct FnContext {
    pub name: String,
    pub line: u32,
    pub is_static: bool,
    pub conditions: Vec<String>,
    /// Call sites that call a function of this name
    pub caller_count: usize,
    /// Call sites in functions of this name
    pub callee_count: usize,
    /// The names called from functions of this name, one per call site, sorted
    pub callees: Vec<String>,
    /// The note on this function for its current source
    pub annotation: Option<String>,
}

pub struct FnContextV {
    pub name: Seq<char>,
    pub line: u32,
    pub is_static: bool,
    pub conditions: Seq<Seq<char>>,
    pub caller_count: usize,
    pub callee_count: usize,
    pub callees: Seq<Seq<char>>,
    pub annotation: Option<Seq<char>>,
}

impl DeepView for FnContext {
    type V = FnContextV;

    open spec fn deep_view(&self) -> FnContextV {
        FnContextV {
            name: self.name@,
            line: self.line,
            is_static: self.is_static,
            conditions: self.conditions.deep_view(),
            caller_count: self.caller_count,
            callee_count: self.callee_count,
            callees: self.callees.deep_view(),
            annotation: self.annotation.deep_view(),
        }
    }
}

/// One global variable of a file.
pub struct GlobalContext {
    pub name: String,
    pub decl: String,
    pub is_static: bool,
    pub conditions: Vec<String>,
}

pub struct GlobalContextV {
    pub name: Seq<char>,
    pub decl: Seq<char>,
    pub is_static: bool,
    pub conditions: Seq<Seq<char>>,
}

impl DeepView for GlobalContext {
    type V = GlobalContextV;

    open spec fn deep_view(&self) -> GlobalContextV {
        GlobalContextV {
            name: self.name@,
            decl: self.decl@,
            is_static: self.is_static,
            conditions: self.conditions.deep_view(),
        }
    }
}

/// One type of a file, with the first 200 bytes of its definition.
pub struct TypeContext {
    pub name: String,
    pub kind: TypeKind,
    pub definition: String,
}

pub struct TypeContextV {
    pub name: Seq<char>,
    pub kind: TypeKind,
    pub definition: Seq<char>,
}

impl DeepView for TypeContext {
    type V = TypeContextV;

    open spec fn deep_view(&self) -> TypeContextV {
        TypeContextV { name: self.name@, kind: self.kind, definition: self.definition@ }
    }
}

/// Everything known about one file.
pub struct FileContext {
    pub file: String,
    pub functions: Vec<FnContext>,
    pub globals: Vec<GlobalContext>,
    pub types: Vec<TypeContext>,
    pub existing_annotation: Option<AnnotationStatus>,
}

/// The edges stored under `name`, in order.
pub open spec fn edges_of(es: Seq<(Seq<char>, CallEdgeV)>, name: Seq<char>) -> Seq<CallEdgeV> {
    es.filter(|e: (Seq<char>, CallEdgeV)| e.0 == name).map_values(|e: (Seq<char>, CallEdgeV)| e.1)
}

/// The context of one function.
pub open spec fn fn_context(g: CodebaseGraphV, st: AnnotationStoreV, n: FunctionNodeV) -> FnContextV {
    FnContextV {
        name: n.name,
        line: n.line,
        is_static: n.is_static,
        conditions: n.conditions,
        caller_count: edges_of(g.callers, n.name).len() as usize,
        callee_count: edges_of(g.callees, n.name).len() as usize,
        callees: sorted_of(edges_of(g.callees, n.name).map_values(|e: CallEdgeV| e.name)),
        annotation: st.symbol_note(n.name, source_hash(n.source)),
    }
}

/// The context of one global.
pub open spec fn global_context(v: GlobalVarV) -> GlobalContextV {
    GlobalContextV { name: v.name, decl: v.decl, is_static: v.is_static, conditions: v.conditions }
}

/// A definition can be cut at 200 bytes (the cut falls between characters, or it is shorter).
pub open spec fn preview_ok(t: TypeNodeV) -> bool {
    byte_prefix(t.definition, 200) is Some
}

/// The context of one type: its definition cut to 200 bytes.
pub open spec fn type_context(t: TypeNodeV) -> TypeContextV {
    TypeContextV { name: t.name, kind: t.kind, definition: byte_prefix(t.definition, 200).unwrap() }
}

/// Globals ordered by name.
pub open spec fn globals_by_name(t: Seq<GlobalVarV>) -> bool {
    forall|i: int, j: int| 0 <= i < j < t.len() ==> chars_le((#[trigger] t[i]).name, (#[trigger] t[j]).name)
}

/// Types ordered by name.
pub open spec fn types_by_name(t: Seq<TypeNodeV>) -> bool {
    forall|i: int, j: int| 0 <= i < j < t.len() ==> chars_le((#[trigger] t[i]).name, (#[trigger] t[j]).name)
}

/// The file context answer for the file `f`.
pub open spec fn file_context_ok(g: CodebaseGraphV, st: AnnotationStoreV, f: Seq<char>, c: FileContext) -> bool {
    &&& c.file@ == f
    &&& exists|t: Seq<FunctionNodeV>|
        t.to_multiset() == g.nodes.filter(|n: FunctionNodeV| n.file == f).to_multiset() && by_line(t)
            && c.functions.deep_view() == t.map_values(|n: FunctionNodeV| fn_context(g, st, n))
    &&& exists|t: Seq<GlobalVarV>|
        t.to_multiset() == g.globals.filter(|v: GlobalVarV| v.file == f).to_multiset() && globals_by_name(t) && c.globals.deep_view() == t.map_values(|v: GlobalVarV| global_context(v))
    &&& exists|t: Seq<TypeNodeV>|
        t.to_multiset() == g.types.filter(|x: TypeNodeV| x.file == f).to_multiset() && types_by_name(t) && c.types.deep_view() == t.map_values(|x: TypeNodeV| type_context(x))
    &&& c.existing_annotation.deep_view() == match lookup(st.files, f) {
        Some(a) => Some(status_of(g, (f, a))),
        None => None,
    }
}

/// A copy of a list of strings.
pub(crate) fn clone_strings(v: &Vec<String>) -> (r: Vec<String>)
    ensures
        r.deep_view() == v.deep_view(),
{
    let mut r: Vec<String> = Vec::new();
    let mut i: usize = 0;
    while i < v.len()
        invariant
            i <= v@.len(),
            r.deep_view() == v.deep_view().take(i as int),
        decreases v@.len() - i,
    {
        let ghost before = r.deep_view();
        r.push(v[i].clone());
        i += 1;
        proof {
            assert(r.deep_view() =~= before.push(v.deep_view()[i - 1]));
            assert(v.deep_view().take(i as int) =~= v.deep_view().take(i - 1).push(v.deep_view()[i - 1]));
        }
    }
    proof {
        assert(v.deep_view().take(v@.len() as int) =~= v.deep_view());
    }
    r
}

/// The context of one function.
fn fn_context_exec(graph: &CodebaseGraph, store: &AnnotationStore, n: &FunctionNode) -> (r: FnContext)
    requires
        store@.wf(),
    ensures
        r.deep_view() == fn_context(graph@, store@, n.deep_view()),
{
    let ghost pred = |e: (Seq<char>, CallEdgeV)| e.0 == n.name@;
    let mut caller_count: usize = 0;
    let mut i: usize = 0;
    while i < graph.callers.len()
        invariant
            i <= graph@.callers.len(),
            pred == (|e: (Seq<char>, CallEdgeV)| e.0 == n.name@),
            caller_count == graph@.callers.take(i as int).filter(pred).len(),
            caller_count <= i,
        decreases graph@.callers.len() - i,
    {
        proof {
            assert(graph@.callers.take(i + 1) =~= graph@.callers.take(i as int).push(graph@.callers[i as int]));
        }
        if graph.callers[i].0 == n.name {
            caller_count += 1;
        }
        i += 1;
    }
    proof {
        assert(graph@.callers.take(graph@.callers.len() as int) =~= graph@.callers);
    }
    let mut callees: Vec<String> = Vec::new();
    let mut j: usize = 0;
    while j < graph.callees.len()
        invariant
            j <= graph@.callees.len(),
            pred == (|e: (Seq<char>, CallEdgeV)| e.0 == n.name@),
            callees.deep_view() == edges_of(graph@.callees.take(j as int), n.name@).map_values(|e: CallEdgeV| e.name),
            callees@.len() <= j,
        decreases graph@.callees.len() - j,
    {
        let ghost before = callees.deep_view();
        proof {
            assert(graph@.callees.take(j + 1) =~= graph@.callees.take(j as int).push(graph@.callees[j as int]));
        }
        if graph.callees[j].0 == n.name {
            callees.push(graph.callees[j].1.name.clone());
            proof {
                assert(callees.deep_view() =~= before.push(graph@.callees[j as int].1.name));
            }
        }
        j += 1;
        proof {
            assert(callees.deep_view() =~= edges_of(graph@.callees.take(j as int), n.name@).map_values(
                |e: CallEdgeV| e.name,
            ));
        }
    }
    proof {
        assert(graph@.callees.take(graph@.callees.len() as int) =~= graph@.callees);
    }
    let callee_count = callees.len();
    let ghost cv = callees.deep_view();
    let sorted = sort_strings(callees);
    proof {
        lemma_sorted_of(sorted.deep_view(), cv);
        assert(edges_of(graph@.callers, n.name@).len() == graph@.callers.filter(pred).len());
    }
    let annotation = match store.get_symbol(n.name.as_str(), n.source.as_str()) {
        Some(a) => Some(a.insight.clone()),
        None => None,
    };
    FnContext {
        name: n.name.clone(),
        line: n.line,
        is_static: n.is_static,
        conditions: clone_strings(&n.conditions),
        caller_count,
        callee_count,
        callees: sorted,
        annotation,
    }
}

/// The functions of `file` with their contexts, by line.
fn file_functions(graph: &CodebaseGraph, store: &AnnotationStore, file: &String) -> (r: Vec<FnContext>)
    requires
        store@.wf(),
    ensures
        exists|t: Seq<FunctionNodeV>|
            t.to_multiset() == graph@.nodes.filter(|n: FunctionNodeV| n.file == file@).to_multiset() && by_line(t)
                && r.deep_view() == t.map_values(|n: FunctionNodeV| fn_context(graph@, store@, n)),
{
    let ghost pred = |n: FunctionNodeV| n.file == file@;
    let ghost key = |n: &FunctionNode| n.line;
    let mut keyed: Vec<(u32, &FunctionNode)> = Vec::new();
    let mut i: usize = 0;
    while i < graph.nodes.len()
        invariant
            i <= graph@.nodes.len(),
            pred == (|n: FunctionNodeV| n.file == file@),
            key == (|n: &FunctionNode| n.line),
            forall|k: int| 0 <= k < keyed@.len() ==> #[trigger] keyed@[k].0 == key(keyed@[k].1),
            keyed@.map_values(|p: (u32, &FunctionNode)| p.1.deep_view()) == graph@.nodes.take(i as int).filter(pred),
        decreases graph@.nodes.len() - i,
    {
        let n = &graph.nodes[i];
        let ghost before = keyed@.map_values(|p: (u32, &FunctionNode)| p.1.deep_view());
        proof {
            assert(graph@.nodes.take(i + 1) =~= graph@.nodes.take(i as int).push(n.deep_view()));
        }
        if n.file == *file {
            keyed.push((n.line, n));
            proof {
                assert(keyed@.map_values(|p: (u32, &FunctionNode)| p.1.deep_view()) =~= before.push(n.deep_view()));
            }
        }
        i += 1;
    }
    proof {
        assert(graph@.nodes.take(graph@.nodes.len() as int) =~= graph@.nodes);
    }
    let ghost kv = keyed@;
    let sorted = crate::order::sort_by_spec_key(keyed, Ghost(key));
    let ghost t = sorted@.map_values(|x: &FunctionNode| x.deep_view());
    proof {
        let items = kv.map_values(|p: (u32, &FunctionNode)| p.1);
        crate::order::lemma_multiset_map(sorted@, items, |x: &FunctionNode| x.deep_view());
        assert(items.map_values(|x: &FunctionNode| x.deep_view()) =~= kv.map_values(|p: (u32, &FunctionNode)| p.1.deep_view()));
        assert forall|a: int, b: int| 0 <= a < b < t.len() implies (#[trigger] t[a]).line <= (#[trigger] t[b]).line by {
            assert(crate::order::KeyOrd::key_le(&key(sorted@[a]), &key(sorted@[b])));
        }
    }
    let mut r: Vec<FnContext> = Vec::new();
    let mut j: usize = 0;
    while j < sorted.len()
        invariant
            j <= t.len(),
            store@.wf(),
            t == sorted@.map_values(|x: &FunctionNode| x.deep_view()),
            r.deep_view() == t.take(j as int).map_values(|n: FunctionNodeV| fn_context(graph@, store@, n)),
        decreases t.len() - j,
    {
        let c = fn_context_exec(graph, store, sorted[j]);
        let ghost before = r.deep_view();
        r.push(c);
        j += 1;
        proof {
            assert(t.take(j as int) =~= t.take(j - 1).push(t[j - 1]));
            assert(r.deep_view() =~= before.push(fn_context(graph@, store@, t[j - 1])));
        }
    }
    proof {
        assert(t.take(t.len() as int) =~= t);
        assert(by_line(t));
    }
    r
}

/// The globals of `file`, by name.
fn file_globals(graph: &CodebaseGraph, file: &String) -> (r: Vec<GlobalContext>)
    ensures
        exists|t: Seq<GlobalVarV>|
            t.to_multiset() == graph@.globals.filter(|v: GlobalVarV| v.file == file@).to_multiset() && globals_by_name(t) && r.deep_view() == t.map_values(|v: GlobalVarV| global_context(v)),
{
    let ghost pred = |v: GlobalVarV| v.file == file@;
    let ghost key = |v: &GlobalVar| v.name;
    let mut keyed: Vec<(String, &GlobalVar)> = Vec::new();
    let mut i: usize = 0;
    while i < graph.globals.len()
        invariant
            i <= graph@.globals.len(),
            pred == (|v: GlobalVarV| v.file == file@),
            key == (|v: &GlobalVar| v.name),
            forall|k: int| 0 <= k < keyed@.len() ==> #[trigger] keyed@[k].0 == key(keyed@[k].1),
            keyed@.map_values(|p: (String, &GlobalVar)| p.1.deep_view()) == graph@.globals.take(i as int).filter(pred),
        decreases graph@.globals.len() - i,
    {
        let v = &graph.globals[i];
        let ghost before = keyed@.map_values(|p: (String, &GlobalVar)| p.1.deep_view());
        proof {
            assert(graph@.globals.take(i + 1) =~= graph@.globals.take(i as int).push(v.deep_view()));
        }
        if v.file == *file {
            keyed.push((v.name.clone(), v));
            proof {
                assert(keyed@.map_values(|p: (String, &GlobalVar)| p.1.deep_view()) =~= before.push(v.deep_view()));
            }
        }
        i += 1;
    }
    proof {
        assert(graph@.globals.take(graph@.globals.len() as int) =~= graph@.globals);
    }
    let ghost kv = keyed@;
    let sorted = crate::order::sort_by_spec_key(keyed, Ghost(key));
    let ghost t = sorted@.map_values(|x: &GlobalVar| x.deep_view());
    proof {
        let items = kv.map_values(|p: (String, &GlobalVar)| p.1);
        crate::order::lemma_multiset_map(sorted@, items, |x: &GlobalVar| x.deep_view());
        assert(items.map_values(|x: &GlobalVar| x.deep_view()) =~= kv.map_values(|p: (String, &GlobalVar)| p.1.deep_view()));
        assert forall|a: int, b: int| 0 <= a < b < t.len() implies chars_le((#[trigger] t[a]).name, (#[trigger] t[b]).name) by {
            assert(crate::order::KeyOrd::key_le(&key(sorted@[a]), &key(sorted@[b])));
        }
    }
    let mut r: Vec<GlobalContext> = Vec::new();
    let mut j: usize = 0;
    while j < sorted.len()
        invariant
            j <= t.len(),
            t == sorted@.map_values(|x: &GlobalVar| x.deep_view()),
            r.deep_view() == t.take(j as int).map_values(|v: GlobalVarV| global_context(v)),
        decreases t.len() - j,
    {
        let v = sorted[j];
        let c = GlobalContext {
            name: v.name.clone(),
            decl: v.decl.clone(),
            is_static: v.is_static,
            conditions: clone_strings(&v.conditions),
        };
        let ghost before = r.deep_view();
        r.push(c);
        j += 1;
        proof {
            assert(t.take(j as int) =~= t.take(j - 1).push(t[j - 1]));
            assert(r.deep_view() =~= before.push(global_context(t[j - 1])));
        }
    }
    proof {
        assert(t.take(t.len() as int) =~= t);
        assert(globals_by_name(t));
        assert(t.to_multiset() == graph@.globals.filter(pred).to_multiset());
    }
    r
}

/// Every type of the file `f` has a definition that can be cut at 200 bytes.
pub open spec fn previews_ok(g: CodebaseGraphV, f: Seq<char>) -> bool {
    forall|i: int| 0 <= i < g.types.len() && g.types[i].file == f ==> preview_ok(#[trigger] g.types[i])
}

/// The types of `file`, by name, each with its definition cut to 200 bytes.
#[verifier::spinoff_prover]
fn file_types(graph: &CodebaseGraph, file: &String) -> (r: Vec<TypeContext>)
    requires
        previews_ok(graph@, file@),
    ensures
        exists|t: Seq<TypeNodeV>|
            t.to_multiset() == graph@.types.filter(|x: TypeNodeV| x.file == file@).to_multiset() && types_by_name(t) && r.deep_view() == t.map_values(|x: TypeNodeV| type_context(x)),
{
    let ghost pred = |x: TypeNodeV| x.file == file@;
    let ghost key = |x: &TypeNode| x.name;
    let mut keyed: Vec<(String, &TypeNode)> = Vec::new();
    let mut i: usize = 0;
    while i < graph.types.len()
        invariant
            i <= graph@.types.len(),
            pred == (|x: TypeNodeV| x.file == file@),
            key == (|x: &TypeNode| x.name),
            forall|k: int| 0 <= k < keyed@.len() ==> #[trigger] keyed@[k].0 == key(keyed@[k].1),
            forall|k: int| 0 <= k < keyed@.len() ==> preview_ok(#[trigger] keyed@[k].1.deep_view()),
            previews_ok(graph@, file@),
            keyed@.map_values(|p: (String, &TypeNode)| p.1.deep_view()) == graph@.types.take(i as int).filter(pred),
        decreases graph@.types.len() - i,
    {
        let x = &graph.types[i];
        let ghost before = keyed@.map_values(|p: (String, &TypeNode)| p.1.deep_view());
        proof {
            assert(graph@.types.take(i + 1) =~= graph@.types.take(i as int).push(x.deep_view()));
        }
        if x.file == *file {
            proof {
                assert(graph@.types[i as int] == x.deep_view());
                assert(x.deep_view().file == file@);
                assert(preview_ok(graph@.types[i as int]));
                assert(preview_ok(x.deep_view()));
            }
            let ghost kb = keyed@;
            assert(forall|k: int| 0 <= k < kb.len() ==> preview_ok(#[trigger] kb[k].1.deep_view()));
            keyed.push((x.name.clone(), x));
            proof {
                assert(keyed@.map_values(|p: (String, &TypeNode)| p.1.deep_view()) =~= before.push(x.deep_view()));
                assert forall|k: int| 0 <= k < keyed@.len() implies preview_ok(#[trigger] keyed@[k].1.deep_view()) by {
                    if k < kb.len() {
                        assert(keyed@[k] == kb[k]);
                        assert(preview_ok(kb[k].1.deep_view()));
                    } else {
                        assert(keyed@[k].1 == x);
                        assert(keyed@[k].1.deep_view() == x.deep_view());
                    }
                }
            }
        }
        i += 1;
    }
    proof {
        assert(graph@.types.take(graph@.types.len() as int) =~= graph@.types);
    }
    let ghost kv = keyed@;
    let sorted = crate::order::sort_by_spec_key(keyed, Ghost(key));
    let ghost t = sorted@.map_values(|x: &TypeNode| x.deep_view());
    proof {
        let items = kv.map_values(|p: (String, &TypeNode)| p.1);
        crate::order::lemma_multiset_map(sorted@, items, |x: &TypeNode| x.deep_view());
        assert(items.map_values(|x: &TypeNode| x.deep_view()) =~= kv.map_values(|p: (String, &TypeNode)| p.1.deep_view()));
        assert forall|a: int, b: int| 0 <= a < b < t.len() implies chars_le((#[trigger] t[a]).name, (#[trigger] t[b]).name) by {
            assert(crate::order::KeyOrd::key_le(&key(sorted@[a]), &key(sorted@[b])));
        }
        let okp = |x: &TypeNode| preview_ok(x.deep_view());
        assert forall|k: int| 0 <= k < items.len() implies #[trigger] okp(items[k]) by {
            assert(items[k] == kv[k].1);
            assert(preview_ok(kv[k].1.deep_view()));
        }
        crate::order::lemma_multiset_forall(sorted@, items, okp);
        assert forall|k: int| 0 <= k < t.len() implies preview_ok(#[trigger] t[k]) by {
            assert(okp(sorted@[k]));
        }
    }
    let mut r: Vec<TypeContext> = Vec::new();
    let mut j: usize = 0;
    while j < sorted.len()
        invariant
            j <= t.len(),
            t == sorted@.map_values(|x: &TypeNode| x.deep_view()),
            forall|k: int| 0 <= k < t.len() ==> preview_ok(#[trigger] t[k]),
            r.deep_view() == t.take(j as int).map_values(|x: TypeNodeV| type_context(x)),
        decreases t.len() - j,
    {
        let x = sorted[j];
        let cs = chars_of(x.definition.as_str());
        proof {
            assert(preview_ok(t[j as int]));
        }
        let preview = match byte_prefix_exec(&cs, 200) {
            Some(p) => string_from_chars(p.as_slice()),
            None => String::new(),
        };
        let c = TypeContext { name: x.name.clone(), kind: x.kind, definition: preview };
        let ghost before = r.deep_view();
        proof {
            assert(c.deep_view() == type_context(t[j as int]));
        }
        r.push(c);
        j += 1;
        proof {
            assert(t.take(j as int) =~= t.take(j - 1).push(t[j - 1]));
            assert(r.deep_view() =~= before.push(type_context(t[j - 1])));
        }
    }
    proof {
        assert(t.take(t.len() as int) =~= t);
        assert(types_by_name(t));
        assert(t.to_multiset() == graph@.types.filter(pred).to_multiset());
    }
    r
}

/// Everything about the one file whose path contains `p.filename` (ignoring case): its
/// functions by line with their call counts, callees and notes; its globals and types by name;
/// and its file note with whether the file changed since.
pub fn get_file_context(graph: &CodebaseGraph, store: &AnnotationStore, p: FileContextParams) -> (r: Result<
    FileContext,
    String,
>)
    requires
        store@.wf(),
        match_one_file_spec(graph@, p.filename@) matches Ok(f) ==> previews_ok(graph@, f),
    ensures
        match match_one_file_spec(graph@, p.filename@) {
            Err(e) => r matches Err(x) && x@ == e,
            Ok(f) => r matches Ok(c) && file_context_ok(graph@, store@, f, c),
        },
{
    let file = match match_one_file(graph, p.filename.as_str()) {
        Ok(f) => f,
        Err(e) => return Err(e),
    };
    let functions = file_functions(graph, store, &file);
    let globals = file_globals(graph, &file);
    let types = file_types(graph, &file);
    let existing_annotation = match store.file_note(file.as_str()) {
        Some(ann) => {
            let current = compute_hash(graph, file.as_str());
            Some(AnnotationStatus {
                file: file.clone(),
                subsystem: ann.subsystem.clone(),
                summary: ann.summary.clone(),
                notes: clone_opt(&ann.notes),
                stale: current != ann.file_hash,
            })
        },
        None => None,
    };
    let c = FileContext { file, functions, globals, types, existing_annotation };
    proof {
        assert(file_context_ok(graph@, store@, c.file@, c));
    }
    Ok(c)
}

/// Checks `previews_ok`.
fn previews_ok_exec(graph: &CodebaseGraph, file: &str) -> (r: bool)
    ensures
        r == previews_ok(graph@, file@),
{
    let mut i: usize = 0;
    while i < graph.types.len()
        invariant
            i <= graph@.types.len(),
            forall|j: int| 0 <= j < i && graph@.types[j].file == file@ ==> preview_ok(#[trigger] graph@.types[j]),
        decreases graph@.types.len() - i,
    {
        let x = &graph.types[i];
        proof {
            assert(graph.types@[i as int].deep_view() == graph@.types[i as int]);
        }
        if crate::text::str_eq(x.file.as_str(), file) {
            let cs = chars_of(x.definition.as_str());
            if byte_prefix_exec(&cs, 200).is_none() {
                return false;
            }
        }
        i += 1;
    }
    true
}

/// `get_file_context` where it can answer: `None` exactly when the one matching file has a
/// type whose definition would be cut at 200 bytes inside a character.
pub fn get_file_context_checked(graph: &CodebaseGraph, store: &AnnotationStore, p: FileContextParams) -> (r: Option<
    Result<FileContext, String>,
>)
    requires
        store@.wf(),
    ensures
        match r {
            None => match_one_file_spec(graph@, p.filename@) matches Ok(f) && !previews_ok(graph@, f),
            Some(x) => match match_one_file_spec(graph@, p.filename@) {
                Err(e) => x matches Err(m) && m@ == e,
                Ok(f) => x matches Ok(c) && file_context_ok(graph@, store@, f, c),
            },
        },
{
    match match_one_file(graph, p.filename.as_str()) {
        Ok(f) => {
            if !previews_ok_exec(graph, f.as_str()) {
                return None;
            }
        },
        Err(_) => {},
    }
    Some(get_file_context(graph, store, p))
}

/// A file just noted reads back as unchanged: once `annotate_file` has stored its note on `f`,
/// the note is found under `f` and its report says the file has not changed since.
pub proof fn lemma_annotated_file_is_fresh(
    g: CodebaseGraphV,
    files: Seq<(Seq<char>, FileAnnotationV)>,
    f: Seq<char>,
    p: AnnotateFileParams,
)
    requires
        unique_keys(files),
    ensures
        lookup(upsert(files, f, file_note_for(g, f, p)), f) == Some(file_note_for(g, f, p)),
        !status_of(g, (f, file_note_for(g, f, p))).stale,
{
    crate::annotations::lemma_upsert(files, f, file_note_for(g, f, p));
}

} // verus!
