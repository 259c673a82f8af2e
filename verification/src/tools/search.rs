//! Search across functions, types and preprocessor symbols by name.
use vstd::prelude::*;

use crate::annotations::{AnnotationStore, AnnotationStoreV};
use crate::graph::codebase::{CodebaseGraph, CodebaseGraphV};
use crate::graph::types::{FunctionNode, FunctionNodeV, SymbolKind, SymbolNode, SymbolNodeV, TypeKind, TypeNode, TypeNodeV};
use crate::order::chars_le;
use crate::tools::annotate::{clone_opt, clone_strings, compute_symbol_hash, symbol_hash};
use crate::hash::source_hash;
use crate::text::{chars_of, contains_ci, lowercase, owned, push_str, starts_with, str_eq, string_from_chars, to_lowercase};

verus! {

broadcast use {vstd::seq_lib::group_seq_properties, Seq::lemma_filter_push};

pub struct SearchParams {
    /// Name substring to search for (case-insensitive)
    pub name: String,
    /// Limit to a specific kind: "function", "type", or "symbol". Omit to search all.
    pub kind: Option<String>,
}

/// `file` relative to `root` when it lies under it; `file` itself otherwise.
pub open spec fn rel_file_spec(root: Seq<char>, file: Seq<char>) -> Seq<char> {
    if root.len() == 0 {
        file
    } else if file == root {
        Seq::empty()
    } else if (root + seq!['/']).is_prefix_of(file) {
        file.skip(root.len() + 1int)
    } else if root.last() == '/' && root.is_prefix_of(file) {
        file.skip(root.len() as int)
    } else {
        file
    }
}

/// `file` relative to `root` when it lies under it; `file` itself otherwise.
pub fn rel_file(root: &str, file: &str) -> (r: String)
    ensures
        r@ == rel_file_spec(root@, file@),
{
    let rc = chars_of(root);
    let fc = chars_of(file);
    if rc.len() == 0 {
        return owned(file);
    }
    if str_eq(root, file) {
        return String::new();
    }
    let prefix = starts_with(file, root);
    let slash = rc.len() < fc.len() && fc[rc.len()] == '/';
    proof {
        let rs = root@ + seq!['/'];
        if prefix && slash {
            assert(file@.subrange(0, rs.len() as int) =~= rs);
        }
        if rs.is_prefix_of(file@) {
            assert(file@.subrange(0, root@.len() as int) =~= rs.subrange(0, root@.len() as int));
            assert(root@ =~= rs.subrange(0, root@.len() as int));
            assert(file@[root@.len() as int] == rs[root@.len() as int]);
        }
        assert((prefix && slash) == rs.is_prefix_of(file@));
    }
    let skip: usize = if prefix && slash {
        rc.len() + 1
    } else if prefix && rc[rc.len() - 1] == '/' {
        rc.len()
    } else {
        return owned(file);
    };
    let mut rest: Vec<char> = Vec::new();
    let mut k: usize = skip;
    while k < fc.len()
        invariant
            fc@ == file@,
            skip <= k <= fc@.len(),
            rest@ == fc@.subrange(skip as int, k as int),
        decreases fc@.len() - k,
    {
        rest.push(fc[k]);
        k += 1;
    }
    proof {
        assert(rest@ =~= file@.skip(skip as int));
    }
    string_from_chars(rest.as_slice())
}

/// The current note on `name`: the one stored under the hash of the text it names today.
pub open spec fn symbol_annotation(g: CodebaseGraphV, st: AnnotationStoreV, name: Seq<char>) -> Option<Seq<char>> {
    match symbol_hash(g, name) {
        Some(h) => st.symbol_note(name, h),
        None => None,
    }
}

fn symbol_annotation_exec(graph: &CodebaseGraph, store: &AnnotationStore, name: &str) -> (r: Option<String>)
    requires
        store@.wf(),
    ensures
        r.deep_view() == symbol_annotation(graph@, store@, name@),
{
    match compute_symbol_hash(graph, name) {
        Some(h) => match store.symbol_note(name, h.as_str()) {
            Some(a) => Some(a.insight.clone()),
            None => None,
        },
        None => None,
    }
}

/// A function found by name.
pub struct FnHit {
    pub name: String,
    /// Path relative to the project root
    pub file: String,
    pub line: u32,
    pub is_static: bool,
    pub conditions: Vec<String>,
    pub annotation: Option<String>,
}

pub struct FnHitV {
    pub name: Seq<char>,
    pub file: Seq<char>,
    pub line: u32,
    pub is_static: bool,
    pub conditions: Seq<Seq<char>>,
    pub annotation: Option<Seq<char>>,
}

impl DeepView for FnHit {
    type V = FnHitV;

    open spec fn deep_view(&self) -> FnHitV {
        FnHitV {
            name: self.name@,
            file: self.file@,
            line: self.line,
            is_static: self.is_static,
            conditions: self.conditions.deep_view(),
            annotation: self.annotation.deep_view(),
        }
    }
}

/// A type found by name.
pub struct TypeHit {
    pub name: String,
    pub kind: TypeKind,
    pub file: String,
    pub line: u32,
    pub definition: String,
    pub conditions: Vec<String>,
    pub annotation: Option<String>,
}

pub struct TypeHitV {
    pub name: Seq<char>,
    pub kind: TypeKind,
    pub file: Seq<char>,
    pub line: u32,
    pub definition: Seq<char>,
    pub conditions: Seq<Seq<char>>,
    pub annotation: Option<Seq<char>>,
}

impl DeepView for TypeHit {
    type V = TypeHitV;

    open spec fn deep_view(&self) -> TypeHitV {
        TypeHitV {
            name: self.name@,
            kind: self.kind,
            file: self.file@,
            line: self.line,
            definition: self.definition@,
            conditions: self.conditions.deep_view(),
            annotation: self.annotation.deep_view(),
        }
    }
}

/// A preprocessor symbol found by name.
pub struct SymbolHit {
    pub name: String,
    pub kind: SymbolKind,
    pub value: Option<String>,
    pub file: String,
    pub line: u32,
    pub conditions: Vec<String>,
    pub annotation: Option<String>,
}

pub struct SymbolHitV {
    pub name: Seq<char>,
    pub kind: SymbolKind,
    pub value: Option<Seq<char>>,
    pub file: Seq<char>,
    pub line: u32,
    pub conditions: Seq<Seq<char>>,
    pub annotation: Option<Seq<char>>,
}

impl DeepView for SymbolHit {
    type V = SymbolHitV;

    open spec fn deep_view(&self) -> SymbolHitV {
        SymbolHitV {
            name: self.name@,
            kind: self.kind,
            value: self.value.deep_view(),
            file: self.file@,
            line: self.line,
            conditions: self.conditions.deep_view(),
            annotation: self.annotation.deep_view(),
        }
    }
}

/// What a search found, by kind; a kind that was not searched is `None`.
pub struct SearchResult {
    pub functions: Option<Vec<FnHit>>,
    pub types: Option<Vec<TypeHit>>,
    pub symbols: Option<Vec<SymbolHit>>,
}

pub open spec fn fn_hit(g: CodebaseGraphV, st: AnnotationStoreV, root: Seq<char>, n: FunctionNodeV) -> FnHitV {
    FnHitV {
        name: n.name,
        file: rel_file_spec(root, n.file),
        line: n.line,
        is_static: n.is_static,
        conditions: n.conditions,
        annotation: symbol_annotation(g, st, n.name),
    }
}

pub open spec fn type_hit(g: CodebaseGraphV, st: AnnotationStoreV, root: Seq<char>, t: TypeNodeV) -> TypeHitV {
    TypeHitV {
        name: t.name,
        kind: t.kind,
        file: rel_file_spec(root, t.file),
        line: t.line,
        definition: t.definition,
        conditions: t.conditions,
        annotation: symbol_annotation(g, st, t.name),
    }
}

pub open spec fn symbol_hit(g: CodebaseGraphV, st: AnnotationStoreV, root: Seq<char>, s: SymbolNodeV) -> SymbolHitV {
    SymbolHitV {
        name: s.name,
        kind: s.kind,
        value: s.value,
        file: rel_file_spec(root, s.file),
        line: s.line,
        conditions: s.conditions,
        annotation: symbol_annotation(g, st, s.name),
    }
}

/// Functions ordered by name.
pub open spec fn fns_by_name(t: Seq<FunctionNodeV>) -> bool {
    forall|i: int, j: int| 0 <= i < j < t.len() ==> chars_le((#[trigger] t[i]).name, (#[trigger] t[j]).name)
}

/// Types ordered by name.
pub open spec fn types_by_name(t: Seq<TypeNodeV>) -> bool {
    forall|i: int, j: int| 0 <= i < j < t.len() ==> chars_le((#[trigger] t[i]).name, (#[trigger] t[j]).name)
}

/// Symbols ordered by name.
pub open spec fn syms_by_name(t: Seq<SymbolNodeV>) -> bool {
    forall|i: int, j: int| 0 <= i < j < t.len() ==> chars_le((#[trigger] t[i]).name, (#[trigger] t[j]).name)
}

/// The functions matching `q`, sorted by name, as hits.
pub open spec fn fn_hits_ok(g: CodebaseGraphV, st: AnnotationStoreV, root: Seq<char>, q: Seq<char>, v: Seq<FnHitV>) -> bool {
    exists|t: Seq<FunctionNodeV>|
        t.to_multiset() == g.nodes.filter(|n: FunctionNodeV| contains_ci(n.name, q)).to_multiset() && fns_by_name(t)
            && v == t.map_values(|n: FunctionNodeV| fn_hit(g, st, root, n))
}

/// The types matching `q`, sorted by name, as hits.
pub open spec fn type_hits_ok(g: CodebaseGraphV, st: AnnotationStoreV, root: Seq<char>, q: Seq<char>, v: Seq<TypeHitV>) -> bool {
    exists|t: Seq<TypeNodeV>|
        t.to_multiset() == g.types.filter(|x: TypeNodeV| contains_ci(x.name, q)).to_multiset() && types_by_name(t)
            && v == t.map_values(|x: TypeNodeV| type_hit(g, st, root, x))
}

/// The symbols matching `q`, sorted by name, as hits.
pub open spec fn symbol_hits_ok(
    g: CodebaseGraphV,
    st: AnnotationStoreV,
    root: Seq<char>,
    q: Seq<char>,
    v: Seq<SymbolHitV>,
) -> bool {
    exists|t: Seq<SymbolNodeV>|
        t.to_multiset() == g.symbols.filter(|x: SymbolNodeV| contains_ci(x.name, q)).to_multiset() && syms_by_name(t)
            && v == t.map_values(|x: SymbolNodeV| symbol_hit(g, st, root, x))
}

/// Whether a search with this kind looks at the kind `which`.
pub open spec fn searches(kind: Option<String>, which: Seq<char>) -> bool {
    match kind {
        None => true,
        Some(k) => lowercase(k@) == which,
    }
}

/// The function hits, sorted by name.
fn function_hits(graph: &CodebaseGraph, store: &AnnotationStore, root: &str, q: &str) -> (r: Vec<FnHit>)
    requires
        store@.wf(),
    ensures
        fn_hits_ok(graph@, store@, root@, q@, r.deep_view()),
        r@.len() == graph@.nodes.filter(|n: FunctionNodeV| contains_ci(n.name, q@)).len(),
{
    let found = graph.find_function(q);
    let ghost fv = found.deep_view();
    let ghost key = |n: &FunctionNode| n.name;
    let mut keyed: Vec<(String, &FunctionNode)> = Vec::new();
    let mut i: usize = 0;
    while i < found.len()
        invariant
            i <= found@.len(),
            key == (|n: &FunctionNode| n.name),
            forall|k: int| 0 <= k < keyed@.len() ==> #[trigger] keyed@[k].0 == key(keyed@[k].1),
            keyed@.map_values(|p: (String, &FunctionNode)| p.1) == found@.take(i as int),
        decreases found@.len() - i,
    {
        let n = found[i];
        let ghost before = keyed@.map_values(|p: (String, &FunctionNode)| p.1);
        keyed.push((n.name.clone(), n));
        i += 1;
        proof {
            assert(found@.take(i as int) =~= found@.take(i - 1).push(n));
            assert(keyed@.map_values(|p: (String, &FunctionNode)| p.1) =~= before.push(n));
        }
    }
    proof {
        assert(found@.take(found@.len() as int) =~= found@);
    }
    let sorted = crate::order::sort_by_spec_key(keyed, Ghost(key));
    let ghost t = sorted@.map_values(|x: &FunctionNode| x.deep_view());
    proof {
        crate::order::lemma_multiset_map(sorted@, found@, |x: &FunctionNode| x.deep_view());
        assert(found.deep_view() =~= found@.map_values(|x: &FunctionNode| x.deep_view()));
        assert forall|a: int, b: int| 0 <= a < b < t.len() implies chars_le((#[trigger] t[a]).name, (#[trigger] t[b]).name) by {
            assert(crate::order::KeyOrd::key_le(&key(sorted@[a]), &key(sorted@[b])));
        }
    }
    let mut r: Vec<FnHit> = Vec::new();
    let mut j: usize = 0;
    while j < sorted.len()
        invariant
            j <= t.len(),
            store@.wf(),
            t == sorted@.map_values(|x: &FunctionNode| x.deep_view()),
            r.deep_view() == t.take(j as int).map_values(|n: FunctionNodeV| fn_hit(graph@, store@, root@, n)),
        decreases t.len() - j,
    {
        let n = sorted[j];
        let h = FnHit {
            name: n.name.clone(),
            file: rel_file(root, n.file.as_str()),
            line: n.line,
            is_static: n.is_static,
            conditions: clone_strings(&n.conditions),
            annotation: symbol_annotation_exec(graph, store, n.name.as_str()),
        };
        let ghost before = r.deep_view();
        r.push(h);
        j += 1;
        proof {
            assert(t.take(j as int) =~= t.take(j - 1).push(t[j - 1]));
            assert(r.deep_view() =~= before.push(fn_hit(graph@, store@, root@, t[j - 1])));
        }
    }
    proof {
        assert(t.take(t.len() as int) =~= t);
        assert(fns_by_name(t));
        assert(t.to_multiset() == fv.to_multiset());
        assert(t.to_multiset().len() == t.len());
        assert(fv.to_multiset().len() == fv.len());
        assert(r.deep_view().len() == t.len());
    }
    r
}

/// The type hits, sorted by name.
fn type_hits(graph: &CodebaseGraph, store: &AnnotationStore, root: &str, q: &str) -> (r: Vec<TypeHit>)
    requires
        store@.wf(),
    ensures
        type_hits_ok(graph@, store@, root@, q@, r.deep_view()),
        r@.len() == graph@.types.filter(|x: TypeNodeV| contains_ci(x.name, q@)).len(),
{
    let found = graph.find_type(q);
    let ghost fv = found.deep_view();
    let ghost key = |n: &TypeNode| n.name;
    let mut keyed: Vec<(String, &TypeNode)> = Vec::new();
    let mut i: usize = 0;
    while i < found.len()
        invariant
            i <= found@.len(),
            key == (|n: &TypeNode| n.name),
            forall|k: int| 0 <= k < keyed@.len() ==> #[trigger] keyed@[k].0 == key(keyed@[k].1),
            keyed@.map_values(|p: (String, &TypeNode)| p.1) == found@.take(i as int),
        decreases found@.len() - i,
    {
        let n = found[i];
        let ghost before = keyed@.map_values(|p: (String, &TypeNode)| p.1);
        keyed.push((n.name.clone(), n));
        i += 1;
        proof {
            assert(found@.take(i as int) =~= found@.take(i - 1).push(n));
            assert(keyed@.map_values(|p: (String, &TypeNode)| p.1) =~= before.push(n));
        }
    }
    proof {
        assert(found@.take(found@.len() as int) =~= found@);
    }
    let sorted = crate::order::sort_by_spec_key(keyed, Ghost(key));
    let ghost t = sorted@.map_values(|x: &TypeNode| x.deep_view());
    proof {
        crate::order::lemma_multiset_map(sorted@, found@, |x: &TypeNode| x.deep_view());
        assert(found.deep_view() =~= found@.map_values(|x: &TypeNode| x.deep_view()));
        assert forall|a: int, b: int| 0 <= a < b < t.len() implies chars_le((#[trigger] t[a]).name, (#[trigger] t[b]).name) by {
            assert(crate::order::KeyOrd::key_le(&key(sorted@[a]), &key(sorted@[b])));
        }
    }
    let mut r: Vec<TypeHit> = Vec::new();
    let mut j: usize = 0;
    while j < sorted.len()
        invariant
            j <= t.len(),
            store@.wf(),
            t == sorted@.map_values(|x: &TypeNode| x.deep_view()),
            r.deep_view() == t.take(j as int).map_values(|x: TypeNodeV| type_hit(graph@, store@, root@, x)),
        decreases t.len() - j,
    {
        let n = sorted[j];
        let h = TypeHit {
            name: n.name.clone(),
            kind: n.kind,
            file: rel_file(root, n.file.as_str()),
            line: n.line,
            definition: n.definition.clone(),
            conditions: clone_strings(&n.conditions),
            annotation: symbol_annotation_exec(graph, store, n.name.as_str()),
        };
        let ghost before = r.deep_view();
        r.push(h);
        j += 1;
        proof {
            assert(t.take(j as int) =~= t.take(j - 1).push(t[j - 1]));
            assert(r.deep_view() =~= before.push(type_hit(graph@, store@, root@, t[j - 1])));
        }
    }
    proof {
        assert(t.take(t.len() as int) =~= t);
        assert(types_by_name(t));
        assert(t.to_multiset() == fv.to_multiset());
        assert(t.to_multiset().len() == t.len());
        assert(fv.to_multiset().len() == fv.len());
        assert(r.deep_view().len() == t.len());
    }
    r
}

/// The symbol hits, sorted by name.
fn symbol_hits(graph: &CodebaseGraph, store: &AnnotationStore, root: &str, q: &str) -> (r: Vec<SymbolHit>)
    requires
        store@.wf(),
    ensures
        symbol_hits_ok(graph@, store@, root@, q@, r.deep_view()),
        r@.len() == graph@.symbols.filter(|x: SymbolNodeV| contains_ci(x.name, q@)).len(),
{
    let found = graph.find_symbol(q);
    let ghost fv = found.deep_view();
    let ghost key = |n: &SymbolNode| n.name;
    let mut keyed: Vec<(String, &SymbolNode)> = Vec::new();
    let mut i: usize = 0;
    while i < found.len()
        invariant
            i <= found@.len(),
            key == (|n: &SymbolNode| n.name),
            forall|k: int| 0 <= k < keyed@.len() ==> #[trigger] keyed@[k].0 == key(keyed@[k].1),
            keyed@.map_values(|p: (String, &SymbolNode)| p.1) == found@.take(i as int),
        decreases found@.len() - i,
    {
        let n = found[i];
        let ghost before = keyed@.map_values(|p: (String, &SymbolNode)| p.1);
        keyed.push((n.name.clone(), n));
        i += 1;
        proof {
            assert(found@.take(i as int) =~= found@.take(i - 1).push(n));
            assert(keyed@.map_values(|p: (String, &SymbolNode)| p.1) =~= before.push(n));
        }
    }
    proof {
        assert(found@.take(found@.len() as int) =~= found@);
    }
    let sorted = crate::order::sort_by_spec_key(keyed, Ghost(key));
    let ghost t = sorted@.map_values(|x: &SymbolNode| x.deep_view());
    proof {
        crate::order::lemma_multiset_map(sorted@, found@, |x: &SymbolNode| x.deep_view());
        assert(found.deep_view() =~= found@.map_values(|x: &SymbolNode| x.deep_view()));
        assert forall|a: int, b: int| 0 <= a < b < t.len() implies chars_le((#[trigger] t[a]).name, (#[trigger] t[b]).name) by {
            assert(crate::order::KeyOrd::key_le(&key(sorted@[a]), &key(sorted@[b])));
        }
    }
    let mut r: Vec<SymbolHit> = Vec::new();
    let mut j: usize = 0;
    while j < sorted.len()
        invariant
            j <= t.len(),
            store@.wf(),
            t == sorted@.map_values(|x: &SymbolNode| x.deep_view()),
            r.deep_view() == t.take(j as int).map_values(|x: SymbolNodeV| symbol_hit(graph@, store@, root@, x)),
        decreases t.len() - j,
    {
        let n = sorted[j];
        let h = SymbolHit {
            name: n.name.clone(),
            kind: n.kind,
            value: clone_opt(&n.value),
            file: rel_file(root, n.file.as_str()),
            line: n.line,
            conditions: clone_strings(&n.conditions),
            annotation: symbol_annotation_exec(graph, store, n.name.as_str()),
        };
        let ghost before = r.deep_view();
        r.push(h);
        j += 1;
        proof {
            assert(t.take(j as int) =~= t.take(j - 1).push(t[j - 1]));
            assert(r.deep_view() =~= before.push(symbol_hit(graph@, store@, root@, t[j - 1])));
        }
    }
    proof {
        assert(t.take(t.len() as int) =~= t);
        assert(syms_by_name(t));
        assert(t.to_multiset() == fv.to_multiset());
        assert(t.to_multiset().len() == t.len());
        assert(fv.to_multiset().len() == fv.len());
        assert(r.deep_view().len() == t.len());
    }
    r
}

/// The number of hits of the kinds searched.
pub open spec fn total_hits(g: CodebaseGraphV, kind: Option<String>, q: Seq<char>) -> nat {
    (if searches(kind, "function"@) { g.nodes.filter(|n: FunctionNodeV| contains_ci(n.name, q)).len() } else { 0 })
        + (if searches(kind, "type"@) { g.types.filter(|x: TypeNodeV| contains_ci(x.name, q)).len() } else { 0 })
        + (if searches(kind, "symbol"@) { g.symbols.filter(|x: SymbolNodeV| contains_ci(x.name, q)).len() } else { 0 })
}

/// The search answer for the query `q` and the kind filter `k`.
pub open spec fn search_ok(
    g: CodebaseGraphV,
    st: AnnotationStoreV,
    root: Seq<char>,
    q: Seq<char>,
    k: Option<String>,
    r: Result<SearchResult, String>,
) -> bool {
    let df = searches(k, "function"@);
    let dt = searches(k, "type"@);
    let ds = searches(k, "symbol"@);
    if !df && !dt && !ds {
        r matches Err(e) && e@ == "Unknown kind '"@ + k.unwrap()@ + "' — use \"function\", \"type\", or \"symbol\""@
    } else if total_hits(g, k, q) == 0 {
        r matches Err(e) && e@ == "No results matching '"@ + q + "'"@
    } else {
        &&& r is Ok
        &&& match r.unwrap().functions {
            Some(v) => df && fn_hits_ok(g, st, root, q, v.deep_view()),
            None => !df,
        }
        &&& match r.unwrap().types {
            Some(v) => dt && type_hits_ok(g, st, root, q, v.deep_view()),
            None => !dt,
        }
        &&& match r.unwrap().symbols {
            Some(v) => ds && symbol_hits_ok(g, st, root, q, v.deep_view()),
            None => !ds,
        }
    }
}

/// Functions, types and symbols whose name contains `params.name` (ignoring case), each list
/// sorted by name with paths relative to `root` and the current note on each name; `kind`
/// limits the search to one of "function", "type" or "symbol" (ignoring case).
pub fn search(graph: &CodebaseGraph, store: &AnnotationStore, root: &str, params: SearchParams) -> (r: Result<
    SearchResult,
    String,
>)
    requires
        store@.wf(),
    ensures
        search_ok(graph@, store@, root@, params.name@, params.kind, r),
{
    let (do_functions, do_types, do_symbols) = match &params.kind {
        None => (true, true, true),
        Some(k) => {
            let lc = to_lowercase(k.as_str());
            (str_eq(lc.as_str(), "function"), str_eq(lc.as_str(), "type"), str_eq(lc.as_str(), "symbol"))
        },
    };
    if !do_functions && !do_types && !do_symbols {
        let mut e = owned("Unknown kind '");
        match &params.kind {
            Some(k) => push_str(&mut e, k.as_str()),
            None => {},
        }
        push_str(&mut e, "' — use \"function\", \"type\", or \"symbol\"");
        return Err(e);
    }
    let q = params.name.as_str();
    let functions = if do_functions {
        let v = function_hits(graph, store, root, q);
        Some(v)
    } else {
        None
    };
    let types = if do_types {
        let v = type_hits(graph, store, root, q);
        Some(v)
    } else {
        None
    };
    let symbols = if do_symbols {
        let v = symbol_hits(graph, store, root, q);
        Some(v)
    } else {
        None
    };
    let none_found = (match &functions { Some(v) => v.len() == 0, None => true })
        && (match &types { Some(v) => v.len() == 0, None => true })
        && (match &symbols { Some(v) => v.len() == 0, None => true });
    if none_found {
        let mut e = owned("No results matching '");
        push_str(&mut e, q);
        push_str(&mut e, "'");
        return Err(e);
    }
    Ok(SearchResult { functions, types, symbols })
}

/// A symbol just noted is found by its name: once the note is stored under the hash of the
/// text `name` names, it is the current note on `name` (what a search shows), and, when `name`
/// names a function, the note found for that function's source.
pub proof fn lemma_annotated_symbol_is_found(g: CodebaseGraphV, st: AnnotationStoreV, name: Seq<char>, insight: Seq<char>)
    requires
        symbol_hash(g, name) is Some,
        st.symbol_note(name, symbol_hash(g, name).unwrap()) == Some(insight),
    ensures
        symbol_annotation(g, st, name) == Some(insight),
        g.nodes.filter(|n: FunctionNodeV| n.name == name).len() > 0 ==> st.symbol_note(
            name,
            source_hash(g.nodes.filter(|n: FunctionNodeV| n.name == name)[0].source),
        ) == Some(insight),
{
}

} // verus!
