use cofe_graph::tools::extract_fn_signature;
use cofe_graph::tools::annotate::get_file_context_checked;
use cofe_graph::tools::skip_leading_comments;
use cofe_graph::annotations::AnnotationStore;
use cofe_graph::graph::codebase::CodebaseGraph;
use cofe_graph::tools::annotate::{
    annotate_file, annotate_symbol, compute_hash, get_annotations, get_file_annotation, get_file_context,
    list_file_annotations, list_unannotated, match_one_file, AnnotateFileParams, AnnotateSymbolParams,
    AnnotationsAnswer, FileContextParams, FilePathParams, GetAnnotationsParams, ListUnannotatedParams, Unannotated,
};
use cofe_graph::tools::get_source::{get_source, GetSourceParams, SourceAnswer};
use cofe_graph::tools::index::index_sources;
use cofe_graph::tools::search::{search, SearchParams};
use cofe_graph::tools::traverse::{traverse, TraverseParams};

fn build_graph(sources: &[(&str, &str)]) -> CodebaseGraph {
    let mut g = CodebaseGraph::new();
    let pairs: Vec<(String, String)> = sources.iter().map(|(p, s)| (p.to_string(), s.to_string())).collect();
    let report = index_sources(&mut g, &pairs);
    assert_eq!(report.files_ok + report.files_err, pairs.len());
    g
}

fn empty_store() -> AnnotationStore {
    AnnotationStore::new(None)
}

fn annotate_params(path: &str, subsystem: &str) -> AnnotateFileParams {
    AnnotateFileParams {
        path: path.to_string(),
        subsystem: subsystem.to_string(),
        summary: format!("{subsystem} module"),
        notes: None,
    }
}

fn note<'a>(store: &'a AnnotationStore, file: &str) -> Option<&'a cofe_graph::annotations::FileAnnotation> {
    store.files.iter().find(|(k, _)| k == file).map(|(_, v)| v)
}

#[test]
fn index_sources_reports_counts() {
    let mut g = CodebaseGraph::new();
    let pairs = vec![("sensor.c".to_string(), "void read(void) {}\nvoid write(int v) { read(); }".to_string())];
    let report = index_sources(&mut g, &pairs);
    assert_eq!(report.files_ok, 1);
    assert_eq!(report.files_err, 0);
    assert_eq!(report.l2_hits, 0);
    assert_eq!(report.functions, 2);
    assert_eq!(report.call_edges, 1);
}

#[test]
fn test_annotate_file_ok() {
    let graph = build_graph(&[("sensor.c", "void read(void) {}\nvoid write(int v) {}")]);
    let mut store = empty_store();
    let v = annotate_file(&graph, &mut store, annotate_params("sensor.c", "Sensor")).unwrap();
    assert_eq!(v, "sensor.c");
    assert_eq!(store.files.len(), 1);
    let ann = note(&store, "sensor.c").unwrap();
    assert_eq!(ann.subsystem, "Sensor");
    assert_eq!(ann.summary, "Sensor module");
    assert_eq!(ann.file_hash.len(), 16);
    assert_eq!(ann.file_hash, compute_hash(&graph, "sensor.c"));
}

#[test]
fn test_annotate_file_upsert() {
    let graph = build_graph(&[("mod.c", "void foo(void) {}")]);
    let mut store = empty_store();
    let _ = annotate_file(&graph, &mut store, annotate_params("mod.c", "First"));
    let _ = annotate_file(&graph, &mut store, annotate_params("mod.c", "Second"));
    assert_eq!(store.files.len(), 1, "upsert should not create duplicates");
    assert_eq!(note(&store, "mod.c").unwrap().subsystem, "Second");
}

#[test]
fn test_annotate_file_not_found() {
    let graph = build_graph(&[("sensor.c", "void read(void) {}")]);
    let mut store = empty_store();
    let err = annotate_file(&graph, &mut store, annotate_params("nonexistent", "X")).unwrap_err();
    assert_eq!(err, "no indexed files match 'nonexistent'");
    assert!(store.files.is_empty());
}

#[test]
fn test_annotate_file_ambiguous() {
    let graph = build_graph(&[("driver_uart.c", "void uart_init(void) {}"), ("driver_spi.c", "void spi_init(void) {}")]);
    let mut store = empty_store();
    let err = annotate_file(&graph, &mut store, annotate_params("driver", "X")).unwrap_err();
    assert!(err.contains("ambiguous"));
    assert_eq!(err, "ambiguous: 2 files match 'driver': driver_spi.c, driver_uart.c");
    assert!(store.files.is_empty());
}

#[test]
fn match_one_file_is_case_insensitive() {
    let graph = build_graph(&[("Src/Main.c", "int main(void) { return 0; }")]);
    assert_eq!(match_one_file(&graph, "main.C").unwrap(), "Src/Main.c");
}

#[test]
fn test_get_file_annotation_found() {
    let graph = build_graph(&[("app.c", "void run(void) {}")]);
    let mut store = empty_store();
    let _ = annotate_file(&graph, &mut store, annotate_params("app.c", "App"));
    let v = get_file_annotation(&graph, &store, FilePathParams { path: "app".to_string() });
    assert_eq!(v.len(), 1);
    assert_eq!(v[0].file, "app.c");
    assert_eq!(v[0].subsystem, "App");
    assert!(!v[0].stale);
}

#[test]
fn test_get_file_annotation_not_found() {
    let graph = build_graph(&[("app.c", "void run(void) {}")]);
    let store = empty_store();
    let v = get_file_annotation(&graph, &store, FilePathParams { path: "app".to_string() });
    assert!(v.is_empty());
}

#[test]
fn test_stale_detection() {
    let mut store = empty_store();
    {
        let graph = build_graph(&[("app.c", "void run(void) {}")]);
        let _ = annotate_file(&graph, &mut store, annotate_params("app.c", "App"));
        let v = get_file_annotation(&graph, &store, FilePathParams { path: "app.c".to_string() });
        assert!(!v[0].stale, "should be fresh right after annotation");
    }
    {
        let graph = build_graph(&[("app.c", "void run(void) { int x = 42; }")]);
        let v = get_file_annotation(&graph, &store, FilePathParams { path: "app.c".to_string() });
        assert!(v[0].stale, "should be stale after source change");
        assert_eq!(v[0].subsystem, "App");
    }
}

#[test]
fn test_list_file_annotations() {
    let graph = build_graph(&[("alpha.c", "void a(void) {}"), ("beta.c", "void b(void) {}")]);
    let mut store = empty_store();
    let _ = annotate_file(&graph, &mut store, annotate_params("beta.c", "Beta"));
    let _ = annotate_file(&graph, &mut store, annotate_params("alpha.c", "Alpha"));
    let v = list_file_annotations(&graph, &store);
    assert_eq!(v.len(), 2);
    assert_eq!(v[0].subsystem, "Alpha");
    assert_eq!(v[1].subsystem, "Beta");
    assert!(v.iter().all(|f| !f.stale));
}

#[test]
fn get_annotations_filters_or_lists_all() {
    let graph = build_graph(&[("alpha.c", "void a(void) {}"), ("beta.c", "void b(void) {}")]);
    let mut store = empty_store();
    let _ = annotate_file(&graph, &mut store, annotate_params("alpha.c", "Alpha"));
    let _ = annotate_file(&graph, &mut store, annotate_params("beta.c", "Beta"));
    match get_annotations(&graph, &store, GetAnnotationsParams { path: Some("BETA".to_string()) }) {
        AnnotationsAnswer::ForPath(v) => {
            assert_eq!(v.len(), 1);
            assert_eq!(v[0].file, "beta.c");
        }
        AnnotationsAnswer::All(_) => panic!("expected the notes for a path"),
    }
    match get_annotations(&graph, &store, GetAnnotationsParams { path: None }) {
        AnnotationsAnswer::All(v) => assert_eq!(v.len(), 2),
        AnnotationsAnswer::ForPath(_) => panic!("expected every note"),
    }
}

#[test]
fn test_list_unannotated_files_all_missing() {
    let graph = build_graph(&[
        ("small.c", "void z(void) {}"),
        ("big.c", "void a(void) {}\nvoid b(void) {}\nvoid c(void) {}"),
    ]);
    let store = empty_store();
    match list_unannotated(&graph, &store, ListUnannotatedParams { file: None }).unwrap() {
        Unannotated::Files(v) => {
            assert_eq!(v, vec![("big.c".to_string(), 3), ("small.c".to_string(), 1)]);
        }
        Unannotated::Functions { .. } => panic!("expected files"),
    }
}

#[test]
fn test_list_unannotated_files_partial() {
    let graph = build_graph(&[("foo.c", "void foo(void) {}"), ("bar.c", "void bar(void) {}")]);
    let mut store = empty_store();
    let _ = annotate_file(&graph, &mut store, annotate_params("foo.c", "Foo"));
    match list_unannotated(&graph, &store, ListUnannotatedParams { file: None }).unwrap() {
        Unannotated::Files(v) => assert_eq!(v, vec![("bar.c".to_string(), 1)]),
        Unannotated::Functions { .. } => panic!("expected files"),
    }
}

#[test]
fn unannotated_functions_of_a_file_by_line() {
    let graph = build_graph(&[("big.c", "void c(void) {}\nvoid a(void) {}\nvoid b(void) {}")]);
    let mut store = empty_store();
    annotate_symbol(&graph, &mut store, AnnotateSymbolParams { name: "a".to_string(), insight: "x".to_string() }).unwrap();
    match list_unannotated(&graph, &store, ListUnannotatedParams { file: Some("BIG".to_string()) }).unwrap() {
        Unannotated::Functions { file, functions } => {
            assert_eq!(file, "big.c");
            assert_eq!(functions, vec![("c".to_string(), 1), ("b".to_string(), 3)]);
        }
        Unannotated::Files(_) => panic!("expected functions"),
    }
    let err = list_unannotated(&graph, &store, ListUnannotatedParams { file: Some("zzz".to_string()) });
    assert!(err.is_err());
}

#[test]
fn test_get_file_context_structure() {
    let graph = build_graph(&[(
        "ctrl.c",
        "static int g_state = 0;\nstatic void reset(void) { g_state = 0; }\nvoid run(void) { reset(); }\n",
    )]);
    let store = empty_store();
    let v = get_file_context(&graph, &store, FileContextParams { filename: "ctrl.c".to_string() }).unwrap();
    assert_eq!(v.file, "ctrl.c");
    assert_eq!(v.functions.len(), 2);
    assert_eq!(v.functions[0].name, "reset");
    assert!(v.functions[0].is_static);
    assert_eq!(v.functions[0].caller_count, 1);
    let run_fn = v.functions.iter().find(|f| f.name == "run").unwrap();
    assert_eq!(run_fn.caller_count, 0);
    assert_eq!(run_fn.callee_count, 1);
    assert_eq!(run_fn.callees, vec!["reset".to_string()]);
    assert_eq!(run_fn.annotation, None);
    assert_eq!(v.globals.len(), 1);
    assert_eq!(v.globals[0].name, "g_state");
    assert!(v.globals[0].is_static);
    assert!(v.existing_annotation.is_none());
}

#[test]
fn test_get_file_context_includes_annotation() {
    let graph = build_graph(&[("ctrl.c", "void run(void) {}")]);
    let mut store = empty_store();
    let _ = annotate_file(&graph, &mut store, annotate_params("ctrl.c", "Control"));
    let v = get_file_context(&graph, &store, FileContextParams { filename: "ctrl.c".to_string() }).unwrap();
    let ann = v.existing_annotation.unwrap();
    assert_eq!(ann.subsystem, "Control");
    assert!(!ann.stale);
}

#[test]
fn test_get_file_context_ambiguous() {
    let graph = build_graph(&[("driver_i2c.c", "void i2c_init(void) {}"), ("driver_spi.c", "void spi_init(void) {}")]);
    let store = empty_store();
    assert!(get_file_context(&graph, &store, FileContextParams { filename: "driver".to_string() }).is_err());
}

#[test]
fn file_context_cuts_type_definitions_to_200_bytes() {
    let long_body: String = (0..60).map(|i| format!("int f{i}; ")).collect();
    let src = format!("struct big {{ {long_body}}};\nvoid run(void) {{}}\n");
    let graph = build_graph(&[("t.c", &src)]);
    let store = empty_store();
    let v = get_file_context(&graph, &store, FileContextParams { filename: "t.c".to_string() }).unwrap();
    assert_eq!(v.types.len(), 1);
    assert_eq!(v.types[0].name, "big");
    assert_eq!(v.types[0].definition.len(), 200);
}

#[test]
fn symbol_notes_follow_the_source() {
    let graph = build_graph(&[("app.c", "void run(void) {}")]);
    let mut store = empty_store();
    let ok = annotate_symbol(&graph, &mut store, AnnotateSymbolParams { name: "run".to_string(), insight: "entry".to_string() });
    assert_eq!(ok.unwrap(), "run");
    let v = get_file_context(&graph, &store, FileContextParams { filename: "app".to_string() }).unwrap();
    assert_eq!(v.functions[0].annotation, Some("entry".to_string()));
    let src = &graph.nodes[0].source;
    assert_eq!(store.get_symbol("run", src).unwrap().insight, "entry");
    assert!(store.get_symbol("run", "void run(void) { changed(); }").is_none());
    let err = annotate_symbol(&graph, &mut store, AnnotateSymbolParams { name: "zzz".to_string(), insight: "x".to_string() });
    assert_eq!(err.unwrap_err(), "No function, type, or global named 'zzz' found in index");
}

#[test]
fn test_search_no_kind_finds_function() {
    let graph = build_graph(&[("test.c", "void render(void) {}\nvoid update(void) { render(); }\n")]);
    let v = search(&graph, &AnnotationStore::new(None), "", SearchParams { name: "render".to_string(), kind: None }).unwrap();
    let fns = v.functions.unwrap();
    assert_eq!(fns.len(), 1);
    assert_eq!(fns[0].name, "render");
    assert!(!fns[0].is_static);
    assert_eq!(fns[0].file, "test.c");
}

#[test]
fn test_search_kind_function_excludes_types() {
    let graph = build_graph(&[("test.c", "typedef struct { int x; } Vec;\nvoid vec_init(void) {}\n")]);
    let v = search(
        &graph,
        &AnnotationStore::new(None),
        "",
        SearchParams { name: "vec".to_string(), kind: Some("function".to_string()) },
    )
    .unwrap();
    assert!(v.types.is_none(), "types should not be present when kind=function");
    let fns = v.functions.unwrap();
    assert!(fns.iter().any(|f| f.name == "vec_init"));
}

#[test]
fn test_search_kind_type() {
    let graph = build_graph(&[("test.c", "typedef struct { int x; } Point;\nvoid init_point(void) {}\n")]);
    let v = search(
        &graph,
        &AnnotationStore::new(None),
        "",
        SearchParams { name: "Point".to_string(), kind: Some("type".to_string()) },
    )
    .unwrap();
    let types = v.types.unwrap();
    assert_eq!(types.len(), 1);
    assert_eq!(types[0].name, "Point");
    assert!(v.functions.is_none(), "functions should not be present when kind=type");
}

#[test]
fn test_search_unknown_kind_returns_error() {
    let graph = build_graph(&[("test.c", "void foo(void) {}")]);
    let result = search(
        &graph,
        &AnnotationStore::new(None),
        "",
        SearchParams { name: "foo".to_string(), kind: Some("banana".to_string()) },
    );
    assert_eq!(
        result.err().unwrap(),
        "Unknown kind 'banana' — use \"function\", \"type\", or \"symbol\""
    );
}

#[test]
fn test_search_no_match_returns_error() {
    let graph = build_graph(&[("test.c", "void foo(void) {}")]);
    let result = search(
        &graph,
        &AnnotationStore::new(None),
        "",
        SearchParams { name: "zzz_nonexistent".to_string(), kind: None },
    );
    assert_eq!(result.err().unwrap(), "No results matching 'zzz_nonexistent'");
}

#[test]
fn search_kind_ignores_case_and_shows_notes_and_relative_paths() {
    let graph = build_graph(&[("/proj/src/a.c", "#define FOO_MAX 3\nvoid foo_run(void) {}\n")]);
    let mut store = empty_store();
    annotate_symbol(&graph, &mut store, AnnotateSymbolParams { name: "foo_run".to_string(), insight: "runs".to_string() })
        .unwrap();
    let v = search(&graph, &store, "/proj", SearchParams { name: "FOO".to_string(), kind: Some("FUNCTION".to_string()) })
        .unwrap();
    let fns = v.functions.unwrap();
    assert_eq!(fns[0].file, "src/a.c");
    assert_eq!(fns[0].annotation, Some("runs".to_string()));
    assert!(v.symbols.is_none());
    let all = search(&graph, &store, "/proj", SearchParams { name: "foo".to_string(), kind: None }).unwrap();
    let syms = all.symbols.unwrap();
    assert_eq!(syms.len(), 1);
    assert_eq!(syms[0].name, "FOO_MAX");
    assert_eq!(syms[0].value, Some("3".to_string()));
}

#[test]
fn get_source_heads_the_definition_with_its_place() {
    let graph = build_graph(&[("m.c", "int one(void) { return 1; }\n")]);
    match get_source(&graph, GetSourceParams { name: "one".to_string(), file: None }) {
        SourceAnswer::Source(s) => assert_eq!(s, "// file: m.c\n// line: 1\n\nint one(void) { return 1; }"),
        _ => panic!("expected the source"),
    }
}

#[test]
fn traverse_batches_names() {
    let graph = build_graph(&[(
        "m.c",
        "int add(int a, int b) { return a + b; }\nint twice(int a) { return add(a, a); }\nint main(void) { return twice(1) + add(1, 2); }\n",
    )]);
    let r = traverse(
        &graph,
        TraverseParams {
            names: vec!["add".to_string(), "zzz".to_string(), "twice".to_string(), "add".to_string()],
            depth: None,
            direction: "callers".to_string(),
        },
    )
    .unwrap();
    assert_eq!(
        r,
        vec![
            ("add".to_string(), vec!["main".to_string(), "twice".to_string()]),
            ("twice".to_string(), vec!["main".to_string()]),
        ]
    );
    let down = traverse(
        &graph,
        TraverseParams { names: vec!["main".to_string()], depth: Some(2), direction: "callees".to_string() },
    )
    .unwrap();
    assert_eq!(down, vec![("main".to_string(), vec!["add".to_string(), "twice".to_string()])]);
    let none = traverse(
        &graph,
        TraverseParams { names: vec!["add".to_string()], depth: None, direction: "callees".to_string() },
    );
    assert_eq!(none.unwrap_err(), "No callees found for any of the given functions");
    let bad = traverse(&graph, TraverseParams { names: vec![], depth: None, direction: "up".to_string() });
    assert_eq!(bad.unwrap_err(), "direction must be 'callers' or 'callees', got 'up'");
}

#[test]
fn skip_leading_comments_finds_first_code_byte() {
    assert_eq!(skip_leading_comments("int x;"), 0);
    assert_eq!(skip_leading_comments("  // note\n/* block */\nint x;"), 22);
    assert_eq!(skip_leading_comments("/* é */ int"), 9);
    assert_eq!(skip_leading_comments("  // a\n/* b */ int x;"), 15);
    assert_eq!(skip_leading_comments("/* x"), 4);
    assert_eq!(skip_leading_comments("  /* é"), 7);
}

#[test]
fn extract_fn_signature_skips_comments_and_stops_at_the_brace() {
    assert_eq!(extract_fn_signature("/** Adds. */\n// more\nint add(int a, int b) {\n  return a + b;\n}"), "int add(int a, int b)");
    assert_eq!(extract_fn_signature("void f(void)"), "void f(void)");
    assert_eq!(extract_fn_signature("/* x"), "");
}

#[test]
fn file_context_checked_answers_when_previews_can_be_cut() {
    let graph = build_graph(&[("ctrl.c", "struct box { int w; };\nvoid run(void) {}\n")]);
    let store = empty_store();
    let v = get_file_context_checked(&graph, &store, FileContextParams { filename: "ctrl.c".to_string() })
        .expect("previews can be cut")
        .unwrap();
    assert_eq!(v.types.len(), 1);
    assert_eq!(v.types[0].name, "box");
    let missing = get_file_context_checked(&graph, &store, FileContextParams { filename: "nope.c".to_string() });
    assert!(matches!(missing, Some(Err(_))));
}
