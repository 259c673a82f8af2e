use cofe_graph::annotations::by_content::AnnotationStore as ContentStore;
use cofe_graph::cache::{has_extension_exec, join_path_exec, Cache, DATA_DIR_NAME};
use cofe_graph::cli::{flag_value, parse_args, plan, ArgsError, Command};
use cofe_graph::graph::call_graph::CallGraph;
use cofe_graph::graph::types::{FunctionNode, IncludeEdge};
use cofe_graph::hash::{content_key, short_hash};
use cofe_graph::tools::annotations::{
    annotate, get_annotation, list_unannotated_files, AnnotateParams, AnnotationLookup, GetAnnotationParams,
    ListUnannotatedFilesParams,
};
use cofe_graph::tools::includes::{includes, IncludesAnswer, IncludesParams};
use cofe_graph::tools::index::{cache_capacity, is_c_source, IndexRun};
use cofe_graph::tools::search::rel_file;

fn strings(v: &[&str]) -> Vec<String> {
    v.iter().map(|s| s.to_string()).collect()
}

#[test]
fn content_key_is_the_blake3_hex_digest() {
    assert_eq!(content_key(b""), "af1349b9f5f9a1a6a0404dea36dcc9499bcb25c9adc112b7cc9a93cae41f3262");
    assert_eq!(content_key(b"hello").len(), 64);
    assert_ne!(content_key(b"hello"), content_key(b"hello!"));
}

#[test]
fn short_hash_takes_sixteen_digits() {
    assert_eq!(short_hash(""), "af1349b9f5f9a1a6");
    assert_eq!(short_hash("void f(void) {}"), content_key(b"void f(void) {}")[..16]);
}

#[test]
fn c_sources_are_recognised_by_extension() {
    assert!(is_c_source("src/a.c"));
    assert!(is_c_source("inc/a.h"));
    assert!(is_c_source("..c"));
    assert!(!is_c_source(".c"));
    assert!(!is_c_source("a.cc"));
    assert!(!is_c_source("dir.c/file"));
    assert!(!is_c_source("Makefile"));
    assert!(is_c_source("proj.c/"));
    assert!(is_c_source("src//a.h/./"));
    assert!(!is_c_source("a.c/.."));
    assert!(!is_c_source("./"));
    assert!(!is_c_source("/"));
}

#[test]
fn cache_capacity_adds_the_overhead() {
    assert_eq!(cache_capacity(10, 25), 12);
    assert_eq!(cache_capacity(0, 25), 0);
    assert_eq!(cache_capacity(3, 0), 3);
}

#[test]
fn relative_paths() {
    assert_eq!(rel_file("/p", "/p/src/a.c"), "src/a.c");
    assert_eq!(rel_file("/p/", "/p/a.c"), "a.c");
    assert_eq!(rel_file("", "x.c"), "x.c");
    assert_eq!(rel_file("/q", "/p/a.c"), "/p/a.c");
    assert_eq!(rel_file("/p", "/pa/a.c"), "/pa/a.c");
    assert_eq!(rel_file("/p", "/p"), "");
}

#[test]
fn cache_paths() {
    let c = Cache::at("/proj");
    assert_eq!(DATA_DIR_NAME, ".cofe-graph");
    assert_eq!(c.dir, "/proj/.cofe-graph");
    assert_eq!(c.blobs_dir, "/proj/.cofe-graph/cache/blobs");
    assert_eq!(c.blob_path("abc"), "/proj/.cofe-graph/cache/blobs/abc.fgraph");
    assert_eq!(join_path_exec("", "x"), "x");
    assert_eq!(join_path_exec("a/", "x"), "a/x");
}

#[test]
fn extensions() {
    assert!(has_extension_exec("/b/k.fgraph", "fgraph"));
    assert!(!has_extension_exec("/b/.fgraph", "fgraph"));
    assert!(!has_extension_exec("/b/k.fgraphs", "fgraph"));
    assert!(!has_extension_exec("/b/kfgraph", "fgraph"));
}

#[test]
fn eviction_drops_the_oldest_blobs() {
    let c = Cache::at("/p");
    let entries = vec![
        ("/b/new.fgraph".to_string(), 30u128),
        ("/b/old.fgraph".to_string(), 10u128),
        ("/b/notes.txt".to_string(), 1u128),
        ("/b/mid.fgraph".to_string(), 20u128),
    ];
    assert_eq!(c.evict_if_needed(entries.clone(), 1), strings(&["/b/old.fgraph", "/b/mid.fgraph"]));
    assert_eq!(c.evict_if_needed(entries.clone(), 3), Vec::<String>::new());
    assert_eq!(c.evict_if_needed(entries, 0), strings(&["/b/old.fgraph", "/b/mid.fgraph", "/b/new.fgraph"]));
}

#[test]
fn index_run_counts_files() {
    let mut run = IndexRun::new();
    run.unreadable();
    assert!(run.parse("a.c".to_string(), "k1".to_string(), "int f(void) { return g(); }\nint g(void) { return 1; }\n"));
    let (g, report) = run.finish();
    assert_eq!(report.files_ok, 1);
    assert_eq!(report.files_err, 1);
    assert_eq!(report.l2_hits, 0);
    assert_eq!(report.functions, 2);
    assert_eq!(report.call_edges, 1);
    assert_eq!(g.callers.len(), 1);
    assert_eq!(g.callers[0].0, "g");
    assert_eq!(g.callers[0].1.name, "f");
}

#[test]
fn index_run_takes_cached_graphs_first() {
    let mut first = IndexRun::new();
    assert!(first.parse("a.c".to_string(), "k1".to_string(), "void a(void) {}\n"));
    let (_, _) = (0, 0);
    let cached = first.file_graphs.pop().unwrap();
    let mut run = IndexRun::new();
    run.cached("a.c".to_string(), "k1".to_string(), cached);
    assert!(run.parse("b.c".to_string(), "k2".to_string(), "void b(void) { a(); }\n"));
    assert_eq!(run.file_keys, vec![("a.c".to_string(), "k1".to_string()), ("b.c".to_string(), "k2".to_string())]);
    let (g, report) = run.finish();
    assert_eq!(report.l2_hits, 1);
    assert_eq!(report.files_ok, 2);
    assert_eq!(g.nodes[0].name, "a");
    assert_eq!(g.nodes[1].name, "b");
}

#[test]
fn content_store_reads_back_what_was_written() {
    let mut store = ContentStore::load(Some(vec![
        ("s1".to_string(), "old".to_string()),
        ("s2".to_string(), "two".to_string()),
        ("s1".to_string(), "one".to_string()),
    ]));
    assert_eq!(store.files.len(), 2);
    assert_eq!(store.get_file_annotation("s1"), Some("one"));
    store.upsert_file("s3", "three".to_string());
    assert_eq!(store.get_file_annotation("s3"), Some("three"));
    assert_eq!(store.get_file_annotation("zz"), None);
    assert_eq!(ContentStore::load(None).files.len(), 0);
}

#[test]
fn content_annotations_follow_the_bytes() {
    let mut store = ContentStore::load(None);
    let receipt = annotate(
        &mut store,
        AnnotateParams { file: "src/a.c".to_string(), summary: "the a module".to_string() },
        b"int a;",
    );
    assert_eq!(receipt.file, "src/a.c");
    assert_eq!(receipt.sha, content_key(b"int a;"));
    let shas = vec![
        ("/p/src/a.c".to_string(), content_key(b"int a;")),
        ("/p/src/b.c".to_string(), content_key(b"int b;")),
    ];
    match get_annotation(&store, &shas, "/p", GetAnnotationParams { file: "src/a.c".to_string() }) {
        AnnotationLookup::Found(s) => assert_eq!(s, "the a module"),
        _ => panic!("expected the summary"),
    }
    assert!(matches!(
        get_annotation(&store, &shas, "/p", GetAnnotationParams { file: "src/b.c".to_string() }),
        AnnotationLookup::Missing
    ));
    assert!(matches!(
        get_annotation(&store, &shas, "/p", GetAnnotationParams { file: "src/c.c".to_string() }),
        AnnotationLookup::NotIndexed
    ));
    let missing = list_unannotated_files(&store, &shas, "/p", ListUnannotatedFilesParams { filename_filter: None });
    assert_eq!(missing, strings(&["src/b.c"]));
    let filtered =
        list_unannotated_files(&store, &shas, "/p", ListUnannotatedFilesParams { filename_filter: Some("A.C".to_string()) });
    assert!(filtered.is_empty());
}

#[test]
fn includes_in_both_directions() {
    let mut g = CallGraph::new();
    g.insert_node(FunctionNode {
        name: "main".to_string(),
        file: "app.c".to_string(),
        line: 3,
        source: String::new(),
        conditions: vec![],
        is_static: false,
    });
    g.set_includes(
        "app.c".to_string(),
        vec![IncludeEdge { path: "dep.h".to_string(), is_system: false }, IncludeEdge { path: "config.h".to_string(), is_system: false }],
    );
    g.set_includes("mod_a.c".to_string(), vec![IncludeEdge { path: "dep.h".to_string(), is_system: false }]);
    match includes(&g, IncludesParams { target: "app".to_string(), direction: "outbound".to_string() }).unwrap() {
        IncludesAnswer::Outbound(v) => {
            assert_eq!(v.len(), 1);
            assert_eq!(v[0].1.iter().map(|e| e.path.clone()).collect::<Vec<_>>(), strings(&["dep.h", "config.h"]));
        }
        IncludesAnswer::Inbound(_) => panic!("expected outbound"),
    }
    match includes(&g, IncludesParams { target: "dep".to_string(), direction: "inbound".to_string() }).unwrap() {
        IncludesAnswer::Inbound(v) => {
            let files: Vec<String> = v.iter().map(|(f, _)| f.to_string()).collect();
            assert_eq!(files, strings(&["app.c", "mod_a.c"]));
        }
        IncludesAnswer::Outbound(_) => panic!("expected inbound"),
    }
    assert_eq!(
        includes(&g, IncludesParams { target: "x".to_string(), direction: "sideways".to_string() }).err().unwrap(),
        "direction must be 'outbound' or 'inbound', got 'sideways'"
    );
    assert_eq!(
        includes(&g, IncludesParams { target: "zzz".to_string(), direction: "inbound".to_string() }).err().unwrap(),
        "No files include 'zzz'"
    );
}

#[test]
fn args_are_parsed() {
    let a = parse_args(&strings(&["/p", "--toon", "symbol-lookup", "x.c", "--kind", "function"])).unwrap();
    assert_eq!(a.path, "/p");
    assert_eq!(a.subcommand, "symbol-lookup");
    assert_eq!(a.subcommand_args, strings(&["x.c", "--kind", "function"]));
    assert!(a.use_toon);
    assert!(!a.quiet);
    assert_eq!(a.cache_overhead_pct, 25);
    let b = parse_args(&strings(&["/p", "mcp", "--quiet", "--cache-overhead", "40"])).unwrap();
    assert_eq!(b.cache_overhead_pct, 40);
    assert!(b.quiet);
    assert_eq!(b.subcommand, "mcp");
    assert_eq!(b.subcommand_args, strings(&["--quiet", "--cache-overhead", "40"]));
    // the value of a flag is not told apart from a positional argument
    let c = parse_args(&strings(&["--cache-overhead", "40", "/p", "mcp"])).unwrap();
    assert_eq!(c.path, "40");
    assert_eq!(c.subcommand, "/p");
    assert!(matches!(parse_args(&strings(&["--cache-overhead", "x", "/p", "mcp"])), Err(ArgsError::BadCacheOverhead)));
    assert!(matches!(parse_args(&strings(&[])), Err(ArgsError::MissingPath)));
    assert!(matches!(parse_args(&strings(&["/p"])), Err(ArgsError::MissingSubcommand)));
}

#[test]
fn flags_take_the_next_argument() {
    let args = strings(&["a", "--kind", "macro", "--file"]);
    assert_eq!(flag_value(&args, "--kind"), Some("macro".to_string()));
    assert_eq!(flag_value(&args, "--file"), None);
    assert_eq!(flag_value(&args, "--depth"), None);
}

#[test]
fn subcommands_are_planned() {
    match plan("get-source", &strings(&["foo", "--file", "a.c"])).unwrap() {
        Command::GetSource(p) => {
            assert_eq!(p.name, "foo");
            assert_eq!(p.file, Some("a.c".to_string()));
        }
        _ => panic!("expected get-source"),
    }
    assert_eq!(plan("get-source", &strings(&["--file"])).err().unwrap(), "usage: get-source <name> [--file <file>]");
    assert_eq!(
        plan("query-call-graph", &strings(&["foo"])).err().unwrap(),
        "--direction <callers|callees|both> is required"
    );
    assert_eq!(
        plan("query-call-graph", &strings(&["foo", "--direction", "both", "--depth", "x"])).err().unwrap(),
        "--depth must be a positive integer"
    );
    match plan("query-call-graph", &strings(&["foo", "--direction", "both", "--depth", "3"])).unwrap() {
        Command::QueryCallGraph(p) => {
            assert_eq!(p.direction, "both");
            assert_eq!(p.depth, Some(3));
        }
        _ => panic!("expected query-call-graph"),
    }
    assert_eq!(
        plan("bogus", &strings(&[])).err().unwrap(),
        "unknown subcommand 'bogus'\nvalid: symbol-lookup, get-source, query-call-graph, mcp"
    );
}
