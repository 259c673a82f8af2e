use cofe_graph::graph::call_graph::{CallGraph, DeadCodeKind};
use cofe_graph::graph::codebase::{merge_file_graphs, CodebaseGraph};
use cofe_graph::graph::types::{FileGraph, FunctionNode};
use cofe_graph::parser::{parse_file_to_graph, ParseError};
use cofe_graph::tools::query_call_graph::{query_call_graph, CallGraphAnswer, QueryCallGraphParams};
use cofe_graph::tools::symbol_lookup::{symbol_lookup, SymbolLookupParams};

fn node(name: &str, file: &str, line: u32) -> FunctionNode {
    FunctionNode {
        name: name.to_string(),
        file: file.to_string(),
        line,
        source: format!("void {name}(void) {{}}"),
        conditions: vec![],
        is_static: false,
    }
}

fn chain() -> CallGraph {
    let mut g = CallGraph::new();
    for (i, n) in ["main", "task", "helper", "work", "spare"].iter().enumerate() {
        g.insert_node(node(n, "code.c", i as u32 + 1));
    }
    g.add_edge("main", "task");
    g.add_edge("task", "helper");
    g.add_edge("helper", "work");
    g.add_edge("main", "spare");
    g.add_edge("spare", "work");
    g
}

#[test]
fn test_get_path() {
    let mut g = CallGraph::new();
    for (i, n) in ["work", "helper", "task", "main"].iter().enumerate() {
        g.insert_node(node(n, "code.c", i as u32 + 1));
    }
    g.add_edge("helper", "work");
    g.add_edge("task", "helper");
    g.add_edge("main", "task");
    let path = g.find_path("main", "work").unwrap();
    assert!(path.len() >= 4, "Path should contain at least 4 nodes");
    assert_eq!(path, vec!["main", "task", "helper", "work"]);
}

#[test]
fn find_path_takes_a_shortest_route() {
    let g = chain();
    assert_eq!(g.find_path("main", "work").unwrap(), vec!["main", "spare", "work"]);
    assert_eq!(g.find_path("work", "main"), None);
    assert_eq!(g.find_path("task", "task").unwrap(), vec!["task"]);
}

#[test]
fn add_edge_keeps_each_pair_once_and_mirrored() {
    let mut g = chain();
    g.add_edge("main", "task");
    assert_eq!(g.callees.len(), 5);
    assert_eq!(g.callers.len(), 5);
    for (a, b) in &g.callees {
        assert!(g.callers.iter().any(|(x, y)| x == b && y == a));
    }
}

#[test]
fn insert_node_replaces_by_name() {
    let mut g = chain();
    g.insert_node(node("task", "other.c", 42));
    assert_eq!(g.nodes.len(), 5);
    let t = g.nodes.iter().find(|n| n.name == "task").unwrap();
    assert_eq!(t.file, "other.c");
    assert_eq!(t.line, 42);
}

#[test]
fn clear_empties_the_graph() {
    let mut g = chain();
    g.clear();
    assert!(g.nodes.is_empty());
    assert!(g.callers.is_empty());
    assert!(g.callees.is_empty());
}

#[test]
fn dead_code_classification() {
    let mut g = CallGraph::new();
    g.insert_node(node("main", "a.c", 1));
    g.insert_node(node("uart_isr", "a.c", 2));
    g.insert_node(node("On_Event", "a.c", 3));
    g.insert_node(node("lonely", "a.c", 4));
    g.insert_node(node("registered", "a.c", 5));
    g.add_macro_ref("registered");
    g.add_macro_ref("not_a_function");
    assert_eq!(g.macro_referenced, vec!["registered".to_string()]);
    let dead: Vec<(String, DeadCodeKind)> = g.find_dead_code().iter().map(|(n, k)| (n.name.clone(), *k)).collect();
    assert_eq!(
        dead,
        vec![
            ("main".to_string(), DeadCodeKind::Entrypoint),
            ("uart_isr".to_string(), DeadCodeKind::CallbackByName),
            ("On_Event".to_string(), DeadCodeKind::CallbackByName),
            ("lonely".to_string(), DeadCodeKind::Suspicious),
            ("registered".to_string(), DeadCodeKind::MacroRegistered),
        ]
    );
}

#[test]
fn fan_rankings() {
    let g = chain();
    let fan_in: Vec<(String, usize)> = g.top_by_fan_in(2).iter().map(|(n, c)| (n.to_string(), *c)).collect();
    assert_eq!(fan_in, vec![("work".to_string(), 2), ("helper".to_string(), 1)]);
    let fan_out: Vec<(String, usize)> = g.top_by_fan_out(1).iter().map(|(n, c)| (n.to_string(), *c)).collect();
    assert_eq!(fan_out, vec![("main".to_string(), 2)]);
    assert_eq!(g.top_by_fan_in(100).len(), 5);
}

#[test]
fn merged_file_graphs_keep_order_and_reverse_edges() {
    let a = parse_file_to_graph("a.c", "void a(void) { b(); }\n").unwrap();
    let b = parse_file_to_graph("b.c", "void b(void) {}\n").unwrap();
    let g = merge_file_graphs(vec![a, b]);
    assert_eq!(g.nodes.iter().map(|n| n.name.clone()).collect::<Vec<_>>(), vec!["a", "b"]);
    assert_eq!(g.callees.len(), 1);
    assert_eq!(g.callers[0].0, "b");
    assert_eq!(g.callers[0].1.name, "a");
    assert_eq!(g.callers[0].1.caller_file, "a.c");
    assert_eq!(g.callers[0].1.line, 1);
    let empty = merge_file_graphs(Vec::<FileGraph>::new());
    assert!(empty.nodes.is_empty());
}

#[test]
fn file_aware_traversal_follows_static_functions_of_the_same_file() {
    let mut g = CodebaseGraph::new();
    let a = parse_file_to_graph("a.c", "static void helper(void) {}\nvoid run_a(void) { helper(); }\n").unwrap();
    let b = parse_file_to_graph("b.c", "static void helper(void) {}\nvoid run_b(void) { helper(); }\n").unwrap();
    g.add_file_graph(a);
    g.add_file_graph(b);
    let from_a = g.get_callers_from("helper", "a.c", 1);
    assert_eq!(from_a, vec![("run_a".to_string(), "a.c".to_string())]);
    let mut both = g.get_callers("helper", 1);
    both.sort();
    assert_eq!(both, vec!["run_a".to_string(), "run_b".to_string()]);
}

#[test]
fn symbols_types_globals_and_comments_are_read() {
    let src = "#include \"cfg.h\"\n#define LIMIT 10\n#define SQ(x) ((x) * (x))\nenum color { RED, GREEN = 2 };\ntypedef struct point { int x; } point_t;\nint counter = 0;\n/* adds one */\nint bump(void) { return counter + 1; }\n";
    let fg = parse_file_to_graph("m.c", src).unwrap();
    let names: Vec<String> = fg.symbols.iter().map(|s| s.name.clone()).collect();
    assert!(names.contains(&"LIMIT".to_string()));
    assert!(names.contains(&"SQ".to_string()));
    assert!(names.contains(&"RED".to_string()));
    assert!(names.contains(&"GREEN".to_string()));
    let limit = fg.symbols.iter().find(|s| s.name == "LIMIT").unwrap();
    assert_eq!(limit.value, Some("10".to_string()));
    assert_eq!(limit.line, 2);
    let types: Vec<String> = fg.types.iter().map(|t| t.name.clone()).collect();
    assert!(types.contains(&"color".to_string()));
    assert!(types.contains(&"point_t".to_string()));
    assert_eq!(fg.globals.len(), 1);
    assert_eq!(fg.globals[0].name, "counter");
    assert_eq!(fg.globals[0].decl, "int counter = 0;");
    let bump = &fg.nodes[0];
    assert_eq!(bump.name, "bump");
    assert_eq!(bump.line, 7);
    assert!(bump.source.starts_with("/* adds one */"));
}

#[test]
fn conditions_wrap_definitions() {
    let src = "#ifdef USE_FAST\nvoid fast(void) {}\n#endif\n";
    let fg = parse_file_to_graph("c.c", src).unwrap();
    assert_eq!(fg.nodes.len(), 1);
    assert_eq!(fg.nodes[0].conditions, vec!["#ifdef USE_FAST".to_string()]);
}

#[test]
fn parse_error_variants_are_distinct() {
    assert_ne!(ParseError::NoTree, ParseError::Text);
}

#[test]
fn symbol_lookup_lists_a_file_by_line() {
    let mut g = CodebaseGraph::new();
    g.add_file_graph(parse_file_to_graph("m.c", "int counter = 0;\nint bump(int by) { return counter + by; }\n").unwrap());
    let listing = symbol_lookup(&g, SymbolLookupParams { file: "M.C".to_string(), kind: None }).unwrap();
    assert_eq!(listing.file, "M.C");
    let seen: Vec<(String, String, u32, String)> =
        listing.symbols.iter().map(|s| (s.name.clone(), s.kind.clone(), s.line, s.signature.clone())).collect();
    assert_eq!(
        seen,
        vec![
            ("counter".to_string(), "variable".to_string(), 1, "int counter = 0;".to_string()),
            ("bump".to_string(), "function".to_string(), 2, "int bump(int by)".to_string()),
        ]
    );
    let err = symbol_lookup(&g, SymbolLookupParams { file: "m.c".to_string(), kind: Some("banana".to_string()) });
    assert_eq!(
        err.err().unwrap(),
        "unknown kind 'banana', valid: function|variable|typedef|struct|union|enum|macro|enum_value"
    );
}

#[test]
fn query_call_graph_reports_both_directions() {
    let mut g = CodebaseGraph::new();
    g.add_file_graph(
        parse_file_to_graph("m.c", "int add(int a) { return a; }\nint twice(int a) { return add(add(a)); }\n").unwrap(),
    );
    let ans = query_call_graph(
        &g,
        QueryCallGraphParams { name: "twice".to_string(), file: None, direction: "both".to_string(), depth: None },
    );
    match ans {
        CallGraphAnswer::Report(rep) => {
            assert_eq!(rep.name, "twice");
            assert_eq!(rep.file, "m.c");
            assert_eq!(rep.callers.unwrap().len(), 0);
            let callees = rep.callees.unwrap();
            assert_eq!(callees.len(), 1);
            assert_eq!(callees[0].name, "add");
            assert_eq!(callees[0].line, Some(2));
        }
        _ => panic!("expected a report"),
    }
    match query_call_graph(
        &g,
        QueryCallGraphParams { name: "nope".to_string(), file: None, direction: "both".to_string(), depth: None },
    ) {
        CallGraphAnswer::Error(m) => assert_eq!(m, "function 'nope' not found"),
        _ => panic!("expected an error"),
    }
}

#[test]
fn name_traversal_reports_nearer_functions_first() {
    let mut g = CodebaseGraph::new();
    g.add_edge("main", "add", 2, "m.c".to_string());
    g.add_edge("main", "add", 3, "m.c".to_string());
    g.add_edge("add", "main", 9, "a.c".to_string());
    g.add_edge("add", "log", 10, "a.c".to_string());
    assert_eq!(g.get_callees("main", 1), vec!["add".to_string()]);
    assert_eq!(g.get_callees("main", 2), vec!["add".to_string(), "log".to_string()]);
    assert!(g.get_callees("main", 0).is_empty());
    assert_eq!(g.get_callers("main", 5), vec!["add".to_string()]);
}

#[test]
fn symbol_lookup_orders_one_line_by_kind() {
    let mut g = CodebaseGraph::new();
    g.add_file_graph(
        parse_file_to_graph("one.c", "#define N 3\nstruct s { int a; }; int v = N; int f(void) { return v; }\n").unwrap(),
    );
    let listing = symbol_lookup(&g, SymbolLookupParams { file: "one.c".to_string(), kind: None }).unwrap();
    let seen: Vec<(String, u32)> = listing.symbols.iter().map(|s| (s.kind.clone(), s.line)).collect();
    assert_eq!(
        seen,
        vec![
            ("macro".to_string(), 1),
            ("function".to_string(), 2),
            ("variable".to_string(), 2),
            ("struct".to_string(), 2),
        ]
    );
}

#[test]
fn path_order_compares_components() {
    use_path_le();
}

fn use_path_le() {
    let le = cofe_graph::graph::paths::path_le_exec;
    assert!(le("a//b", "a/b") && le("a/b", "a//b"));
    assert!(le("a/./b", "a/b") && le("a/b", "a/./b"));
    assert!(le("a/b/", "a/b") && le("a/b", "a/b/"));
    assert!(le("./a", "a") && !le("a", "./a"));
    assert!(le("/x", "a") && !le("a", "/x"));
    assert!(le("a/x", "a.b/x") && !le("a.b/x", "a/x"));
    assert!(le("../z", "-x") && !le("-x", "../z"));
}

#[test]
fn no_function_uses_a_type_with_an_empty_name() {
    let mut g = CallGraph::new();
    cofe_graph::parser::call_graph::parse_file("t.c", "int f(void) { return 0; }\n", &mut g).expect("parse");
    assert!(g.get_type_users("").is_empty());
    assert_eq!(g.get_type_users("int").len(), 1);
}
