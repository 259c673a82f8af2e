use cofe_graph::graph::call_graph::CallGraph;
use cofe_graph::graph::codebase::CodebaseGraph;
use cofe_graph::parser;
use cofe_graph::parser::call_graph as legacy;

const MATH_C: &str = "int add(int a, int b) { return a + b; }\n\
int subtract(int a, int b) { return a - b; }\n\
int multiply(int a, int b) {\n    int r = 0;\n    for (int i = 0; i < b; i++) { r = add(r, a); }\n    return subtract(r, 0);\n}\n";

const MAIN_C: &str = "#include <stdio.h>\n#include \"math.h\"\n\
static void print_result(int v) { printf(\"%d\\n\", v); }\n\
int main(void) {\n    print_result(add(1, 2));\n    print_result(subtract(5, 3));\n    print_result(multiply(4, 2));\n    return 0;\n}\n";

fn legacy_fixture_graph() -> CallGraph {
    let mut graph = CallGraph::new();
    legacy::parse_file("fixtures/math.c", MATH_C, &mut graph).expect("parse failed");
    legacy::parse_file("fixtures/main.c", MAIN_C, &mut graph).expect("parse failed");
    graph
}

fn fixture_graph() -> CodebaseGraph {
    let mut graph = CodebaseGraph::new();
    parser::parse_file("fixtures/math.c", MATH_C, &mut graph).expect("parse failed");
    parser::parse_file("fixtures/main.c", MAIN_C, &mut graph).expect("parse failed");
    graph
}

#[test]
fn parser_finds_function_by_name() {
    let graph = legacy_fixture_graph();
    let results = graph.find_function("add");
    assert!(!results.is_empty(), "should find 'add'");
    assert!(results.iter().any(|n| n.name == "add"));
}

#[test]
fn parser_callees_of_main_depth1() {
    let graph = legacy_fixture_graph();
    let callees = graph.get_callees("main", 1);
    assert!(callees.contains(&"add".to_string()));
    assert!(callees.contains(&"subtract".to_string()));
    assert!(callees.contains(&"multiply".to_string()));
    assert!(callees.contains(&"print_result".to_string()));
}

#[test]
fn parser_callers_of_add_depth2() {
    let graph = legacy_fixture_graph();
    let callers = graph.get_callers("add", 2);
    assert!(callers.contains(&"multiply".to_string()));
    assert!(callers.contains(&"main".to_string()));
}

#[test]
fn parser_callees_of_multiply() {
    let graph = legacy_fixture_graph();
    let callees = graph.get_callees("multiply", 1);
    assert!(callees.contains(&"add".to_string()));
    assert!(callees.contains(&"subtract".to_string()));
}

#[test]
fn mod_finds_function_by_name() {
    let graph = fixture_graph();
    let results = graph.find_function("add");
    assert!(!results.is_empty(), "should find 'add'");
    assert!(results.iter().any(|n| n.name == "add"));
}

#[test]
fn mod_callees_of_main_depth1() {
    let graph = fixture_graph();
    let callees = graph.get_callees("main", 1);
    assert!(callees.contains(&"add".to_string()));
    assert!(callees.contains(&"subtract".to_string()));
    assert!(callees.contains(&"multiply".to_string()));
    assert!(callees.contains(&"print_result".to_string()));
}

#[test]
fn mod_callers_of_add_depth2() {
    let graph = fixture_graph();
    let callers = graph.get_callers("add", 2);
    assert!(callers.contains(&"multiply".to_string()));
    assert!(callers.contains(&"main".to_string()));
}

#[test]
fn mod_callees_of_multiply() {
    let graph = fixture_graph();
    let callees = graph.get_callees("multiply", 1);
    assert!(callees.contains(&"add".to_string()));
    assert!(callees.contains(&"subtract".to_string()));
}

#[test]
fn parse_records_function_details() {
    let graph = fixture_graph();
    let pr: Vec<_> = graph.nodes.iter().filter(|n| n.name == "print_result").collect();
    assert_eq!(pr.len(), 1);
    assert!(pr[0].is_static);
    assert_eq!(pr[0].file, "fixtures/main.c");
    assert_eq!(pr[0].line, 3);
    let add: Vec<_> = graph.nodes.iter().filter(|n| n.name == "add").collect();
    assert_eq!(add.len(), 1);
    assert!(!add[0].is_static);
    assert_eq!(add[0].line, 1);
    assert_eq!(add[0].source, "int add(int a, int b) { return a + b; }");
}

#[test]
fn reverse_edges_mirror_forward_edges() {
    let graph = fixture_graph();
    assert_eq!(graph.callers.len(), graph.callees.len());
    for (caller, e) in &graph.callees {
        assert!(graph
            .callers
            .iter()
            .any(|(callee, back)| callee == &e.name && &back.name == caller && back.line == e.line));
    }
}

#[test]
fn depth_zero_reports_nothing() {
    let graph = fixture_graph();
    assert!(graph.get_callees("main", 0).is_empty());
    assert!(graph.get_callers("add", 0).is_empty());
}

#[test]
fn deeper_traversal_finds_more() {
    let graph = fixture_graph();
    let one = graph.get_callers("add", 1);
    let two = graph.get_callers("add", 2);
    assert!(one.contains(&"multiply".to_string()));
    assert!(one.contains(&"main".to_string()));
    for n in &one {
        assert!(two.contains(n));
    }
}

#[test]
fn legacy_parse_collects_includes() {
    let graph = legacy_fixture_graph();
    let incs = graph.get_includes("main.c");
    assert_eq!(incs.len(), 1);
    assert_eq!(incs[0].1.len(), 2);
    assert_eq!(incs[0].1[0].path, "stdio.h");
    assert!(incs[0].1[0].is_system);
    assert_eq!(incs[0].1[1].path, "math.h");
    assert!(!incs[0].1[1].is_system);
}

const PARTS_C: &str = "#include <stdio.h>\n#include \"util.h\"\n\
#define LIMIT 10\n\
enum mode { MODE_A, MODE_B = 4 };\n\
struct point { int x; int y; };\n\
static int counter = 0;\n\
int helper(int v) { return v + LIMIT; }\n\
int run(void) { return helper(counter); }\n";

fn parts_tree() -> (parser::syntax::SyntaxTree, parser::source::SourceText) {
    let t = parser::syntax::parse_c(PARTS_C).expect("tree");
    let s = parser::source::SourceText::new(PARTS_C).expect("text");
    (t, s)
}

#[test]
fn parse_functions_adds_functions_and_calls() {
    let (t, s) = parts_tree();
    let mut graph = CodebaseGraph::new();
    parser::parse_functions(&t, &s, "parts.c", &mut graph).expect("functions");
    let names: Vec<&str> = graph.nodes.iter().map(|n| n.name.as_str()).collect();
    assert_eq!(names, vec!["helper", "run"]);
    assert!(graph.symbols.is_empty());
    assert_eq!(graph.get_callees("run", 1), vec!["helper".to_string()]);
    assert_eq!(graph.get_callers("helper", 1), vec!["run".to_string()]);
}

#[test]
fn parse_symbols_adds_defines_and_enum_constants() {
    let (t, s) = parts_tree();
    let mut graph = CodebaseGraph::new();
    parser::parse_symbols(&t, &s, "parts.c", &mut graph).expect("symbols");
    let names: Vec<&str> = graph.symbols.iter().map(|n| n.name.as_str()).collect();
    assert!(names.contains(&"LIMIT"));
    assert!(names.contains(&"MODE_A"));
    assert!(names.contains(&"MODE_B"));
    assert!(graph.nodes.is_empty());
}

#[test]
fn parse_types_adds_named_types() {
    let (t, s) = parts_tree();
    let mut graph = CodebaseGraph::new();
    parser::parse_types(&t, &s, "parts.c", &mut graph).expect("types");
    let names: Vec<&str> = graph.types.iter().map(|n| n.name.as_str()).collect();
    assert!(names.contains(&"mode"));
    assert!(names.contains(&"point"));
    assert!(graph.symbols.is_empty());
}

#[test]
fn parse_globals_adds_file_scope_variables() {
    let (t, s) = parts_tree();
    let mut graph = CodebaseGraph::new();
    parser::parse_globals(&t, &s, "parts.c", &mut graph);
    let names: Vec<&str> = graph.globals.iter().map(|g| g.name.as_str()).collect();
    assert_eq!(names, vec!["counter"]);
}

#[test]
fn parse_includes_stores_the_file_list() {
    let (t, s) = parts_tree();
    let mut graph = CallGraph::new();
    legacy::parse_includes(&t, &s, "parts.c", &mut graph);
    let inc = graph.get_includes("parts.c");
    assert_eq!(inc.len(), 1);
    let paths: Vec<(&str, bool)> = inc[0].1.iter().map(|e| (e.path.as_str(), e.is_system)).collect();
    assert_eq!(paths, vec![("stdio.h", true), ("util.h", false)]);
}

const REGISTRY_C: &str = "static void on_open(void) {}\n\
static void on_close(void) {}\n\
void setup(void) {\n    REGISTER_HANDLER(on_open);\n    REGISTER_HANDLER(on_open);\n    helper(on_close);\n    REGISTER_HANDLER(missing_fn);\n}\n";

#[test]
fn scan_macro_refs_records_functions_passed_to_macros() {
    let mut graph = CallGraph::new();
    legacy::parse_file("registry.c", REGISTRY_C, &mut graph).expect("parse failed");
    parser::macro_refs::scan_macro_refs(REGISTRY_C, &mut graph).expect("scan failed");
    assert_eq!(graph.macro_referenced, vec!["on_open".to_string()]);
}

#[test]
fn collect_macro_refs_keeps_known_functions_once() {
    let mut graph = CallGraph::new();
    legacy::parse_file("registry.c", REGISTRY_C, &mut graph).expect("parse failed");
    let refs = parser::macro_refs::collect_macro_refs(REGISTRY_C, &graph.nodes).expect("collect failed");
    assert_eq!(refs, vec!["on_open".to_string()]);
}

#[test]
fn collect_macro_arg_candidates_lists_every_macro_argument() {
    let cands = parser::macro_refs::collect_macro_arg_candidates(REGISTRY_C).expect("collect failed");
    assert_eq!(cands, vec!["on_open".to_string(), "missing_fn".to_string()]);
}

#[test]
fn trim_value_trims_and_caps_at_200_chars() {
    assert_eq!(parser::symbols::trim_value("  42  ".to_string()), "42");
    let long = "x".repeat(250);
    let cut = parser::symbols::trim_value(long);
    assert_eq!(cut, format!("{}…", "x".repeat(200)));
    let wide = "é".repeat(150);
    assert_eq!(parser::symbols::trim_value(wide.clone()), wide);
    let wider = "é".repeat(201);
    assert_eq!(parser::symbols::trim_value(wider), format!("{}…", "é".repeat(200)));
}

#[test]
fn legacy_type_definitions_cut_at_500_chars() {
    let body: String = "é".repeat(300);
    let src = format!("struct wide {{ int a; /* {} */ }};\nstruct big {{ int b; /* {} */ }};\n", body, "x".repeat(600));
    let mut graph = CallGraph::new();
    legacy::parse_file("t.c", &src, &mut graph).expect("parse failed");
    let wide = graph.types.iter().find(|t| t.name == "wide").expect("wide");
    assert!(wide.definition.chars().count() < 500);
    assert!(!wide.definition.ends_with('…'));
    let big = graph.types.iter().find(|t| t.name == "big").expect("big");
    assert_eq!(big.definition.chars().count(), 501);
    assert!(big.definition.ends_with('…'));
}

#[test]
fn parse_c_gives_a_tree_for_any_text() {
    assert!(parser::syntax::parse_c("").is_some());
    assert!(parser::syntax::parse_c("this is ( not C }").is_some());
    let mut graph = CodebaseGraph::new();
    assert!(parser::parse_file("odd.c", "}}} int f(void) { return 1; }", &mut graph).is_ok());
}
