use cofe_graph::graph::call_graph::CallGraph;
use cofe_graph::graph::codebase::CodebaseGraph;
use cofe_graph::graph::types::{FunctionNode, GlobalVar, IncludeEdge, SymbolKind, SymbolNode, TypeKind, TypeNode};
use cofe_graph::server::tools::analysis::{find_dead_code, get_stats};
use cofe_graph::server::tools::functions::{
    find_function, find_functions_in_file, find_high_fan_in, get_public_api, get_source, FindFunctionParams,
    FindInFileParams, GetSourceParams, TopNParams,
};
use cofe_graph::server::tools::globals::{get_fn_globals, get_global_users, get_globals};
use cofe_graph::server::tools::includes::{get_includers, get_includes, GetIncludersParams, GetIncludesParams};
use cofe_graph::server::tools::symbols::{find_symbol, FindSymbolParams};
use cofe_graph::server::tools::traverse::{get_callees, get_callers, get_path, GetPathParams, TraverseParams};
use cofe_graph::server::tools::types::{find_type, get_type_users, FindTypeParams, GetTypeUsersParams};
use cofe_graph::server::tools::fmt_fn;

fn node(name: &str, file: &str, line: u32, is_static: bool, source: &str) -> FunctionNode {
    FunctionNode {
        name: name.to_string(),
        file: file.to_string(),
        line,
        source: source.to_string(),
        conditions: vec![],
        is_static,
    }
}

fn sample() -> CallGraph {
    let mut g = CallGraph::new();
    g.insert_node(node("main", "src/main.c", 10, false, "int main(void) { task(); helper(); return 0; }"));
    g.insert_node(node("task", "src/task.c", 4, false, "void task(void) { helper(); }"));
    g.insert_node(node("helper", "src/task.c", 1, true, "static void helper(void) { state_t s; }"));
    g.insert_node(node("on_tick", "src/task.c", 9, false, "void on_tick(void) {}"));
    g.add_edge("main", "task");
    g.add_edge("main", "helper");
    g.add_edge("task", "helper");
    g.insert_type(TypeNode {
        name: "state_t".to_string(),
        kind: TypeKind::Typedef,
        definition: "typedef int state_t;".to_string(),
        conditions: vec![],
        file: "src/task.h".to_string(),
        line: 1,
    });
    g.insert_symbol(SymbolNode {
        name: "MAX_LEN".to_string(),
        kind: SymbolKind::Define,
        conditions: vec![],
        value: Some("32".to_string()),
        file: "src/cfg.h".to_string(),
        line: 2,
    });
    g.insert_symbol(SymbolNode {
        name: "LEN_OK".to_string(),
        kind: SymbolKind::MacroFn,
        conditions: vec![],
        value: None,
        file: "src/cfg.h".to_string(),
        line: 3,
    });
    g.set_includes(
        "src/main.c".to_string(),
        vec![
            IncludeEdge { path: "task.h".to_string(), is_system: false },
            IncludeEdge { path: "stdio.h".to_string(), is_system: true },
        ],
    );
    g
}

#[test]
fn fmt_fn_marks_static_functions() {
    assert_eq!(fmt_fn(&node("helper", "src/task.c", 1, true, "")), "helper [static] @ src/task.c:1");
    assert_eq!(fmt_fn(&node("task", "src/task.c", 4, false, "")), "task @ src/task.c:4");
}

#[test]
fn find_function_lists_matches_sorted() {
    let g = sample();
    let out = find_function(&g, FindFunctionParams { name: "T".to_string() });
    assert_eq!(out, "on_tick @ src/task.c:9\ntask @ src/task.c:4");
}

#[test]
fn find_function_reports_no_match() {
    let g = sample();
    let out = find_function(&g, FindFunctionParams { name: "zzz".to_string() });
    assert_eq!(out, "No functions matching 'zzz'");
}

#[test]
fn find_functions_in_file_lists_all_of_the_file() {
    let g = sample();
    let out = find_functions_in_file(&g, FindInFileParams { filename: "TASK.c".to_string() });
    assert_eq!(out, "helper [static] @ src/task.c:1\non_tick @ src/task.c:9\ntask @ src/task.c:4");
    let none = find_functions_in_file(&g, FindInFileParams { filename: "nope".to_string() });
    assert_eq!(none, "No functions found in files matching 'nope'");
}

#[test]
fn public_api_leaves_out_static_functions() {
    let g = sample();
    let out = get_public_api(&g, FindInFileParams { filename: "task".to_string() });
    assert_eq!(out, "on_tick @ src/task.c:9\ntask @ src/task.c:4");
    let none = get_public_api(&g, FindInFileParams { filename: "nothing".to_string() });
    assert_eq!(none, "No public (non-static) functions found in files matching 'nothing'");
}

#[test]
fn get_source_shows_place_and_text() {
    let g = sample();
    let out = get_source(&g, GetSourceParams { name: "helper".to_string() });
    assert_eq!(out, "// src/task.c:1 [static]\nstatic void helper(void) { state_t s; }");
    let missing = get_source(&g, GetSourceParams { name: "nope".to_string() });
    assert_eq!(missing, "Function 'nope' not found");
}

#[test]
fn high_fan_in_ranks_by_callers() {
    let g = sample();
    let top2 = find_high_fan_in(&g, TopNParams { top_n: Some(2) });
    assert_eq!(top2, "1. helper @ src/task.c:1 — 2 callers\n2. task @ src/task.c:4 — 1 callers");
    let all = find_high_fan_in(&g, TopNParams { top_n: None });
    assert_eq!(
        all,
        "1. helper @ src/task.c:1 — 2 callers\n2. task @ src/task.c:4 — 1 callers\n3. main @ src/main.c:10 — 0 callers\n4. on_tick @ src/task.c:9 — 0 callers"
    );
    let none = find_high_fan_in(&g, TopNParams { top_n: Some(0) });
    assert_eq!(none, "No functions in graph");
}

#[test]
fn dead_code_report_groups_by_reason() {
    let g = sample();
    let out = find_dead_code(&g);
    assert_eq!(
        out,
        "=== Suspicious (no evidence of use) (0) ===\n(none)\n\n=== Likely callbacks by name (1) ===\n[callback_by_name] on_tick @ src/task.c:9\n\n=== Entrypoints (1) ===\n[entrypoint] main @ src/main.c:10"
    );
}

#[test]
fn dead_code_report_counts_suspicious_and_macro_registered() {
    let mut g = CallGraph::new();
    g.insert_node(node("zeta", "a.c", 2, false, ""));
    g.insert_node(node("alpha", "a.c", 1, false, ""));
    g.insert_node(node("reg", "a.c", 3, false, ""));
    g.add_macro_ref("reg");
    let out = find_dead_code(&g);
    assert_eq!(
        out,
        "=== Suspicious (no evidence of use) (2) ===\n[suspicious] alpha @ a.c:1\n[suspicious] zeta @ a.c:2\n\n=== Registered via macro (1) ===\n[macro_registered] reg @ a.c:3"
    );
}

#[test]
fn dead_code_report_on_empty_graph() {
    let g = CallGraph::new();
    assert_eq!(find_dead_code(&g), "No dead code found (all functions have at least one caller)");
}

#[test]
fn stats_summarise_the_graph() {
    let g = sample();
    let out = get_stats(&g);
    assert_eq!(
        out,
        "Functions : 4\nCall edges: 3\nDead code : 2 (no callers, 0 true dead)\n\nTop fan-in (most callers):\n  helper (2 callers)\n  task (1 callers)\n  main (0 callers)\n  on_tick (0 callers)\n\nTop fan-out (most callees):\n  main (2 callees)\n  task (1 callees)\n  helper (0 callees)\n  on_tick (0 callees)"
    );
}

#[test]
fn find_symbol_shows_values() {
    let g = sample();
    let out = find_symbol(&g, FindSymbolParams { name: "len".to_string() });
    assert_eq!(out, "[macro_fn] LEN_OK  @ src/cfg.h:3\n[define] MAX_LEN = 32  @ src/cfg.h:2");
    let none = find_symbol(&g, FindSymbolParams { name: "zzz".to_string() });
    assert_eq!(none, "No symbols matching 'zzz'");
}

#[test]
fn find_type_shows_definition() {
    let g = sample();
    let out = find_type(&g, FindTypeParams { name: "STATE".to_string() });
    assert_eq!(out, "[typedef] state_t @ src/task.h:1\ntypedef int state_t;");
    let none = find_type(&g, FindTypeParams { name: "zzz".to_string() });
    assert_eq!(none, "No types matching 'zzz'");
}

#[test]
fn type_users_match_whole_words() {
    let g = sample();
    let out = get_type_users(&g, GetTypeUsersParams { name: "state_t".to_string() });
    assert_eq!(out, "helper @ src/task.c:1");
    let none = get_type_users(&g, GetTypeUsersParams { name: "state".to_string() });
    assert_eq!(none, "No functions reference type 'state'");
}

#[test]
fn includes_as_json() {
    let g = sample();
    let out = get_includes(&g, GetIncludesParams { file: "MAIN".to_string() });
    assert_eq!(
        out,
        r#"{"results":[{"file":"src/main.c","includes":[{"path":"task.h","is_system":false},{"path":"stdio.h","is_system":true}]}]}"#
    );
    let none = get_includes(&g, GetIncludesParams { file: "none".to_string() });
    assert_eq!(none, r#"{"error":"No indexed files matching 'none'"}"#);
}

#[test]
fn includers_as_json() {
    let g = sample();
    let out = get_includers(&g, GetIncludersParams { header: "TASK".to_string() });
    assert_eq!(out, r#"{"header":"TASK","includers":[{"file":"src/main.c","path":"task.h","is_system":false}]}"#);
    let none = get_includers(&g, GetIncludersParams { header: "zzz.h".to_string() });
    assert_eq!(none, r#"{"error":"No files include 'zzz.h'"}"#);
}

#[test]
fn callers_and_callees_as_json() {
    let g = sample();
    let callers = get_callers(&g, TraverseParams { name: "helper".to_string(), depth: None });
    assert_eq!(callers, r#"{"function":"helper","callers":["main","task"]}"#);
    let callees = get_callees(&g, TraverseParams { name: "main".to_string(), depth: Some(2) });
    assert_eq!(callees, r#"{"function":"main","callees":["helper","task"]}"#);
    let none = get_callees(&g, TraverseParams { name: "helper".to_string(), depth: None });
    assert_eq!(none, r#"{"error":"No callees found for 'helper'"}"#);
}

#[test]
fn json_strings_are_escaped() {
    let g = sample();
    let out = get_callers(&g, TraverseParams { name: "a\"b".to_string(), depth: None });
    assert_eq!(out, r#"{"error":"No callers found for 'a\"b'"}"#);
}

#[test]
fn path_as_json() {
    let g = sample();
    let p = get_path(&g, GetPathParams { from: "main".to_string(), to: "helper".to_string() });
    assert_eq!(p, r#"{"from":"main","to":"helper","path":["main","helper"]}"#);
    let none = get_path(&g, GetPathParams { from: "helper".to_string(), to: "main".to_string() });
    assert_eq!(none, r#"{"error":"No call path from 'helper' to 'main'"}"#);
}

fn globals_graph() -> CodebaseGraph {
    let mut g = CodebaseGraph::new();
    g.insert_node(node("main", "app.c", 3, false, "int main(void) { return g_var; }"));
    g.insert_node(node("idle", "app.c", 5, true, "static void idle(void) {}"));
    g.insert_global(GlobalVar {
        name: "g_var".to_string(),
        decl: "int g_var = 0;".to_string(),
        conditions: vec![],
        is_static: false,
        file: "app.c".to_string(),
        line: 1,
    });
    g.insert_global(GlobalVar {
        name: "s_count".to_string(),
        decl: "static int s_count;".to_string(),
        conditions: vec![],
        is_static: true,
        file: "app.c".to_string(),
        line: 2,
    });
    g
}

#[test]
fn globals_of_a_file() {
    let g = globals_graph();
    let out = get_globals(&g, GetIncludesParams { file: "APP".to_string() });
    assert_eq!(out, "g_var @ app.c:1\n  int g_var = 0;\ns_count [static] @ app.c:2\n  static int s_count;");
    let none = get_globals(&g, GetIncludesParams { file: "zzz".to_string() });
    assert_eq!(none, "No global variables found in files matching 'zzz'");
}

#[test]
fn users_of_a_global() {
    let g = globals_graph();
    let out = get_global_users(&g, GetTypeUsersParams { name: "g_var".to_string() });
    assert_eq!(out, "main @ app.c:3");
    let none = get_global_users(&g, GetTypeUsersParams { name: "s_count".to_string() });
    assert_eq!(none, "No functions reference global 's_count'");
}

#[test]
fn globals_of_a_function() {
    let g = globals_graph();
    assert_eq!(get_fn_globals(&g, GetSourceParams { name: "main".to_string() }), "g_var @ app.c:1");
    assert_eq!(
        get_fn_globals(&g, GetSourceParams { name: "idle".to_string() }),
        "'idle' does not reference any indexed global variables"
    );
    assert_eq!(get_fn_globals(&g, GetSourceParams { name: "nope".to_string() }), "Function 'nope' not found");
}


#[test]
fn json_escapes_backslashes_and_control_characters() {
    let g = sample();
    let out = get_callers(&g, TraverseParams { name: "x\\y\n\u{1}\u{1f}\té".to_string(), depth: None });
    assert_eq!(out, "{\"error\":\"No callers found for 'x\\\\y\\n\\u0001\\u001f\\té'\"}");
}
