# cofe_graph

A call graph of a C code base, built with tree-sitter and served to code assistants
over MCP or on the command line: which functions exist, who calls whom, where symbols,
types, globals and includes are defined, what looks like dead code, and notes that a
user attaches to files and functions.

The logic is written in Verus and proved against its contracts.

- `src/parser/` reads tree-sitter's syntax tree (copied into plain values) into what a
  file contributes: functions with their leading comments and preprocessor conditions,
  call edges, symbols, types, globals, `#include`s and functions passed to macros.
- `src/graph/` holds the graphs and their queries: traversals by depth, shortest call
  paths, dead code, fan-in and fan-out rankings, and the laws that relate them.
- `src/tools/` and `src/server/` answer the requests of the assistant-facing tools.
- `src/annotations/` keeps the notes on files and symbols, keyed by content hash.
- `src/hash.rs`, `src/cache.rs` and `src/cli.rs` hold content keys, the blob cache's
  naming and eviction, and the command-line plan.
- `app/` is the program around the library: argument handling, the file system, the
  MCP server, logging and JSON output.
