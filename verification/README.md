# cargo-feature-lens

A Cargo subcommand that audits which crate features are active in a
project, why they are active, and which of them look unused, conflicting,
duplicated or heavy, and renders the result as a terminal, Markdown, JSON,
Graphviz DOT or Mermaid report.

The library under `src/` is verified with Verus: every public function
states in its contract what it returns, and the properties the tool relies
on (report order, stable graph identifiers, filters shared by every format,
re-rooting of remote metadata at the requested crate) are proved as lemmas.

Layout:

- `src/text.rs`, `src/collections.rs` — text primitives, sorted string sets and maps.
- `src/json_scan.rs`, `src/metadata.rs` — the `cargo metadata` JSON reader.
- `src/manifest.rs` — the `Cargo.toml` subset reader and workspace inheritance.
- `src/resolver.rs`, `src/source_order.rs` — the feature graph, the provenance of each active feature and the order of its source lists.
- `src/analysis/` — the analysis passes, the rule databases and the report order.
- `src/report.rs`, `src/graph_export.rs`, `src/util.rs` — rendering.
- `src/cli.rs`, `src/remote.rs` — the command line and remote-crate analysis.
- `app/main.rs` — the program: process arguments, files, `cargo metadata`, output.
- `tests/` — the test suite.
