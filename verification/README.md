# cargo_eventflow

Reads publish and subscribe calls of NATS-based services out of Rust source text,
resolves their subjects to patterns, and builds a graph of services, subjects,
external sources and external sinks, with reports on what has no counterpart.

The library under `src/` is verified with Verus:

- `model/pattern.rs`: subject patterns, and when they overlap or cover each other.
- `model/mod.rs`: nodes, edges, graphs.
- `syntax.rs`: what is read of Rust source text; the calls into `syn` stand here.
- `analysis/callsite.rs`: which calls publish and subscribe.
- `analysis/symbol_index.rs`: constants, methods and functions by crate and path.
- `analysis/subject.rs`, `analysis/template.rs`: what a subject expression comes to.
- `analysis/graph/`: the graph, the reports, and the laws about both.
- `analysis/pipeline.rs`: from source texts to the graph.
- `discover.rs`, `sources.rs`: which crates and files are looked at; the calls into
  `globset` stand in the first.
- `order.rs`, `text.rs`: sorting and text.

`app/` is the command line around it: it asks Cargo for the workspace, reads files
and `.eventflow.toml`, and prints JSON.
