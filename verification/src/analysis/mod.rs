//! The analysis pipeline: call sites and symbols are read out of source files,
//! subjects are resolved against the symbol index, and the graph is built from
//! what came out.

pub mod callsite;
pub mod callsite_laws;
pub mod format_laws;
pub mod graph;
pub mod guard_laws;
pub mod index_laws;
pub mod pipeline;
pub mod pipeline_laws;
pub mod subject;
pub mod subject_laws;
pub mod symbol_index;
pub mod template;
pub mod template_laws;
pub mod walk_laws;

pub use callsite::{
    extract, CallKind, CallSiteConfig, ConsumerSpec, MethodMatch, ParseError, PerFileCallSites,
    PublisherKind, PublisherSpec, RawCallSite,
};
pub use graph::{build_graph, Egress, GraphDiagnostic, GraphInputs, Ingress};
pub use pipeline::{analyze_sources, Declared, SourceText};
pub use subject::{
    resolve, ResolveOutcome, Scope, SubjectPattern, UnresolvedReason, DEFAULT_DEPTH,
};
pub use symbol_index::{ExprSnippet, FqPath, PerFileSymbols, Span, Symbol, SymbolIndex};
