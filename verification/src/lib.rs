//! Event-flow analysis of NATS-based Rust workspaces.
//!
//! Publish and subscribe calls are read out of Rust source text, their subjects
//! are resolved to patterns, and the result is a graph of services, subjects,
//! external sources and external sinks, with reports on what looks wrong.
//!
//! - [`model`]: subject patterns and the graph.
//! - [`syntax`]: what is read of Rust source text.
//! - [`analysis`]: call sites, symbols, subject resolution, graph building.
//! - [`discover`]: which crates of a workspace are looked at.
//! - [`sources`]: which files of a crate are.
//! - [`config`]: the configuration of a workspace.

pub mod analysis;
pub mod config;
pub mod discover;
pub mod discover_laws;
pub mod message_laws;
pub mod model;
pub mod order;
pub mod source_laws;
pub mod sources;
pub mod syntax;
pub mod text;
pub mod text_laws;

use crate::text::concat;
use vstd::prelude::*;

verus! {

/// Why an analysis failed.
#[derive(Debug)]
pub enum AnalyzeError {
    /// The workspace could not be discovered.
    Discover(String),
    /// A source file could not be parsed.
    Parse {
        /// The file.
        file: String,
        /// What the parser said.
        message: String,
    },
    /// The configuration is not valid.
    Config(String),
}

/// The model of an [`AnalyzeError`].
pub enum AnalyzeErrorView {
    Discover(Seq<char>),
    Parse { file: Seq<char>, message: Seq<char> },
    Config(Seq<char>),
}

impl DeepView for AnalyzeError {
    type V = AnalyzeErrorView;

    open spec fn deep_view(&self) -> AnalyzeErrorView {
        match self {
            AnalyzeError::Discover(m) => AnalyzeErrorView::Discover(m@),
            AnalyzeError::Parse { file, message } => AnalyzeErrorView::Parse {
                file: file@,
                message: message@,
            },
            AnalyzeError::Config(m) => AnalyzeErrorView::Config(m@),
        }
    }
}

/// The message of an analysis error.
pub open spec fn analyze_error_text(e: AnalyzeErrorView) -> Seq<char> {
    match e {
        AnalyzeErrorView::Discover(m) => "workspace discovery failed: "@ + m,
        AnalyzeErrorView::Parse { file, message } => "parse error in "@ + file + ": "@ + message,
        AnalyzeErrorView::Config(m) => "config error: "@ + m,
    }
}

impl AnalyzeError {
    /// The message of this error.
    #[must_use]
    pub fn to_string(&self) -> (out: String)
        ensures
            out@ == analyze_error_text(self.deep_view()),
    {
        match self {
            AnalyzeError::Discover(m) => concat("workspace discovery failed: ", m.as_str()),
            AnalyzeError::Parse { file, message } => {
                let mut out = concat("parse error in ", file.as_str());
                out.append(": ");
                out.append(message.as_str());
                out
            },
            AnalyzeError::Config(m) => concat("config error: ", m.as_str()),
        }
    }
}

/// Colour palette of a diagram.
#[derive(Debug, Clone, Copy, PartialEq, Eq, Structural)]
pub enum Theme {
    /// Blue, green, red and purple.
    Default,
    /// High contrast.
    HighContrast,
    /// Black and greys.
    Monochrome,
    /// The palette of the configuration.
    Custom,
}

/// How a diagram is drawn.
#[derive(Debug, Clone, Copy, PartialEq, Eq, Structural)]
pub struct MermaidOpts {
    /// Colour palette.
    pub theme: Theme,
    /// Whether subjects are grouped under the service that publishes them.
    pub group_by_publisher: bool,
    /// Whether declared sources and sinks are drawn.
    pub include_ingress_egress: bool,
    /// Whether the banner names the version of the tool.
    pub include_version_stamp: bool,
}

impl Default for MermaidOpts {
    fn default() -> (out: Self)
        ensures
            out == (MermaidOpts {
                theme: Theme::Default,
                group_by_publisher: true,
                include_ingress_egress: true,
                include_version_stamp: false,
            }),
    {
        MermaidOpts {
            theme: Theme::Default,
            group_by_publisher: true,
            include_ingress_egress: true,
            include_version_stamp: false,
        }
    }
}

} // verus!
