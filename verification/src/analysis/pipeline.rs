//! From source texts to the graph.

use super::callsite::{
    extract, extracted, CallSiteConfig, ConfigView, ExtractView, PerFileCallSites, RawCallSite,
    SiteView,
};
use super::graph::assembly::flow_graph;
use super::graph::{
    build_graph, graph_reports, inputs_flow, Egress, EgressView, GraphDiagnostic, GraphInputs,
    Ingress, IngressView, InputsView,
};
use super::symbol_index::{empty_index, merged, IndexView, SymbolIndex};
use crate::model::Graph;
use crate::syntax::walked_source;
use vstd::prelude::*;

verus! {

/// The text of a source file, with the crate it belongs to.
#[derive(Debug)]
pub struct SourceText {
    /// Crate of the file.
    pub crate_name: String,
    /// Path of the file.
    pub file: String,
    /// What it holds.
    pub text: String,
}

/// The model of a [`SourceText`].
pub struct SourceTextView {
    pub crate_name: Seq<char>,
    pub file: Seq<char>,
    pub text: Seq<char>,
}

impl DeepView for SourceText {
    type V = SourceTextView;

    open spec fn deep_view(&self) -> SourceTextView {
        SourceTextView { crate_name: self.crate_name@, file: self.file@, text: self.text@ }
    }
}

/// What has been extracted from the files so far.
#[derive(Debug)]
pub struct Collected {
    /// Call sites with their crates.
    pub call_sites: Vec<(String, RawCallSite)>,
    /// The symbols.
    pub index: SymbolIndex,
}

/// The model of [`Collected`].
pub struct CollectedView {
    pub call_sites: Seq<(Seq<char>, SiteView)>,
    pub index: IndexView,
}

impl View for Collected {
    type V = CollectedView;

    open spec fn view(&self) -> CollectedView {
        CollectedView { call_sites: self.call_sites.deep_view(), index: self.index@ }
    }
}

/// What has been extracted before any file.
pub open spec fn nothing_collected() -> CollectedView {
    CollectedView {
        call_sites: Seq::empty(),
        index: empty_index(),
    }
}

/// What has been extracted after one more file.
pub open spec fn collected_file(
    c: CollectedView,
    crate_name: Seq<char>,
    x: ExtractView,
) -> CollectedView {
    CollectedView {
        call_sites: c.call_sites + x.sites.map_values(|s: SiteView| (crate_name, s)),
        index: merged(c.index, x.symbols.crate_name, x.symbols.symbols),
    }
}

/// What has been extracted after one more source text. A text that does not
/// parse adds nothing.
pub open spec fn collected_source(
    c: CollectedView,
    s: SourceTextView,
    config: ConfigView,
) -> CollectedView {
    match walked_source(s.text) {
        Ok(parsed) => collected_file(
            c,
            s.crate_name,
            extracted(parsed, s.file, s.crate_name, config),
        ),
        Err(_) => c,
    }
}

/// What is extracted from source texts, in order.
pub open spec fn collected(sources: Seq<SourceTextView>, config: ConfigView) -> CollectedView
    decreases sources.len(),
{
    if sources.len() == 0 {
        nothing_collected()
    } else {
        collected_source(collected(sources.drop_last(), config), sources.last(), config)
    }
}

impl Collected {
    /// Nothing yet.
    #[must_use]
    pub fn new() -> (out: Self)
        ensures
            out@ == nothing_collected(),
    {
        let call_sites: Vec<(String, RawCallSite)> = Vec::new();
        assert(call_sites.deep_view() =~= Seq::empty());
        Collected { call_sites, index: SymbolIndex::new() }
    }

    /// Adds what was extracted from a file of the crate.
    pub fn add_file(&mut self, crate_name: &str, per_file: PerFileCallSites)
        ensures
            final(self)@ == collected_file(old(self)@, crate_name@, per_file.deep_view()),
    {
        let ghost start = self.call_sites.deep_view();
        let ghost index = self.index@;
        let ghost new = per_file.sites.deep_view().map_values(
            |s: SiteView| (crate_name@, s),
        );
        let mut i: usize = 0;
        assert(start =~= start + new.take(0));
        while i < per_file.sites.len()
            invariant
                i <= per_file.sites.len(),
                new == per_file.sites.deep_view().map_values(|s: SiteView| (crate_name@, s)),
                self.call_sites.deep_view() == start + new.take(i as int),
                self.index@ == index,
            decreases per_file.sites.len() - i,
        {
            let ghost front = self.call_sites.deep_view();
            let site = per_file.sites[i].clone();
            self.call_sites.push((crate_name.to_owned(), site));
            assert(self.call_sites.deep_view() =~= front.push(new[i as int]));
            assert(self.call_sites.deep_view() =~= start + new.take(i + 1));
            i += 1;
        }
        assert(new.take(i as int) =~= new);
        self.index.merge(per_file.symbols);
    }

    /// Extracts a source text and adds what it yields. Says whether it parsed.
    pub fn add_source(&mut self, source: &SourceText, config: &CallSiteConfig) -> (parsed: bool)
        ensures
            final(self)@ == collected_source(
                old(self)@,
                source.deep_view(),
                config.deep_view(),
            ),
            parsed == (walked_source(source.text@) is Ok),
    {
        match extract(
            source.file.as_str(),
            source.text.as_str(),
            source.crate_name.as_str(),
            config,
        ) {
            Ok(per_file) => {
                self.add_file(source.crate_name.as_str(), per_file);
                true
            },
            Err(_) => false,
        }
    }
}

/// What is declared beside the sources.
#[derive(Debug)]
pub struct Declared {
    /// Sources that feed the system.
    pub ingress: Vec<Ingress>,
    /// Sinks that the system feeds.
    pub egress: Vec<Egress>,
    /// Helper crates for the resolver.
    pub helper_crates: Vec<String>,
    /// Methods that build subjects.
    pub subject_builder_methods: Vec<String>,
    /// Functions that build subjects.
    pub subject_builder_functions: Vec<String>,
}

/// The model of [`Declared`].
pub struct DeclaredView {
    pub ingress: Seq<IngressView>,
    pub egress: Seq<EgressView>,
    pub helper_crates: Seq<Seq<char>>,
    pub subject_builder_methods: Seq<Seq<char>>,
    pub subject_builder_functions: Seq<Seq<char>>,
}

impl DeepView for Declared {
    type V = DeclaredView;

    open spec fn deep_view(&self) -> DeclaredView {
        DeclaredView {
            ingress: self.ingress.deep_view(),
            egress: self.egress.deep_view(),
            helper_crates: self.helper_crates.deep_view(),
            subject_builder_methods: self.subject_builder_methods.deep_view(),
            subject_builder_functions: self.subject_builder_functions.deep_view(),
        }
    }
}

/// What the graph is built from.
pub open spec fn pipeline_inputs(
    call_sites: Seq<(Seq<char>, SiteView)>,
    declared: DeclaredView,
) -> InputsView {
    InputsView {
        call_sites,
        ingress: declared.ingress,
        egress: declared.egress,
        helper_crates: declared.helper_crates,
        subject_builder_methods: declared.subject_builder_methods,
        subject_builder_functions: declared.subject_builder_functions,
    }
}

/// Analyses source texts: extracts call sites and symbols from each that parses,
/// and builds the graph and the reports.
#[must_use]
pub fn analyze_sources(
    sources: &[SourceText],
    config: &CallSiteConfig,
    declared: Declared,
) -> (out: (Graph, Vec<GraphDiagnostic>))
    ensures
        ({
            let c = collected(sources.deep_view(), config.deep_view());
            let inputs = pipeline_inputs(c.call_sites, declared.deep_view());
            &&& out.0.deep_view() == flow_graph(inputs_flow(inputs, c.index.entries))
            &&& out.1.deep_view() == graph_reports(inputs, c.index.entries)
        }),
{
    let ghost all = sources.deep_view();
    let mut found = Collected::new();
    let mut i: usize = 0;
    assert(all.take(0) =~= Seq::empty());
    while i < sources.len()
        invariant
            i <= sources.len(),
            all == sources.deep_view(),
            found@ == collected(all.take(i as int), config.deep_view()),
        decreases sources.len() - i,
    {
        assert(all[i as int] == sources@[i as int].deep_view());
        assert(all.take(i + 1).drop_last() =~= all.take(i as int));
        let _ = found.add_source(&sources[i], config);
        i += 1;
    }
    assert(all.take(i as int) =~= all);
    let inputs = GraphInputs {
        call_sites: found.call_sites,
        ingress: declared.ingress,
        egress: declared.egress,
        helper_crates: declared.helper_crates,
        subject_builder_methods: declared.subject_builder_methods,
        subject_builder_functions: declared.subject_builder_functions,
    };
    build_graph(&inputs, &found.index)
}

} // verus!
