//! Graph building: resolves the subjects of all call sites, joins them with the
//! declared sources and sinks into the [`Graph`](crate::model::Graph), and
//! reports what looks wrong.

pub mod assembly;
pub mod input_laws;
pub mod laws;
pub mod matches;
pub mod permutation;
pub mod report_laws;
pub mod reports;

use super::callsite::{RawCallSite, SiteView};
use super::subject::{
    resolve, resolve_text, OutcomeView, ReasonView, ResolveOutcome, Scope, ScopeView,
    UnresolvedReason, DEFAULT_DEPTH,
};
use super::symbol_index::{EntryView, SymbolIndex};
use crate::model::pattern::{parse_error_text, parsed, NatsPattern};
use crate::model::Graph;
use crate::text::{concat, copy_texts, debug_quoted, debug_text, decimal, decimal_text};
use assembly::{
    assemble, fallback_pattern, flow_graph, subject_of, FlowView, ResolvedSite, ResolvedView,
};
pub use reports::GraphDiagnostic;
use reports::{orphan_reports, report_orphans, ReportView};
use vstd::prelude::*;

verus! {

// ---------------------------------------------------------------------
// what goes in
// ---------------------------------------------------------------------

/// A declared source that feeds the system.
#[derive(Debug)]
pub struct Ingress {
    /// Display name.
    pub name: String,
    /// Subjects that it feeds.
    pub into: Vec<String>,
    /// Service crate that owns it.
    pub crate_name: Option<String>,
}

/// The model of an [`Ingress`].
pub struct IngressView {
    pub name: Seq<char>,
    pub into: Seq<Seq<char>>,
    pub crate_name: Option<Seq<char>>,
}

impl DeepView for Ingress {
    type V = IngressView;

    open spec fn deep_view(&self) -> IngressView {
        IngressView {
            name: self.name@,
            into: self.into.deep_view(),
            crate_name: self.crate_name.deep_view(),
        }
    }
}

impl Clone for Ingress {
    fn clone(&self) -> (out: Self)
        ensures
            out.deep_view() == self.deep_view(),
    {
        Ingress {
            name: self.name.clone(),
            into: copy_texts(&self.into),
            crate_name: match &self.crate_name {
                Some(c) => Some(c.clone()),
                None => None,
            },
        }
    }
}

/// A declared sink that the system feeds.
#[derive(Debug)]
pub struct Egress {
    /// Display name.
    pub name: String,
    /// Service crate that feeds it.
    pub from_crate: String,
    /// Subjects that trigger it.
    pub triggered_by: Vec<String>,
}

/// The model of an [`Egress`].
pub struct EgressView {
    pub name: Seq<char>,
    pub from_crate: Seq<char>,
    pub triggered_by: Seq<Seq<char>>,
}

impl DeepView for Egress {
    type V = EgressView;

    open spec fn deep_view(&self) -> EgressView {
        EgressView {
            name: self.name@,
            from_crate: self.from_crate@,
            triggered_by: self.triggered_by.deep_view(),
        }
    }
}

impl Clone for Egress {
    fn clone(&self) -> (out: Self)
        ensures
            out.deep_view() == self.deep_view(),
    {
        Egress {
            name: self.name.clone(),
            from_crate: self.from_crate.clone(),
            triggered_by: copy_texts(&self.triggered_by),
        }
    }
}

/// What a graph is built from.
#[derive(Debug)]
pub struct GraphInputs {
    /// Call sites with the crates they stand in.
    pub call_sites: Vec<(String, RawCallSite)>,
    /// Declared sources.
    pub ingress: Vec<Ingress>,
    /// Declared sinks.
    pub egress: Vec<Egress>,
    /// Helper crates for the resolver.
    pub helper_crates: Vec<String>,
    /// Methods that build subjects.
    pub subject_builder_methods: Vec<String>,
    /// Functions that build subjects.
    pub subject_builder_functions: Vec<String>,
}

/// The model of [`GraphInputs`].
pub struct InputsView {
    pub call_sites: Seq<(Seq<char>, SiteView)>,
    pub ingress: Seq<IngressView>,
    pub egress: Seq<EgressView>,
    pub helper_crates: Seq<Seq<char>>,
    pub subject_builder_methods: Seq<Seq<char>>,
    pub subject_builder_functions: Seq<Seq<char>>,
}

impl DeepView for GraphInputs {
    type V = InputsView;

    open spec fn deep_view(&self) -> InputsView {
        InputsView {
            call_sites: self.call_sites.deep_view(),
            ingress: self.ingress.deep_view(),
            egress: self.egress.deep_view(),
            helper_crates: self.helper_crates.deep_view(),
            subject_builder_methods: self.subject_builder_methods.deep_view(),
            subject_builder_functions: self.subject_builder_functions.deep_view(),
        }
    }
}

impl Default for GraphInputs {
    fn default() -> (out: Self)
        ensures
            out.deep_view() == (InputsView {
                call_sites: Seq::empty(),
                ingress: Seq::empty(),
                egress: Seq::empty(),
                helper_crates: Seq::empty(),
                subject_builder_methods: Seq::empty(),
                subject_builder_functions: Seq::empty(),
            }),
    {
        let out = GraphInputs {
            call_sites: Vec::new(),
            ingress: Vec::new(),
            egress: Vec::new(),
            helper_crates: Vec::new(),
            subject_builder_methods: Vec::new(),
            subject_builder_functions: Vec::new(),
        };
        assert(out.call_sites.deep_view() =~= Seq::empty());
        assert(out.ingress.deep_view() =~= Seq::empty());
        assert(out.egress.deep_view() =~= Seq::empty());
        assert(out.helper_crates.deep_view() =~= Seq::empty());
        assert(out.subject_builder_methods.deep_view() =~= Seq::empty());
        assert(out.subject_builder_functions.deep_view() =~= Seq::empty());
        out
    }
}

impl Clone for GraphInputs {
    fn clone(&self) -> (out: Self)
        ensures
            out.deep_view() == self.deep_view(),
    {
        let mut call_sites: Vec<(String, RawCallSite)> = Vec::new();
        let mut i: usize = 0;
        while i < self.call_sites.len()
            invariant
                i <= self.call_sites.len(),
                call_sites.deep_view() == self.call_sites.deep_view().take(i as int),
            decreases self.call_sites.len() - i,
        {
            let ghost front = call_sites.deep_view();
            let next = (self.call_sites[i].0.clone(), self.call_sites[i].1.clone());
            call_sites.push(next);
            assert(call_sites.deep_view() =~= front.push(self.call_sites.deep_view()[i as int]));
            assert(self.call_sites.deep_view().take(i + 1) =~= call_sites.deep_view());
            i += 1;
        }
        assert(self.call_sites.deep_view().take(i as int) =~= self.call_sites.deep_view());
        let mut ingress: Vec<Ingress> = Vec::new();
        let mut i: usize = 0;
        while i < self.ingress.len()
            invariant
                i <= self.ingress.len(),
                ingress.deep_view() == self.ingress.deep_view().take(i as int),
            decreases self.ingress.len() - i,
        {
            let ghost front = ingress.deep_view();
            let next = self.ingress[i].clone();
            ingress.push(next);
            assert(ingress.deep_view() =~= front.push(self.ingress.deep_view()[i as int]));
            assert(self.ingress.deep_view().take(i + 1) =~= ingress.deep_view());
            i += 1;
        }
        assert(self.ingress.deep_view().take(i as int) =~= self.ingress.deep_view());
        let mut egress: Vec<Egress> = Vec::new();
        let mut i: usize = 0;
        while i < self.egress.len()
            invariant
                i <= self.egress.len(),
                egress.deep_view() == self.egress.deep_view().take(i as int),
            decreases self.egress.len() - i,
        {
            let ghost front = egress.deep_view();
            let next = self.egress[i].clone();
            egress.push(next);
            assert(egress.deep_view() =~= front.push(self.egress.deep_view()[i as int]));
            assert(self.egress.deep_view().take(i + 1) =~= egress.deep_view());
            i += 1;
        }
        assert(self.egress.deep_view().take(i as int) =~= self.egress.deep_view());
        GraphInputs {
            call_sites,
            ingress,
            egress,
            helper_crates: copy_texts(&self.helper_crates),
            subject_builder_methods: copy_texts(&self.subject_builder_methods),
            subject_builder_functions: copy_texts(&self.subject_builder_functions),
        }
    }
}

// ---------------------------------------------------------------------
// resolving the call sites
// ---------------------------------------------------------------------

/// The scope of an expression at a call site.
pub open spec fn site_scope(inputs: InputsView, crate_name: Seq<char>, site: SiteView) -> ScopeView {
    ScopeView {
        current_crate: crate_name,
        helper_crates: inputs.helper_crates,
        subject_builder_methods: inputs.subject_builder_methods,
        subject_builder_functions: inputs.subject_builder_functions,
        fn_body_source: site.enclosing_fn_body,
    }
}

/// What an expression at a call site resolves to.
pub open spec fn site_outcome(
    text: Seq<char>,
    inputs: InputsView,
    entries: Seq<EntryView>,
    crate_name: Seq<char>,
    site: SiteView,
) -> OutcomeView {
    resolve_text(
        text,
        entries,
        site_scope(inputs, crate_name, site),
        DEFAULT_DEPTH as nat,
        Set::empty(),
    ).outcome
}

/// An outcome as text; `?` when there is none.
pub open spec fn rendered(o: OutcomeView) -> Seq<char> {
    match o {
        OutcomeView::Resolved(s) => s,
        OutcomeView::PartiallyResolved(s) => s,
        OutcomeView::Unresolved(_) => seq!['?'],
    }
}

/// A call site with what its expressions resolve to.
pub open spec fn resolved_site(
    inputs: InputsView,
    entries: Seq<EntryView>,
    crate_name: Seq<char>,
    site: SiteView,
) -> ResolvedView {
    ResolvedView {
        crate_name,
        subject: subject_of(
            rendered(site_outcome(site.subject_expr, inputs, entries, crate_name, site)),
        ),
        kind: site.kind,
        consumer_name: match site.consumer_name_expr {
            Some(text) => Some(
                rendered(site_outcome(text, inputs, entries, crate_name, site)),
            ),
            None => None,
        },
    }
}

/// The flow that the inputs describe.
pub open spec fn inputs_flow(inputs: InputsView, entries: Seq<EntryView>) -> FlowView {
    FlowView {
        sites: inputs.call_sites.map_values(
            |s: (Seq<char>, SiteView)| resolved_site(inputs, entries, s.0, s.1),
        ),
        ingress: inputs.ingress,
        egress: inputs.egress,
    }
}

/// Where a call site is.
pub open spec fn location(site: SiteView) -> Seq<char> {
    site.file + ":"@ + decimal(site.line as nat)
}

/// A reason as text.
pub open spec fn reason_text(r: ReasonView) -> Seq<char> {
    match r {
        ReasonView::DepthExhausted => "DepthExhausted"@,
        ReasonView::SymbolNotFound { path } => "SymbolNotFound { path: "@ + debug_quoted(path)
            + " }"@,
        ReasonView::UnsupportedShape { kind } => "UnsupportedShape { kind: "@ + debug_quoted(kind)
            + " }"@,
        ReasonView::ParseError { snippet, message } => "ParseError { snippet: "@ + debug_quoted(
            snippet,
        ) + ", message: "@ + debug_quoted(message) + " }"@,
    }
}

/// The report on a subject text that is no pattern.
pub open spec fn malformed_report(origin: Seq<char>, raw: Seq<char>) -> Seq<ReportView> {
    match parsed(raw) {
        Ok(_) => Seq::empty(),
        Err(e) => seq![
            ReportView::MalformedSubject { origin, raw, reason: parse_error_text(e) },
        ],
    }
}

/// The reports on the subject of a call site.
pub open spec fn subject_reports(
    inputs: InputsView,
    entries: Seq<EntryView>,
    crate_name: Seq<char>,
    site: SiteView,
) -> Seq<ReportView> {
    let o = site_outcome(site.subject_expr, inputs, entries, crate_name, site);
    let unresolved = match o {
        OutcomeView::Unresolved(r) => seq![
            ReportView::UnresolvedSubject {
                crate_name,
                location: location(site),
                reason: reason_text(r),
            },
        ],
        _ => Seq::empty(),
    };
    unresolved + malformed_report("resolver"@, rendered(o))
}

/// The reports on the consumer name of a call site.
pub open spec fn consumer_reports(
    inputs: InputsView,
    entries: Seq<EntryView>,
    crate_name: Seq<char>,
    site: SiteView,
) -> Seq<ReportView> {
    match site.consumer_name_expr {
        Some(text) => match site_outcome(text, inputs, entries, crate_name, site) {
            OutcomeView::Unresolved(r) => seq![
                ReportView::UnresolvedConsumerName {
                    crate_name,
                    location: location(site),
                    reason: reason_text(r),
                },
            ],
            _ => Seq::empty(),
        },
        None => Seq::empty(),
    }
}

/// The reports on the first `n` call sites.
pub open spec fn site_reports(
    inputs: InputsView,
    entries: Seq<EntryView>,
    n: nat,
) -> Seq<ReportView>
    decreases n,
{
    if n == 0 {
        Seq::empty()
    } else {
        let s = inputs.call_sites[n - 1];
        site_reports(inputs, entries, (n - 1) as nat) + subject_reports(inputs, entries, s.0, s.1)
            + consumer_reports(inputs, entries, s.0, s.1)
    }
}

/// The reports on the first `n` of declared subjects.
pub open spec fn declared_reports(
    origin: Seq<char>,
    raws: Seq<Seq<char>>,
    n: nat,
) -> Seq<ReportView>
    decreases n,
{
    if n == 0 {
        Seq::empty()
    } else {
        declared_reports(origin, raws, (n - 1) as nat) + malformed_report(origin, raws[n - 1])
    }
}

/// The reports on the subjects of the first `n` sources.
pub open spec fn ingress_reports(ingress: Seq<IngressView>, n: nat) -> Seq<ReportView>
    decreases n,
{
    if n == 0 {
        Seq::empty()
    } else {
        let x = ingress[n - 1];
        ingress_reports(ingress, (n - 1) as nat) + declared_reports(
            "ingress:"@ + x.name,
            x.into,
            x.into.len(),
        )
    }
}

/// The reports on the subjects of the first `n` sinks.
pub open spec fn egress_reports(egress: Seq<EgressView>, n: nat) -> Seq<ReportView>
    decreases n,
{
    if n == 0 {
        Seq::empty()
    } else {
        let x = egress[n - 1];
        egress_reports(egress, (n - 1) as nat) + declared_reports(
            "egress:"@ + x.name,
            x.triggered_by,
            x.triggered_by.len(),
        )
    }
}

/// All reports: on call sites, on declared subjects, and on what has no
/// counterpart.
pub open spec fn graph_reports(inputs: InputsView, entries: Seq<EntryView>) -> Seq<ReportView> {
    site_reports(inputs, entries, inputs.call_sites.len()) + ingress_reports(
        inputs.ingress,
        inputs.ingress.len(),
    ) + egress_reports(inputs.egress, inputs.egress.len()) + orphan_reports(
        inputs_flow(inputs, entries),
    )
}

fn reason_string(r: &UnresolvedReason) -> (out: String)
    ensures
        out@ == reason_text(r.deep_view()),
{
    match r {
        UnresolvedReason::DepthExhausted => "DepthExhausted".to_owned(),
        UnresolvedReason::SymbolNotFound { path } => {
            let mut out = concat("SymbolNotFound { path: ", debug_text(path.as_str()).as_str());
            out.append(" }");
            out
        },
        UnresolvedReason::UnsupportedShape { kind } => {
            let mut out = concat("UnsupportedShape { kind: ", debug_text(kind).as_str());
            out.append(" }");
            out
        },
        UnresolvedReason::ParseError { snippet, message } => {
            let mut out = concat(
                "ParseError { snippet: ",
                debug_text(snippet.as_str()).as_str(),
            );
            out.append(", message: ");
            out.append(debug_text(message.as_str()).as_str());
            out.append(" }");
            out
        },
    }
}

fn location_string(site: &RawCallSite) -> (out: String)
    ensures
        out@ == location(site.deep_view()),
{
    let mut out = concat(site.file.as_str(), ":");
    out.append(decimal_text(site.line).as_str());
    out
}

/// Resolves an expression at a call site: its text, and the reason when there is
/// none.
fn resolve_call_site_expr(
    snippet: &str,
    site: &RawCallSite,
    crate_name: &str,
    inputs: &GraphInputs,
    index: &SymbolIndex,
) -> (out: (String, Option<UnresolvedReason>))
    ensures
        ({
            let o = site_outcome(
                snippet@,
                inputs.deep_view(),
                index@.entries,
                crate_name@,
                site.deep_view(),
            );
            &&& out.0@ == rendered(o)
            &&& match out.1 {
                Some(r) => o == OutcomeView::Unresolved(r.deep_view()),
                None => !(o is Unresolved),
            }
        }),
{
    let scope = Scope {
        current_crate: crate_name,
        helper_crates: inputs.helper_crates.as_slice(),
        subject_builder_methods: inputs.subject_builder_methods.as_slice(),
        subject_builder_functions: inputs.subject_builder_functions.as_slice(),
        fn_body_source: match &site.enclosing_fn_body {
            Some(b) => Some(b.as_str()),
            None => None,
        },
    };
    proof {
        reveal_strlit("?");
        assert("?"@ =~= seq!['?']);
    }
    match resolve(snippet, index, &scope) {
        ResolveOutcome::Resolved(s) => (s, None),
        ResolveOutcome::PartiallyResolved(s) => (s, None),
        ResolveOutcome::Unresolved(reason) => ("?".to_owned(), Some(reason)),
    }
}

/// Parses a subject; a text that is no pattern is reported and gives `?`.
fn parse_subject_or_fallback(
    raw: &str,
    origin: &str,
    diagnostics: &mut Vec<GraphDiagnostic>,
) -> (out: NatsPattern)
    ensures
        out@ == subject_of(raw@),
        final(diagnostics).deep_view() == old(diagnostics).deep_view() + malformed_report(
            origin@,
            raw@,
        ),
{
    let ghost front = diagnostics.deep_view();
    match NatsPattern::parse(raw) {
        Ok(p) => {
            assert(front =~= front + malformed_report(origin@, raw@));
            p
        },
        Err(err) => {
            diagnostics.push(
                GraphDiagnostic::MalformedSubject {
                    origin: origin.to_owned(),
                    raw: raw.to_owned(),
                    reason: err.to_string(),
                },
            );
            assert(diagnostics.deep_view() =~= front + malformed_report(origin@, raw@));
            fallback_pattern()
        },
    }
}

/// Resolves one call site.
fn resolve_site(
    crate_name: &str,
    site: &RawCallSite,
    inputs: &GraphInputs,
    index: &SymbolIndex,
    diagnostics: &mut Vec<GraphDiagnostic>,
) -> (out: ResolvedSite)
    ensures
        out.deep_view() == resolved_site(
            inputs.deep_view(),
            index@.entries,
            crate_name@,
            site.deep_view(),
        ),
        final(diagnostics).deep_view() == old(diagnostics).deep_view() + subject_reports(
            inputs.deep_view(),
            index@.entries,
            crate_name@,
            site.deep_view(),
        ) + consumer_reports(inputs.deep_view(), index@.entries, crate_name@, site.deep_view()),
{
    let ghost start = diagnostics.deep_view();
    let ghost x = inputs.deep_view();
    let ghost entries = index@.entries;
    let ghost s = site.deep_view();
    let (text, reason) = resolve_call_site_expr(
        site.subject_expr.as_str(),
        site,
        crate_name,
        inputs,
        index,
    );
    let ghost o = site_outcome(s.subject_expr, x, entries, crate_name@, s);
    let ghost unresolved = match o {
        OutcomeView::Unresolved(r) => seq![
            ReportView::UnresolvedSubject {
                crate_name: crate_name@,
                location: location(s),
                reason: reason_text(r),
            },
        ],
        _ => Seq::empty(),
    };
    if let Some(reason) = reason {
        diagnostics.push(
            GraphDiagnostic::UnresolvedSubject {
                crate_name: crate_name.to_owned(),
                location: location_string(site),
                reason: reason_string(&reason),
            },
        );
    }
    assert(diagnostics.deep_view() =~= start + unresolved);
    let subject = parse_subject_or_fallback(text.as_str(), "resolver", diagnostics);
    assert(diagnostics.deep_view() =~= start + subject_reports(x, entries, crate_name@, s));
    let ghost middle = diagnostics.deep_view();
    let consumer_name = match &site.consumer_name_expr {
        Some(expr) => {
            let (text, reason) = resolve_call_site_expr(
                expr.as_str(),
                site,
                crate_name,
                inputs,
                index,
            );
            if let Some(reason) = reason {
                diagnostics.push(
                    GraphDiagnostic::UnresolvedConsumerName {
                        crate_name: crate_name.to_owned(),
                        location: location_string(site),
                        reason: reason_string(&reason),
                    },
                );
            }
            assert(diagnostics.deep_view() =~= middle + consumer_reports(
                x,
                entries,
                crate_name@,
                s,
            ));
            Some(text)
        },
        None => {
            assert(middle =~= middle + consumer_reports(x, entries, crate_name@, s));
            None
        },
    };
    ResolvedSite { crate_name: crate_name.to_owned(), subject, kind: site.kind, consumer_name }
}

/// Resolves all call sites.
fn resolve_all(
    inputs: &GraphInputs,
    index: &SymbolIndex,
    diagnostics: &mut Vec<GraphDiagnostic>,
) -> (out: Vec<ResolvedSite>)
    ensures
        out.deep_view() == inputs_flow(inputs.deep_view(), index@.entries).sites,
        final(diagnostics).deep_view() == old(diagnostics).deep_view() + site_reports(
            inputs.deep_view(),
            index@.entries,
            inputs.deep_view().call_sites.len(),
        ),
{
    let ghost start = diagnostics.deep_view();
    let ghost x = inputs.deep_view();
    let ghost all = inputs_flow(x, index@.entries).sites;
    let mut out: Vec<ResolvedSite> = Vec::new();
    let mut i: usize = 0;
    assert(out.deep_view() =~= all.take(0));
    assert(start =~= start + site_reports(x, index@.entries, 0));
    while i < inputs.call_sites.len()
        invariant
            i <= inputs.call_sites.len(),
            x == inputs.deep_view(),
            all == inputs_flow(x, index@.entries).sites,
            out.deep_view() == all.take(i as int),
            diagnostics.deep_view() == start + site_reports(x, index@.entries, i as nat),
        decreases inputs.call_sites.len() - i,
    {
        let ghost front = out.deep_view();
        let ghost before = diagnostics.deep_view();
        let crate_name = &inputs.call_sites[i].0;
        let site = &inputs.call_sites[i].1;
        assert(x.call_sites[i as int] == (crate_name@, site.deep_view()));
        let resolved = resolve_site(crate_name.as_str(), site, inputs, index, diagnostics);
        out.push(resolved);
        assert(out.deep_view() =~= front.push(all[i as int]));
        assert(out.deep_view() =~= all.take(i + 1));
        assert(diagnostics.deep_view() =~= start + site_reports(
            x,
            index@.entries,
            (i + 1) as nat,
        ));
        i += 1;
    }
    assert(all.take(i as int) =~= all);
    assert(i == x.call_sites.len());
    out
}

fn report_declared(origin: &str, raws: &Vec<String>, diagnostics: &mut Vec<GraphDiagnostic>)
    ensures
        final(diagnostics).deep_view() == old(diagnostics).deep_view() + declared_reports(
            origin@,
            raws.deep_view(),
            raws.deep_view().len(),
        ),
{
    let ghost start = diagnostics.deep_view();
    let ghost all = raws.deep_view();
    let mut i: usize = 0;
    assert(start =~= start + declared_reports(origin@, all, 0));
    while i < raws.len()
        invariant
            i <= raws.len(),
            all == raws.deep_view(),
            diagnostics.deep_view() == start + declared_reports(origin@, all, i as nat),
        decreases raws.len() - i,
    {
        assert(all[i as int] == raws@[i as int]@);
        let _ = parse_subject_or_fallback(raws[i].as_str(), origin, diagnostics);
        assert(diagnostics.deep_view() =~= start + declared_reports(
            origin@,
            all,
            (i + 1) as nat,
        ));
        i += 1;
    }
    assert(i == all.len());
}

fn report_ingress(ingress: &Vec<Ingress>, diagnostics: &mut Vec<GraphDiagnostic>)
    ensures
        final(diagnostics).deep_view() == old(diagnostics).deep_view() + ingress_reports(
            ingress.deep_view(),
            ingress.deep_view().len(),
        ),
{
    let ghost start = diagnostics.deep_view();
    let ghost all = ingress.deep_view();
    let mut i: usize = 0;
    assert(start =~= start + ingress_reports(all, 0));
    while i < ingress.len()
        invariant
            i <= ingress.len(),
            all == ingress.deep_view(),
            diagnostics.deep_view() == start + ingress_reports(all, i as nat),
        decreases ingress.len() - i,
    {
        assert(all[i as int] == ingress@[i as int].deep_view());
        let origin = concat("ingress:", ingress[i].name.as_str());
        report_declared(origin.as_str(), &ingress[i].into, diagnostics);
        assert(diagnostics.deep_view() =~= start + ingress_reports(all, (i + 1) as nat));
        i += 1;
    }
    assert(i == all.len());
}

fn report_egress(egress: &Vec<Egress>, diagnostics: &mut Vec<GraphDiagnostic>)
    ensures
        final(diagnostics).deep_view() == old(diagnostics).deep_view() + egress_reports(
            egress.deep_view(),
            egress.deep_view().len(),
        ),
{
    let ghost start = diagnostics.deep_view();
    let ghost all = egress.deep_view();
    let mut i: usize = 0;
    assert(start =~= start + egress_reports(all, 0));
    while i < egress.len()
        invariant
            i <= egress.len(),
            all == egress.deep_view(),
            diagnostics.deep_view() == start + egress_reports(all, i as nat),
        decreases egress.len() - i,
    {
        assert(all[i as int] == egress@[i as int].deep_view());
        let origin = concat("egress:", egress[i].name.as_str());
        report_declared(origin.as_str(), &egress[i].triggered_by, diagnostics);
        assert(diagnostics.deep_view() =~= start + egress_reports(all, (i + 1) as nat));
        i += 1;
    }
    assert(i == all.len());
}

/// Builds the graph and the reports. Both depend on the inputs and the symbols
/// alone, and so does the order of their lists.
#[must_use]
pub fn build_graph(inputs: &GraphInputs, index: &SymbolIndex) -> (out: (
    Graph,
    Vec<GraphDiagnostic>,
))
    ensures
        out.0.deep_view() == flow_graph(inputs_flow(inputs.deep_view(), index@.entries)),
        out.1.deep_view() == graph_reports(inputs.deep_view(), index@.entries),
{
    let mut diagnostics: Vec<GraphDiagnostic> = Vec::new();
    assert(diagnostics.deep_view() =~= Seq::empty());
    let resolved = resolve_all(inputs, index, &mut diagnostics);
    report_ingress(&inputs.ingress, &mut diagnostics);
    report_egress(&inputs.egress, &mut diagnostics);
    let ingress = inputs.ingress.as_slice();
    let egress = inputs.egress.as_slice();
    assert(ingress.deep_view() =~= inputs.ingress.deep_view());
    assert(egress.deep_view() =~= inputs.egress.deep_view());
    let sites = resolved.as_slice();
    assert(sites.deep_view() =~= resolved.deep_view());
    report_orphans(sites, ingress, egress, &mut diagnostics);
    let graph = assemble(sites, ingress, egress);
    assert(diagnostics.deep_view() =~= graph_reports(inputs.deep_view(), index@.entries));
    (graph, diagnostics)
}

} // verus!
