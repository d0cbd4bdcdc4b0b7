//! What building a graph has to report.

use super::assembly::{
    fallback_pattern, flow_of, parse_subject_silent, subject_of, unknown_subject, FlowView,
    ResolvedSite, ResolvedView,
};
use super::{Egress, EgressView, Ingress, IngressView};
use crate::analysis::callsite::CallKind;
use crate::model::pattern::{overlap, render, NatsPattern, SegmentView};
use crate::text::{concat, debug_quoted, debug_text, same_text};
use vstd::prelude::*;

verus! {

/// Something to look at.
#[derive(Debug)]
pub enum GraphDiagnostic {
    /// The subject of a call site did not resolve.
    UnresolvedSubject {
        /// Crate of the call.
        crate_name: String,
        /// Where it stands.
        location: String,
        /// Why it did not resolve.
        reason: String,
    },
    /// The consumer name of a subscribe call did not resolve. Its edge is
    /// labelled `?`.
    UnresolvedConsumerName {
        /// Crate of the call.
        crate_name: String,
        /// Where it stands.
        location: String,
        /// Why it did not resolve.
        reason: String,
    },
    /// A subject is no pattern. The graph has `?` in its place.
    MalformedSubject {
        /// Where the subject came from: `resolver`, `ingress:<name>` or
        /// `egress:<name>`.
        origin: String,
        /// The subject.
        raw: String,
        /// Why it is no pattern.
        reason: String,
    },
    /// Nothing in the code subscribes to what a source feeds.
    OrphanIngress {
        /// Name of the source.
        ingress_name: String,
        /// The declared pattern.
        pattern: String,
    },
    /// Nothing in the code publishes what triggers a sink.
    OrphanEgress {
        /// Name of the sink.
        egress_name: String,
        /// The declared pattern.
        pattern: String,
    },
    /// Nothing in the code subscribes to what a crate publishes.
    OrphanPublisher {
        /// Crate that publishes.
        crate_name: String,
        /// The subject.
        subject: String,
    },
    /// Nothing in the code publishes what a crate subscribes to.
    OrphanConsumer {
        /// Crate that subscribes.
        crate_name: String,
        /// The subject.
        subject: String,
    },
    /// A crate has call sites whose subject is not known; they take no part in
    /// the search for counterparts.
    UnresolvedSubjectCoverage {
        /// The crate.
        crate_name: String,
        /// `publisher` or `consumer`.
        role: &'static str,
    },
}

/// The model of a [`GraphDiagnostic`].
pub enum ReportView {
    UnresolvedSubject { crate_name: Seq<char>, location: Seq<char>, reason: Seq<char> },
    UnresolvedConsumerName { crate_name: Seq<char>, location: Seq<char>, reason: Seq<char> },
    MalformedSubject { origin: Seq<char>, raw: Seq<char>, reason: Seq<char> },
    OrphanIngress { ingress_name: Seq<char>, pattern: Seq<char> },
    OrphanEgress { egress_name: Seq<char>, pattern: Seq<char> },
    OrphanPublisher { crate_name: Seq<char>, subject: Seq<char> },
    OrphanConsumer { crate_name: Seq<char>, subject: Seq<char> },
    UnresolvedSubjectCoverage { crate_name: Seq<char>, role: Seq<char> },
}

impl DeepView for GraphDiagnostic {
    type V = ReportView;

    open spec fn deep_view(&self) -> ReportView {
        match self {
            GraphDiagnostic::UnresolvedSubject { crate_name, location, reason } =>
                ReportView::UnresolvedSubject {
                crate_name: crate_name@,
                location: location@,
                reason: reason@,
            },
            GraphDiagnostic::UnresolvedConsumerName { crate_name, location, reason } =>
                ReportView::UnresolvedConsumerName {
                crate_name: crate_name@,
                location: location@,
                reason: reason@,
            },
            GraphDiagnostic::MalformedSubject { origin, raw, reason } =>
                ReportView::MalformedSubject { origin: origin@, raw: raw@, reason: reason@ },
            GraphDiagnostic::OrphanIngress { ingress_name, pattern } => ReportView::OrphanIngress {
                ingress_name: ingress_name@,
                pattern: pattern@,
            },
            GraphDiagnostic::OrphanEgress { egress_name, pattern } => ReportView::OrphanEgress {
                egress_name: egress_name@,
                pattern: pattern@,
            },
            GraphDiagnostic::OrphanPublisher { crate_name, subject } =>
                ReportView::OrphanPublisher { crate_name: crate_name@, subject: subject@ },
            GraphDiagnostic::OrphanConsumer { crate_name, subject } =>
                ReportView::OrphanConsumer { crate_name: crate_name@, subject: subject@ },
            GraphDiagnostic::UnresolvedSubjectCoverage { crate_name, role } =>
                ReportView::UnresolvedSubjectCoverage { crate_name: crate_name@, role: role@ },
        }
    }
}

impl Clone for GraphDiagnostic {
    fn clone(&self) -> (out: Self)
        ensures
            out.deep_view() == self.deep_view(),
    {
        match self {
            GraphDiagnostic::UnresolvedSubject { crate_name, location, reason } =>
                GraphDiagnostic::UnresolvedSubject {
                crate_name: crate_name.clone(),
                location: location.clone(),
                reason: reason.clone(),
            },
            GraphDiagnostic::UnresolvedConsumerName { crate_name, location, reason } =>
                GraphDiagnostic::UnresolvedConsumerName {
                crate_name: crate_name.clone(),
                location: location.clone(),
                reason: reason.clone(),
            },
            GraphDiagnostic::MalformedSubject { origin, raw, reason } =>
                GraphDiagnostic::MalformedSubject {
                origin: origin.clone(),
                raw: raw.clone(),
                reason: reason.clone(),
            },
            GraphDiagnostic::OrphanIngress { ingress_name, pattern } =>
                GraphDiagnostic::OrphanIngress {
                ingress_name: ingress_name.clone(),
                pattern: pattern.clone(),
            },
            GraphDiagnostic::OrphanEgress { egress_name, pattern } =>
                GraphDiagnostic::OrphanEgress {
                egress_name: egress_name.clone(),
                pattern: pattern.clone(),
            },
            GraphDiagnostic::OrphanPublisher { crate_name, subject } =>
                GraphDiagnostic::OrphanPublisher {
                crate_name: crate_name.clone(),
                subject: subject.clone(),
            },
            GraphDiagnostic::OrphanConsumer { crate_name, subject } =>
                GraphDiagnostic::OrphanConsumer {
                crate_name: crate_name.clone(),
                subject: subject.clone(),
            },
            GraphDiagnostic::UnresolvedSubjectCoverage { crate_name, role } =>
                GraphDiagnostic::UnresolvedSubjectCoverage {
                crate_name: crate_name.clone(),
                role: *role,
            },
        }
    }
}

/// The message of a report.
pub open spec fn report_text(r: ReportView) -> Seq<char> {
    match r {
        ReportView::UnresolvedSubject { crate_name, location, reason } => "unresolved subject in "@
            + crate_name + " at "@ + location + ": "@ + reason,
        ReportView::UnresolvedConsumerName { crate_name, location, reason } =>
            "unresolved consumer name in "@ + crate_name + " at "@ + location + ": "@ + reason,
        ReportView::MalformedSubject { origin, raw, reason } => "malformed subject from "@ + origin
            + ": "@ + debug_quoted(raw) + " ("@ + reason + ")"@,
        ReportView::OrphanIngress { ingress_name, pattern } => "orphan ingress "@ + debug_quoted(
            ingress_name,
        ) + ": declared pattern "@ + debug_quoted(pattern)
            + " has no observed consumer in code (data flows in but nothing subscribes)"@,
        ReportView::OrphanEgress { egress_name, pattern } => "orphan egress "@ + debug_quoted(
            egress_name,
        ) + ": declared trigger pattern "@ + debug_quoted(pattern)
            + " has no observed publisher in code (sink declared but nothing fires)"@,
        ReportView::OrphanPublisher { crate_name, subject } => "orphan publisher in "@ + crate_name
            + ": subject "@ + debug_quoted(subject)
            + " has no observed consumer in code (events fire but nothing subscribes)"@,
        ReportView::OrphanConsumer { crate_name, subject } => "orphan consumer in "@ + crate_name
            + ": subject "@ + debug_quoted(subject)
            + " has no observed publisher in code (subscribed but nothing fires)"@,
        ReportView::UnresolvedSubjectCoverage { crate_name, role } => "unresolved "@ + role
            + " subject in "@ + crate_name + ": not checked for counterparts"@,
    }
}

impl GraphDiagnostic {
    /// The message of this report.
    #[must_use]
    pub fn to_string(&self) -> (out: String)
        ensures
            out@ == report_text(self.deep_view()),
    {
        match self {
            GraphDiagnostic::UnresolvedSubject { crate_name, location, reason } => {
                let mut out = concat("unresolved subject in ", crate_name.as_str());
                out.append(" at ");
                out.append(location.as_str());
                out.append(": ");
                out.append(reason.as_str());
                out
            },
            GraphDiagnostic::UnresolvedConsumerName { crate_name, location, reason } => {
                let mut out = concat("unresolved consumer name in ", crate_name.as_str());
                out.append(" at ");
                out.append(location.as_str());
                out.append(": ");
                out.append(reason.as_str());
                out
            },
            GraphDiagnostic::MalformedSubject { origin, raw, reason } => {
                let mut out = concat("malformed subject from ", origin.as_str());
                out.append(": ");
                out.append(debug_text(raw.as_str()).as_str());
                out.append(" (");
                out.append(reason.as_str());
                out.append(")");
                out
            },
            GraphDiagnostic::OrphanIngress { ingress_name, pattern } => {
                let mut out = concat(
                    "orphan ingress ",
                    debug_text(ingress_name.as_str()).as_str(),
                );
                out.append(": declared pattern ");
                out.append(debug_text(pattern.as_str()).as_str());
                out.append(
                    " has no observed consumer in code (data flows in but nothing subscribes)",
                );
                out
            },
            GraphDiagnostic::OrphanEgress { egress_name, pattern } => {
                let mut out = concat("orphan egress ", debug_text(egress_name.as_str()).as_str());
                out.append(": declared trigger pattern ");
                out.append(debug_text(pattern.as_str()).as_str());
                out.append(
                    " has no observed publisher in code (sink declared but nothing fires)",
                );
                out
            },
            GraphDiagnostic::OrphanPublisher { crate_name, subject } => {
                let mut out = concat("orphan publisher in ", crate_name.as_str());
                out.append(": subject ");
                out.append(debug_text(subject.as_str()).as_str());
                out.append(
                    " has no observed consumer in code (events fire but nothing subscribes)",
                );
                out
            },
            GraphDiagnostic::OrphanConsumer { crate_name, subject } => {
                let mut out = concat("orphan consumer in ", crate_name.as_str());
                out.append(": subject ");
                out.append(debug_text(subject.as_str()).as_str());
                out.append(" has no observed publisher in code (subscribed but nothing fires)");
                out
            },
            GraphDiagnostic::UnresolvedSubjectCoverage { crate_name, role } => {
                let mut out = concat("unresolved ", role);
                out.append(" subject in ");
                out.append(crate_name.as_str());
                out.append(": not checked for counterparts");
                out
            },
        }
    }
}

// ---------------------------------------------------------------------
// what has no counterpart
// ---------------------------------------------------------------------

/// Whether some call site of the kind has a subject that overlaps `p`.
pub open spec fn observed(sites: Seq<ResolvedView>, kind: CallKind, p: Seq<SegmentView>) -> bool {
    exists|i: int|
        0 <= i < sites.len() && (#[trigger] sites[i]).kind == kind && overlap(sites[i].subject, p)
}

/// The reports on the first `n` declared subjects of a source.
pub open spec fn orphan_ingress_row(
    sites: Seq<ResolvedView>,
    x: IngressView,
    n: nat,
) -> Seq<ReportView>
    decreases n,
{
    if n == 0 {
        Seq::empty()
    } else {
        let front = orphan_ingress_row(sites, x, (n - 1) as nat);
        let p = subject_of(x.into[n - 1]);
        if observed(sites, CallKind::Subscribe, p) {
            front
        } else {
            front.push(ReportView::OrphanIngress { ingress_name: x.name, pattern: render(p) })
        }
    }
}

/// The reports on the first `n` sources: each declared subject that overlaps
/// nothing that the code subscribes to.
pub open spec fn orphan_ingress(
    sites: Seq<ResolvedView>,
    ingress: Seq<IngressView>,
    n: nat,
) -> Seq<ReportView>
    decreases n,
{
    if n == 0 {
        Seq::empty()
    } else {
        orphan_ingress(sites, ingress, (n - 1) as nat) + orphan_ingress_row(
            sites,
            ingress[n - 1],
            ingress[n - 1].into.len(),
        )
    }
}

/// The reports on the first `n` declared subjects of a sink.
pub open spec fn orphan_egress_row(
    sites: Seq<ResolvedView>,
    x: EgressView,
    n: nat,
) -> Seq<ReportView>
    decreases n,
{
    if n == 0 {
        Seq::empty()
    } else {
        let front = orphan_egress_row(sites, x, (n - 1) as nat);
        let p = subject_of(x.triggered_by[n - 1]);
        if observed(sites, CallKind::Publish, p) {
            front
        } else {
            front.push(ReportView::OrphanEgress { egress_name: x.name, pattern: render(p) })
        }
    }
}

/// The reports on the first `n` sinks: each declared subject that overlaps
/// nothing that the code publishes.
pub open spec fn orphan_egress(
    sites: Seq<ResolvedView>,
    egress: Seq<EgressView>,
    n: nat,
) -> Seq<ReportView>
    decreases n,
{
    if n == 0 {
        Seq::empty()
    } else {
        orphan_egress(sites, egress, (n - 1) as nat) + orphan_egress_row(
            sites,
            egress[n - 1],
            egress[n - 1].triggered_by.len(),
        )
    }
}

/// The kind of call that is the counterpart of a kind.
pub open spec fn counterpart(kind: CallKind) -> CallKind {
    match kind {
        CallKind::Publish => CallKind::Subscribe,
        CallKind::Subscribe => CallKind::Publish,
    }
}

/// Whether some call site of the kind with a known subject overlaps `p`.
pub open spec fn served(sites: Seq<ResolvedView>, kind: CallKind, p: Seq<SegmentView>) -> bool {
    exists|i: int|
        0 <= i < sites.len() && (#[trigger] sites[i]).kind == kind && sites[i].subject
            != unknown_subject() && overlap(sites[i].subject, p)
}

/// Whether an earlier call site has the kind, crate and subject of the `k`-th.
pub open spec fn seen_before(sites: Seq<ResolvedView>, k: int) -> bool {
    exists|i: int|
        0 <= i < k && (#[trigger] sites[i]).kind == sites[k].kind && sites[i].crate_name
            == sites[k].crate_name && sites[i].subject == sites[k].subject
}

/// The report on a call site of the kind: its crate and subject, when the
/// subject is known and no call site of the other kind with a known subject
/// overlaps it. A crate and subject are reported once.
pub open spec fn orphan_site(sites: Seq<ResolvedView>, kind: CallKind, k: int) -> Seq<ReportView> {
    let s = sites[k];
    if s.kind != kind || s.subject == unknown_subject() || seen_before(sites, k) || served(
        sites,
        counterpart(kind),
        s.subject,
    ) {
        Seq::empty()
    } else {
        match kind {
            CallKind::Publish => seq![
                ReportView::OrphanPublisher {
                    crate_name: s.crate_name,
                    subject: render(s.subject),
                },
            ],
            CallKind::Subscribe => seq![
                ReportView::OrphanConsumer {
                    crate_name: s.crate_name,
                    subject: render(s.subject),
                },
            ],
        }
    }
}

/// The reports on the first `n` call sites as far as they are of the kind.
pub open spec fn orphan_sites(
    sites: Seq<ResolvedView>,
    kind: CallKind,
    n: nat,
) -> Seq<ReportView>
    decreases n,
{
    if n == 0 {
        Seq::empty()
    } else {
        orphan_sites(sites, kind, (n - 1) as nat) + orphan_site(sites, kind, n - 1)
    }
}

pub open spec fn role_of(kind: CallKind) -> Seq<char> {
    match kind {
        CallKind::Publish => "publisher"@,
        CallKind::Subscribe => "consumer"@,
    }
}

/// The note on a call site of the kind whose subject is not known, once for a
/// crate.
pub open spec fn coverage_note(sites: Seq<ResolvedView>, kind: CallKind, k: int) -> Seq<ReportView> {
    let s = sites[k];
    if s.kind != kind || s.subject != unknown_subject() || seen_before(sites, k) {
        Seq::empty()
    } else {
        seq![
            ReportView::UnresolvedSubjectCoverage {
                crate_name: s.crate_name,
                role: role_of(kind),
            },
        ]
    }
}

/// The notes on the first `n` call sites as far as they are of the kind.
pub open spec fn coverage_notes(
    sites: Seq<ResolvedView>,
    kind: CallKind,
    n: nat,
) -> Seq<ReportView>
    decreases n,
{
    if n == 0 {
        Seq::empty()
    } else {
        coverage_notes(sites, kind, (n - 1) as nat) + coverage_note(sites, kind, n - 1)
    }
}

/// The reports on what has no counterpart: sources, sinks, publishers and
/// consumers; and the notes on call sites that could not be checked.
pub open spec fn orphan_reports(flow: FlowView) -> Seq<ReportView> {
    let n = flow.sites.len();
    orphan_ingress(flow.sites, flow.ingress, flow.ingress.len()) + orphan_egress(
        flow.sites,
        flow.egress,
        flow.egress.len(),
    ) + orphan_sites(flow.sites, CallKind::Publish, n) + orphan_sites(
        flow.sites,
        CallKind::Subscribe,
        n,
    ) + coverage_notes(flow.sites, CallKind::Publish, n) + coverage_notes(
        flow.sites,
        CallKind::Subscribe,
        n,
    )
}

fn is_observed(sites: &[ResolvedSite], kind: CallKind, p: &NatsPattern) -> (yes: bool)
    ensures
        yes == observed(sites.deep_view(), kind, p@),
{
    let ghost all = sites.deep_view();
    let mut i: usize = 0;
    while i < sites.len()
        invariant
            i <= sites.len(),
            all == sites.deep_view(),
            forall|j: int|
                0 <= j < i ==> !((#[trigger] all[j]).kind == kind && overlap(all[j].subject, p@)),
        decreases sites.len() - i,
    {
        assert(all[i as int] == sites@[i as int].deep_view());
        if sites[i].kind == kind && sites[i].subject.overlaps(p) {
            return true;
        }
        i += 1;
    }
    false
}

fn is_served(
    sites: &[ResolvedSite],
    kind: CallKind,
    p: &NatsPattern,
    unknown: &NatsPattern,
) -> (yes: bool)
    requires
        unknown@ == unknown_subject(),
    ensures
        yes == served(sites.deep_view(), kind, p@),
{
    let ghost all = sites.deep_view();
    let mut i: usize = 0;
    while i < sites.len()
        invariant
            i <= sites.len(),
            all == sites.deep_view(),
            unknown@ == unknown_subject(),
            forall|j: int|
                0 <= j < i ==> !((#[trigger] all[j]).kind == kind && all[j].subject
                    != unknown_subject() && overlap(all[j].subject, p@)),
        decreases sites.len() - i,
    {
        assert(all[i as int] == sites@[i as int].deep_view());
        if sites[i].kind == kind && !sites[i].subject.same_as(unknown)
            && sites[i].subject.overlaps(p) {
            return true;
        }
        i += 1;
    }
    false
}

fn is_seen_before(sites: &[ResolvedSite], k: usize) -> (yes: bool)
    requires
        k < sites.len(),
    ensures
        yes == seen_before(sites.deep_view(), k as int),
{
    let ghost all = sites.deep_view();
    assert(all[k as int] == sites@[k as int].deep_view());
    let mut i: usize = 0;
    while i < k
        invariant
            i <= k < sites.len(),
            all == sites.deep_view(),
            all[k as int] == sites@[k as int].deep_view(),
            forall|j: int|
                0 <= j < i ==> !((#[trigger] all[j]).kind == all[k as int].kind
                    && all[j].crate_name == all[k as int].crate_name && all[j].subject
                    == all[k as int].subject),
        decreases k - i,
    {
        assert(all[i as int] == sites@[i as int].deep_view());
        if sites[i].kind == sites[k].kind && same_text(
            sites[i].crate_name.as_str(),
            sites[k].crate_name.as_str(),
        ) && sites[i].subject.same_as(&sites[k].subject) {
            return true;
        }
        i += 1;
    }
    false
}

fn report_orphan_ingress(
    sites: &[ResolvedSite],
    ingress: &[Ingress],
    diagnostics: &mut Vec<GraphDiagnostic>,
)
    ensures
        final(diagnostics).deep_view() == old(diagnostics).deep_view() + orphan_ingress(
            sites.deep_view(),
            ingress.deep_view(),
            ingress.deep_view().len(),
        ),
{
    let ghost start = diagnostics.deep_view();
    let ghost s = sites.deep_view();
    let ghost all = ingress.deep_view();
    let mut i: usize = 0;
    assert(start =~= start + orphan_ingress(s, all, 0));
    while i < ingress.len()
        invariant
            i <= ingress.len(),
            s == sites.deep_view(),
            all == ingress.deep_view(),
            diagnostics.deep_view() == start + orphan_ingress(s, all, i as nat),
        decreases ingress.len() - i,
    {
        let source = &ingress[i];
        let ghost x = all[i as int];
        let ghost before = diagnostics.deep_view();
        assert(x == source.deep_view());
        let mut k: usize = 0;
        assert(before =~= before + orphan_ingress_row(s, x, 0));
        while k < source.into.len()
            invariant
                k <= source.into.len(),
                s == sites.deep_view(),
                x == source.deep_view(),
                diagnostics.deep_view() == before + orphan_ingress_row(s, x, k as nat),
            decreases source.into.len() - k,
        {
            let ghost front = diagnostics.deep_view();
            assert(x.into[k as int] == source.into@[k as int]@);
            let declared = parse_subject_silent(source.into[k].as_str());
            if !is_observed(sites, CallKind::Subscribe, &declared) {
                let report = GraphDiagnostic::OrphanIngress {
                    ingress_name: source.name.clone(),
                    pattern: declared.to_string(),
                };
                let ghost r = report.deep_view();
                diagnostics.push(report);
                assert(diagnostics.deep_view() =~= front.push(r));
            }
            assert(diagnostics.deep_view() =~= before + orphan_ingress_row(
                s,
                x,
                (k + 1) as nat,
            ));
            k += 1;
        }
        assert(k == x.into.len());
        assert(diagnostics.deep_view() =~= start + orphan_ingress(s, all, (i + 1) as nat));
        i += 1;
    }
    assert(i == all.len());
}

fn report_orphan_egress(
    sites: &[ResolvedSite],
    egress: &[Egress],
    diagnostics: &mut Vec<GraphDiagnostic>,
)
    ensures
        final(diagnostics).deep_view() == old(diagnostics).deep_view() + orphan_egress(
            sites.deep_view(),
            egress.deep_view(),
            egress.deep_view().len(),
        ),
{
    let ghost start = diagnostics.deep_view();
    let ghost s = sites.deep_view();
    let ghost all = egress.deep_view();
    let mut i: usize = 0;
    assert(start =~= start + orphan_egress(s, all, 0));
    while i < egress.len()
        invariant
            i <= egress.len(),
            s == sites.deep_view(),
            all == egress.deep_view(),
            diagnostics.deep_view() == start + orphan_egress(s, all, i as nat),
        decreases egress.len() - i,
    {
        let sink = &egress[i];
        let ghost x = all[i as int];
        let ghost before = diagnostics.deep_view();
        assert(x == sink.deep_view());
        let mut k: usize = 0;
        assert(before =~= before + orphan_egress_row(s, x, 0));
        while k < sink.triggered_by.len()
            invariant
                k <= sink.triggered_by.len(),
                s == sites.deep_view(),
                x == sink.deep_view(),
                diagnostics.deep_view() == before + orphan_egress_row(s, x, k as nat),
            decreases sink.triggered_by.len() - k,
        {
            let ghost front = diagnostics.deep_view();
            assert(x.triggered_by[k as int] == sink.triggered_by@[k as int]@);
            let declared = parse_subject_silent(sink.triggered_by[k].as_str());
            if !is_observed(sites, CallKind::Publish, &declared) {
                let report = GraphDiagnostic::OrphanEgress {
                    egress_name: sink.name.clone(),
                    pattern: declared.to_string(),
                };
                let ghost r = report.deep_view();
                diagnostics.push(report);
                assert(diagnostics.deep_view() =~= front.push(r));
            }
            assert(diagnostics.deep_view() =~= before + orphan_egress_row(
                s,
                x,
                (k + 1) as nat,
            ));
            k += 1;
        }
        assert(k == x.triggered_by.len());
        assert(diagnostics.deep_view() =~= start + orphan_egress(s, all, (i + 1) as nat));
        i += 1;
    }
    assert(i == all.len());
}

fn report_orphan_sites(
    sites: &[ResolvedSite],
    kind: CallKind,
    diagnostics: &mut Vec<GraphDiagnostic>,
)
    ensures
        final(diagnostics).deep_view() == old(diagnostics).deep_view() + orphan_sites(
            sites.deep_view(),
            kind,
            sites.deep_view().len(),
        ),
{
    let ghost start = diagnostics.deep_view();
    let ghost s = sites.deep_view();
    let unknown = fallback_pattern();
    let other = match kind {
        CallKind::Publish => CallKind::Subscribe,
        CallKind::Subscribe => CallKind::Publish,
    };
    let mut i: usize = 0;
    assert(start =~= start + orphan_sites(s, kind, 0));
    while i < sites.len()
        invariant
            i <= sites.len(),
            s == sites.deep_view(),
            other == counterpart(kind),
            unknown@ == unknown_subject(),
            diagnostics.deep_view() == start + orphan_sites(s, kind, i as nat),
        decreases sites.len() - i,
    {
        let site = &sites[i];
        let ghost before = diagnostics.deep_view();
        assert(s[i as int] == site.deep_view());
        if site.kind == kind && !site.subject.same_as(&unknown) && !is_seen_before(sites, i)
            && !is_served(sites, other, &site.subject, &unknown) {
            let report = match kind {
                CallKind::Publish => GraphDiagnostic::OrphanPublisher {
                    crate_name: site.crate_name.clone(),
                    subject: site.subject.to_string(),
                },
                CallKind::Subscribe => GraphDiagnostic::OrphanConsumer {
                    crate_name: site.crate_name.clone(),
                    subject: site.subject.to_string(),
                },
            };
            let ghost r = report.deep_view();
            diagnostics.push(report);
            assert(diagnostics.deep_view() =~= before.push(r));
        }
        assert(diagnostics.deep_view() =~= before + orphan_site(s, kind, i as int));
        assert(diagnostics.deep_view() =~= start + orphan_sites(s, kind, (i + 1) as nat));
        i += 1;
    }
    assert(i == s.len());
}

fn report_coverage(
    sites: &[ResolvedSite],
    kind: CallKind,
    diagnostics: &mut Vec<GraphDiagnostic>,
)
    ensures
        final(diagnostics).deep_view() == old(diagnostics).deep_view() + coverage_notes(
            sites.deep_view(),
            kind,
            sites.deep_view().len(),
        ),
{
    let ghost start = diagnostics.deep_view();
    let ghost s = sites.deep_view();
    let unknown = fallback_pattern();
    let role = match kind {
        CallKind::Publish => "publisher",
        CallKind::Subscribe => "consumer",
    };
    let mut i: usize = 0;
    assert(start =~= start + coverage_notes(s, kind, 0));
    while i < sites.len()
        invariant
            i <= sites.len(),
            s == sites.deep_view(),
            role@ == role_of(kind),
            unknown@ == unknown_subject(),
            diagnostics.deep_view() == start + coverage_notes(s, kind, i as nat),
        decreases sites.len() - i,
    {
        let site = &sites[i];
        let ghost before = diagnostics.deep_view();
        assert(s[i as int] == site.deep_view());
        if site.kind == kind && site.subject.same_as(&unknown) && !is_seen_before(sites, i) {
            let report = GraphDiagnostic::UnresolvedSubjectCoverage {
                crate_name: site.crate_name.clone(),
                role,
            };
            let ghost r = report.deep_view();
            diagnostics.push(report);
            assert(diagnostics.deep_view() =~= before.push(r));
        }
        assert(diagnostics.deep_view() =~= before + coverage_note(s, kind, i as int));
        assert(diagnostics.deep_view() =~= start + coverage_notes(s, kind, (i + 1) as nat));
        i += 1;
    }
    assert(i == s.len());
}

/// Reports what has no counterpart.
pub fn report_orphans(
    sites: &[ResolvedSite],
    ingress: &[Ingress],
    egress: &[Egress],
    diagnostics: &mut Vec<GraphDiagnostic>,
)
    ensures
        final(diagnostics).deep_view() == old(diagnostics).deep_view() + orphan_reports(
            flow_of(sites, ingress, egress),
        ),
{
    let ghost start = diagnostics.deep_view();
    report_orphan_ingress(sites, ingress, diagnostics);
    report_orphan_egress(sites, egress, diagnostics);
    report_orphan_sites(sites, CallKind::Publish, diagnostics);
    report_orphan_sites(sites, CallKind::Subscribe, diagnostics);
    report_coverage(sites, CallKind::Publish, diagnostics);
    report_coverage(sites, CallKind::Subscribe, diagnostics);
    assert(diagnostics.deep_view() =~= start + orphan_reports(flow_of(sites, ingress, egress)));
}

} // verus!
