//! What is reported of a graph, told from what it is built from.

use super::assembly::unknown_subject;
use super::input_laws::{comes_to, or_question, pattern_in, subject_at};
use super::reports::{
    coverage_note, coverage_notes, observed, orphan_egress, orphan_egress_row, orphan_ingress,
    orphan_ingress_row, orphan_site, orphan_sites, seen_before, served, ReportView,
};
use super::{
    declared_reports, egress_reports, graph_reports, ingress_reports, inputs_flow, reason_text,
    site_reports, EgressView, IngressView, InputsView,
};
use crate::analysis::callsite::{CallKind, SiteView};
use crate::analysis::format_laws::below_number;
use crate::analysis::subject::OutcomeView;
use crate::analysis::symbol_index::EntryView;
use crate::model::pattern::{overlap, parse_error_text, parsed, render, SegmentView};
use crate::order::flat;
use crate::text::decimal;
use vstd::prelude::*;

verus! {

/// The report on a subject that is no pattern, and none on one that is.
pub open spec fn not_a_pattern(origin: Seq<char>, raw: Seq<char>) -> Seq<ReportView> {
    if let Err(e) = parsed(raw) {
        seq![ReportView::MalformedSubject { origin, raw, reason: parse_error_text(e) }]
    } else {
        Seq::empty()
    }
}

/// The file of a call site, a colon and its line.
pub open spec fn place_of(site: SiteView) -> Seq<char> {
    site.file + seq![':'] + decimal(site.line as nat)
}

/// What is reported of the `k`-th call site: a subject that does not resolve, a
/// subject that is no pattern, and a consumer name that does not resolve.
pub open spec fn told_of_call(
    inputs: InputsView,
    entries: Seq<EntryView>,
    k: int,
) -> Seq<ReportView> {
    let (crate_name, site) = inputs.call_sites[k];
    let subject = comes_to(inputs, entries, k, site.subject_expr);
    let first = if let OutcomeView::Unresolved(why) = subject {
        seq![
            ReportView::UnresolvedSubject {
                crate_name,
                location: place_of(site),
                reason: reason_text(why),
            },
        ]
    } else {
        Seq::empty()
    };
    let last = match site.consumer_name_expr {
        Some(text) => if let OutcomeView::Unresolved(why) = comes_to(inputs, entries, k, text) {
            seq![
                ReportView::UnresolvedConsumerName {
                    crate_name,
                    location: place_of(site),
                    reason: reason_text(why),
                },
            ]
        } else {
            Seq::empty()
        },
        None => Seq::empty(),
    };
    first + not_a_pattern("resolver"@, or_question(subject)) + last
}

/// Some call of the kind is about something that overlaps the pattern.
pub open spec fn met(
    inputs: InputsView,
    entries: Seq<EntryView>,
    kind: CallKind,
    p: Seq<SegmentView>,
) -> bool {
    exists|j: int|
        0 <= j < inputs.call_sites.len() && (#[trigger] inputs.call_sites[j]).1.kind == kind
            && overlap(subject_at(inputs, entries, j), p)
}

/// The pattern that stands for an unknown subject.
pub open spec fn question() -> Seq<SegmentView> {
    seq![SegmentView::Literal(seq!['?'])]
}

/// Some call of the kind whose subject is known is about something that overlaps
/// the pattern.
pub open spec fn answered(
    inputs: InputsView,
    entries: Seq<EntryView>,
    kind: CallKind,
    p: Seq<SegmentView>,
) -> bool {
    exists|j: int|
        0 <= j < inputs.call_sites.len() && (#[trigger] inputs.call_sites[j]).1.kind == kind
            && subject_at(inputs, entries, j) != question() && overlap(
            subject_at(inputs, entries, j),
            p,
        )
}

/// An earlier call is of the same kind, in the same crate, about the same subject.
pub open spec fn repeated(inputs: InputsView, entries: Seq<EntryView>, k: int) -> bool {
    exists|j: int|
        0 <= j < k && (#[trigger] inputs.call_sites[j]).1.kind == inputs.call_sites[k].1.kind
            && inputs.call_sites[j].0 == inputs.call_sites[k].0 && subject_at(inputs, entries, j)
            == subject_at(inputs, entries, k)
}

/// The report on a publishing call that nobody subscribes to, at the first such
/// call of its crate.
pub open spec fn unheard(
    inputs: InputsView,
    entries: Seq<EntryView>,
    k: int,
) -> Seq<ReportView> {
    let p = subject_at(inputs, entries, k);
    if inputs.call_sites[k].1.kind == CallKind::Publish && p != question() && !repeated(
        inputs,
        entries,
        k,
    ) && !answered(inputs, entries, CallKind::Subscribe, p) {
        seq![
            ReportView::OrphanPublisher {
                crate_name: inputs.call_sites[k].0,
                subject: render(p),
            },
        ]
    } else {
        Seq::empty()
    }
}

/// The report on a subscribing call that nobody publishes for, at the first such
/// call of its crate.
pub open spec fn unfed(
    inputs: InputsView,
    entries: Seq<EntryView>,
    k: int,
) -> Seq<ReportView> {
    let p = subject_at(inputs, entries, k);
    if inputs.call_sites[k].1.kind == CallKind::Subscribe && p != question() && !repeated(
        inputs,
        entries,
        k,
    ) && !answered(inputs, entries, CallKind::Publish, p) {
        seq![
            ReportView::OrphanConsumer {
                crate_name: inputs.call_sites[k].0,
                subject: render(p),
            },
        ]
    } else {
        Seq::empty()
    }
}

/// The note on a call whose subject is not known, at the first of its crate.
pub open spec fn unchecked(
    inputs: InputsView,
    entries: Seq<EntryView>,
    kind: CallKind,
    role: Seq<char>,
    k: int,
) -> Seq<ReportView> {
    if inputs.call_sites[k].1.kind == kind && subject_at(inputs, entries, k) == question()
        && !repeated(inputs, entries, k) {
        seq![
            ReportView::UnresolvedSubjectCoverage { crate_name: inputs.call_sites[k].0, role },
        ]
    } else {
        Seq::empty()
    }
}

/// The reports on what a source feeds and nothing subscribes to.
pub open spec fn unread(
    inputs: InputsView,
    entries: Seq<EntryView>,
    x: IngressView,
) -> Seq<ReportView> {
    x.into.filter(
        |raw: Seq<char>| !met(inputs, entries, CallKind::Subscribe, pattern_in(raw)),
    ).map_values(
        |raw: Seq<char>|
            ReportView::OrphanIngress { ingress_name: x.name, pattern: render(pattern_in(raw)) },
    )
}

/// The reports on what triggers a sink and nothing publishes.
pub open spec fn unfired(
    inputs: InputsView,
    entries: Seq<EntryView>,
    x: EgressView,
) -> Seq<ReportView> {
    x.triggered_by.filter(
        |raw: Seq<char>| !met(inputs, entries, CallKind::Publish, pattern_in(raw)),
    ).map_values(
        |raw: Seq<char>|
            ReportView::OrphanEgress { egress_name: x.name, pattern: render(pattern_in(raw)) },
    )
}

// ---------------------------------------------------------------------
// the parts
// ---------------------------------------------------------------------

proof fn lemma_call_part(inputs: InputsView, entries: Seq<EntryView>, n: nat)
    requires
        n <= inputs.call_sites.len(),
    ensures
        site_reports(inputs, entries, n) == flat(
            below_number(n),
            |k: int| told_of_call(inputs, entries, k),
        ),
    decreases n,
{
    let f = |k: int| told_of_call(inputs, entries, k);
    if n > 0 {
        let m = (n - 1) as nat;
        lemma_call_part(inputs, entries, m);
        assert(below_number(n).drop_last() =~= below_number(m));
        assert(below_number(n).last() == m);
        reveal_strlit(":");
        assert(":"@ =~= seq![':']);
        let (crate_name, site) = inputs.call_sites[m as int];
        assert(site_reports(inputs, entries, n) =~= site_reports(inputs, entries, m) + f(m as int));
    } else {
        assert(below_number(0) =~= Seq::empty());
    }
}

proof fn lemma_declared_part(origin: Seq<char>, raws: Seq<Seq<char>>, n: nat)
    requires
        n <= raws.len(),
    ensures
        declared_reports(origin, raws, n) == flat(
            raws.take(n as int),
            |raw: Seq<char>| not_a_pattern(origin, raw),
        ),
    decreases n,
{
    if n > 0 {
        let m = (n - 1) as nat;
        lemma_declared_part(origin, raws, m);
        assert(raws.take(n as int).drop_last() =~= raws.take(m as int));
        assert(raws.take(n as int).last() == raws[m as int]);
    } else {
        assert(raws.take(0) =~= Seq::empty());
    }
}

proof fn lemma_ingress_part(ingress: Seq<IngressView>, n: nat)
    requires
        n <= ingress.len(),
    ensures
        ingress_reports(ingress, n) == flat(
            ingress.take(n as int),
            |x: IngressView|
                flat(x.into, |raw: Seq<char>| not_a_pattern("ingress:"@ + x.name, raw)),
        ),
    decreases n,
{
    let f = |x: IngressView|
        flat(x.into, |raw: Seq<char>| not_a_pattern("ingress:"@ + x.name, raw));
    if n > 0 {
        let m = (n - 1) as nat;
        let x = ingress[m as int];
        lemma_ingress_part(ingress, m);
        lemma_declared_part("ingress:"@ + x.name, x.into, x.into.len());
        assert(x.into.take(x.into.len() as int) =~= x.into);
        assert(ingress.take(n as int).drop_last() =~= ingress.take(m as int));
        assert(ingress.take(n as int).last() == x);
    } else {
        assert(ingress.take(0) =~= Seq::empty());
    }
}

proof fn lemma_egress_part(egress: Seq<EgressView>, n: nat)
    requires
        n <= egress.len(),
    ensures
        egress_reports(egress, n) == flat(
            egress.take(n as int),
            |x: EgressView|
                flat(x.triggered_by, |raw: Seq<char>| not_a_pattern("egress:"@ + x.name, raw)),
        ),
    decreases n,
{
    let f = |x: EgressView|
        flat(x.triggered_by, |raw: Seq<char>| not_a_pattern("egress:"@ + x.name, raw));
    if n > 0 {
        let m = (n - 1) as nat;
        let x = egress[m as int];
        lemma_egress_part(egress, m);
        lemma_declared_part("egress:"@ + x.name, x.triggered_by, x.triggered_by.len());
        assert(x.triggered_by.take(x.triggered_by.len() as int) =~= x.triggered_by);
        assert(egress.take(n as int).drop_last() =~= egress.take(m as int));
        assert(egress.take(n as int).last() == x);
    } else {
        assert(egress.take(0) =~= Seq::empty());
    }
}

proof fn lemma_sites(inputs: InputsView, entries: Seq<EntryView>)
    ensures
        inputs_flow(inputs, entries).sites.len() == inputs.call_sites.len(),
        forall|k: int|
            0 <= k < inputs.call_sites.len() ==> ({
                let s = #[trigger] inputs_flow(inputs, entries).sites[k];
                &&& s.crate_name == inputs.call_sites[k].0
                &&& s.kind == inputs.call_sites[k].1.kind
                &&& s.subject == subject_at(inputs, entries, k)
            }),
{
}

proof fn lemma_met(
    inputs: InputsView,
    entries: Seq<EntryView>,
    kind: CallKind,
    p: Seq<SegmentView>,
)
    ensures
        observed(inputs_flow(inputs, entries).sites, kind, p) == met(inputs, entries, kind, p),
        served(inputs_flow(inputs, entries).sites, kind, p) == answered(inputs, entries, kind, p),
{
    let sites = inputs_flow(inputs, entries).sites;
    lemma_sites(inputs, entries);
    assert(question() =~= unknown_subject());
    if observed(sites, kind, p) {
        let j = choose|j: int|
            0 <= j < sites.len() && (#[trigger] sites[j]).kind == kind && overlap(
                sites[j].subject,
                p,
            );
        assert(inputs.call_sites[j].1.kind == kind);
    }
    if met(inputs, entries, kind, p) {
        let j = choose|j: int|
            0 <= j < inputs.call_sites.len() && (#[trigger] inputs.call_sites[j]).1.kind == kind
                && overlap(subject_at(inputs, entries, j), p);
        assert(sites[j].kind == kind);
    }
    if served(sites, kind, p) {
        let j = choose|j: int|
            0 <= j < sites.len() && (#[trigger] sites[j]).kind == kind && sites[j].subject
                != unknown_subject() && overlap(sites[j].subject, p);
        assert(inputs.call_sites[j].1.kind == kind);
    }
    if answered(inputs, entries, kind, p) {
        let j = choose|j: int|
            0 <= j < inputs.call_sites.len() && (#[trigger] inputs.call_sites[j]).1.kind == kind
                && subject_at(inputs, entries, j) != question() && overlap(
                subject_at(inputs, entries, j),
                p,
            );
        assert(sites[j].kind == kind);
    }
}

proof fn lemma_repeated(inputs: InputsView, entries: Seq<EntryView>, k: int)
    requires
        0 <= k < inputs.call_sites.len(),
    ensures
        seen_before(inputs_flow(inputs, entries).sites, k) == repeated(inputs, entries, k),
{
    let sites = inputs_flow(inputs, entries).sites;
    lemma_sites(inputs, entries);
    assert(sites[k].kind == inputs.call_sites[k].1.kind);
    if seen_before(sites, k) {
        let j = choose|j: int|
            0 <= j < k && (#[trigger] sites[j]).kind == sites[k].kind && sites[j].crate_name
                == sites[k].crate_name && sites[j].subject == sites[k].subject;
        assert(inputs.call_sites[j].1.kind == inputs.call_sites[k].1.kind);
    }
    if repeated(inputs, entries, k) {
        let j = choose|j: int|
            0 <= j < k && (#[trigger] inputs.call_sites[j]).1.kind == inputs.call_sites[k].1.kind
                && inputs.call_sites[j].0 == inputs.call_sites[k].0 && subject_at(
                inputs,
                entries,
                j,
            ) == subject_at(inputs, entries, k);
        assert(sites[j].kind == sites[k].kind);
    }
}

proof fn lemma_unread_row(
    inputs: InputsView,
    entries: Seq<EntryView>,
    x: IngressView,
    n: nat,
)
    requires
        n <= x.into.len(),
    ensures
        orphan_ingress_row(inputs_flow(inputs, entries).sites, x, n) == unread(
            inputs,
            entries,
            IngressView { into: x.into.take(n as int), ..x },
        ),
    decreases n,
{
    reveal(Seq::filter);
    let keep = |raw: Seq<char>| !met(inputs, entries, CallKind::Subscribe, pattern_in(raw));
    let told = |raw: Seq<char>|
        ReportView::OrphanIngress { ingress_name: x.name, pattern: render(pattern_in(raw)) };
    let part = x.into.take(n as int);
    let y = IngressView { into: part, ..x };
    assert(unread(inputs, entries, y) =~= part.filter(keep).map_values(told));
    if n > 0 {
        let m = (n - 1) as nat;
        let less = x.into.take(m as int);
        let raw = x.into[m as int];
        lemma_unread_row(inputs, entries, x, m);
        let z = IngressView { into: less, ..x };
        assert(unread(inputs, entries, z) =~= less.filter(keep).map_values(told));
        lemma_met(inputs, entries, CallKind::Subscribe, pattern_in(raw));
        assert(part.drop_last() =~= less);
        assert(part.last() == raw);
        if keep(raw) {
            assert(less.filter(keep).push(raw).map_values(told) =~= less.filter(keep).map_values(
                told,
            ).push(told(raw)));
        }
    } else {
        assert(part =~= Seq::empty());
        assert(part.filter(keep).map_values(told) =~= Seq::empty());
    }
}

proof fn lemma_unfired_row(
    inputs: InputsView,
    entries: Seq<EntryView>,
    x: EgressView,
    n: nat,
)
    requires
        n <= x.triggered_by.len(),
    ensures
        orphan_egress_row(inputs_flow(inputs, entries).sites, x, n) == unfired(
            inputs,
            entries,
            EgressView { triggered_by: x.triggered_by.take(n as int), ..x },
        ),
    decreases n,
{
    reveal(Seq::filter);
    let keep = |raw: Seq<char>| !met(inputs, entries, CallKind::Publish, pattern_in(raw));
    let told = |raw: Seq<char>|
        ReportView::OrphanEgress { egress_name: x.name, pattern: render(pattern_in(raw)) };
    let part = x.triggered_by.take(n as int);
    let y = EgressView { triggered_by: part, ..x };
    assert(unfired(inputs, entries, y) =~= part.filter(keep).map_values(told));
    if n > 0 {
        let m = (n - 1) as nat;
        let less = x.triggered_by.take(m as int);
        let raw = x.triggered_by[m as int];
        lemma_unfired_row(inputs, entries, x, m);
        let z = EgressView { triggered_by: less, ..x };
        assert(unfired(inputs, entries, z) =~= less.filter(keep).map_values(told));
        lemma_met(inputs, entries, CallKind::Publish, pattern_in(raw));
        assert(part.drop_last() =~= less);
        assert(part.last() == raw);
        if keep(raw) {
            assert(less.filter(keep).push(raw).map_values(told) =~= less.filter(keep).map_values(
                told,
            ).push(told(raw)));
        }
    } else {
        assert(part =~= Seq::empty());
        assert(part.filter(keep).map_values(told) =~= Seq::empty());
    }
}

proof fn lemma_unread_part(
    inputs: InputsView,
    entries: Seq<EntryView>,
    ingress: Seq<IngressView>,
    n: nat,
)
    requires
        n <= ingress.len(),
    ensures
        orphan_ingress(inputs_flow(inputs, entries).sites, ingress, n) == flat(
            ingress.take(n as int),
            |x: IngressView| unread(inputs, entries, x),
        ),
    decreases n,
{
    if n > 0 {
        let m = (n - 1) as nat;
        let x = ingress[m as int];
        lemma_unread_part(inputs, entries, ingress, m);
        lemma_unread_row(inputs, entries, x, x.into.len());
        assert(x.into.take(x.into.len() as int) =~= x.into);
        assert(IngressView { into: x.into, ..x } == x);
        assert(ingress.take(n as int).drop_last() =~= ingress.take(m as int));
        assert(ingress.take(n as int).last() == x);
    } else {
        assert(ingress.take(0) =~= Seq::empty());
    }
}

proof fn lemma_unfired_part(
    inputs: InputsView,
    entries: Seq<EntryView>,
    egress: Seq<EgressView>,
    n: nat,
)
    requires
        n <= egress.len(),
    ensures
        orphan_egress(inputs_flow(inputs, entries).sites, egress, n) == flat(
            egress.take(n as int),
            |x: EgressView| unfired(inputs, entries, x),
        ),
    decreases n,
{
    if n > 0 {
        let m = (n - 1) as nat;
        let x = egress[m as int];
        lemma_unfired_part(inputs, entries, egress, m);
        lemma_unfired_row(inputs, entries, x, x.triggered_by.len());
        assert(x.triggered_by.take(x.triggered_by.len() as int) =~= x.triggered_by);
        assert(EgressView { triggered_by: x.triggered_by, ..x } == x);
        assert(egress.take(n as int).drop_last() =~= egress.take(m as int));
        assert(egress.take(n as int).last() == x);
    } else {
        assert(egress.take(0) =~= Seq::empty());
    }
}

proof fn lemma_lonely_parts(inputs: InputsView, entries: Seq<EntryView>, n: nat)
    requires
        n <= inputs.call_sites.len(),
    ensures
        ({
            let sites = inputs_flow(inputs, entries).sites;
            let ks = below_number(n);
            &&& orphan_sites(sites, CallKind::Publish, n) == flat(
                ks,
                |k: int| unheard(inputs, entries, k),
            )
            &&& orphan_sites(sites, CallKind::Subscribe, n) == flat(
                ks,
                |k: int| unfed(inputs, entries, k),
            )
            &&& coverage_notes(sites, CallKind::Publish, n) == flat(
                ks,
                |k: int| unchecked(inputs, entries, CallKind::Publish, "publisher"@, k),
            )
            &&& coverage_notes(sites, CallKind::Subscribe, n) == flat(
                ks,
                |k: int| unchecked(inputs, entries, CallKind::Subscribe, "consumer"@, k),
            )
        }),
    decreases n,
{
    if n > 0 {
        let m = (n - 1) as nat;
        let k = m as int;
        let sites = inputs_flow(inputs, entries).sites;
        lemma_lonely_parts(inputs, entries, m);
        assert(below_number(n).drop_last() =~= below_number(m));
        assert(below_number(n).last() == m);
        lemma_sites(inputs, entries);
        assert(question() =~= unknown_subject());
        lemma_repeated(inputs, entries, k);
        let p = subject_at(inputs, entries, k);
        lemma_met(inputs, entries, CallKind::Publish, p);
        lemma_met(inputs, entries, CallKind::Subscribe, p);
        assert(sites[k].subject == p);
        assert(orphan_site(sites, CallKind::Publish, k) == unheard(inputs, entries, k));
        assert(orphan_site(sites, CallKind::Subscribe, k) == unfed(inputs, entries, k));
        assert(coverage_note(sites, CallKind::Publish, k) == unchecked(
            inputs,
            entries,
            CallKind::Publish,
            "publisher"@,
            k,
        ));
        assert(coverage_note(sites, CallKind::Subscribe, k) == unchecked(
            inputs,
            entries,
            CallKind::Subscribe,
            "consumer"@,
            k,
        ));
    } else {
        assert(below_number(0) =~= Seq::empty());
    }
}

/// What is reported, all of it and in its order: of each call what does not resolve
/// or is no pattern; of each source and each sink what is no pattern; and at the
/// end what has no counterpart, with the calls that could not be checked for one.
pub proof fn law_what_is_reported(inputs: InputsView, entries: Seq<EntryView>)
    ensures
        ({
            let ks = below_number(inputs.call_sites.len());
            graph_reports(inputs, entries) == flat(
                ks,
                |k: int| told_of_call(inputs, entries, k),
            ) + flat(
                inputs.ingress,
                |x: IngressView|
                    flat(x.into, |raw: Seq<char>| not_a_pattern("ingress:"@ + x.name, raw)),
            ) + flat(
                inputs.egress,
                |x: EgressView|
                    flat(x.triggered_by, |raw: Seq<char>| not_a_pattern("egress:"@ + x.name, raw)),
            ) + (flat(inputs.ingress, |x: IngressView| unread(inputs, entries, x)) + flat(
                inputs.egress,
                |x: EgressView| unfired(inputs, entries, x),
            ) + flat(ks, |k: int| unheard(inputs, entries, k)) + flat(
                ks,
                |k: int| unfed(inputs, entries, k),
            ) + flat(
                ks,
                |k: int| unchecked(inputs, entries, CallKind::Publish, "publisher"@, k),
            ) + flat(
                ks,
                |k: int| unchecked(inputs, entries, CallKind::Subscribe, "consumer"@, k),
            ))
        }),
{
    let n = inputs.call_sites.len();
    lemma_call_part(inputs, entries, n);
    lemma_ingress_part(inputs.ingress, inputs.ingress.len());
    lemma_egress_part(inputs.egress, inputs.egress.len());
    lemma_unread_part(inputs, entries, inputs.ingress, inputs.ingress.len());
    lemma_unfired_part(inputs, entries, inputs.egress, inputs.egress.len());
    lemma_lonely_parts(inputs, entries, n);
    assert(inputs.ingress.take(inputs.ingress.len() as int) =~= inputs.ingress);
    assert(inputs.egress.take(inputs.egress.len() as int) =~= inputs.egress);
}

} // verus!
