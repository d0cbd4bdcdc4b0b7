//! The nodes and edges of a graph, told from what it is built from.

use super::assembly::{
    edge_list, edge_order, egress_edge, egress_edges, egress_subjects, flow_graph, flow_nodes,
    found_edges, ingress_crates, ingress_edge, ingress_edges, ingress_subjects, lemma_subject_of,
    match_edge, match_edges, same_key, services, site_edge, subject_list, subject_of, subjects,
    FlowView, ResolvedView,
};
use super::laws::{
    found_last, law_call_edge_iff_site, law_edges_in_order, law_inputs_give_a_valid_flow,
    law_match_iff_overlap, law_node_iff_in_flow, law_nodes_in_order, lemma_egress_edge_found,
    lemma_ingress_edge_found, lemma_last_with_key, lemma_match_found, node_lt,
};
use super::{inputs_flow, EgressView, IngressView, InputsView};
use crate::analysis::callsite::CallKind;
use crate::analysis::subject::{resolve_text, OutcomeView, ScopeView};
use crate::analysis::symbol_index::EntryView;
use crate::model::pattern::{overlap, parsed, render, well_formed, SegmentView};
use crate::model::{law_id_identifies, node_id, EdgeKind, EdgeView, NodeView};
use crate::order::{lemma_contains_add, lemma_contains_push};
use crate::text::lex_lt;
use vstd::prelude::*;

verus! {

// ---------------------------------------------------------------------
// what a call site says
// ---------------------------------------------------------------------

/// What a text at the `k`-th call site resolves to: within the crate and the
/// function that it stands in, and with the helper crates and builders declared.
pub open spec fn comes_to(
    inputs: InputsView,
    entries: Seq<EntryView>,
    k: int,
    text: Seq<char>,
) -> OutcomeView {
    let (crate_name, site) = inputs.call_sites[k];
    resolve_text(
        text,
        entries,
        ScopeView {
            current_crate: crate_name,
            helper_crates: inputs.helper_crates,
            subject_builder_methods: inputs.subject_builder_methods,
            subject_builder_functions: inputs.subject_builder_functions,
            fn_body_source: site.enclosing_fn_body,
        },
        6,
        Set::empty(),
    ).outcome
}

/// What is known of an outcome, or `?`.
pub open spec fn or_question(o: OutcomeView) -> Seq<char> {
    match o {
        OutcomeView::Resolved(s) => s,
        OutcomeView::PartiallyResolved(s) => s,
        OutcomeView::Unresolved(_) => seq!['?'],
    }
}

/// The pattern that a text is, or the pattern `?`.
pub open spec fn pattern_in(raw: Seq<char>) -> Seq<SegmentView> {
    match parsed(raw) {
        Ok(p) => p,
        Err(_) => seq![SegmentView::Literal(seq!['?'])],
    }
}

/// The subject of the `k`-th call site.
pub open spec fn subject_at(inputs: InputsView, entries: Seq<EntryView>, k: int) -> Seq<
    SegmentView,
> {
    pattern_in(or_question(comes_to(inputs, entries, k, inputs.call_sites[k].1.subject_expr)))
}

/// The consumer that the `k`-th call site names, if it names one.
pub open spec fn consumer_at(inputs: InputsView, entries: Seq<EntryView>, k: int) -> Option<
    Seq<char>,
> {
    match inputs.call_sites[k].1.consumer_name_expr {
        Some(text) => Some(or_question(comes_to(inputs, entries, k, text))),
        None => None,
    }
}

/// The `k`-th call site is of that kind, in that crate, about that subject.
pub open spec fn calls(
    inputs: InputsView,
    entries: Seq<EntryView>,
    k: int,
    kind: CallKind,
    crate_name: Seq<char>,
    p: Seq<SegmentView>,
) -> bool {
    &&& 0 <= k < inputs.call_sites.len()
    &&& inputs.call_sites[k].0 == crate_name
    &&& inputs.call_sites[k].1.kind == kind
    &&& subject_at(inputs, entries, k) == p
}

/// The `k`-th subject of the `i`-th source is that pattern.
pub open spec fn feeds(
    ingress: Seq<IngressView>,
    i: int,
    k: int,
    p: Seq<SegmentView>,
) -> bool {
    0 <= i < ingress.len() && 0 <= k < ingress[i].into.len() && pattern_in(ingress[i].into[k]) == p
}

/// The `k`-th trigger of the `i`-th sink is that pattern.
pub open spec fn fires(egress: Seq<EgressView>, i: int, k: int, p: Seq<SegmentView>) -> bool {
    0 <= i < egress.len() && 0 <= k < egress[i].triggered_by.len() && pattern_in(
        egress[i].triggered_by[k],
    ) == p
}

/// Some source feeds the pattern.
pub open spec fn is_fed(ingress: Seq<IngressView>, p: Seq<SegmentView>) -> bool {
    exists|i: int, k: int| #[trigger] feeds(ingress, i, k, p)
}

/// Some sink is triggered by the pattern.
pub open spec fn is_fired(egress: Seq<EgressView>, p: Seq<SegmentView>) -> bool {
    exists|i: int, k: int| #[trigger] fires(egress, i, k, p)
}

/// A node that the inputs give: the crates that call, own a source or feed a sink;
/// the subjects of calls, sources and sinks; and the names of sources and sinks.
pub open spec fn node_given(inputs: InputsView, entries: Seq<EntryView>, n: NodeView) -> bool {
    match n {
        NodeView::Service(c) => {
            ||| (exists|k: int|
                0 <= k < inputs.call_sites.len() && (#[trigger] inputs.call_sites[k]).0 == c)
            ||| (exists|k: int|
                0 <= k < inputs.ingress.len() && (#[trigger] inputs.ingress[k]).crate_name == Some(
                    c,
                ))
            ||| (exists|k: int|
                0 <= k < inputs.egress.len() && (#[trigger] inputs.egress[k]).from_crate == c)
        },
        NodeView::Subject(p) => {
            ||| (exists|k: int|
                0 <= k < inputs.call_sites.len() && #[trigger] subject_at(inputs, entries, k) == p)
            ||| is_fed(inputs.ingress, p)
            ||| is_fired(inputs.egress, p)
        },
        NodeView::Ingress(name) => exists|k: int|
            0 <= k < inputs.ingress.len() && (#[trigger] inputs.ingress[k]).name == name,
        NodeView::Egress(name) => exists|k: int|
            0 <= k < inputs.egress.len() && (#[trigger] inputs.egress[k]).name == name,
    }
}

/// An edge that the inputs give.
///
/// A publishing call joins its crate to its subject, a subscribing one its subject
/// to its crate, under the name that the last such call gives its consumer. A
/// source is joined to what it feeds, a trigger to its sink. Two subjects are
/// joined where some subject is accepted by both.
pub open spec fn edge_given(inputs: InputsView, entries: Seq<EntryView>, e: EdgeView) -> bool {
    match (e.kind, e.from, e.to) {
        (EdgeKind::Publish, NodeView::Service(c), NodeView::Subject(p)) => {
            &&& e.label is None
            &&& exists|k: int| #[trigger] calls(inputs, entries, k, CallKind::Publish, c, p)
        },
        (EdgeKind::Consume, NodeView::Subject(p), NodeView::Service(c)) => exists|k: int|
            {
                &&& #[trigger] calls(inputs, entries, k, CallKind::Subscribe, c, p)
                &&& consumer_at(inputs, entries, k) == e.label
                &&& forall|j: int|
                    j > k ==> !#[trigger] calls(inputs, entries, j, CallKind::Subscribe, c, p)
            },
        (EdgeKind::Ingress, NodeView::Ingress(name), NodeView::Subject(p)) => {
            &&& e.label is None
            &&& exists|i: int, k: int| #[trigger]
                feeds(inputs.ingress, i, k, p) && inputs.ingress[i].name == name
        },
        (EdgeKind::Egress, NodeView::Subject(p), NodeView::Egress(name)) => {
            &&& e.label is None
            &&& exists|i: int, k: int| #[trigger]
                fires(inputs.egress, i, k, p) && inputs.egress[i].name == name
        },
        (EdgeKind::Matches, NodeView::Subject(p), NodeView::Subject(q)) => {
            &&& e.label is None
            &&& node_given(inputs, entries, e.from)
            &&& node_given(inputs, entries, e.to)
            &&& lex_lt(render(p), render(q))
            &&& overlap(p, q)
        },
        _ => false,
    }
}

// ---------------------------------------------------------------------
// nodes
// ---------------------------------------------------------------------

proof fn lemma_site(inputs: InputsView, entries: Seq<EntryView>, k: int)
    requires
        0 <= k < inputs.call_sites.len(),
    ensures
        ({
            let s = inputs_flow(inputs, entries).sites[k];
            &&& s.crate_name == inputs.call_sites[k].0
            &&& s.kind == inputs.call_sites[k].1.kind
            &&& s.subject == subject_at(inputs, entries, k)
            &&& s.consumer_name == consumer_at(inputs, entries, k)
        }),
        inputs_flow(inputs, entries).sites.len() == inputs.call_sites.len(),
{
}

proof fn lemma_owners(ingress: Seq<IngressView>, c: Seq<char>)
    ensures
        ingress_crates(ingress).contains(c) == exists|k: int|
            0 <= k < ingress.len() && (#[trigger] ingress[k]).crate_name == Some(c),
    decreases ingress.len(),
{
    if ingress.len() > 0 {
        let front = ingress.drop_last();
        lemma_owners(front, c);
        if let Some(x) = ingress.last().crate_name {
            lemma_contains_push(ingress_crates(front), x, c);
        }
        if exists|k: int| 0 <= k < ingress.len() && (#[trigger] ingress[k]).crate_name == Some(c) {
            let k = choose|k: int|
                0 <= k < ingress.len() && (#[trigger] ingress[k]).crate_name == Some(c);
            if k < front.len() {
                assert(front[k].crate_name == Some(c));
            }
        }
        if ingress_crates(front).contains(c) {
            let k = choose|k: int|
                0 <= k < front.len() && (#[trigger] front[k]).crate_name == Some(c);
            assert(ingress[k].crate_name == Some(c));
        }
        assert(ingress[ingress.len() - 1] == ingress.last());
    }
}

proof fn lemma_fed(ingress: Seq<IngressView>, p: Seq<SegmentView>)
    ensures
        ingress_subjects(ingress).contains(p) == is_fed(ingress, p),
    decreases ingress.len(),
{
    if ingress.len() > 0 {
        let front = ingress.drop_last();
        let last = ingress.last();
        let own = last.into.map_values(|raw: Seq<char>| subject_of(raw));
        lemma_fed(front, p);
        lemma_contains_add(ingress_subjects(front), own, p);
        if is_fed(ingress, p) {
            let (i, k) = choose|i: int, k: int| #[trigger] feeds(ingress, i, k, p);
            if i < front.len() {
                assert(feeds(front, i, k, p));
            } else {
                assert(own[k] == p);
            }
        }
        if ingress_subjects(front).contains(p) {
            let (i, k) = choose|i: int, k: int| #[trigger] feeds(front, i, k, p);
            assert(feeds(ingress, i, k, p));
        }
        if own.contains(p) {
            let k = choose|k: int| 0 <= k < own.len() && own[k] == p;
            assert(feeds(ingress, ingress.len() - 1, k, p));
        }
    }
}

proof fn lemma_fired(egress: Seq<EgressView>, p: Seq<SegmentView>)
    ensures
        egress_subjects(egress).contains(p) == is_fired(egress, p),
    decreases egress.len(),
{
    if egress.len() > 0 {
        let front = egress.drop_last();
        let last = egress.last();
        let own = last.triggered_by.map_values(|raw: Seq<char>| subject_of(raw));
        lemma_fired(front, p);
        lemma_contains_add(egress_subjects(front), own, p);
        if is_fired(egress, p) {
            let (i, k) = choose|i: int, k: int| #[trigger] fires(egress, i, k, p);
            if i < front.len() {
                assert(fires(front, i, k, p));
            } else {
                assert(own[k] == p);
            }
        }
        if egress_subjects(front).contains(p) {
            let (i, k) = choose|i: int, k: int| #[trigger] fires(front, i, k, p);
            assert(fires(egress, i, k, p));
        }
        if own.contains(p) {
            let k = choose|k: int| 0 <= k < own.len() && own[k] == p;
            assert(fires(egress, egress.len() - 1, k, p));
        }
    }
}

proof fn lemma_service_given(inputs: InputsView, entries: Seq<EntryView>, c: Seq<char>)
    ensures
        services(inputs_flow(inputs, entries)).contains(c) == node_given(
            inputs,
            entries,
            NodeView::Service(c),
        ),
{
    let flow = inputs_flow(inputs, entries);
    let a = flow.sites.map_values(|s: ResolvedView| s.crate_name);
    let b = ingress_crates(flow.ingress);
    let d = flow.egress.map_values(|e: EgressView| e.from_crate);
    lemma_contains_add(a, b, c);
    lemma_contains_add(a + b, d, c);
    lemma_owners(inputs.ingress, c);
    if a.contains(c) {
        let k = choose|k: int| 0 <= k < a.len() && a[k] == c;
        assert(inputs.call_sites[k].0 == c);
    }
    if exists|k: int| 0 <= k < inputs.call_sites.len() && (#[trigger] inputs.call_sites[k]).0 == c {
        let k = choose|k: int|
            0 <= k < inputs.call_sites.len() && (#[trigger] inputs.call_sites[k]).0 == c;
        assert(a[k] == c);
    }
    if d.contains(c) {
        let k = choose|k: int| 0 <= k < d.len() && d[k] == c;
        assert(inputs.egress[k].from_crate == c);
    }
    if exists|k: int|
        0 <= k < inputs.egress.len() && (#[trigger] inputs.egress[k]).from_crate == c {
        let k = choose|k: int|
            0 <= k < inputs.egress.len() && (#[trigger] inputs.egress[k]).from_crate == c;
        assert(d[k] == c);
    }
}

proof fn lemma_subject_given(inputs: InputsView, entries: Seq<EntryView>, p: Seq<SegmentView>)
    ensures
        subjects(inputs_flow(inputs, entries)).contains(p) == node_given(
            inputs,
            entries,
            NodeView::Subject(p),
        ),
{
    let flow = inputs_flow(inputs, entries);
    let a = flow.sites.map_values(|s: ResolvedView| s.subject);
    let b = ingress_subjects(flow.ingress);
    let d = egress_subjects(flow.egress);
    lemma_contains_add(a, b, p);
    lemma_contains_add(a + b, d, p);
    lemma_fed(inputs.ingress, p);
    lemma_fired(inputs.egress, p);
    if a.contains(p) {
        let k = choose|k: int| 0 <= k < a.len() && a[k] == p;
        lemma_site(inputs, entries, k);
        assert(subject_at(inputs, entries, k) == p);
    }
    if exists|k: int|
        0 <= k < inputs.call_sites.len() && #[trigger] subject_at(inputs, entries, k) == p {
        let k = choose|k: int|
            0 <= k < inputs.call_sites.len() && #[trigger] subject_at(inputs, entries, k) == p;
        lemma_site(inputs, entries, k);
        assert(a[k] == p);
        assert(a.contains(p));
    }
}

/// The nodes of a graph are those that its inputs give, and no others.
pub proof fn law_nodes_are_given(inputs: InputsView, entries: Seq<EntryView>, n: NodeView)
    ensures
        flow_graph(inputs_flow(inputs, entries)).nodes.contains(n) == node_given(
            inputs,
            entries,
            n,
        ),
{
    let flow = inputs_flow(inputs, entries);
    law_inputs_give_a_valid_flow(inputs, entries);
    law_node_iff_in_flow(flow, n);
    match n {
        NodeView::Service(c) => {
            lemma_service_given(inputs, entries, c);
        },
        NodeView::Subject(p) => {
            lemma_subject_given(inputs, entries, p);
        },
        NodeView::Ingress(name) => {
            let names = flow.ingress.map_values(|i: IngressView| i.name);
            if names.contains(name) {
                let k = choose|k: int| 0 <= k < names.len() && names[k] == name;
                assert(inputs.ingress[k].name == name);
            }
            if node_given(inputs, entries, n) {
                let k = choose|k: int|
                    0 <= k < inputs.ingress.len() && (#[trigger] inputs.ingress[k]).name == name;
                assert(names[k] == name);
            }
        },
        NodeView::Egress(name) => {
            let names = flow.egress.map_values(|i: EgressView| i.name);
            if names.contains(name) {
                let k = choose|k: int| 0 <= k < names.len() && names[k] == name;
                assert(inputs.egress[k].name == name);
            }
            if node_given(inputs, entries, n) {
                let k = choose|k: int|
                    0 <= k < inputs.egress.len() && (#[trigger] inputs.egress[k]).name == name;
                assert(names[k] == name);
            }
        },
    }
}

// ---------------------------------------------------------------------
// edges
// ---------------------------------------------------------------------

proof fn lemma_feeding_edge(ingress: Seq<IngressView>, i: int, k: int)
    requires
        0 <= i < ingress.len(),
        0 <= k < ingress[i].into.len(),
    ensures
        ingress_edges(ingress).contains(ingress_edge(ingress[i].name, ingress[i].into[k])),
    decreases ingress.len(),
{
    let e = ingress_edge(ingress[i].name, ingress[i].into[k]);
    let front = ingress.drop_last();
    let last = ingress.last();
    let own = last.into.map_values(|raw: Seq<char>| ingress_edge(last.name, raw));
    lemma_contains_add(ingress_edges(front), own, e);
    if i < front.len() {
        assert(front[i] == ingress[i]);
        lemma_feeding_edge(front, i, k);
    } else {
        assert(own[k] == e);
    }
}

proof fn lemma_firing_edge(egress: Seq<EgressView>, i: int, k: int)
    requires
        0 <= i < egress.len(),
        0 <= k < egress[i].triggered_by.len(),
    ensures
        egress_edges(egress).contains(egress_edge(egress[i].name, egress[i].triggered_by[k])),
    decreases egress.len(),
{
    let e = egress_edge(egress[i].name, egress[i].triggered_by[k]);
    let front = egress.drop_last();
    let last = egress.last();
    let own = last.triggered_by.map_values(|raw: Seq<char>| egress_edge(last.name, raw));
    lemma_contains_add(egress_edges(front), own, e);
    if i < front.len() {
        assert(front[i] == egress[i]);
        lemma_firing_edge(front, i, k);
    } else {
        assert(own[k] == e);
    }
}

/// The parts of a flow that an edge can come from, with what it looks like there.
proof fn lemma_edge_source(inputs: InputsView, entries: Seq<EntryView>, m: int)
    requires
        0 <= m < found_edges(inputs_flow(inputs, entries)).len(),
    ensures
        ({
            let flow = inputs_flow(inputs, entries);
            let e = found_edges(flow)[m];
            &&& m < flow.sites.len() ==> e == site_edge(flow.sites[m])
            &&& m >= flow.sites.len() ==> e.label is None && (match e.kind {
                EdgeKind::Ingress => exists|i: int, k: int| #[trigger]
                    feeds(inputs.ingress, i, k, e.to->Subject_0) && e.to is Subject && e.from
                        == NodeView::Ingress(inputs.ingress[i].name) && well_formed(
                        e.to->Subject_0,
                    ),
                EdgeKind::Egress => exists|i: int, k: int| #[trigger]
                    fires(inputs.egress, i, k, e.from->Subject_0) && e.from is Subject && e.to
                        == NodeView::Egress(inputs.egress[i].name) && well_formed(
                        e.from->Subject_0,
                    ),
                EdgeKind::Matches => e == match_edge(e.from->Subject_0, e.to->Subject_0),
                _ => false,
            })
        }),
{
    let flow = inputs_flow(inputs, entries);
    let e = found_edges(flow)[m];
    let a = flow.sites.map_values(|s: ResolvedView| site_edge(s));
    let b = ingress_edges(flow.ingress);
    let c = egress_edges(flow.egress);
    let list = subject_list(flow);
    if m < a.len() {
        assert(e == a[m]);
    } else if m < a.len() + b.len() {
        let at = lemma_ingress_edge_found(flow.ingress, m - a.len());
        lemma_subject_of(flow.ingress[at.0].into[at.1]);
        assert(feeds(inputs.ingress, at.0, at.1, e.to->Subject_0));
    } else if m < a.len() + b.len() + c.len() {
        let at = lemma_egress_edge_found(flow.egress, m - a.len() - b.len());
        lemma_subject_of(flow.egress[at.0].triggered_by[at.1]);
        assert(fires(inputs.egress, at.0, at.1, e.from->Subject_0));
    } else {
        let at = lemma_match_found(list, list.len(), m - a.len() - b.len() - c.len());
    }
}

proof fn lemma_declared_edge_given(inputs: InputsView, entries: Seq<EntryView>, e: EdgeView)
    requires
        e.kind == EdgeKind::Ingress || e.kind == EdgeKind::Egress,
    ensures
        found_last(found_edges(inputs_flow(inputs, entries)), e) == edge_given(inputs, entries, e),
{
    let flow = inputs_flow(inputs, entries);
    let found = found_edges(flow);
    if found_last(found, e) {
        let m = choose|m: int|
            0 <= m < found.len() && #[trigger] found[m] == e && forall|j: int|
                m < j < found.len() ==> !same_key(#[trigger] found[j], e);
        lemma_edge_source(inputs, entries, m);
    }
    if edge_given(inputs, entries, e) {
        let a = flow.sites.map_values(|s: ResolvedView| site_edge(s));
        let b = ingress_edges(flow.ingress);
        let c = egress_edges(flow.egress);
        let d = match_edges(subject_list(flow), subject_list(flow).len());
        if e.kind == EdgeKind::Ingress {
            let (i, k) = choose|i: int, k: int| #[trigger]
                feeds(inputs.ingress, i, k, e.to->Subject_0) && NodeView::Ingress(
                    inputs.ingress[i].name,
                ) == e.from;
            lemma_feeding_edge(inputs.ingress, i, k);
            lemma_subject_of(inputs.ingress[i].into[k]);
            assert(b.contains(e));
        } else {
            let (i, k) = choose|i: int, k: int| #[trigger]
                fires(inputs.egress, i, k, e.from->Subject_0) && NodeView::Egress(
                    inputs.egress[i].name,
                ) == e.to;
            lemma_firing_edge(inputs.egress, i, k);
            lemma_subject_of(inputs.egress[i].triggered_by[k]);
            assert(c.contains(e));
        }
        lemma_contains_add(a, b, e);
        lemma_contains_add(a + b, c, e);
        lemma_contains_add(a + b + c, d, e);
        let m = choose|m: int| 0 <= m < found.len() && found[m] == e;
        assert forall|j: int| m < j < found.len() && same_key(#[trigger] found[j], e) implies
            found[j] == e by {
            lemma_edge_source(inputs, entries, j);
            law_id_identifies(found[j].from, e.from);
            law_id_identifies(found[j].to, e.to);
        }
        lemma_last_with_key(found, m, e);
    }
}

proof fn lemma_call_edge_given(inputs: InputsView, entries: Seq<EntryView>, e: EdgeView)
    requires
        e.kind == EdgeKind::Publish || e.kind == EdgeKind::Consume,
    ensures
        edge_list(found_edges(inputs_flow(inputs, entries))).contains(e) == edge_given(
            inputs,
            entries,
            e,
        ),
{
    let flow = inputs_flow(inputs, entries);
    let a = flow.sites.map_values(|s: ResolvedView| site_edge(s));
    law_call_edge_iff_site(flow, e);
    law_inputs_give_a_valid_flow(inputs, entries);
    assert forall|k: int| 0 <= k < a.len() implies #[trigger] a[k] == site_edge(flow.sites[k])
        && flow.sites[k].crate_name == inputs.call_sites[k].0 && flow.sites[k].kind
        == inputs.call_sites[k].1.kind && flow.sites[k].subject == subject_at(inputs, entries, k)
        && flow.sites[k].consumer_name == consumer_at(inputs, entries, k) && well_formed(
        flow.sites[k].subject,
    ) by {
        lemma_site(inputs, entries, k);
    }
    if found_last(a, e) {
        let m = choose|m: int|
            0 <= m < a.len() && #[trigger] a[m] == e && forall|j: int|
                m < j < a.len() ==> !same_key(#[trigger] a[j], e);
        if e.kind == EdgeKind::Publish {
            assert(calls(
                inputs,
                entries,
                m,
                CallKind::Publish,
                e.from->Service_0,
                e.to->Subject_0,
            ));
        } else {
            let c = e.to->Service_0;
            let p = e.from->Subject_0;
            assert(calls(inputs, entries, m, CallKind::Subscribe, c, p));
            assert forall|j: int| j > m implies !#[trigger] calls(
                inputs,
                entries,
                j,
                CallKind::Subscribe,
                c,
                p,
            ) by {
                if calls(inputs, entries, j, CallKind::Subscribe, c, p) {
                    assert(same_key(a[j], e));
                }
            }
        }
    }
    if edge_given(inputs, entries, e) {
        if e.kind == EdgeKind::Publish {
            let m = choose|m: int| #[trigger]
                calls(
                    inputs,
                    entries,
                    m,
                    CallKind::Publish,
                    e.from->Service_0,
                    e.to->Subject_0,
                );
            assert(a[m] == e);
            assert forall|j: int| m < j < a.len() && same_key(#[trigger] a[j], e) implies a[j]
                == e by {
                law_id_identifies(a[j].from, e.from);
                law_id_identifies(a[j].to, e.to);
            }
            lemma_last_with_key(a, m, e);
        } else {
            let c = e.to->Service_0;
            let p = e.from->Subject_0;
            let m = choose|m: int|
                {
                    &&& #[trigger] calls(inputs, entries, m, CallKind::Subscribe, c, p)
                    &&& consumer_at(inputs, entries, m) == e.label
                    &&& forall|j: int|
                        j > m ==> !#[trigger] calls(inputs, entries, j, CallKind::Subscribe, c, p)
                };
            assert(a[m] == e);
            assert forall|j: int| m < j < a.len() implies !same_key(#[trigger] a[j], e) by {
                if same_key(a[j], e) {
                    law_id_identifies(a[j].from, e.from);
                    law_id_identifies(a[j].to, e.to);
                    assert(calls(inputs, entries, j, CallKind::Subscribe, c, p));
                }
            }
        }
    }
}

/// The edges of a graph are those that its inputs give, and no others.
pub proof fn law_edges_are_given(inputs: InputsView, entries: Seq<EntryView>, e: EdgeView)
    ensures
        flow_graph(inputs_flow(inputs, entries)).edges.contains(e) == edge_given(
            inputs,
            entries,
            e,
        ),
{
    let flow = inputs_flow(inputs, entries);
    let found = found_edges(flow);
    law_edges_in_order(found);
    law_inputs_give_a_valid_flow(inputs, entries);
    match e.kind {
        EdgeKind::Publish | EdgeKind::Consume => {
            lemma_call_edge_given(inputs, entries, e);
        },
        EdgeKind::Ingress | EdgeKind::Egress => {
            lemma_declared_edge_given(inputs, entries, e);
        },
        EdgeKind::Matches => {
            if found_last(found, e) {
                let m = choose|m: int|
                    0 <= m < found.len() && #[trigger] found[m] == e && forall|j: int|
                        m < j < found.len() ==> !same_key(#[trigger] found[j], e);
                lemma_edge_source(inputs, entries, m);
            }
            if let (NodeView::Subject(p), NodeView::Subject(q)) = (e.from, e.to) {
                lemma_subject_given(inputs, entries, p);
                lemma_subject_given(inputs, entries, q);
                law_match_iff_overlap(flow, p, q);
                if e.label is None {
                    assert(e == match_edge(p, q));
                }
            }
        },
    }
}

/// Of two edges the one that starts at the smaller identifier comes first, and of
/// two that start alike the one that ends at the smaller. Between the same nodes
/// the kinds come in the order publish, consume, source, sink, match, each once.
pub proof fn law_edges_stand_in_order(flow: FlowView, i: int, j: int)
    requires
        0 <= i < j < flow_graph(flow).edges.len(),
    ensures
        ({
            let a = flow_graph(flow).edges[i];
            let b = flow_graph(flow).edges[j];
            ||| lex_lt(node_id(a.from), node_id(b.from))
            ||| node_id(a.from) == node_id(b.from) && lex_lt(node_id(a.to), node_id(b.to))
            ||| node_id(a.from) == node_id(b.from) && node_id(a.to) == node_id(b.to) && match (
                a.kind,
                b.kind,
            ) {
                (EdgeKind::Publish, EdgeKind::Publish) => false,
                (EdgeKind::Publish, _) => true,
                (EdgeKind::Consume, EdgeKind::Publish | EdgeKind::Consume) => false,
                (EdgeKind::Consume, _) => true,
                (EdgeKind::Ingress, EdgeKind::Egress | EdgeKind::Matches) => true,
                (EdgeKind::Ingress, _) => false,
                (EdgeKind::Egress, EdgeKind::Matches) => true,
                _ => false,
            }
        }),
{
    let edges = edge_list(found_edges(flow));
    law_edges_in_order(found_edges(flow));
    assert(edge_order()(edges[i], edges[j]));
}

/// The nodes stand by kind: services, subjects, sources, sinks. Within a kind they
/// stand by name, subjects by their surface form, each once.
pub proof fn law_nodes_stand_in_order(
    inputs: InputsView,
    entries: Seq<EntryView>,
    i: int,
    j: int,
)
    requires
        0 <= i < j < flow_graph(inputs_flow(inputs, entries)).nodes.len(),
    ensures
        ({
            let nodes = flow_graph(inputs_flow(inputs, entries)).nodes;
            match (nodes[i], nodes[j]) {
                (NodeView::Service(a), NodeView::Service(b)) => lex_lt(a, b),
                (NodeView::Service(_), _) => true,
                (NodeView::Subject(p), NodeView::Subject(q)) => lex_lt(render(p), render(q)),
                (NodeView::Subject(_), NodeView::Ingress(_) | NodeView::Egress(_)) => true,
                (NodeView::Ingress(a), NodeView::Ingress(b)) => lex_lt(a, b),
                (NodeView::Ingress(_), NodeView::Egress(_)) => true,
                (NodeView::Egress(a), NodeView::Egress(b)) => lex_lt(a, b),
                _ => false,
            }
        }),
{
    let flow = inputs_flow(inputs, entries);
    law_inputs_give_a_valid_flow(inputs, entries);
    law_nodes_in_order(flow);
    let lt = |a: NodeView, b: NodeView| node_lt(a, b);
    assert(lt(flow_nodes(flow)[i], flow_nodes(flow)[j]));
}

} // verus!
