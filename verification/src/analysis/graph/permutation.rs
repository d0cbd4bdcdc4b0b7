//! What a graph keeps when its inputs come in another order.

use super::assembly::{
    edge_list, edge_order, egress_edge, egress_edges, egress_subjects, flow_graph, flow_nodes,
    found_edges, ingress_crates, ingress_edge, ingress_edges, ingress_subjects, lemma_subject_of,
    match_edges, same_key, services, site_edge, subject_list, subject_of, subjects, unknown_subject,
    valid_flow, FlowView, ResolvedView,
};
use super::laws::{
    found_last, in_flow, law_edges_in_order, law_inputs_give_a_valid_flow, law_nodes_ignore_order,
    lemma_edge_order, lemma_egress_edge_found, lemma_ingress_edge_found,
    lemma_match_found, lemma_orphan_sites_complete, lemma_orphan_sites_sound, lemma_subject_list,
};
use super::reports::{
    counterpart, coverage_note, coverage_notes, observed, orphan_egress, orphan_egress_row,
    orphan_ingress, orphan_ingress_row, orphan_reports, orphan_site, orphan_sites, role_of,
    seen_before, served, ReportView,
};
use super::{
    consumer_reports, declared_reports, egress_reports, graph_reports, ingress_reports,
    inputs_flow, resolved_site, site_reports, subject_reports, EgressView, IngressView, InputsView,
};
use crate::analysis::callsite::{CallKind, SiteView};
use crate::analysis::symbol_index::EntryView;
use crate::model::pattern::{law_surface_form_identifies, overlap, well_formed, SegmentView};
use crate::model::{law_id_identifies, valid_node, EdgeView, NodeView};
use crate::order::{
    flat, law_flat_ignores_order, law_sorted_listing_unique, lemma_contains_add,
    lemma_distinct_multiset, lemma_joined_multiset, lemma_mapped_multiset, lemma_same_elements,
    strictly_sorted,
};
use vstd::prelude::*;

verus! {

/// The same call sites, sources and sinks, in any order.
pub open spec fn same_flow(a: FlowView, b: FlowView) -> bool {
    &&& a.sites.to_multiset() == b.sites.to_multiset()
    &&& a.ingress.to_multiset() == b.ingress.to_multiset()
    &&& a.egress.to_multiset() == b.egress.to_multiset()
}

/// An edge without its label.
pub open spec fn unlabelled(e: EdgeView) -> EdgeView {
    EdgeView { from: e.from, to: e.to, kind: e.kind, label: None }
}

/// Edges without their labels.
pub open spec fn edge_keys(edges: Seq<EdgeView>) -> Seq<EdgeView> {
    edges.map_values(|e: EdgeView| unlabelled(e))
}

// ---------------------------------------------------------------------
// nodes
// ---------------------------------------------------------------------

spec fn owner_of() -> spec_fn(IngressView) -> Seq<Seq<char>> {
    |x: IngressView|
        match x.crate_name {
            Some(c) => seq![c],
            None => Seq::empty(),
        }
}

spec fn fed_by() -> spec_fn(IngressView) -> Seq<Seq<SegmentView>> {
    |x: IngressView| x.into.map_values(|raw: Seq<char>| subject_of(raw))
}

spec fn triggers_of() -> spec_fn(EgressView) -> Seq<Seq<SegmentView>> {
    |x: EgressView| x.triggered_by.map_values(|raw: Seq<char>| subject_of(raw))
}

spec fn feeds_of() -> spec_fn(IngressView) -> Seq<EdgeView> {
    |x: IngressView| x.into.map_values(|raw: Seq<char>| ingress_edge(x.name, raw))
}

spec fn fires_of() -> spec_fn(EgressView) -> Seq<EdgeView> {
    |x: EgressView| x.triggered_by.map_values(|raw: Seq<char>| egress_edge(x.name, raw))
}

proof fn lemma_ingress_flat(s: Seq<IngressView>)
    ensures
        ingress_crates(s) == flat(s, owner_of()),
        ingress_subjects(s) == flat(s, fed_by()),
        ingress_edges(s) == flat(s, feeds_of()),
    decreases s.len(),
{
    if s.len() > 0 {
        lemma_ingress_flat(s.drop_last());
        let x = s.last();
        assert(ingress_crates(s) =~= ingress_crates(s.drop_last()) + owner_of()(x));
        assert(ingress_subjects(s) =~= ingress_subjects(s.drop_last()) + fed_by()(x));
        assert(ingress_edges(s) =~= ingress_edges(s.drop_last()) + feeds_of()(x));
    }
}

proof fn lemma_egress_flat(s: Seq<EgressView>)
    ensures
        egress_subjects(s) == flat(s, triggers_of()),
        egress_edges(s) == flat(s, fires_of()),
    decreases s.len(),
{
    if s.len() > 0 {
        lemma_egress_flat(s.drop_last());
        let x = s.last();
        assert(egress_subjects(s) =~= egress_subjects(s.drop_last()) + triggers_of()(x));
        assert(egress_edges(s) =~= egress_edges(s.drop_last()) + fires_of()(x));
    }
}

proof fn lemma_declared_same(a: FlowView, b: FlowView)
    requires
        same_flow(a, b),
    ensures
        ingress_crates(a.ingress).to_multiset() == ingress_crates(b.ingress).to_multiset(),
        ingress_subjects(a.ingress).to_multiset() == ingress_subjects(b.ingress).to_multiset(),
        ingress_edges(a.ingress).to_multiset() == ingress_edges(b.ingress).to_multiset(),
        egress_subjects(a.egress).to_multiset() == egress_subjects(b.egress).to_multiset(),
        egress_edges(a.egress).to_multiset() == egress_edges(b.egress).to_multiset(),
{
    lemma_ingress_flat(a.ingress);
    lemma_ingress_flat(b.ingress);
    lemma_egress_flat(a.egress);
    lemma_egress_flat(b.egress);
    law_flat_ignores_order(a.ingress, b.ingress, owner_of());
    law_flat_ignores_order(a.ingress, b.ingress, fed_by());
    law_flat_ignores_order(a.ingress, b.ingress, feeds_of());
    law_flat_ignores_order(a.egress, b.egress, triggers_of());
    law_flat_ignores_order(a.egress, b.egress, fires_of());
}

proof fn lemma_same_in_flow(a: FlowView, b: FlowView)
    requires
        same_flow(a, b),
    ensures
        forall|n: NodeView| #[trigger] in_flow(a, n) == in_flow(b, n),
{
    lemma_declared_same(a, b);
    let crate_of = |s: ResolvedView| s.crate_name;
    let subject = |s: ResolvedView| s.subject;
    let from_crate = |e: EgressView| e.from_crate;
    let name_in = |i: IngressView| i.name;
    let name_out = |e: EgressView| e.name;
    lemma_mapped_multiset(a.sites, b.sites, crate_of);
    lemma_mapped_multiset(a.sites, b.sites, subject);
    lemma_mapped_multiset(a.egress, b.egress, from_crate);
    lemma_mapped_multiset(a.ingress, b.ingress, name_in);
    lemma_mapped_multiset(a.egress, b.egress, name_out);
    assert(services(a).to_multiset() == services(b).to_multiset()) by {
        lemma_three_parts(
            a.sites.map_values(crate_of),
            ingress_crates(a.ingress),
            a.egress.map_values(from_crate),
        );
        lemma_three_parts(
            b.sites.map_values(crate_of),
            ingress_crates(b.ingress),
            b.egress.map_values(from_crate),
        );
    }
    assert(subjects(a).to_multiset() == subjects(b).to_multiset()) by {
        lemma_three_parts(
            a.sites.map_values(subject),
            ingress_subjects(a.ingress),
            egress_subjects(a.egress),
        );
        lemma_three_parts(
            b.sites.map_values(subject),
            ingress_subjects(b.ingress),
            egress_subjects(b.egress),
        );
    }
    lemma_same_elements(services(a), services(b));
    lemma_same_elements(subjects(a), subjects(b));
    lemma_same_elements(a.ingress.map_values(name_in), b.ingress.map_values(name_in));
    lemma_same_elements(a.egress.map_values(name_out), b.egress.map_values(name_out));
    assert forall|n: NodeView| #[trigger] in_flow(a, n) == in_flow(b, n) by {
        match n {
            NodeView::Service(s) => {
                assert(services(a).contains(s) == services(b).contains(s));
            },
            NodeView::Subject(p) => {
                assert(subjects(a).contains(p) == subjects(b).contains(p));
            },
            NodeView::Ingress(s) => {
                assert(a.ingress.map_values(name_in).contains(s) == b.ingress.map_values(
                    name_in,
                ).contains(s));
            },
            NodeView::Egress(s) => {
                assert(a.egress.map_values(name_out).contains(s) == b.egress.map_values(
                    name_out,
                ).contains(s));
            },
        }
    }
}

proof fn lemma_three_parts<T>(a: Seq<T>, b: Seq<T>, c: Seq<T>)
    ensures
        (a + b + c).to_multiset() == a.to_multiset().add(b.to_multiset()).add(c.to_multiset()),
{
    lemma_joined_multiset(a, b);
    lemma_joined_multiset(a + b, c);
}

// ---------------------------------------------------------------------
// edges
// ---------------------------------------------------------------------

proof fn lemma_same_found(a: FlowView, b: FlowView)
    requires
        valid_flow(a),
        valid_flow(b),
        same_flow(a, b),
    ensures
        found_edges(a).to_multiset() == found_edges(b).to_multiset(),
        flow_nodes(a) == flow_nodes(b),
{
    lemma_declared_same(a, b);
    lemma_same_in_flow(a, b);
    law_nodes_ignore_order(a, b);
    let f = |s: ResolvedView| site_edge(s);
    lemma_mapped_multiset(a.sites, b.sites, f);
    lemma_three_parts(a.sites.map_values(f), ingress_edges(a.ingress), egress_edges(a.egress));
    lemma_three_parts(b.sites.map_values(f), ingress_edges(b.ingress), egress_edges(b.egress));
    let list = subject_list(a);
    let m = match_edges(list, list.len());
    lemma_joined_multiset(
        a.sites.map_values(f) + ingress_edges(a.ingress) + egress_edges(a.egress),
        m,
    );
    lemma_joined_multiset(
        b.sites.map_values(f) + ingress_edges(b.ingress) + egress_edges(b.egress),
        m,
    );
}

proof fn lemma_found_valid(flow: FlowView, m: int)
    requires
        valid_flow(flow),
        0 <= m < found_edges(flow).len(),
    ensures
        valid_node(found_edges(flow)[m].from),
        valid_node(found_edges(flow)[m].to),
{
    let a = flow.sites.map_values(|s: ResolvedView| site_edge(s));
    let b = ingress_edges(flow.ingress);
    let c = egress_edges(flow.egress);
    let list = subject_list(flow);
    if m < a.len() {
        assert(well_formed(flow.sites[m].subject));
    } else if m < a.len() + b.len() {
        let at = lemma_ingress_edge_found(flow.ingress, m - a.len());
        lemma_subject_of(flow.ingress[at.0].into[at.1]);
    } else if m < a.len() + b.len() + c.len() {
        let at = lemma_egress_edge_found(flow.egress, m - a.len() - b.len());
        lemma_subject_of(flow.egress[at.0].triggered_by[at.1]);
    } else {
        let at = lemma_match_found(list, list.len(), m - a.len() - b.len() - c.len());
        lemma_subject_list(flow);
    }
}

proof fn lemma_last_of_key(found: Seq<EdgeView>, i: int) -> (k: int)
    requires
        0 <= i < found.len(),
    ensures
        i <= k < found.len(),
        same_key(found[k], found[i]),
        found_last(found, found[k]),
    decreases found.len() - i,
{
    if exists|j: int| i < j < found.len() && same_key(#[trigger] found[j], found[i]) {
        let j = choose|j: int| i < j < found.len() && same_key(#[trigger] found[j], found[i]);
        lemma_last_of_key(found, j)
    } else {
        i
    }
}

proof fn lemma_edge_keys(found: Seq<EdgeView>)
    requires
        forall|m: int|
            0 <= m < found.len() ==> valid_node((#[trigger] found[m]).from) && valid_node(
                found[m].to,
            ),
    ensures
        strictly_sorted(edge_keys(edge_list(found)), edge_order()),
        forall|u: EdgeView| #[trigger]
            edge_keys(edge_list(found)).contains(u) == edge_keys(found).contains(u),
{
    let list = edge_list(found);
    let keys = edge_keys(list);
    law_edges_in_order(found);
    assert forall|i: int, j: int| 0 <= i < j < keys.len() implies edge_order()(
        #[trigger] keys[i],
        #[trigger] keys[j],
    ) by {
        assert(edge_order()(list[i], list[j]));
    }
    assert forall|u: EdgeView| #[trigger] keys.contains(u) == edge_keys(found).contains(u) by {
        if keys.contains(u) {
            let k = choose|k: int| 0 <= k < keys.len() && keys[k] == u;
            assert(list.contains(list[k]));
            assert(found_last(found, list[k]));
            let i = choose|i: int| 0 <= i < found.len() && #[trigger] found[i] == list[k];
            assert(edge_keys(found)[i] == u);
        }
        if edge_keys(found).contains(u) {
            let i = choose|i: int| 0 <= i < edge_keys(found).len() && edge_keys(found)[i] == u;
            let k = lemma_last_of_key(found, i);
            law_id_identifies(found[k].from, found[i].from);
            law_id_identifies(found[k].to, found[i].to);
            assert(list.contains(found[k]));
            let n = choose|n: int| 0 <= n < list.len() && list[n] == found[k];
            assert(keys[n] == u);
        }
    }
}

/// The edges depend on what there is, not on the order in which it was found:
/// two flows with the same call sites, sources and sinks have the same edges, in
/// the same order, up to labels.
pub proof fn law_edges_ignore_order(a: FlowView, b: FlowView)
    requires
        valid_flow(a),
        valid_flow(b),
        same_flow(a, b),
    ensures
        edge_keys(flow_graph(a).edges) == edge_keys(flow_graph(b).edges),
{
    lemma_same_found(a, b);
    let fa = found_edges(a);
    let fb = found_edges(b);
    assert forall|m: int| 0 <= m < fa.len() implies valid_node((#[trigger] fa[m]).from)
        && valid_node(fa[m].to) by {
        lemma_found_valid(a, m);
    }
    assert forall|m: int| 0 <= m < fb.len() implies valid_node((#[trigger] fb[m]).from)
        && valid_node(fb[m].to) by {
        lemma_found_valid(b, m);
    }
    lemma_edge_keys(fa);
    lemma_edge_keys(fb);
    lemma_edge_order();
    lemma_mapped_multiset(fa, fb, |e: EdgeView| unlabelled(e));
    lemma_same_elements(edge_keys(fa), edge_keys(fb));
    assert forall|u: EdgeView| #[trigger]
        edge_keys(edge_list(fa)).contains(u) == edge_keys(edge_list(fb)).contains(u) by {
        assert(edge_keys(fa).contains(u) == edge_keys(fb).contains(u));
        assert(edge_keys(edge_list(fb)).contains(u) == edge_keys(fb).contains(u));
    }
    law_sorted_listing_unique(edge_keys(edge_list(fa)), edge_keys(edge_list(fb)), edge_order());
}

// ---------------------------------------------------------------------
// reports
// ---------------------------------------------------------------------

spec fn unread_by(sites: Seq<ResolvedView>) -> spec_fn(IngressView) -> Seq<ReportView> {
    |x: IngressView| orphan_ingress_row(sites, x, x.into.len())
}

spec fn unfired_by(sites: Seq<ResolvedView>) -> spec_fn(EgressView) -> Seq<ReportView> {
    |x: EgressView| orphan_egress_row(sites, x, x.triggered_by.len())
}

spec fn malformed_in() -> spec_fn(IngressView) -> Seq<ReportView> {
    |x: IngressView| declared_reports("ingress:"@ + x.name, x.into, x.into.len())
}

spec fn malformed_out() -> spec_fn(EgressView) -> Seq<ReportView> {
    |x: EgressView| declared_reports("egress:"@ + x.name, x.triggered_by, x.triggered_by.len())
}

spec fn reports_on(inputs: InputsView, entries: Seq<EntryView>) -> spec_fn(
    (Seq<char>, SiteView),
) -> Seq<ReportView> {
    |s: (Seq<char>, SiteView)|
        subject_reports(inputs, entries, s.0, s.1) + consumer_reports(inputs, entries, s.0, s.1)
}

proof fn lemma_ingress_reports_flat(
    sites: Seq<ResolvedView>,
    ingress: Seq<IngressView>,
    n: nat,
)
    requires
        n <= ingress.len(),
    ensures
        orphan_ingress(sites, ingress, n) == flat(ingress.take(n as int), unread_by(sites)),
        ingress_reports(ingress, n) == flat(ingress.take(n as int), malformed_in()),
    decreases n,
{
    if n > 0 {
        lemma_ingress_reports_flat(sites, ingress, (n - 1) as nat);
        assert(ingress.take(n as int).drop_last() =~= ingress.take(n - 1));
    }
}

proof fn lemma_egress_reports_flat(sites: Seq<ResolvedView>, egress: Seq<EgressView>, n: nat)
    requires
        n <= egress.len(),
    ensures
        orphan_egress(sites, egress, n) == flat(egress.take(n as int), unfired_by(sites)),
        egress_reports(egress, n) == flat(egress.take(n as int), malformed_out()),
    decreases n,
{
    if n > 0 {
        lemma_egress_reports_flat(sites, egress, (n - 1) as nat);
        assert(egress.take(n as int).drop_last() =~= egress.take(n - 1));
    }
}

proof fn lemma_site_reports_flat(inputs: InputsView, entries: Seq<EntryView>, n: nat)
    requires
        n <= inputs.call_sites.len(),
    ensures
        site_reports(inputs, entries, n) == flat(
            inputs.call_sites.take(n as int),
            reports_on(inputs, entries),
        ),
    decreases n,
{
    if n > 0 {
        lemma_site_reports_flat(inputs, entries, (n - 1) as nat);
        let s = inputs.call_sites[n - 1];
        assert(inputs.call_sites.take(n as int).drop_last() =~= inputs.call_sites.take(n - 1));
        assert(site_reports(inputs, entries, n) =~= site_reports(inputs, entries, (n - 1) as nat)
            + reports_on(inputs, entries)(s));
    }
}

proof fn lemma_same_observed(
    a: Seq<ResolvedView>,
    b: Seq<ResolvedView>,
    kind: CallKind,
    p: Seq<SegmentView>,
)
    requires
        forall|s: ResolvedView| #[trigger] a.contains(s) == b.contains(s),
    ensures
        observed(a, kind, p) == observed(b, kind, p),
        served(a, kind, p) == served(b, kind, p),
{
    lemma_observed_in(a, b, kind, p);
    lemma_observed_in(b, a, kind, p);
}

proof fn lemma_observed_in(
    a: Seq<ResolvedView>,
    b: Seq<ResolvedView>,
    kind: CallKind,
    p: Seq<SegmentView>,
)
    requires
        forall|s: ResolvedView| #[trigger] a.contains(s) ==> b.contains(s),
    ensures
        observed(a, kind, p) ==> observed(b, kind, p),
        served(a, kind, p) ==> served(b, kind, p),
{
    if observed(a, kind, p) {
        let i = choose|i: int|
            0 <= i < a.len() && (#[trigger] a[i]).kind == kind && overlap(a[i].subject, p);
        assert(a.contains(a[i]));
        let j = choose|j: int| 0 <= j < b.len() && b[j] == a[i];
        assert(b[j].kind == kind);
    }
    if served(a, kind, p) {
        let i = choose|i: int|
            0 <= i < a.len() && (#[trigger] a[i]).kind == kind && a[i].subject != unknown_subject()
                && overlap(a[i].subject, p);
        assert(a.contains(a[i]));
        let j = choose|j: int| 0 <= j < b.len() && b[j] == a[i];
        assert(b[j].kind == kind);
    }
}

proof fn lemma_same_ingress_row(
    a: Seq<ResolvedView>,
    b: Seq<ResolvedView>,
    x: IngressView,
    n: nat,
)
    requires
        forall|s: ResolvedView| #[trigger] a.contains(s) == b.contains(s),
    ensures
        orphan_ingress_row(a, x, n) == orphan_ingress_row(b, x, n),
    decreases n,
{
    if n > 0 {
        lemma_same_ingress_row(a, b, x, (n - 1) as nat);
        lemma_same_observed(a, b, CallKind::Subscribe, subject_of(x.into[n - 1]));
    }
}

proof fn lemma_same_egress_row(a: Seq<ResolvedView>, b: Seq<ResolvedView>, x: EgressView, n: nat)
    requires
        forall|s: ResolvedView| #[trigger] a.contains(s) == b.contains(s),
    ensures
        orphan_egress_row(a, x, n) == orphan_egress_row(b, x, n),
    decreases n,
{
    if n > 0 {
        lemma_same_egress_row(a, b, x, (n - 1) as nat);
        lemma_same_observed(a, b, CallKind::Publish, subject_of(x.triggered_by[n - 1]));
    }
}

proof fn lemma_declared_reports_same(a: FlowView, b: FlowView)
    requires
        same_flow(a, b),
    ensures
        orphan_ingress(a.sites, a.ingress, a.ingress.len()).to_multiset() == orphan_ingress(
            b.sites,
            b.ingress,
            b.ingress.len(),
        ).to_multiset(),
        orphan_egress(a.sites, a.egress, a.egress.len()).to_multiset() == orphan_egress(
            b.sites,
            b.egress,
            b.egress.len(),
        ).to_multiset(),
        ingress_reports(a.ingress, a.ingress.len()).to_multiset() == ingress_reports(
            b.ingress,
            b.ingress.len(),
        ).to_multiset(),
        egress_reports(a.egress, a.egress.len()).to_multiset() == egress_reports(
            b.egress,
            b.egress.len(),
        ).to_multiset(),
{
    lemma_same_elements(a.sites, b.sites);
    lemma_ingress_reports_flat(a.sites, a.ingress, a.ingress.len());
    lemma_ingress_reports_flat(b.sites, b.ingress, b.ingress.len());
    lemma_egress_reports_flat(a.sites, a.egress, a.egress.len());
    lemma_egress_reports_flat(b.sites, b.egress, b.egress.len());
    assert(a.ingress.take(a.ingress.len() as int) =~= a.ingress);
    assert(b.ingress.take(b.ingress.len() as int) =~= b.ingress);
    assert(a.egress.take(a.egress.len() as int) =~= a.egress);
    assert(b.egress.take(b.egress.len() as int) =~= b.egress);
    assert(unread_by(a.sites) =~= unread_by(b.sites)) by {
        assert forall|x: IngressView| #[trigger] unread_by(a.sites)(x) == unread_by(b.sites)(x) by {
            lemma_same_ingress_row(a.sites, b.sites, x, x.into.len());
        }
    }
    assert(unfired_by(a.sites) =~= unfired_by(b.sites)) by {
        assert forall|x: EgressView| #[trigger] unfired_by(a.sites)(x) == unfired_by(b.sites)(
            x,
        ) by {
            lemma_same_egress_row(a.sites, b.sites, x, x.triggered_by.len());
        }
    }
    law_flat_ignores_order(a.ingress, b.ingress, unread_by(a.sites));
    law_flat_ignores_order(a.egress, b.egress, unfired_by(a.sites));
    law_flat_ignores_order(a.ingress, b.ingress, malformed_in());
    law_flat_ignores_order(a.egress, b.egress, malformed_out());
}

proof fn lemma_orphan_sites_distinct(sites: Seq<ResolvedView>, kind: CallKind, n: nat)
    requires
        n <= sites.len(),
        forall|i: int| 0 <= i < sites.len() ==> well_formed(#[trigger] sites[i].subject),
    ensures
        orphan_sites(sites, kind, n).no_duplicates(),
    decreases n,
{
    if n > 0 {
        let front = orphan_sites(sites, kind, (n - 1) as nat);
        let row = orphan_site(sites, kind, n - 1);
        lemma_orphan_sites_distinct(sites, kind, (n - 1) as nat);
        if row.len() > 0 && front.contains(row[0]) {
            let i = lemma_orphan_sites_sound(sites, kind, (n - 1) as nat, row[0]);
            assert(well_formed(sites[i].subject));
            assert(well_formed(sites[n - 1].subject));
            law_surface_form_identifies(sites[i].subject, sites[n - 1].subject);
            assert(seen_before(sites, n - 1));
        }
        lemma_joined_distinct(front, row);
    }
}

proof fn lemma_joined_distinct<T>(front: Seq<T>, row: Seq<T>)
    requires
        front.no_duplicates(),
        row.len() <= 1,
        row.len() > 0 ==> !front.contains(row[0]),
    ensures
        (front + row).no_duplicates(),
{
    let all = front + row;
    assert forall|i: int, j: int| 0 <= i < all.len() && 0 <= j < all.len() && i != j implies all[i]
        != all[j] by {
        if i < front.len() && j < front.len() {
            assert(front[i] != front[j]);
        } else if i < front.len() {
            assert(front.contains(front[i]));
        } else if j < front.len() {
            assert(front.contains(front[j]));
        }
    }
}

proof fn lemma_orphan_sites_in(
    a: Seq<ResolvedView>,
    b: Seq<ResolvedView>,
    kind: CallKind,
    r: ReportView,
)
    requires
        forall|s: ResolvedView| #[trigger] a.contains(s) == b.contains(s),
        orphan_sites(a, kind, a.len()).contains(r),
    ensures
        orphan_sites(b, kind, b.len()).contains(r),
{
    let i = lemma_orphan_sites_sound(a, kind, a.len(), r);
    assert(a.contains(a[i]));
    let j = choose|j: int| 0 <= j < b.len() && b[j] == a[i];
    lemma_same_observed(a, b, counterpart(kind), a[i].subject);
    lemma_orphan_sites_complete(b, kind, b.len(), j);
}

/// The note on the call sites of a crate.
spec fn note_on(kind: CallKind, crate_name: Seq<char>) -> ReportView {
    ReportView::UnresolvedSubjectCoverage { crate_name, role: role_of(kind) }
}

proof fn lemma_notes_sound(sites: Seq<ResolvedView>, kind: CallKind, n: nat, r: ReportView) -> (i:
    int)
    requires
        n <= sites.len(),
        coverage_notes(sites, kind, n).contains(r),
    ensures
        0 <= i < n,
        sites[i].kind == kind,
        sites[i].subject == unknown_subject(),
        r == note_on(kind, sites[i].crate_name),
    decreases n,
{
    if n == 0 {
        0
    } else {
        let front = coverage_notes(sites, kind, (n - 1) as nat);
        lemma_contains_add(front, coverage_note(sites, kind, n - 1), r);
        if front.contains(r) {
            lemma_notes_sound(sites, kind, (n - 1) as nat, r)
        } else {
            n - 1
        }
    }
}

proof fn lemma_notes_complete(sites: Seq<ResolvedView>, kind: CallKind, n: nat, i: int)
    requires
        0 <= i < n <= sites.len(),
        sites[i].kind == kind,
        sites[i].subject == unknown_subject(),
    ensures
        coverage_notes(sites, kind, n).contains(note_on(kind, sites[i].crate_name)),
    decreases i, n,
{
    let r = note_on(kind, sites[i].crate_name);
    let front = coverage_notes(sites, kind, (n - 1) as nat);
    lemma_contains_add(front, coverage_note(sites, kind, n - 1), r);
    if seen_before(sites, i) {
        let j = choose|j: int|
            0 <= j < i && (#[trigger] sites[j]).kind == sites[i].kind && sites[j].crate_name
                == sites[i].crate_name && sites[j].subject == sites[i].subject;
        lemma_notes_complete(sites, kind, n, j);
    } else if i < n - 1 {
        lemma_notes_complete(sites, kind, (n - 1) as nat, i);
    } else {
        assert(coverage_note(sites, kind, i)[0] == r);
    }
}

proof fn lemma_notes_distinct(sites: Seq<ResolvedView>, kind: CallKind, n: nat)
    requires
        n <= sites.len(),
    ensures
        coverage_notes(sites, kind, n).no_duplicates(),
    decreases n,
{
    if n > 0 {
        let front = coverage_notes(sites, kind, (n - 1) as nat);
        let row = coverage_note(sites, kind, n - 1);
        lemma_notes_distinct(sites, kind, (n - 1) as nat);
        if row.len() > 0 && front.contains(row[0]) {
            let i = lemma_notes_sound(sites, kind, (n - 1) as nat, row[0]);
            assert(seen_before(sites, n - 1));
        }
        lemma_joined_distinct(front, row);
    }
}

proof fn lemma_notes_in(
    a: Seq<ResolvedView>,
    b: Seq<ResolvedView>,
    kind: CallKind,
    r: ReportView,
)
    requires
        forall|s: ResolvedView| #[trigger] a.contains(s) == b.contains(s),
        coverage_notes(a, kind, a.len()).contains(r),
    ensures
        coverage_notes(b, kind, b.len()).contains(r),
{
    let i = lemma_notes_sound(a, kind, a.len(), r);
    assert(a.contains(a[i]));
    let j = choose|j: int| 0 <= j < b.len() && b[j] == a[i];
    lemma_notes_complete(b, kind, b.len(), j);
}

proof fn lemma_call_reports_same(a: FlowView, b: FlowView, kind: CallKind)
    requires
        valid_flow(a),
        valid_flow(b),
        same_flow(a, b),
    ensures
        orphan_sites(a.sites, kind, a.sites.len()).to_multiset() == orphan_sites(
            b.sites,
            kind,
            b.sites.len(),
        ).to_multiset(),
        coverage_notes(a.sites, kind, a.sites.len()).to_multiset() == coverage_notes(
            b.sites,
            kind,
            b.sites.len(),
        ).to_multiset(),
{
    let oa = orphan_sites(a.sites, kind, a.sites.len());
    let ob = orphan_sites(b.sites, kind, b.sites.len());
    let na = coverage_notes(a.sites, kind, a.sites.len());
    let nb = coverage_notes(b.sites, kind, b.sites.len());
    lemma_same_elements(a.sites, b.sites);
    lemma_orphan_sites_distinct(a.sites, kind, a.sites.len());
    lemma_orphan_sites_distinct(b.sites, kind, b.sites.len());
    lemma_notes_distinct(a.sites, kind, a.sites.len());
    lemma_notes_distinct(b.sites, kind, b.sites.len());
    assert forall|r: ReportView| #[trigger] oa.contains(r) == ob.contains(r) by {
        if oa.contains(r) {
            lemma_orphan_sites_in(a.sites, b.sites, kind, r);
        }
        if ob.contains(r) {
            lemma_orphan_sites_in(b.sites, a.sites, kind, r);
        }
    }
    assert forall|r: ReportView| #[trigger] na.contains(r) == nb.contains(r) by {
        if na.contains(r) {
            lemma_notes_in(a.sites, b.sites, kind, r);
        }
        if nb.contains(r) {
            lemma_notes_in(b.sites, a.sites, kind, r);
        }
    }
    lemma_distinct_multiset(oa, ob);
    lemma_distinct_multiset(na, nb);
}

/// The reports on what has no counterpart depend on what there is, not on the
/// order in which it was found.
pub proof fn law_orphan_reports_ignore_order(a: FlowView, b: FlowView)
    requires
        valid_flow(a),
        valid_flow(b),
        same_flow(a, b),
    ensures
        orphan_reports(a).to_multiset() == orphan_reports(b).to_multiset(),
{
    lemma_declared_reports_same(a, b);
    lemma_call_reports_same(a, b, CallKind::Publish);
    lemma_call_reports_same(a, b, CallKind::Subscribe);
    lemma_orphan_multiset(a);
    lemma_orphan_multiset(b);
}

proof fn lemma_orphan_multiset(flow: FlowView)
    ensures
        orphan_reports(flow).to_multiset() == orphan_ingress(
            flow.sites,
            flow.ingress,
            flow.ingress.len(),
        ).to_multiset().add(
            orphan_egress(flow.sites, flow.egress, flow.egress.len()).to_multiset(),
        ).add(
            orphan_sites(flow.sites, CallKind::Publish, flow.sites.len()).to_multiset(),
        ).add(
            orphan_sites(flow.sites, CallKind::Subscribe, flow.sites.len()).to_multiset(),
        ).add(
            coverage_notes(flow.sites, CallKind::Publish, flow.sites.len()).to_multiset(),
        ).add(coverage_notes(flow.sites, CallKind::Subscribe, flow.sites.len()).to_multiset()),
{
    let n = flow.sites.len();
    let a = orphan_ingress(flow.sites, flow.ingress, flow.ingress.len());
    let b = orphan_egress(flow.sites, flow.egress, flow.egress.len());
    let c = orphan_sites(flow.sites, CallKind::Publish, n);
    let d = orphan_sites(flow.sites, CallKind::Subscribe, n);
    let e = coverage_notes(flow.sites, CallKind::Publish, n);
    lemma_three_parts(a, b, c);
    lemma_joined_multiset(a + b + c, d);
    lemma_joined_multiset(a + b + c + d, e);
    lemma_joined_multiset(
        a + b + c + d + e,
        coverage_notes(flow.sites, CallKind::Subscribe, n),
    );
}

// ---------------------------------------------------------------------
// the whole graph
// ---------------------------------------------------------------------

/// The same inputs, with the call sites, sources and sinks in any order.
pub open spec fn same_inputs(a: InputsView, b: InputsView) -> bool {
    &&& a.call_sites.to_multiset() == b.call_sites.to_multiset()
    &&& a.ingress.to_multiset() == b.ingress.to_multiset()
    &&& a.egress.to_multiset() == b.egress.to_multiset()
    &&& a.helper_crates == b.helper_crates
    &&& a.subject_builder_methods == b.subject_builder_methods
    &&& a.subject_builder_functions == b.subject_builder_functions
}

proof fn lemma_same_inputs_flow(a: InputsView, b: InputsView, entries: Seq<EntryView>)
    requires
        same_inputs(a, b),
    ensures
        same_flow(inputs_flow(a, entries), inputs_flow(b, entries)),
{
    let f = |s: (Seq<char>, SiteView)| resolved_site(a, entries, s.0, s.1);
    lemma_mapped_multiset(a.call_sites, b.call_sites, f);
    assert(inputs_flow(b, entries).sites =~= b.call_sites.map_values(f)) by {
        assert forall|i: int| 0 <= i < b.call_sites.len() implies #[trigger] inputs_flow(
            b,
            entries,
        ).sites[i] == f(b.call_sites[i]) by {}
    }
    assert(inputs_flow(a, entries).sites =~= a.call_sites.map_values(f));
}

/// The graph and the reports on it depend on what there is, not on the order in
/// which it was found. Inputs that differ only in the order of their call sites,
/// sources and sinks give the same nodes in the same order, the same edges in
/// the same order up to labels, and the same reports, each as often.
pub proof fn law_graph_ignores_order(a: InputsView, b: InputsView, entries: Seq<EntryView>)
    requires
        same_inputs(a, b),
    ensures
        flow_graph(inputs_flow(a, entries)).nodes == flow_graph(inputs_flow(b, entries)).nodes,
        edge_keys(flow_graph(inputs_flow(a, entries)).edges) == edge_keys(
            flow_graph(inputs_flow(b, entries)).edges,
        ),
        graph_reports(a, entries).to_multiset() == graph_reports(b, entries).to_multiset(),
{
    let fa = inputs_flow(a, entries);
    let fb = inputs_flow(b, entries);
    lemma_same_inputs_flow(a, b, entries);
    law_inputs_give_a_valid_flow(a, entries);
    law_inputs_give_a_valid_flow(b, entries);
    lemma_same_found(fa, fb);
    law_edges_ignore_order(fa, fb);
    law_orphan_reports_ignore_order(fa, fb);
    lemma_declared_reports_same(fa, fb);
    lemma_site_reports_flat(a, entries, a.call_sites.len());
    lemma_site_reports_flat(b, entries, b.call_sites.len());
    assert(a.call_sites.take(a.call_sites.len() as int) =~= a.call_sites);
    assert(b.call_sites.take(b.call_sites.len() as int) =~= b.call_sites);
    assert(reports_on(a, entries) =~= reports_on(b, entries));
    law_flat_ignores_order(a.call_sites, b.call_sites, reports_on(a, entries));
    lemma_all_reports(a, entries);
    lemma_all_reports(b, entries);
}

proof fn lemma_all_reports(inputs: InputsView, entries: Seq<EntryView>)
    ensures
        graph_reports(inputs, entries).to_multiset() == site_reports(
            inputs,
            entries,
            inputs.call_sites.len(),
        ).to_multiset().add(
            ingress_reports(inputs.ingress, inputs.ingress.len()).to_multiset(),
        ).add(egress_reports(inputs.egress, inputs.egress.len()).to_multiset()).add(
            orphan_reports(inputs_flow(inputs, entries)).to_multiset(),
        ),
{
    let a = site_reports(inputs, entries, inputs.call_sites.len());
    let b = ingress_reports(inputs.ingress, inputs.ingress.len());
    let c = egress_reports(inputs.egress, inputs.egress.len());
    lemma_three_parts(a, b, c);
    lemma_joined_multiset(a + b + c, orphan_reports(inputs_flow(inputs, entries)));
}

} // verus!
