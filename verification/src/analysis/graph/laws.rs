//! What holds of every graph.

use super::assembly::{
    edge_list, edge_lt, edge_order, egress_edge, egress_edges, egress_subjects, flow_nodes,
    found_edges, ingress_edge, ingress_edges, ingress_subjects, lemma_subject_of,
    match_edge, match_edges, match_row, pattern_order, same_key, services, site_edge, subject_list,
    subject_of, subjects, text_order, unknown_subject, valid_flow, with_edge, FlowView,
    ResolvedView,
};
use super::reports::{
    counterpart, coverage_note, coverage_notes, observed, orphan_egress, orphan_egress_row,
    orphan_ingress, orphan_ingress_row, orphan_reports, orphan_site, orphan_sites, seen_before,
    served, ReportView,
};
use super::{inputs_flow, rendered, site_outcome, EgressView, IngressView, InputsView};
use crate::analysis::callsite::CallKind;
use crate::analysis::symbol_index::EntryView;
use crate::model::pattern::{
    law_surface_form_identifies, overlap, render, well_formed, SegmentView,
};
use crate::model::{law_id_identifies, node_id, node_label, EdgeKind, EdgeView, NodeView};
use crate::order::{
    law_listed, law_listing_ignores_order, lemma_contains_add, lemma_contains_push, listed,
    strict_order, strictly_sorted, total_on,
};
use crate::text::{
    lemma_lex_irreflexive, lemma_lex_total, lemma_lex_transitive, lex_lt,
};
use vstd::prelude::*;

verus! {

// ---------------------------------------------------------------------
// nodes
// ---------------------------------------------------------------------

proof fn lemma_text_order(s: Seq<Seq<char>>)
    ensures
        strict_order(text_order()),
        total_on(s, text_order()),
{
    let lt = text_order();
    assert forall|x: Seq<char>| !#[trigger] lt(x, x) by {
        lemma_lex_irreflexive(x);
    }
    assert forall|x: Seq<char>, y: Seq<char>, z: Seq<char>| #[trigger]
        lt(x, y) && #[trigger] lt(y, z) implies lt(x, z) by {
        lemma_lex_transitive(x, y, z);
    }
    assert forall|i: int, j: int|
        #![trigger s[i], s[j]]
        0 <= i < s.len() && 0 <= j < s.len() implies s[i] == s[j] || lt(s[i], s[j]) || lt(
        s[j],
        s[i],
    ) by {
        lemma_lex_total(s[i], s[j]);
    }
}

proof fn lemma_pattern_order(s: Seq<Seq<SegmentView>>)
    requires
        forall|i: int| 0 <= i < s.len() ==> well_formed(#[trigger] s[i]),
    ensures
        strict_order(pattern_order()),
        total_on(s, pattern_order()),
{
    let lt = pattern_order();
    assert forall|x: Seq<SegmentView>| !#[trigger] lt(x, x) by {
        lemma_lex_irreflexive(render(x));
    }
    assert forall|x: Seq<SegmentView>, y: Seq<SegmentView>, z: Seq<SegmentView>| #[trigger]
        lt(x, y) && #[trigger] lt(y, z) implies lt(x, z) by {
        lemma_lex_transitive(render(x), render(y), render(z));
    }
    assert forall|i: int, j: int|
        #![trigger s[i], s[j]]
        0 <= i < s.len() && 0 <= j < s.len() implies s[i] == s[j] || lt(s[i], s[j]) || lt(
        s[j],
        s[i],
    ) by {
        lemma_lex_total(render(s[i]), render(s[j]));
        if render(s[i]) == render(s[j]) {
            law_surface_form_identifies(s[i], s[j]);
        }
    }
}

proof fn lemma_ingress_subjects(ingress: Seq<IngressView>)
    ensures
        forall|i: int|
            0 <= i < ingress_subjects(ingress).len() ==> well_formed(
                #[trigger] ingress_subjects(ingress)[i],
            ),
    decreases ingress.len(),
{
    if ingress.len() > 0 {
        let front = ingress_subjects(ingress.drop_last());
        let new = ingress.last().into.map_values(|raw: Seq<char>| subject_of(raw));
        lemma_ingress_subjects(ingress.drop_last());
        assert forall|i: int| 0 <= i < ingress_subjects(ingress).len() implies well_formed(
            #[trigger] ingress_subjects(ingress)[i],
        ) by {
            if i < front.len() {
                assert(ingress_subjects(ingress)[i] == front[i]);
            } else {
                lemma_subject_of(ingress.last().into[i - front.len()]);
                assert(ingress_subjects(ingress)[i] == new[i - front.len()]);
            }
        }
    }
}

proof fn lemma_egress_subjects(egress: Seq<EgressView>)
    ensures
        forall|i: int|
            0 <= i < egress_subjects(egress).len() ==> well_formed(
                #[trigger] egress_subjects(egress)[i],
            ),
    decreases egress.len(),
{
    if egress.len() > 0 {
        let front = egress_subjects(egress.drop_last());
        let new = egress.last().triggered_by.map_values(|raw: Seq<char>| subject_of(raw));
        lemma_egress_subjects(egress.drop_last());
        assert forall|i: int| 0 <= i < egress_subjects(egress).len() implies well_formed(
            #[trigger] egress_subjects(egress)[i],
        ) by {
            if i < front.len() {
                assert(egress_subjects(egress)[i] == front[i]);
            } else {
                lemma_subject_of(egress.last().triggered_by[i - front.len()]);
                assert(egress_subjects(egress)[i] == new[i - front.len()]);
            }
        }
    }
}

proof fn lemma_subjects(flow: FlowView)
    requires
        valid_flow(flow),
    ensures
        forall|i: int| 0 <= i < subjects(flow).len() ==> well_formed(#[trigger] subjects(flow)[i]),
        strict_order(pattern_order()),
        total_on(subjects(flow), pattern_order()),
{
    let a = flow.sites.map_values(|s: ResolvedView| s.subject);
    let b = ingress_subjects(flow.ingress);
    let c = egress_subjects(flow.egress);
    lemma_ingress_subjects(flow.ingress);
    lemma_egress_subjects(flow.egress);
    assert forall|i: int| 0 <= i < subjects(flow).len() implies well_formed(
        #[trigger] subjects(flow)[i],
    ) by {
        if i < a.len() {
            assert(subjects(flow)[i] == flow.sites[i].subject);
        } else if i < a.len() + b.len() {
            assert(subjects(flow)[i] == b[i - a.len()]);
        } else {
            assert(subjects(flow)[i] == c[i - a.len() - b.len()]);
        }
    }
    lemma_pattern_order(subjects(flow));
}

/// Every kind of node has its place in the order of kinds.
pub open spec fn node_rank(n: NodeView) -> int {
    match n {
        NodeView::Service(_) => 0,
        NodeView::Subject(_) => 1,
        NodeView::Ingress(_) => 2,
        NodeView::Egress(_) => 3,
    }
}

/// The order of nodes: by kind, then by label.
pub open spec fn node_lt(a: NodeView, b: NodeView) -> bool {
    node_rank(a) < node_rank(b) || (node_rank(a) == node_rank(b) && lex_lt(
        node_label(a),
        node_label(b),
    ))
}

/// What a node of the graph of a flow is.
pub open spec fn in_flow(flow: FlowView, n: NodeView) -> bool {
    match n {
        NodeView::Service(s) => services(flow).contains(s),
        NodeView::Subject(p) => subjects(flow).contains(p),
        NodeView::Ingress(s) => flow.ingress.map_values(|i: IngressView| i.name).contains(s),
        NodeView::Egress(s) => flow.egress.map_values(|e: EgressView| e.name).contains(s),
    }
}

/// The nodes of a graph are exactly the services, subjects, sources and sinks of
/// its flow.
pub proof fn law_node_iff_in_flow(flow: FlowView, n: NodeView)
    requires
        valid_flow(flow),
    ensures
        flow_nodes(flow).contains(n) == in_flow(flow, n),
{
    let names_in = flow.ingress.map_values(|i: IngressView| i.name);
    let names_out = flow.egress.map_values(|e: EgressView| e.name);
    let la = listed(services(flow), text_order());
    let lb = subject_list(flow);
    let lc = listed(names_in, text_order());
    let ld = listed(names_out, text_order());
    lemma_text_order(services(flow));
    law_listed(services(flow), text_order());
    lemma_subjects(flow);
    law_listed(subjects(flow), pattern_order());
    lemma_text_order(names_in);
    law_listed(names_in, text_order());
    lemma_text_order(names_out);
    law_listed(names_out, text_order());
    let a = la.map_values(|s: Seq<char>| NodeView::Service(s));
    let b = lb.map_values(|p: Seq<SegmentView>| NodeView::Subject(p));
    let c = lc.map_values(|s: Seq<char>| NodeView::Ingress(s));
    let d = ld.map_values(|s: Seq<char>| NodeView::Egress(s));
    let all = flow_nodes(flow);
    assert(all =~= a + b + c + d);
    if all.contains(n) {
        let k = choose|k: int| 0 <= k < all.len() && all[k] == n;
        if k < a.len() {
            assert(la.contains(la[k]));
        } else if k < a.len() + b.len() {
            assert(lb.contains(lb[k - a.len()]));
        } else if k < a.len() + b.len() + c.len() {
            assert(lc.contains(lc[k - a.len() - b.len()]));
        } else {
            assert(ld.contains(ld[k - a.len() - b.len() - c.len()]));
        }
    }
    if in_flow(flow, n) {
        match n {
            NodeView::Service(s) => {
                assert(la.contains(s));
                let k = choose|k: int| 0 <= k < la.len() && la[k] == s;
                assert(all[k] == n);
            },
            NodeView::Subject(p) => {
                assert(lb.contains(p));
                let k = choose|k: int| 0 <= k < lb.len() && lb[k] == p;
                assert(all[a.len() + k] == n);
            },
            NodeView::Ingress(s) => {
                assert(lc.contains(s));
                let k = choose|k: int| 0 <= k < lc.len() && lc[k] == s;
                assert(all[a.len() + b.len() + k] == n);
            },
            NodeView::Egress(s) => {
                assert(ld.contains(s));
                let k = choose|k: int| 0 <= k < ld.len() && ld[k] == s;
                assert(all[a.len() + b.len() + c.len() + k] == n);
            },
        }
    }
}

/// The nodes of a graph stand by kind and label, and none stands twice.
pub proof fn law_nodes_in_order(flow: FlowView)
    requires
        valid_flow(flow),
    ensures
        strictly_sorted(flow_nodes(flow), |a: NodeView, b: NodeView| node_lt(a, b)),
{
    let names_in = flow.ingress.map_values(|i: IngressView| i.name);
    let names_out = flow.egress.map_values(|e: EgressView| e.name);
    let la = listed(services(flow), text_order());
    let lb = subject_list(flow);
    let lc = listed(names_in, text_order());
    let ld = listed(names_out, text_order());
    lemma_text_order(services(flow));
    law_listed(services(flow), text_order());
    lemma_subjects(flow);
    law_listed(subjects(flow), pattern_order());
    lemma_text_order(names_in);
    law_listed(names_in, text_order());
    lemma_text_order(names_out);
    law_listed(names_out, text_order());
    let all = flow_nodes(flow);
    let x = la.len() as int;
    let y = x + lb.len();
    let z = y + lc.len();
    let lt = |a: NodeView, b: NodeView| node_lt(a, b);
    assert forall|i: int| 0 <= i < all.len() implies #[trigger] all[i] == (if i < x {
        NodeView::Service(la[i])
    } else if i < y {
        NodeView::Subject(lb[i - x])
    } else if i < z {
        NodeView::Ingress(lc[i - y])
    } else {
        NodeView::Egress(ld[i - z])
    }) by {}
    assert forall|i: int, j: int|
        #![trigger all[i], all[j]]
        0 <= i < j < all.len() implies lt(all[i], all[j]) by {
        if j < x {
            assert(text_order()(la[i], la[j]));
        } else if x <= i && j < y {
            assert(pattern_order()(lb[i - x], lb[j - x]));
        } else if y <= i && j < z {
            assert(text_order()(lc[i - y], lc[j - y]));
        } else if z <= i {
            assert(text_order()(ld[i - z], ld[j - z]));
        }
    }
}

/// The nodes depend on what there is, not on the order in which it was found.
pub proof fn law_nodes_ignore_order(a: FlowView, b: FlowView)
    requires
        valid_flow(a),
        valid_flow(b),
        forall|n: NodeView| #[trigger] in_flow(a, n) == in_flow(b, n),
    ensures
        flow_nodes(a) == flow_nodes(b),
        subject_list(a) == subject_list(b),
{
    lemma_text_order(services(a));
    lemma_text_order(services(b));
    assert forall|s: Seq<char>| #[trigger] services(a).contains(s) == services(b).contains(s) by {
        assert(in_flow(a, NodeView::Service(s)) == in_flow(b, NodeView::Service(s)));
    }
    law_listing_ignores_order(services(a), services(b), text_order());
    lemma_subjects(a);
    lemma_subjects(b);
    assert forall|p: Seq<SegmentView>| #[trigger]
        subjects(a).contains(p) == subjects(b).contains(p) by {
        assert(in_flow(a, NodeView::Subject(p)) == in_flow(b, NodeView::Subject(p)));
    }
    law_listing_ignores_order(subjects(a), subjects(b), pattern_order());
    let in_a = a.ingress.map_values(|i: IngressView| i.name);
    let in_b = b.ingress.map_values(|i: IngressView| i.name);
    lemma_text_order(in_a);
    lemma_text_order(in_b);
    assert forall|s: Seq<char>| #[trigger] in_a.contains(s) == in_b.contains(s) by {
        assert(in_flow(a, NodeView::Ingress(s)) == in_flow(b, NodeView::Ingress(s)));
    }
    law_listing_ignores_order(in_a, in_b, text_order());
    let out_a = a.egress.map_values(|e: EgressView| e.name);
    let out_b = b.egress.map_values(|e: EgressView| e.name);
    lemma_text_order(out_a);
    lemma_text_order(out_b);
    assert forall|s: Seq<char>| #[trigger] out_a.contains(s) == out_b.contains(s) by {
        assert(in_flow(a, NodeView::Egress(s)) == in_flow(b, NodeView::Egress(s)));
    }
    law_listing_ignores_order(out_a, out_b, text_order());
}

// ---------------------------------------------------------------------
// edges
// ---------------------------------------------------------------------

pub proof fn lemma_edge_order()
    ensures
        strict_order(edge_order()),
{
    let lt = edge_order();
    assert forall|x: EdgeView| !#[trigger] lt(x, x) by {
        lemma_lex_irreflexive(node_id(x.from));
        lemma_lex_irreflexive(node_id(x.to));
    }
    assert forall|x: EdgeView, y: EdgeView, z: EdgeView| #[trigger]
        lt(x, y) && #[trigger] lt(y, z) implies lt(x, z) by {
        if lex_lt(node_id(x.from), node_id(y.from)) && lex_lt(node_id(y.from), node_id(z.from)) {
            lemma_lex_transitive(node_id(x.from), node_id(y.from), node_id(z.from));
        }
        if lex_lt(node_id(x.to), node_id(y.to)) && lex_lt(node_id(y.to), node_id(z.to)) {
            lemma_lex_transitive(node_id(x.to), node_id(y.to), node_id(z.to));
        }
    }
}

proof fn lemma_edge_trichotomy(a: EdgeView, b: EdgeView)
    ensures
        edge_lt(a, b) || same_key(a, b) || edge_lt(b, a),
        edge_lt(a, b) ==> !same_key(a, b),
{
    lemma_lex_total(node_id(a.from), node_id(b.from));
    lemma_lex_total(node_id(a.to), node_id(b.to));
    lemma_lex_irreflexive(node_id(a.from));
    lemma_lex_irreflexive(node_id(a.to));
}

proof fn lemma_with_edge(edges: Seq<EdgeView>, x: EdgeView)
    requires
        strictly_sorted(edges, edge_order()),
    ensures
        strictly_sorted(with_edge(edges, x), edge_order()),
        forall|e: EdgeView| #[trigger]
            with_edge(edges, x).contains(e) == (e == x || (edges.contains(e) && !same_key(e, x))),
    decreases edges.len(),
{
    let lt = edge_order();
    let out = with_edge(edges, x);
    lemma_edge_order();
    if edges.len() == 0 {
        assert(out[0] == x);
    } else {
        let rest = edges.drop_last();
        let last = edges.last();
        assert forall|i: int, j: int|
            #![trigger rest[i], rest[j]]
            0 <= i < j < rest.len() implies lt(rest[i], rest[j]) by {
            assert(lt(edges[i], edges[j]));
        }
        assert forall|e: EdgeView| #[trigger] edges.contains(e) == (rest.contains(e) || e
            == last) by {
            if edges.contains(e) {
                let k = choose|k: int| 0 <= k < edges.len() && edges[k] == e;
                if k < rest.len() {
                    assert(rest[k] == e);
                }
            }
            if rest.contains(e) {
                let k = choose|k: int| 0 <= k < rest.len() && rest[k] == e;
                assert(edges[k] == e);
            }
            if e == last {
                assert(edges[edges.len() - 1] == e);
            }
        }
        lemma_edge_trichotomy(last, x);
        if edge_lt(last, x) {
            assert forall|i: int, j: int|
                #![trigger out[i], out[j]]
                0 <= i < j < out.len() implies lt(out[i], out[j]) by {
                if j == edges.len() && i < edges.len() - 1 {
                    assert(lt(edges[i], edges[edges.len() - 1]));
                    assert(lt(last, x));
                } else if j < edges.len() {
                    assert(lt(edges[i], edges[j]));
                }
            }
            assert forall|e: EdgeView| #[trigger] out.contains(e) == (e == x || (edges.contains(e)
                && !same_key(e, x))) by {
                if edges.contains(e) {
                    let k = choose|k: int| 0 <= k < edges.len() && edges[k] == e;
                    assert(out[k] == e);
                    if k < edges.len() - 1 {
                        assert(lt(edges[k], edges[edges.len() - 1]));
                        assert(lt(last, x));
                        assert(lt(e, x));
                    }
                    lemma_edge_trichotomy(e, x);
                }
                if e == x {
                    assert(out[edges.len() as int] == e);
                }
                if out.contains(e) {
                    let k = choose|k: int| 0 <= k < out.len() && out[k] == e;
                    if k < edges.len() {
                        assert(edges[k] == e);
                    }
                }
            }
        } else if same_key(last, x) {
            assert forall|i: int, j: int|
                #![trigger out[i], out[j]]
                0 <= i < j < out.len() implies lt(out[i], out[j]) by {
                assert(lt(edges[i], edges[j]));
            }
            assert forall|e: EdgeView| #[trigger] out.contains(e) == (e == x || (edges.contains(e)
                && !same_key(e, x))) by {
                if rest.contains(e) {
                    let k = choose|k: int| 0 <= k < rest.len() && rest[k] == e;
                    assert(out[k] == e);
                    assert(lt(edges[k], edges[edges.len() - 1]));
                    lemma_edge_trichotomy(e, last);
                }
                if e == x {
                    assert(out[edges.len() - 1] == e);
                }
                if out.contains(e) {
                    let k = choose|k: int| 0 <= k < out.len() && out[k] == e;
                    if k < rest.len() {
                        assert(rest[k] == e);
                    }
                }
            }
        } else {
            lemma_with_edge(rest, x);
            let front = with_edge(rest, x);
            assert forall|i: int, j: int|
                #![trigger out[i], out[j]]
                0 <= i < j < out.len() implies lt(out[i], out[j]) by {
                if j < front.len() {
                    assert(lt(front[i], front[j]));
                } else {
                    assert(front.contains(front[i]));
                    if rest.contains(front[i]) {
                        let m = choose|m: int| 0 <= m < rest.len() && rest[m] == front[i];
                        assert(lt(edges[m], edges[edges.len() - 1]));
                    }
                }
            }
            assert forall|e: EdgeView| #[trigger] out.contains(e) == (e == x || (edges.contains(e)
                && !same_key(e, x))) by {
                assert(front.contains(e) == (e == x || (rest.contains(e) && !same_key(e, x))));
                lemma_edge_trichotomy(x, last);
                if front.contains(e) {
                    let k = choose|k: int| 0 <= k < front.len() && front[k] == e;
                    assert(out[k] == e);
                }
                if e == last {
                    assert(out[front.len() as int] == e);
                }
                if out.contains(e) {
                    let k = choose|k: int| 0 <= k < out.len() && out[k] == e;
                    if k < front.len() {
                        assert(front[k] == e);
                    }
                }
            }
        }
    }
}

/// `e` is found, and no edge with its key is found later.
pub open spec fn found_last(found: Seq<EdgeView>, e: EdgeView) -> bool {
    exists|i: int|
        0 <= i < found.len() && #[trigger] found[i] == e && forall|j: int|
            i < j < found.len() ==> !same_key(#[trigger] found[j], e)
}

/// The edges stand by the identifiers of their ends and by kind, none twice, and
/// of those found with one key the last is kept.
pub proof fn law_edges_in_order(found: Seq<EdgeView>)
    ensures
        strictly_sorted(edge_list(found), edge_order()),
        forall|e: EdgeView| #[trigger] edge_list(found).contains(e) == found_last(found, e),
    decreases found.len(),
{
    if found.len() == 0 {
        assert forall|e: EdgeView| #[trigger] edge_list(found).contains(e) == found_last(
            found,
            e,
        ) by {}
    } else {
        let rest = found.drop_last();
        let x = found.last();
        law_edges_in_order(rest);
        lemma_with_edge(edge_list(rest), x);
        assert forall|e: EdgeView| #[trigger] edge_list(found).contains(e) == found_last(
            found,
            e,
        ) by {
            assert(edge_list(rest).contains(e) == found_last(rest, e));
            if found_last(rest, e) && !same_key(e, x) {
                let i = choose|i: int|
                    0 <= i < rest.len() && #[trigger] rest[i] == e && forall|j: int|
                        i < j < rest.len() ==> !same_key(#[trigger] rest[j], e);
                assert(found[i] == e);
                assert forall|j: int| i < j < found.len() implies !same_key(
                    #[trigger] found[j],
                    e,
                ) by {
                    if j < rest.len() {
                        assert(found[j] == rest[j]);
                    }
                }
            }
            if e == x {
                assert(found[found.len() - 1] == e);
            }
            if found_last(found, e) {
                let i = choose|i: int|
                    0 <= i < found.len() && #[trigger] found[i] == e && forall|j: int|
                        i < j < found.len() ==> !same_key(#[trigger] found[j], e);
                if i < rest.len() {
                    assert(rest[i] == e);
                    assert(!same_key(found[found.len() - 1], e));
                    assert forall|j: int| i < j < rest.len() implies !same_key(
                        #[trigger] rest[j],
                        e,
                    ) by {
                        assert(found[j] == rest[j]);
                    }
                }
            }
        }
    }
}

pub proof fn lemma_ingress_edge_found(ingress: Seq<IngressView>, k: int) -> (at: (int, int))
    requires
        0 <= k < ingress_edges(ingress).len(),
    ensures
        0 <= at.0 < ingress.len(),
        0 <= at.1 < ingress[at.0].into.len(),
        ingress_edges(ingress)[k] == ingress_edge(ingress[at.0].name, ingress[at.0].into[at.1]),
        ingress_subjects(ingress).len() == ingress_edges(ingress).len(),
        ingress_subjects(ingress)[k] == subject_of(ingress[at.0].into[at.1]),
    decreases ingress.len(),
{
    let front = ingress_edges(ingress.drop_last());
    let last = ingress.last();
    lemma_ingress_lengths(ingress.drop_last());
    if k < front.len() {
        let at = lemma_ingress_edge_found(ingress.drop_last(), k);
        assert(ingress.drop_last()[at.0] == ingress[at.0]);
        at
    } else {
        (ingress.len() - 1, k - front.len())
    }
}

proof fn lemma_ingress_lengths(ingress: Seq<IngressView>)
    ensures
        ingress_subjects(ingress).len() == ingress_edges(ingress).len(),
    decreases ingress.len(),
{
    if ingress.len() > 0 {
        lemma_ingress_lengths(ingress.drop_last());
    }
}

pub proof fn lemma_egress_edge_found(egress: Seq<EgressView>, k: int) -> (at: (int, int))
    requires
        0 <= k < egress_edges(egress).len(),
    ensures
        0 <= at.0 < egress.len(),
        0 <= at.1 < egress[at.0].triggered_by.len(),
        egress_edges(egress)[k] == egress_edge(egress[at.0].name, egress[at.0].triggered_by[at.1]),
        egress_subjects(egress).len() == egress_edges(egress).len(),
        egress_subjects(egress)[k] == subject_of(egress[at.0].triggered_by[at.1]),
    decreases egress.len(),
{
    let front = egress_edges(egress.drop_last());
    let last = egress.last();
    lemma_egress_lengths(egress.drop_last());
    if k < front.len() {
        let at = lemma_egress_edge_found(egress.drop_last(), k);
        assert(egress.drop_last()[at.0] == egress[at.0]);
        at
    } else {
        (egress.len() - 1, k - front.len())
    }
}

proof fn lemma_egress_lengths(egress: Seq<EgressView>)
    ensures
        egress_subjects(egress).len() == egress_edges(egress).len(),
    decreases egress.len(),
{
    if egress.len() > 0 {
        lemma_egress_lengths(egress.drop_last());
    }
}

proof fn lemma_match_row_found(list: Seq<Seq<SegmentView>>, j: int, n: nat, k: int) -> (i: int)
    requires
        n <= j < list.len(),
        0 <= k < match_row(list, j, n).len(),
    ensures
        0 <= i < n,
        match_row(list, j, n)[k] == match_edge(list[i], list[j]),
        overlap(list[i], list[j]),
    decreases n,
{
    let front = match_row(list, j, (n - 1) as nat);
    if k < front.len() {
        let i = lemma_match_row_found(list, j, (n - 1) as nat, k);
        assert(match_row(list, j, n)[k] == front[k]);
        i
    } else {
        n - 1
    }
}

pub proof fn lemma_match_found(list: Seq<Seq<SegmentView>>, n: nat, k: int) -> (at: (int, int))
    requires
        n <= list.len(),
        0 <= k < match_edges(list, n).len(),
    ensures
        0 <= at.0 < at.1 < n,
        match_edges(list, n)[k] == match_edge(list[at.0], list[at.1]),
        overlap(list[at.0], list[at.1]),
    decreases n,
{
    let front = match_edges(list, (n - 1) as nat);
    if k < front.len() {
        let at = lemma_match_found(list, (n - 1) as nat, k);
        assert(match_edges(list, n)[k] == front[k]);
        at
    } else {
        let i = lemma_match_row_found(list, n - 1, (n - 1) as nat, k - front.len());
        (i, n - 1)
    }
}

proof fn lemma_match_row_has(list: Seq<Seq<SegmentView>>, j: int, n: nat, i: int)
    requires
        0 <= i < n <= j < list.len(),
        overlap(list[i], list[j]),
    ensures
        match_row(list, j, n).contains(match_edge(list[i], list[j])),
    decreases n,
{
    let front = match_row(list, j, (n - 1) as nat);
    let e = match_edge(list[i], list[j]);
    if i < n - 1 {
        lemma_match_row_has(list, j, (n - 1) as nat, i);
        let k = choose|k: int| 0 <= k < front.len() && front[k] == e;
        assert(match_row(list, j, n)[k] == e);
    } else {
        assert(match_row(list, j, n)[front.len() as int] == e);
    }
}

pub proof fn lemma_match_has(list: Seq<Seq<SegmentView>>, n: nat, i: int, j: int)
    requires
        0 <= i < j < n <= list.len(),
        overlap(list[i], list[j]),
    ensures
        match_edges(list, n).contains(match_edge(list[i], list[j])),
    decreases n,
{
    let front = match_edges(list, (n - 1) as nat);
    let row = match_row(list, n - 1, (n - 1) as nat);
    let e = match_edge(list[i], list[j]);
    if j < n - 1 {
        lemma_match_has(list, (n - 1) as nat, i, j);
        let k = choose|k: int| 0 <= k < front.len() && front[k] == e;
        assert(match_edges(list, n)[k] == e);
    } else {
        lemma_match_row_has(list, j, (n - 1) as nat, i);
        let k = choose|k: int| 0 <= k < row.len() && row[k] == e;
        assert(match_edges(list, n)[front.len() + k] == e);
    }
}

/// Every edge of a graph joins two of its nodes.
pub proof fn law_edges_join_nodes(flow: FlowView, e: EdgeView)
    requires
        valid_flow(flow),
        edge_list(found_edges(flow)).contains(e),
    ensures
        flow_nodes(flow).contains(e.from),
        flow_nodes(flow).contains(e.to),
{
    let found = found_edges(flow);
    law_edges_in_order(found);
    assert(found_last(found, e));
    let i = choose|i: int|
        0 <= i < found.len() && #[trigger] found[i] == e && forall|j: int|
            i < j < found.len() ==> !same_key(#[trigger] found[j], e);
    law_node_iff_in_flow(flow, e.from);
    law_node_iff_in_flow(flow, e.to);
    let a = flow.sites.map_values(|s: ResolvedView| site_edge(s));
    let b = ingress_edges(flow.ingress);
    let c = egress_edges(flow.egress);
    let list = subject_list(flow);
    let d = match_edges(list, list.len());
    let of_sites = flow.sites.map_values(|s: ResolvedView| s.subject);
    let crates = flow.sites.map_values(|s: ResolvedView| s.crate_name);
    let names_in = flow.ingress.map_values(|x: IngressView| x.name);
    let names_out = flow.egress.map_values(|x: EgressView| x.name);
    lemma_ingress_lengths(flow.ingress);
    lemma_egress_lengths(flow.egress);
    if i < a.len() {
        assert(services(flow)[i] == crates[i]);
        assert(subjects(flow)[i] == of_sites[i]);
    } else if i < a.len() + b.len() {
        let at = lemma_ingress_edge_found(flow.ingress, i - a.len());
        assert(names_in[at.0] == flow.ingress[at.0].name);
        assert(subjects(flow)[i] == ingress_subjects(flow.ingress)[i - a.len()]);
    } else if i < a.len() + b.len() + c.len() {
        let k = i - a.len() - b.len();
        let at = lemma_egress_edge_found(flow.egress, k);
        assert(names_out[at.0] == flow.egress[at.0].name);
        assert(subjects(flow)[i] == egress_subjects(flow.egress)[k]);
    } else {
        let at = lemma_match_found(list, list.len(), i - a.len() - b.len() - c.len());
        lemma_subjects(flow);
        law_listed(subjects(flow), pattern_order());
        assert(list.contains(list[at.0]) && list.contains(list[at.1]));
    }
}

/// Two subjects are joined by a `Matches` edge exactly when they are different
/// and some concrete subject is accepted by both; the edge goes from the smaller
/// to the larger and has no label.
pub proof fn law_match_iff_overlap(flow: FlowView, p: Seq<SegmentView>, q: Seq<SegmentView>)
    requires
        valid_flow(flow),
    ensures
        edge_list(found_edges(flow)).contains(match_edge(p, q)) == (subjects(flow).contains(p)
            && subjects(flow).contains(q) && lex_lt(render(p), render(q)) && overlap(p, q)),
{
    let found = found_edges(flow);
    let e = match_edge(p, q);
    law_edges_in_order(found);
    let a = flow.sites.map_values(|s: ResolvedView| site_edge(s));
    let b = ingress_edges(flow.ingress);
    let c = egress_edges(flow.egress);
    let list = subject_list(flow);
    let d = match_edges(list, list.len());
    let n = a.len() + b.len() + c.len();
    lemma_subjects(flow);
    law_listed(subjects(flow), pattern_order());
    if edge_list(found).contains(e) {
        assert(found_last(found, e));
        let i = choose|i: int|
            0 <= i < found.len() && #[trigger] found[i] == e && forall|j: int|
                i < j < found.len() ==> !same_key(#[trigger] found[j], e);
        if i < a.len() {
            assert(found[i] == site_edge(flow.sites[i]));
        } else if i < a.len() + b.len() {
            let at = lemma_ingress_edge_found(flow.ingress, i - a.len());
        } else if i < n {
            let at = lemma_egress_edge_found(flow.egress, i - a.len() - b.len());
        } else {
            let at = lemma_match_found(list, list.len(), i - n);
            assert(list.contains(list[at.0]) && list.contains(list[at.1]));
            assert(pattern_order()(list[at.0], list[at.1]));
        }
    }
    if subjects(flow).contains(p) && subjects(flow).contains(q) && lex_lt(render(p), render(q))
        && overlap(p, q) {
        assert(list.contains(p) && list.contains(q));
        let i = choose|i: int| 0 <= i < list.len() && list[i] == p;
        let j = choose|j: int| 0 <= j < list.len() && list[j] == q;
        if j <= i {
            if j < i {
                assert(pattern_order()(list[j], list[i]));
                lemma_lex_transitive(render(p), render(q), render(p));
            }
            lemma_lex_irreflexive(render(p));
        }
        lemma_match_has(list, list.len(), i, j);
        let k = choose|k: int| 0 <= k < d.len() && d[k] == e;
        assert(found[n + k] == e);
        assert forall|m: int|
            n + k < m < found.len() && same_key(#[trigger] found[m], e) implies found[m] == e by {
            let at = lemma_match_found(list, list.len(), m - n);
            assert(list.contains(list[at.0]) && list.contains(list[at.1]));
            lemma_listed_well_formed(flow, list[at.0]);
            lemma_listed_well_formed(flow, list[at.1]);
            lemma_listed_well_formed(flow, p);
            lemma_listed_well_formed(flow, q);
            law_id_identifies(found[m].from, e.from);
            law_id_identifies(found[m].to, e.to);
        }
        lemma_last_with_key(found, n + k, e);
    }
}

proof fn lemma_listed_well_formed(flow: FlowView, p: Seq<SegmentView>)
    requires
        valid_flow(flow),
        subject_list(flow).contains(p),
    ensures
        well_formed(p),
{
    lemma_subjects(flow);
    law_listed(subjects(flow), pattern_order());
    let k = choose|k: int| 0 <= k < subjects(flow).len() && subjects(flow)[k] == p;
    assert(well_formed(subjects(flow)[k]));
}

/// The subjects of a graph stand in order and are well formed.
pub proof fn lemma_subject_list(flow: FlowView)
    requires
        valid_flow(flow),
    ensures
        strictly_sorted(subject_list(flow), pattern_order()),
        forall|i: int|
            0 <= i < subject_list(flow).len() ==> well_formed(#[trigger] subject_list(flow)[i]),
{
    lemma_subjects(flow);
    law_listed(subjects(flow), pattern_order());
    assert forall|i: int| 0 <= i < subject_list(flow).len() implies well_formed(
        #[trigger] subject_list(flow)[i],
    ) by {
        assert(subject_list(flow).contains(subject_list(flow)[i]));
        lemma_listed_well_formed(flow, subject_list(flow)[i]);
    }
}

/// Of the edges found with the key of an edge without a label of its own, each
/// is that edge; so the last of them is.
pub proof fn lemma_last_with_key(found: Seq<EdgeView>, i: int, e: EdgeView)
    requires
        0 <= i < found.len(),
        found[i] == e,
        forall|j: int| i < j < found.len() && same_key(#[trigger] found[j], e) ==> found[j] == e,
    ensures
        found_last(found, e),
    decreases found.len() - i,
{
    if exists|j: int| i < j < found.len() && same_key(#[trigger] found[j], e) {
        let j = choose|j: int| i < j < found.len() && same_key(#[trigger] found[j], e);
        lemma_last_with_key(found, j, e);
    } else {
        assert(found[i] == e);
    }
}

/// The publish and consume edges are those of the call sites. Where several call
/// sites of a crate consume one subject, the last one gives the label.
pub proof fn law_call_edge_iff_site(flow: FlowView, e: EdgeView)
    requires
        e.kind == EdgeKind::Publish || e.kind == EdgeKind::Consume,
    ensures
        edge_list(found_edges(flow)).contains(e) == found_last(
            flow.sites.map_values(|s: ResolvedView| site_edge(s)),
            e,
        ),
{
    let found = found_edges(flow);
    let a = flow.sites.map_values(|s: ResolvedView| site_edge(s));
    law_edges_in_order(found);
    assert forall|m: int| a.len() <= m < found.len() implies (#[trigger] found[m]).kind
        != e.kind by {
        lemma_declared_edge(flow, m);
    }
    if found_last(found, e) {
        let i = choose|i: int|
            0 <= i < found.len() && #[trigger] found[i] == e && forall|j: int|
                i < j < found.len() ==> !same_key(#[trigger] found[j], e);
        assert(i < a.len());
        assert(a[i] == e);
        assert forall|j: int| i < j < a.len() implies !same_key(#[trigger] a[j], e) by {
            assert(found[j] == a[j]);
        }
    }
    if found_last(a, e) {
        let i = choose|i: int|
            0 <= i < a.len() && #[trigger] a[i] == e && forall|j: int|
                i < j < a.len() ==> !same_key(#[trigger] a[j], e);
        assert(found[i] == e);
        assert forall|j: int| i < j < found.len() implies !same_key(#[trigger] found[j], e) by {
            if j < a.len() {
                assert(found[j] == a[j]);
            }
        }
    }
}

proof fn lemma_declared_edge(flow: FlowView, m: int)
    requires
        flow.sites.len() <= m < found_edges(flow).len(),
    ensures
        found_edges(flow)[m].kind != EdgeKind::Publish,
        found_edges(flow)[m].kind != EdgeKind::Consume,
{
    let a = flow.sites.map_values(|s: ResolvedView| site_edge(s));
    let b = ingress_edges(flow.ingress);
    let c = egress_edges(flow.egress);
    let list = subject_list(flow);
    if m < a.len() + b.len() {
        let at = lemma_ingress_edge_found(flow.ingress, m - a.len());
    } else if m < a.len() + b.len() + c.len() {
        let at = lemma_egress_edge_found(flow.egress, m - a.len() - b.len());
    } else {
        let at = lemma_match_found(list, list.len(), m - a.len() - b.len() - c.len());
    }
}

// ---------------------------------------------------------------------
// reports
// ---------------------------------------------------------------------

/// Whatever the inputs, the subjects of the flow are patterns: so all that holds
/// of valid flows holds of every graph that is built.
pub proof fn law_inputs_give_a_valid_flow(inputs: InputsView, entries: Seq<EntryView>)
    ensures
        valid_flow(inputs_flow(inputs, entries)),
{
    let flow = inputs_flow(inputs, entries);
    assert forall|i: int| 0 <= i < flow.sites.len() implies well_formed(
        #[trigger] flow.sites[i].subject,
    ) by {
        let s = inputs.call_sites[i];
        lemma_subject_of(
            rendered(site_outcome(s.1.subject_expr, inputs, entries, s.0, s.1)),
        );
    }
}

/// The source declares the pattern, and nothing in the code subscribes to
/// anything that overlaps it.
pub open spec fn unread_source(flow: FlowView, name: Seq<char>, pattern: Seq<char>) -> bool {
    exists|i: int, k: int|
        #![trigger flow.ingress[i].into[k]]
        0 <= i < flow.ingress.len() && 0 <= k < flow.ingress[i].into.len() && flow.ingress[i].name
            == name && render(subject_of(flow.ingress[i].into[k])) == pattern && !observed(
            flow.sites,
            CallKind::Subscribe,
            subject_of(flow.ingress[i].into[k]),
        )
}

/// The sink declares the pattern, and nothing in the code publishes anything
/// that overlaps it.
pub open spec fn silent_sink(flow: FlowView, name: Seq<char>, pattern: Seq<char>) -> bool {
    exists|i: int, k: int|
        #![trigger flow.egress[i].triggered_by[k]]
        0 <= i < flow.egress.len() && 0 <= k < flow.egress[i].triggered_by.len()
            && flow.egress[i].name == name && render(subject_of(flow.egress[i].triggered_by[k]))
            == pattern && !observed(
            flow.sites,
            CallKind::Publish,
            subject_of(flow.egress[i].triggered_by[k]),
        )
}

/// The crate has a call of the kind with that subject, which is known, and no
/// call of the other kind with a known subject overlaps it.
pub open spec fn lonely_call(
    flow: FlowView,
    kind: CallKind,
    crate_name: Seq<char>,
    subject: Seq<char>,
) -> bool {
    exists|i: int|
        0 <= i < flow.sites.len() && (#[trigger] flow.sites[i]).kind == kind
            && flow.sites[i].crate_name == crate_name && render(flow.sites[i].subject) == subject
            && flow.sites[i].subject != unknown_subject() && !served(
            flow.sites,
            counterpart(kind),
            flow.sites[i].subject,
        )
}

proof fn lemma_ingress_row(sites: Seq<ResolvedView>, x: IngressView, n: nat, r: ReportView)
    requires
        n <= x.into.len(),
    ensures
        orphan_ingress_row(sites, x, n).contains(r) == exists|k: int|
            0 <= k < n && r == (ReportView::OrphanIngress {
                ingress_name: x.name,
                pattern: render(subject_of(#[trigger] x.into[k])),
            }) && !observed(sites, CallKind::Subscribe, subject_of(x.into[k])),
    decreases n,
{
    if n > 0 {
        let p = subject_of(x.into[n - 1]);
        let front = orphan_ingress_row(sites, x, (n - 1) as nat);
        lemma_ingress_row(sites, x, (n - 1) as nat, r);
        lemma_contains_push(
            front,
            ReportView::OrphanIngress { ingress_name: x.name, pattern: render(p) },
            r,
        );
        assert(x.into[n - 1] == x.into[n - 1]);
    }
}

proof fn lemma_orphan_ingress(
    sites: Seq<ResolvedView>,
    ingress: Seq<IngressView>,
    n: nat,
    r: ReportView,
)
    requires
        n <= ingress.len(),
    ensures
        orphan_ingress(sites, ingress, n).contains(r) == exists|i: int, k: int|
            #![trigger ingress[i].into[k]]
            0 <= i < n && 0 <= k < ingress[i].into.len() && r == (ReportView::OrphanIngress {
                ingress_name: ingress[i].name,
                pattern: render(subject_of(ingress[i].into[k])),
            }) && !observed(sites, CallKind::Subscribe, subject_of(ingress[i].into[k])),
    decreases n,
{
    if n > 0 {
        let x = ingress[n - 1];
        lemma_orphan_ingress(sites, ingress, (n - 1) as nat, r);
        lemma_ingress_row(sites, x, x.into.len(), r);
        lemma_contains_add(
            orphan_ingress(sites, ingress, (n - 1) as nat),
            orphan_ingress_row(sites, x, x.into.len()),
            r,
        );
        if orphan_ingress_row(sites, x, x.into.len()).contains(r) {
            let k = choose|k: int|
                0 <= k < x.into.len() && r == (ReportView::OrphanIngress {
                    ingress_name: x.name,
                    pattern: render(subject_of(#[trigger] x.into[k])),
                }) && !observed(sites, CallKind::Subscribe, subject_of(x.into[k]));
            assert(ingress[n - 1].into[k] == x.into[k]);
        }
    }
}

proof fn lemma_egress_row(sites: Seq<ResolvedView>, x: EgressView, n: nat, r: ReportView)
    requires
        n <= x.triggered_by.len(),
    ensures
        orphan_egress_row(sites, x, n).contains(r) == exists|k: int|
            0 <= k < n && r == (ReportView::OrphanEgress {
                egress_name: x.name,
                pattern: render(subject_of(#[trigger] x.triggered_by[k])),
            }) && !observed(sites, CallKind::Publish, subject_of(x.triggered_by[k])),
    decreases n,
{
    if n > 0 {
        let p = subject_of(x.triggered_by[n - 1]);
        let front = orphan_egress_row(sites, x, (n - 1) as nat);
        lemma_egress_row(sites, x, (n - 1) as nat, r);
        lemma_contains_push(
            front,
            ReportView::OrphanEgress { egress_name: x.name, pattern: render(p) },
            r,
        );
        assert(x.triggered_by[n - 1] == x.triggered_by[n - 1]);
    }
}

proof fn lemma_orphan_egress(
    sites: Seq<ResolvedView>,
    egress: Seq<EgressView>,
    n: nat,
    r: ReportView,
)
    requires
        n <= egress.len(),
    ensures
        orphan_egress(sites, egress, n).contains(r) == exists|i: int, k: int|
            #![trigger egress[i].triggered_by[k]]
            0 <= i < n && 0 <= k < egress[i].triggered_by.len() && r == (ReportView::OrphanEgress {
                egress_name: egress[i].name,
                pattern: render(subject_of(egress[i].triggered_by[k])),
            }) && !observed(sites, CallKind::Publish, subject_of(egress[i].triggered_by[k])),
    decreases n,
{
    if n > 0 {
        let x = egress[n - 1];
        lemma_orphan_egress(sites, egress, (n - 1) as nat, r);
        lemma_egress_row(sites, x, x.triggered_by.len(), r);
        lemma_contains_add(
            orphan_egress(sites, egress, (n - 1) as nat),
            orphan_egress_row(sites, x, x.triggered_by.len()),
            r,
        );
        if orphan_egress_row(sites, x, x.triggered_by.len()).contains(r) {
            let k = choose|k: int|
                0 <= k < x.triggered_by.len() && r == (ReportView::OrphanEgress {
                    egress_name: x.name,
                    pattern: render(subject_of(#[trigger] x.triggered_by[k])),
                }) && !observed(sites, CallKind::Publish, subject_of(x.triggered_by[k]));
            assert(egress[n - 1].triggered_by[k] == x.triggered_by[k]);
        }
    }
}

/// The report on a call that has no counterpart.
pub open spec fn lonely_report(
    kind: CallKind,
    crate_name: Seq<char>,
    subject: Seq<char>,
) -> ReportView {
    match kind {
        CallKind::Publish => ReportView::OrphanPublisher { crate_name, subject },
        CallKind::Subscribe => ReportView::OrphanConsumer { crate_name, subject },
    }
}

pub proof fn lemma_orphan_sites_sound(
    sites: Seq<ResolvedView>,
    kind: CallKind,
    n: nat,
    r: ReportView,
) -> (i: int)
    requires
        n <= sites.len(),
        orphan_sites(sites, kind, n).contains(r),
    ensures
        0 <= i < n,
        sites[i].kind == kind,
        sites[i].subject != unknown_subject(),
        !served(sites, counterpart(kind), sites[i].subject),
        r == lonely_report(kind, sites[i].crate_name, render(sites[i].subject)),
    decreases n,
{
    if n == 0 {
        0
    } else {
        let front = orphan_sites(sites, kind, (n - 1) as nat);
        lemma_contains_add(front, orphan_site(sites, kind, n - 1), r);
        if front.contains(r) {
            lemma_orphan_sites_sound(sites, kind, (n - 1) as nat, r)
        } else {
            n - 1
        }
    }
}

pub proof fn lemma_orphan_sites_complete(sites: Seq<ResolvedView>, kind: CallKind, n: nat, i: int)
    requires
        0 <= i < n <= sites.len(),
        sites[i].kind == kind,
        sites[i].subject != unknown_subject(),
        !served(sites, counterpart(kind), sites[i].subject),
    ensures
        orphan_sites(sites, kind, n).contains(
            lonely_report(kind, sites[i].crate_name, render(sites[i].subject)),
        ),
    decreases i, n,
{
    let r = lonely_report(kind, sites[i].crate_name, render(sites[i].subject));
    let front = orphan_sites(sites, kind, (n - 1) as nat);
    lemma_contains_add(front, orphan_site(sites, kind, n - 1), r);
    if seen_before(sites, i) {
        let j = choose|j: int|
            0 <= j < i && (#[trigger] sites[j]).kind == sites[i].kind && sites[j].crate_name
                == sites[i].crate_name && sites[j].subject == sites[i].subject;
        lemma_orphan_sites_complete(sites, kind, n, j);
    } else if i < n - 1 {
        lemma_orphan_sites_complete(sites, kind, (n - 1) as nat, i);
    } else {
        assert(orphan_site(sites, kind, i)[0] == r);
    }
}

proof fn lemma_no_note(sites: Seq<ResolvedView>, kind: CallKind, n: nat, r: ReportView)
    requires
        n <= sites.len(),
        !(r is UnresolvedSubjectCoverage),
    ensures
        !coverage_notes(sites, kind, n).contains(r),
    decreases n,
{
    if n > 0 {
        lemma_no_note(sites, kind, (n - 1) as nat, r);
        lemma_contains_add(
            coverage_notes(sites, kind, (n - 1) as nat),
            coverage_note(sites, kind, n - 1),
            r,
        );
    }
}

proof fn lemma_orphan_parts(flow: FlowView, r: ReportView)
    ensures
        orphan_reports(flow).contains(r) == ({
            let n = flow.sites.len();
            ||| orphan_ingress(flow.sites, flow.ingress, flow.ingress.len()).contains(r)
            ||| orphan_egress(flow.sites, flow.egress, flow.egress.len()).contains(r)
            ||| orphan_sites(flow.sites, CallKind::Publish, n).contains(r)
            ||| orphan_sites(flow.sites, CallKind::Subscribe, n).contains(r)
            ||| coverage_notes(flow.sites, CallKind::Publish, n).contains(r)
            ||| coverage_notes(flow.sites, CallKind::Subscribe, n).contains(r)
        }),
{
    let n = flow.sites.len();
    let a = orphan_ingress(flow.sites, flow.ingress, flow.ingress.len());
    let b = orphan_egress(flow.sites, flow.egress, flow.egress.len());
    let c = orphan_sites(flow.sites, CallKind::Publish, n);
    let d = orphan_sites(flow.sites, CallKind::Subscribe, n);
    let e = coverage_notes(flow.sites, CallKind::Publish, n);
    let f = coverage_notes(flow.sites, CallKind::Subscribe, n);
    lemma_contains_add(a, b, r);
    lemma_contains_add(a + b, c, r);
    lemma_contains_add(a + b + c, d, r);
    lemma_contains_add(a + b + c + d, e, r);
    lemma_contains_add(a + b + c + d + e, f, r);
}

/// A source is reported for a declared pattern exactly when nothing in the code
/// subscribes to anything that overlaps it.
pub proof fn law_orphan_ingress_iff_unread(flow: FlowView, name: Seq<char>, pattern: Seq<char>)
    ensures
        orphan_reports(flow).contains(ReportView::OrphanIngress { ingress_name: name, pattern })
            == unread_source(flow, name, pattern),
{
    let r = ReportView::OrphanIngress { ingress_name: name, pattern };
    lemma_orphan_parts(flow, r);
    lemma_orphan_ingress(flow.sites, flow.ingress, flow.ingress.len(), r);
    lemma_orphan_egress(flow.sites, flow.egress, flow.egress.len(), r);
    lemma_no_note(flow.sites, CallKind::Publish, flow.sites.len(), r);
    lemma_no_note(flow.sites, CallKind::Subscribe, flow.sites.len(), r);
    if orphan_sites(flow.sites, CallKind::Publish, flow.sites.len()).contains(r) {
        let i = lemma_orphan_sites_sound(flow.sites, CallKind::Publish, flow.sites.len(), r);
    }
    if orphan_sites(flow.sites, CallKind::Subscribe, flow.sites.len()).contains(r) {
        let i = lemma_orphan_sites_sound(flow.sites, CallKind::Subscribe, flow.sites.len(), r);
    }
}

/// A sink is reported for a declared pattern exactly when nothing in the code
/// publishes anything that overlaps it.
pub proof fn law_orphan_egress_iff_silent(flow: FlowView, name: Seq<char>, pattern: Seq<char>)
    ensures
        orphan_reports(flow).contains(ReportView::OrphanEgress { egress_name: name, pattern })
            == silent_sink(flow, name, pattern),
{
    let r = ReportView::OrphanEgress { egress_name: name, pattern };
    lemma_orphan_parts(flow, r);
    lemma_orphan_ingress(flow.sites, flow.ingress, flow.ingress.len(), r);
    lemma_orphan_egress(flow.sites, flow.egress, flow.egress.len(), r);
    lemma_no_note(flow.sites, CallKind::Publish, flow.sites.len(), r);
    lemma_no_note(flow.sites, CallKind::Subscribe, flow.sites.len(), r);
    if orphan_sites(flow.sites, CallKind::Publish, flow.sites.len()).contains(r) {
        let i = lemma_orphan_sites_sound(flow.sites, CallKind::Publish, flow.sites.len(), r);
    }
    if orphan_sites(flow.sites, CallKind::Subscribe, flow.sites.len()).contains(r) {
        let i = lemma_orphan_sites_sound(flow.sites, CallKind::Subscribe, flow.sites.len(), r);
    }
}

/// A crate is reported for a subject that it publishes, or consumes, exactly
/// when the subject is known and no known counterpart overlaps it. A call whose
/// subject is not known is neither reported nor a counterpart.
pub proof fn law_orphan_call_iff_lonely(
    flow: FlowView,
    kind: CallKind,
    crate_name: Seq<char>,
    subject: Seq<char>,
)
    ensures
        orphan_reports(flow).contains(lonely_report(kind, crate_name, subject)) == lonely_call(
            flow,
            kind,
            crate_name,
            subject,
        ),
{
    let r = lonely_report(kind, crate_name, subject);
    let n = flow.sites.len();
    lemma_orphan_parts(flow, r);
    lemma_orphan_ingress(flow.sites, flow.ingress, flow.ingress.len(), r);
    lemma_orphan_egress(flow.sites, flow.egress, flow.egress.len(), r);
    lemma_no_note(flow.sites, CallKind::Publish, n, r);
    lemma_no_note(flow.sites, CallKind::Subscribe, n, r);
    if orphan_sites(flow.sites, CallKind::Publish, n).contains(r) {
        let i = lemma_orphan_sites_sound(flow.sites, CallKind::Publish, n, r);
        assert(kind == CallKind::Publish);
    }
    if orphan_sites(flow.sites, CallKind::Subscribe, n).contains(r) {
        let i = lemma_orphan_sites_sound(flow.sites, CallKind::Subscribe, n, r);
        assert(kind == CallKind::Subscribe);
    }
    if lonely_call(flow, kind, crate_name, subject) {
        let i = choose|i: int|
            0 <= i < flow.sites.len() && (#[trigger] flow.sites[i]).kind == kind
                && flow.sites[i].crate_name == crate_name && render(flow.sites[i].subject)
                == subject && flow.sites[i].subject != unknown_subject() && !served(
                flow.sites,
                counterpart(kind),
                flow.sites[i].subject,
            );
        lemma_orphan_sites_complete(flow.sites, kind, n, i);
    }
}

} // verus!
