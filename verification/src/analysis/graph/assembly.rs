//! From resolved call sites and declared sources and sinks to the graph.

use super::laws::lemma_subject_list;
use super::matches::add_matches_edges;
use super::{Egress, EgressView, Ingress, IngressView};
use crate::analysis::callsite::CallKind;
use crate::model::pattern::{
    law_parsed_renders_back, law_rendered_parses_back, legal_char, overlap, parsed, render,
    well_formed, NatsPattern, ParseErrorView, SegmentView,
};
use crate::model::{
    id_prefix, kind_rank, node_id, node_label, valid_node, Edge, EdgeKind, EdgeView, Graph,
    GraphView, Node, NodeView,
};
use crate::order::{listed, with_element};
use crate::text::{
    chars_of, has_prefix, lex_lt, same_text, starts_with, string_of, text_lt,
};
use vstd::prelude::*;

verus! {

// ---------------------------------------------------------------------
// what goes in
// ---------------------------------------------------------------------

/// A call site with its subject resolved.
#[derive(Debug)]
pub struct ResolvedSite {
    /// Crate of the call.
    pub crate_name: String,
    /// The subject.
    pub subject: NatsPattern,
    /// Publish or subscribe.
    pub kind: CallKind,
    /// Name of the durable consumer, if the call gives one.
    pub consumer_name: Option<String>,
}

/// The model of a [`ResolvedSite`].
pub struct ResolvedView {
    pub crate_name: Seq<char>,
    pub subject: Seq<SegmentView>,
    pub kind: CallKind,
    pub consumer_name: Option<Seq<char>>,
}

impl DeepView for ResolvedSite {
    type V = ResolvedView;

    open spec fn deep_view(&self) -> ResolvedView {
        ResolvedView {
            crate_name: self.crate_name@,
            subject: self.subject@,
            kind: self.kind,
            consumer_name: self.consumer_name.deep_view(),
        }
    }
}

/// Everything that flows: the call sites, and the declared sources and sinks.
pub struct FlowView {
    pub sites: Seq<ResolvedView>,
    pub ingress: Seq<IngressView>,
    pub egress: Seq<EgressView>,
}

/// The subjects of the call sites are patterns.
pub open spec fn valid_flow(flow: FlowView) -> bool {
    forall|i: int| 0 <= i < flow.sites.len() ==> well_formed(#[trigger] flow.sites[i].subject)
}

/// The pattern that stands for a subject which is not known.
pub open spec fn unknown_subject() -> Seq<SegmentView> {
    seq![SegmentView::Literal(seq!['?'])]
}

/// The pattern that a text denotes; `?` if it denotes none.
pub open spec fn subject_of(raw: Seq<char>) -> Seq<SegmentView> {
    match parsed(raw) {
        Ok(p) => p,
        Err(_) => unknown_subject(),
    }
}

/// Whatever the text, its subject is a pattern.
pub proof fn lemma_subject_of(raw: Seq<char>)
    ensures
        well_formed(subject_of(raw)),
{
    law_parsed_renders_back(raw);
    lemma_unknown_subject();
}

proof fn lemma_unknown_subject()
    ensures
        well_formed(unknown_subject()),
        render(unknown_subject()) == seq!['?'],
        parsed(seq!['?']) == Ok::<Seq<SegmentView>, ParseErrorView>(unknown_subject()),
{
    let p = unknown_subject();
    assert(legal_char('?'));
    assert(p[0] == SegmentView::Literal(seq!['?']));
    assert(render(p) =~= seq!['?']);
    law_rendered_parses_back(p);
}

/// The pattern that a text denotes; `?` if it denotes none.
pub fn parse_subject_silent(raw: &str) -> (out: NatsPattern)
    ensures
        out@ == subject_of(raw@),
{
    match NatsPattern::parse(raw) {
        Ok(p) => p,
        Err(_) => fallback_pattern(),
    }
}

/// The pattern `?`.
pub fn fallback_pattern() -> (out: NatsPattern)
    ensures
        out@ == unknown_subject(),
{
    proof {
        reveal_strlit("?");
        assert("?"@ =~= seq!['?']);
        lemma_unknown_subject();
    }
    NatsPattern::parse("?").unwrap()
}

// ---------------------------------------------------------------------
// identifiers
// ---------------------------------------------------------------------

/// The node that an identifier names: the prefix tells its kind, and the rest is
/// its label. A text without one of the prefixes is taken for a subject.
pub open spec fn node_of_id(id: Seq<char>) -> NodeView {
    if has_prefix(id, seq!['s', 'v', 'c', ':']) {
        NodeView::Service(id.skip(4))
    } else if has_prefix(id, seq!['s', 'u', 'b', ':']) {
        NodeView::Subject(subject_of(id.skip(4)))
    } else if has_prefix(id, seq!['i', 'n', 'g', ':']) {
        NodeView::Ingress(id.skip(4))
    } else if has_prefix(id, seq!['e', 'g', ':']) {
        NodeView::Egress(id.skip(3))
    } else {
        NodeView::Subject(subject_of(id))
    }
}

/// The identifier of a node names that node.
pub proof fn law_id_names_its_node(n: NodeView)
    requires
        valid_node(n),
    ensures
        node_of_id(node_id(n)) == n,
{
    let id = node_id(n);
    let k = id_prefix(n).len() as int;
    assert(id.take(k) =~= id_prefix(n));
    assert(id.skip(k) =~= node_label(n));
    assert(id[0] == id_prefix(n)[0] && id[1] == id_prefix(n)[1]);
    if has_prefix(id, seq!['s', 'v', 'c', ':']) {
        assert(id.take(4)[0] == 's' && id.take(4)[1] == 'v');
    } else if has_prefix(id, seq!['s', 'u', 'b', ':']) {
        assert(id.take(4)[0] == 's' && id.take(4)[1] == 'u');
    } else if has_prefix(id, seq!['i', 'n', 'g', ':']) {
        assert(id.take(4)[0] == 'i');
    } else if has_prefix(id, seq!['e', 'g', ':']) {
        assert(id.take(3)[0] == 'e');
    }
    if let NodeView::Subject(p) = n {
        law_rendered_parses_back(p);
    }
}

/// What follows the prefix, if the text begins with it.
fn after_prefix(id: &[char], prefix: &str) -> (out: Option<String>)
    ensures
        out is Some == has_prefix(id@, prefix@),
        out matches Some(rest) ==> rest@ == id@.skip(prefix@.len() as int),
{
    let p = chars_of(prefix);
    if starts_with(id, &p) {
        let rest = vstd::slice::slice_subrange(id, p.len(), id.len());
        Some(string_of(rest))
    } else {
        None
    }
}

/// The node that an identifier names.
#[must_use]
pub fn node_from_id(id: &str) -> (out: Node)
    ensures
        out.deep_view() == node_of_id(id@),
{
    proof {
        reveal_strlit("svc:");
        reveal_strlit("sub:");
        reveal_strlit("ing:");
        reveal_strlit("eg:");
        assert("svc:"@ =~= seq!['s', 'v', 'c', ':']);
        assert("sub:"@ =~= seq!['s', 'u', 'b', ':']);
        assert("ing:"@ =~= seq!['i', 'n', 'g', ':']);
        assert("eg:"@ =~= seq!['e', 'g', ':']);
    }
    let chars = chars_of(id);
    if let Some(rest) = after_prefix(&chars, "svc:") {
        return Node::Service(rest);
    }
    if let Some(rest) = after_prefix(&chars, "sub:") {
        return Node::Subject(parse_subject_silent(rest.as_str()));
    }
    if let Some(rest) = after_prefix(&chars, "ing:") {
        return Node::Ingress(rest);
    }
    if let Some(rest) = after_prefix(&chars, "eg:") {
        return Node::Egress(rest);
    }
    Node::Subject(parse_subject_silent(id))
}

// ---------------------------------------------------------------------
// nodes
// ---------------------------------------------------------------------

/// The crates that own a source.
pub open spec fn ingress_crates(ingress: Seq<IngressView>) -> Seq<Seq<char>>
    decreases ingress.len(),
{
    if ingress.len() == 0 {
        Seq::empty()
    } else {
        let front = ingress_crates(ingress.drop_last());
        match ingress.last().crate_name {
            Some(c) => front.push(c),
            None => front,
        }
    }
}

/// The services: the crates of call sites, of sources and of sinks.
pub open spec fn services(flow: FlowView) -> Seq<Seq<char>> {
    flow.sites.map_values(|s: ResolvedView| s.crate_name) + ingress_crates(flow.ingress)
        + flow.egress.map_values(|e: EgressView| e.from_crate)
}

/// The subjects that sources feed.
pub open spec fn ingress_subjects(ingress: Seq<IngressView>) -> Seq<Seq<SegmentView>>
    decreases ingress.len(),
{
    if ingress.len() == 0 {
        Seq::empty()
    } else {
        ingress_subjects(ingress.drop_last()) + ingress.last().into.map_values(
            |raw: Seq<char>| subject_of(raw),
        )
    }
}

/// The subjects that trigger sinks.
pub open spec fn egress_subjects(egress: Seq<EgressView>) -> Seq<Seq<SegmentView>>
    decreases egress.len(),
{
    if egress.len() == 0 {
        Seq::empty()
    } else {
        egress_subjects(egress.drop_last()) + egress.last().triggered_by.map_values(
            |raw: Seq<char>| subject_of(raw),
        )
    }
}

/// The subjects: those of call sites, of sources and of sinks.
pub open spec fn subjects(flow: FlowView) -> Seq<Seq<SegmentView>> {
    flow.sites.map_values(|s: ResolvedView| s.subject) + ingress_subjects(flow.ingress)
        + egress_subjects(flow.egress)
}

/// The order of texts.
pub open spec fn text_order() -> spec_fn(Seq<char>, Seq<char>) -> bool {
    |a: Seq<char>, b: Seq<char>| lex_lt(a, b)
}

/// The order of patterns.
pub open spec fn pattern_order() -> spec_fn(Seq<SegmentView>, Seq<SegmentView>) -> bool {
    |a: Seq<SegmentView>, b: Seq<SegmentView>| lex_lt(render(a), render(b))
}

/// The subjects in order, each once.
pub open spec fn subject_list(flow: FlowView) -> Seq<Seq<SegmentView>> {
    listed(subjects(flow), pattern_order())
}

/// The nodes: services, subjects, sources and sinks, each kind in order, each
/// node once.
pub open spec fn flow_nodes(flow: FlowView) -> Seq<NodeView> {
    listed(services(flow), text_order()).map_values(|s: Seq<char>| NodeView::Service(s))
        + subject_list(flow).map_values(|p: Seq<SegmentView>| NodeView::Subject(p)) + listed(
        flow.ingress.map_values(|i: IngressView| i.name),
        text_order(),
    ).map_values(|s: Seq<char>| NodeView::Ingress(s)) + listed(
        flow.egress.map_values(|e: EgressView| e.name),
        text_order(),
    ).map_values(|s: Seq<char>| NodeView::Egress(s))
}

// ---------------------------------------------------------------------
// edges
// ---------------------------------------------------------------------

/// The edge of a call site: from the service to the subject it publishes, or
/// from the subject to the service that consumes it, labelled with the name of
/// the consumer.
pub open spec fn site_edge(s: ResolvedView) -> EdgeView {
    match s.kind {
        CallKind::Publish => EdgeView {
            from: NodeView::Service(s.crate_name),
            to: NodeView::Subject(s.subject),
            kind: EdgeKind::Publish,
            label: None,
        },
        CallKind::Subscribe => EdgeView {
            from: NodeView::Subject(s.subject),
            to: NodeView::Service(s.crate_name),
            kind: EdgeKind::Consume,
            label: s.consumer_name,
        },
    }
}

/// The edge from a source to a subject.
pub open spec fn ingress_edge(name: Seq<char>, raw: Seq<char>) -> EdgeView {
    EdgeView {
        from: NodeView::Ingress(name),
        to: NodeView::Subject(subject_of(raw)),
        kind: EdgeKind::Ingress,
        label: None,
    }
}

/// The edge from a subject to a sink.
pub open spec fn egress_edge(name: Seq<char>, raw: Seq<char>) -> EdgeView {
    EdgeView {
        from: NodeView::Subject(subject_of(raw)),
        to: NodeView::Egress(name),
        kind: EdgeKind::Egress,
        label: None,
    }
}

pub open spec fn ingress_edges(ingress: Seq<IngressView>) -> Seq<EdgeView>
    decreases ingress.len(),
{
    if ingress.len() == 0 {
        Seq::empty()
    } else {
        let last = ingress.last();
        ingress_edges(ingress.drop_last()) + last.into.map_values(
            |raw: Seq<char>| ingress_edge(last.name, raw),
        )
    }
}

pub open spec fn egress_edges(egress: Seq<EgressView>) -> Seq<EdgeView>
    decreases egress.len(),
{
    if egress.len() == 0 {
        Seq::empty()
    } else {
        let last = egress.last();
        egress_edges(egress.drop_last()) + last.triggered_by.map_values(
            |raw: Seq<char>| egress_edge(last.name, raw),
        )
    }
}

/// The edge between two subjects that overlap.
pub open spec fn match_edge(p: Seq<SegmentView>, q: Seq<SegmentView>) -> EdgeView {
    EdgeView {
        from: NodeView::Subject(p),
        to: NodeView::Subject(q),
        kind: EdgeKind::Matches,
        label: None,
    }
}

/// The edges between the `j`-th pattern and those of the first `n` that it
/// overlaps.
pub open spec fn match_row(list: Seq<Seq<SegmentView>>, j: int, n: nat) -> Seq<EdgeView>
    decreases n,
{
    if n == 0 {
        Seq::empty()
    } else {
        let front = match_row(list, j, (n - 1) as nat);
        if overlap(list[n - 1], list[j]) {
            front.push(match_edge(list[n - 1], list[j]))
        } else {
            front
        }
    }
}

/// The edges between any two of the first `n` patterns that overlap, from the
/// earlier to the later.
pub open spec fn match_edges(list: Seq<Seq<SegmentView>>, n: nat) -> Seq<EdgeView>
    decreases n,
{
    if n == 0 {
        Seq::empty()
    } else {
        match_edges(list, (n - 1) as nat) + match_row(list, n - 1, (n - 1) as nat)
    }
}

/// Everything that is an edge, in the order in which it is found.
pub open spec fn found_edges(flow: FlowView) -> Seq<EdgeView> {
    flow.sites.map_values(|s: ResolvedView| site_edge(s)) + ingress_edges(flow.ingress)
        + egress_edges(flow.egress) + match_edges(subject_list(flow), subject_list(flow).len())
}

/// Two edges of one kind between the same nodes.
pub open spec fn same_key(a: EdgeView, b: EdgeView) -> bool {
    node_id(a.from) == node_id(b.from) && node_id(a.to) == node_id(b.to) && a.kind == b.kind
}

/// The order of edges: by the identifiers of their ends, then by kind.
pub open spec fn edge_lt(a: EdgeView, b: EdgeView) -> bool {
    ||| lex_lt(node_id(a.from), node_id(b.from))
    ||| node_id(a.from) == node_id(b.from) && lex_lt(node_id(a.to), node_id(b.to))
    ||| node_id(a.from) == node_id(b.from) && node_id(a.to) == node_id(b.to) && kind_rank(a.kind)
        < kind_rank(b.kind)
}

pub open spec fn edge_order() -> spec_fn(EdgeView, EdgeView) -> bool {
    |a: EdgeView, b: EdgeView| edge_lt(a, b)
}

/// The edges with `e` at its place, instead of the one with its key if there is
/// one.
pub open spec fn with_edge(edges: Seq<EdgeView>, e: EdgeView) -> Seq<EdgeView>
    decreases edges.len(),
{
    if edges.len() == 0 || edge_lt(edges.last(), e) {
        edges.push(e)
    } else if same_key(edges.last(), e) {
        edges.drop_last().push(e)
    } else {
        with_edge(edges.drop_last(), e).push(edges.last())
    }
}

/// The edges in order, one for each key: the one found last.
pub open spec fn edge_list(found: Seq<EdgeView>) -> Seq<EdgeView>
    decreases found.len(),
{
    if found.len() == 0 {
        Seq::empty()
    } else {
        with_edge(edge_list(found.drop_last()), found.last())
    }
}

/// The graph of a flow.
pub open spec fn flow_graph(flow: FlowView) -> GraphView {
    GraphView { nodes: flow_nodes(flow), edges: edge_list(found_edges(flow)) }
}

// ---------------------------------------------------------------------
// building
// ---------------------------------------------------------------------

fn insert_text(list: &mut Vec<String>, x: &str)
    ensures
        final(list).deep_view() == with_element(old(list).deep_view(), x@, text_order()),
{
    let ghost all = list.deep_view();
    let mut n: usize = list.len();
    assert(all.take(n as int) =~= all);
    assert(with_element(all.take(n as int), x@, text_order()) + all.skip(n as int)
        =~= with_element(all, x@, text_order()));
    while n > 0 && !text_lt(list[n - 1].as_str(), x)
        invariant
            n <= list.len(),
            all == list.deep_view(),
            with_element(all.take(n as int), x@, text_order()) + all.skip(n as int)
                == with_element(all, x@, text_order()),
        decreases n,
    {
        let ghost front = all.take(n as int);
        assert(front.last() == list@[n - 1]@);
        if same_text(list[n - 1].as_str(), x) {
            assert(front + all.skip(n as int) =~= all);
            return ;
        }
        assert(front.drop_last() =~= all.take(n - 1));
        assert(with_element(all.take(n - 1), x@, text_order()) + all.skip(n - 1)
            =~= with_element(front, x@, text_order()) + all.skip(n as int));
        n -= 1;
    }
    let ghost front = all.take(n as int);
    if n > 0 {
        assert(front.last() == list@[n - 1]@);
    }
    list.insert(n, x.to_owned());
    assert(list.deep_view() =~= front.push(x@) + all.skip(n as int));
}

fn insert_pattern(list: &mut Vec<NatsPattern>, x: NatsPattern)
    ensures
        final(list).deep_view() == with_element(old(list).deep_view(), x@, pattern_order()),
        well_formed(x@),
{
    let ghost all = list.deep_view();
    let text = x.as_str().to_owned();
    let mut n: usize = list.len();
    assert(all.take(n as int) =~= all);
    assert(with_element(all.take(n as int), x@, pattern_order()) + all.skip(n as int)
        =~= with_element(all, x@, pattern_order()));
    while n > 0 && !text_lt(list[n - 1].as_str(), text.as_str())
        invariant
            text@ == render(x@),
            well_formed(x@),
            n <= list.len(),
            all == list.deep_view(),
            with_element(all.take(n as int), x@, pattern_order()) + all.skip(n as int)
                == with_element(all, x@, pattern_order()),
        decreases n,
    {
        let ghost front = all.take(n as int);
        assert(front.last() == list@[n - 1]@);
        if list[n - 1].same_as(&x) {
            assert(front + all.skip(n as int) =~= all);
            return ;
        }
        assert(front.drop_last() =~= all.take(n - 1));
        assert(with_element(all.take(n - 1), x@, pattern_order()) + all.skip(n - 1)
            =~= with_element(front, x@, pattern_order()) + all.skip(n as int));
        n -= 1;
    }
    let ghost front = all.take(n as int);
    if n > 0 {
        assert(front.last() == list@[n - 1]@);
    }
    list.insert(n, x);
    assert(list.deep_view() =~= front.push(x@) + all.skip(n as int));
}

proof fn lemma_listed_push<T>(s: Seq<T>, x: T, lt: spec_fn(T, T) -> bool)
    ensures
        listed(s.push(x), lt) == with_element(listed(s, lt), x, lt),
{
    assert(s.push(x).drop_last() =~= s);
}

/// The flow of call sites, sources and sinks.
pub open spec fn flow_of(sites: &[ResolvedSite], ingress: &[Ingress], egress: &[Egress]) -> FlowView {
    FlowView {
        sites: sites.deep_view(),
        ingress: ingress.deep_view(),
        egress: egress.deep_view(),
    }
}

fn collect_services(sites: &[ResolvedSite], ingress: &[Ingress], egress: &[Egress]) -> (out: Vec<
    String,
>)
    ensures
        out.deep_view() == listed(services(flow_of(sites, ingress, egress)), text_order()),
{
    let ghost flow = flow_of(sites, ingress, egress);
    let ghost of_sites = flow.sites.map_values(|s: ResolvedView| s.crate_name);
    let ghost of_egress = flow.egress.map_values(|e: EgressView| e.from_crate);
    let ghost mut seen: Seq<Seq<char>> = Seq::empty();
    let mut out: Vec<String> = Vec::new();
    assert(out.deep_view() =~= listed(seen, text_order()));
    let mut i: usize = 0;
    while i < sites.len()
        invariant
            i <= sites.len(),
            of_sites == sites.deep_view().map_values(|s: ResolvedView| s.crate_name),
            seen == of_sites.take(i as int),
            out.deep_view() == listed(seen, text_order()),
        decreases sites.len() - i,
    {
        assert(of_sites[i as int] == sites@[i as int].crate_name@);
        insert_text(&mut out, sites[i].crate_name.as_str());
        proof {
            lemma_listed_push(seen, of_sites[i as int], text_order());
            seen = seen.push(of_sites[i as int]);
            assert(seen =~= of_sites.take(i + 1));
        }
        i += 1;
    }
    assert(seen =~= of_sites);
    assert(of_sites + ingress_crates(flow.ingress.take(0)) =~= of_sites);
    let mut i: usize = 0;
    while i < ingress.len()
        invariant
            i <= ingress.len(),
            flow.ingress == ingress.deep_view(),
            seen == of_sites + ingress_crates(flow.ingress.take(i as int)),
            out.deep_view() == listed(seen, text_order()),
        decreases ingress.len() - i,
    {
        assert(flow.ingress[i as int] == ingress@[i as int].deep_view());
        assert(flow.ingress.take(i + 1).drop_last() =~= flow.ingress.take(i as int));
        match &ingress[i].crate_name {
            Some(c) => {
                insert_text(&mut out, c.as_str());
                proof {
                    lemma_listed_push(seen, c@, text_order());
                    seen = seen.push(c@);
                }
            },
            None => {},
        }
        assert(seen =~= of_sites + ingress_crates(flow.ingress.take(i + 1)));
        i += 1;
    }
    let ghost before = seen;
    assert(flow.ingress.take(i as int) =~= flow.ingress);
    assert(before =~= before + of_egress.take(0));
    let mut i: usize = 0;
    while i < egress.len()
        invariant
            i <= egress.len(),
            of_egress == egress.deep_view().map_values(|e: EgressView| e.from_crate),
            seen == before + of_egress.take(i as int),
            out.deep_view() == listed(seen, text_order()),
        decreases egress.len() - i,
    {
        assert(of_egress[i as int] == egress@[i as int].from_crate@);
        insert_text(&mut out, egress[i].from_crate.as_str());
        proof {
            lemma_listed_push(seen, of_egress[i as int], text_order());
            seen = seen.push(of_egress[i as int]);
            assert(seen =~= before + of_egress.take(i + 1));
        }
        i += 1;
    }
    assert(of_egress.take(i as int) =~= of_egress);
    assert(seen =~= services(flow));
    out
}

fn insert_raw(
    list: &mut Vec<NatsPattern>,
    raws: &Vec<String>,
    Ghost(seen): Ghost<Seq<Seq<SegmentView>>>,
)
    requires
        old(list).deep_view() == listed(seen, pattern_order()),
    ensures
        final(list).deep_view() == listed(
            seen + raws.deep_view().map_values(|raw: Seq<char>| subject_of(raw)),
            pattern_order(),
        ),
{
    let ghost new = raws.deep_view().map_values(|raw: Seq<char>| subject_of(raw));
    let mut i: usize = 0;
    assert(seen + new.take(0) =~= seen);
    while i < raws.len()
        invariant
            i <= raws.len(),
            new == raws.deep_view().map_values(|raw: Seq<char>| subject_of(raw)),
            list.deep_view() == listed(seen + new.take(i as int), pattern_order()),
        decreases raws.len() - i,
    {
        assert(new[i as int] == subject_of(raws@[i as int]@));
        insert_pattern(list, parse_subject_silent(raws[i].as_str()));
        proof {
            lemma_listed_push(seen + new.take(i as int), new[i as int], pattern_order());
            assert((seen + new.take(i as int)).push(new[i as int]) =~= seen + new.take(i + 1));
        }
        i += 1;
    }
    assert(new.take(i as int) =~= new);
}

fn collect_subjects(sites: &[ResolvedSite], ingress: &[Ingress], egress: &[Egress]) -> (out: Vec<
    NatsPattern,
>)
    ensures
        out.deep_view() == subject_list(flow_of(sites, ingress, egress)),
        valid_flow(flow_of(sites, ingress, egress)),
{
    let ghost flow = flow_of(sites, ingress, egress);
    let ghost of_sites = flow.sites.map_values(|s: ResolvedView| s.subject);
    let mut out: Vec<NatsPattern> = Vec::new();
    assert(out.deep_view() =~= Seq::empty());
    assert(of_sites.take(0) =~= Seq::empty());
    let mut i: usize = 0;
    while i < sites.len()
        invariant
            i <= sites.len(),
            of_sites == sites.deep_view().map_values(|s: ResolvedView| s.subject),
            out.deep_view() == listed(of_sites.take(i as int), pattern_order()),
            forall|k: int| 0 <= k < i ==> well_formed((#[trigger] sites.deep_view()[k]).subject),
        decreases sites.len() - i,
    {
        assert(of_sites[i as int] == sites@[i as int].subject@);
        insert_pattern(&mut out, sites[i].subject.clone());
        proof {
            lemma_listed_push(of_sites.take(i as int), of_sites[i as int], pattern_order());
            assert(of_sites.take(i as int).push(of_sites[i as int]) =~= of_sites.take(i + 1));
        }
        i += 1;
    }
    assert(of_sites.take(i as int) =~= of_sites);
    assert(of_sites + ingress_subjects(flow.ingress.take(0)) =~= of_sites);
    let mut i: usize = 0;
    while i < ingress.len()
        invariant
            i <= ingress.len(),
            flow.ingress == ingress.deep_view(),
            out.deep_view() == listed(
                of_sites + ingress_subjects(flow.ingress.take(i as int)),
                pattern_order(),
            ),
        decreases ingress.len() - i,
    {
        let ghost seen = of_sites + ingress_subjects(flow.ingress.take(i as int));
        let ghost next = flow.ingress.take(i + 1);
        assert(flow.ingress[i as int] == ingress@[i as int].deep_view());
        assert(next.drop_last() =~= flow.ingress.take(i as int));
        insert_raw(&mut out, &ingress[i].into, Ghost(seen));
        assert(of_sites + ingress_subjects(next) =~= seen + next.last().into.map_values(
            |raw: Seq<char>| subject_of(raw),
        ));
        i += 1;
    }
    assert(flow.ingress.take(i as int) =~= flow.ingress);
    let ghost before = of_sites + ingress_subjects(flow.ingress);
    assert(before + egress_subjects(flow.egress.take(0)) =~= before);
    let mut i: usize = 0;
    while i < egress.len()
        invariant
            i <= egress.len(),
            flow.egress == egress.deep_view(),
            out.deep_view() == listed(
                before + egress_subjects(flow.egress.take(i as int)),
                pattern_order(),
            ),
        decreases egress.len() - i,
    {
        let ghost seen = before + egress_subjects(flow.egress.take(i as int));
        let ghost next = flow.egress.take(i + 1);
        assert(flow.egress[i as int] == egress@[i as int].deep_view());
        assert(next.drop_last() =~= flow.egress.take(i as int));
        insert_raw(&mut out, &egress[i].triggered_by, Ghost(seen));
        assert(before + egress_subjects(next) =~= seen + next.last().triggered_by.map_values(
            |raw: Seq<char>| subject_of(raw),
        ));
        i += 1;
    }
    assert(flow.egress.take(i as int) =~= flow.egress);
    out
}

fn collect_ingress_names(ingress: &[Ingress]) -> (out: Vec<String>)
    ensures
        out.deep_view() == listed(
            ingress.deep_view().map_values(|i: IngressView| i.name),
            text_order(),
        ),
{
    let ghost names = ingress.deep_view().map_values(|i: IngressView| i.name);
    let mut out: Vec<String> = Vec::new();
    assert(out.deep_view() =~= Seq::empty());
    assert(names.take(0) =~= Seq::empty());
    let mut i: usize = 0;
    while i < ingress.len()
        invariant
            i <= ingress.len(),
            names == ingress.deep_view().map_values(|i: IngressView| i.name),
            out.deep_view() == listed(names.take(i as int), text_order()),
        decreases ingress.len() - i,
    {
        assert(names[i as int] == ingress@[i as int].name@);
        insert_text(&mut out, ingress[i].name.as_str());
        proof {
            lemma_listed_push(names.take(i as int), names[i as int], text_order());
            assert(names.take(i as int).push(names[i as int]) =~= names.take(i + 1));
        }
        i += 1;
    }
    assert(names.take(i as int) =~= names);
    out
}

fn collect_egress_names(egress: &[Egress]) -> (out: Vec<String>)
    ensures
        out.deep_view() == listed(
            egress.deep_view().map_values(|e: EgressView| e.name),
            text_order(),
        ),
{
    let ghost names = egress.deep_view().map_values(|e: EgressView| e.name);
    let mut out: Vec<String> = Vec::new();
    assert(out.deep_view() =~= Seq::empty());
    assert(names.take(0) =~= Seq::empty());
    let mut i: usize = 0;
    while i < egress.len()
        invariant
            i <= egress.len(),
            names == egress.deep_view().map_values(|e: EgressView| e.name),
            out.deep_view() == listed(names.take(i as int), text_order()),
        decreases egress.len() - i,
    {
        assert(names[i as int] == egress@[i as int].name@);
        insert_text(&mut out, egress[i].name.as_str());
        proof {
            lemma_listed_push(names.take(i as int), names[i as int], text_order());
            assert(names.take(i as int).push(names[i as int]) =~= names.take(i + 1));
        }
        i += 1;
    }
    assert(names.take(i as int) =~= names);
    out
}

/// The nodes for services, subjects, sources and sinks.
fn materialise_nodes(
    services: &Vec<String>,
    subjects: &Vec<NatsPattern>,
    ingress: &Vec<String>,
    egress: &Vec<String>,
) -> (nodes: Vec<Node>)
    ensures
        nodes.deep_view() == services.deep_view().map_values(
            |s: Seq<char>| NodeView::Service(s),
        ) + subjects.deep_view().map_values(|p: Seq<SegmentView>| NodeView::Subject(p))
            + ingress.deep_view().map_values(|s: Seq<char>| NodeView::Ingress(s))
            + egress.deep_view().map_values(|s: Seq<char>| NodeView::Egress(s)),
{
    let ghost a = services.deep_view().map_values(|s: Seq<char>| NodeView::Service(s));
    let ghost b = subjects.deep_view().map_values(|p: Seq<SegmentView>| NodeView::Subject(p));
    let ghost c = ingress.deep_view().map_values(|s: Seq<char>| NodeView::Ingress(s));
    let ghost d = egress.deep_view().map_values(|s: Seq<char>| NodeView::Egress(s));
    let mut nodes: Vec<Node> = Vec::new();
    assert(nodes.deep_view() =~= a.take(0));
    let mut i: usize = 0;
    while i < services.len()
        invariant
            i <= services.len(),
            a == services.deep_view().map_values(|s: Seq<char>| NodeView::Service(s)),
            nodes.deep_view() == a.take(i as int),
        decreases services.len() - i,
    {
        let ghost front = nodes.deep_view();
        nodes.push(Node::Service(services[i].clone()));
        assert(nodes.deep_view() =~= front.push(a[i as int]));
        assert(nodes.deep_view() =~= a.take(i + 1));
        i += 1;
    }
    assert(nodes.deep_view() =~= a + b.take(0));
    let mut i: usize = 0;
    while i < subjects.len()
        invariant
            i <= subjects.len(),
            b == subjects.deep_view().map_values(|p: Seq<SegmentView>| NodeView::Subject(p)),
            nodes.deep_view() == a + b.take(i as int),
        decreases subjects.len() - i,
    {
        let ghost front = nodes.deep_view();
        nodes.push(Node::Subject(subjects[i].clone()));
        assert(nodes.deep_view() =~= front.push(b[i as int]));
        assert(nodes.deep_view() =~= a + b.take(i + 1));
        i += 1;
    }
    assert(nodes.deep_view() =~= a + b + c.take(0));
    let mut i: usize = 0;
    while i < ingress.len()
        invariant
            i <= ingress.len(),
            c == ingress.deep_view().map_values(|s: Seq<char>| NodeView::Ingress(s)),
            nodes.deep_view() == a + b + c.take(i as int),
        decreases ingress.len() - i,
    {
        let ghost front = nodes.deep_view();
        nodes.push(Node::Ingress(ingress[i].clone()));
        assert(nodes.deep_view() =~= front.push(c[i as int]));
        assert(nodes.deep_view() =~= a + b + c.take(i + 1));
        i += 1;
    }
    assert(nodes.deep_view() =~= a + b + c + d.take(0));
    let mut i: usize = 0;
    while i < egress.len()
        invariant
            i <= egress.len(),
            d == egress.deep_view().map_values(|s: Seq<char>| NodeView::Egress(s)),
            nodes.deep_view() == a + b + c + d.take(i as int),
        decreases egress.len() - i,
    {
        let ghost front = nodes.deep_view();
        nodes.push(Node::Egress(egress[i].clone()));
        assert(nodes.deep_view() =~= front.push(d[i as int]));
        assert(nodes.deep_view() =~= a + b + c + d.take(i + 1));
        i += 1;
    }
    assert(d.take(i as int) =~= d);
    nodes
}

fn edge_before(a: &Edge, b: &Edge) -> (before: bool)
    ensures
        before == edge_lt(a.deep_view(), b.deep_view()),
{
    let (a_from, b_from) = (a.from.id(), b.from.id());
    if text_lt(a_from.as_str(), b_from.as_str()) {
        return true;
    }
    if !same_text(a_from.as_str(), b_from.as_str()) {
        return false;
    }
    let (a_to, b_to) = (a.to.id(), b.to.id());
    text_lt(a_to.as_str(), b_to.as_str()) || (same_text(a_to.as_str(), b_to.as_str())
        && a.kind.rank() < b.kind.rank())
}

fn edges_meet(a: &Edge, b: &Edge) -> (same: bool)
    ensures
        same == same_key(a.deep_view(), b.deep_view()),
{
    a.kind == b.kind && same_text(a.from.id().as_str(), b.from.id().as_str()) && same_text(
        a.to.id().as_str(),
        b.to.id().as_str(),
    )
}

pub(crate) fn insert_edge(edges: &mut Vec<Edge>, e: Edge)
    ensures
        final(edges).deep_view() == with_edge(old(edges).deep_view(), e.deep_view()),
{
    let ghost all = edges.deep_view();
    let ghost x = e.deep_view();
    let mut n: usize = edges.len();
    assert(all.take(n as int) =~= all);
    assert(with_edge(all.take(n as int), x) + all.skip(n as int) =~= with_edge(all, x));
    while n > 0 && !edge_before(&edges[n - 1], &e)
        invariant
            n <= edges.len(),
            all == edges.deep_view(),
            all == old(edges).deep_view(),
            x == e.deep_view(),
            with_edge(all.take(n as int), x) + all.skip(n as int) == with_edge(all, x),
        decreases n,
    {
        let ghost front = all.take(n as int);
        assert(front.last() == edges@[n - 1].deep_view());
        assert(front.drop_last() =~= all.take(n - 1));
        if edges_meet(&edges[n - 1], &e) {
            edges.set(n - 1, e);
            assert(edges.deep_view() =~= front.drop_last().push(x) + all.skip(n as int));
            return ;
        }
        assert(with_edge(all.take(n - 1), x) + all.skip(n - 1) =~= with_edge(front, x) + all.skip(
            n as int,
        ));
        n -= 1;
    }
    let ghost front = all.take(n as int);
    if n > 0 {
        assert(front.last() == edges@[n - 1].deep_view());
    }
    edges.insert(n, e);
    assert(edges.deep_view() =~= front.push(x) + all.skip(n as int));
}

pub proof fn lemma_edge_list_push(found: Seq<EdgeView>, e: EdgeView)
    ensures
        edge_list(found.push(e)) == with_edge(edge_list(found), e),
{
    assert(found.push(e).drop_last() =~= found);
}

fn edge_of_site(site: &ResolvedSite) -> (out: Edge)
    ensures
        out.deep_view() == site_edge(site.deep_view()),
{
    match site.kind {
        CallKind::Publish => Edge {
            from: Node::Service(site.crate_name.clone()),
            to: Node::Subject(site.subject.clone()),
            kind: EdgeKind::Publish,
            label: None,
        },
        CallKind::Subscribe => Edge {
            from: Node::Subject(site.subject.clone()),
            to: Node::Service(site.crate_name.clone()),
            kind: EdgeKind::Consume,
            label: match &site.consumer_name {
                Some(s) => Some(s.clone()),
                None => None,
            },
        },
    }
}

fn insert_ingress_edges(
    edges: &mut Vec<Edge>,
    ingress: &Ingress,
    Ghost(found): Ghost<Seq<EdgeView>>,
)
    requires
        old(edges).deep_view() == edge_list(found),
    ensures
        final(edges).deep_view() == edge_list(
            found + ingress.into.deep_view().map_values(
                |raw: Seq<char>| ingress_edge(ingress.name@, raw),
            ),
        ),
{
    let ghost name = ingress.name@;
    let ghost new = ingress.into.deep_view().map_values(
        |raw: Seq<char>| ingress_edge(name, raw),
    );
    let mut i: usize = 0;
    assert(found + new.take(0) =~= found);
    while i < ingress.into.len()
        invariant
            i <= ingress.into.len(),
            name == ingress.name@,
            new == ingress.into.deep_view().map_values(|raw: Seq<char>| ingress_edge(name, raw)),
            edges.deep_view() == edge_list(found + new.take(i as int)),
        decreases ingress.into.len() - i,
    {
        let e = Edge {
            from: Node::Ingress(ingress.name.clone()),
            to: Node::Subject(parse_subject_silent(ingress.into[i].as_str())),
            kind: EdgeKind::Ingress,
            label: None,
        };
        assert(new[i as int] == e.deep_view());
        insert_edge(edges, e);
        proof {
            lemma_edge_list_push(found + new.take(i as int), new[i as int]);
            assert((found + new.take(i as int)).push(new[i as int]) =~= found + new.take(i + 1));
        }
        i += 1;
    }
    assert(new.take(i as int) =~= new);
}

fn insert_egress_edges(
    edges: &mut Vec<Edge>,
    egress: &Egress,
    Ghost(found): Ghost<Seq<EdgeView>>,
)
    requires
        old(edges).deep_view() == edge_list(found),
    ensures
        final(edges).deep_view() == edge_list(
            found + egress.triggered_by.deep_view().map_values(
                |raw: Seq<char>| egress_edge(egress.name@, raw),
            ),
        ),
{
    let ghost name = egress.name@;
    let ghost new = egress.triggered_by.deep_view().map_values(
        |raw: Seq<char>| egress_edge(name, raw),
    );
    let mut i: usize = 0;
    assert(found + new.take(0) =~= found);
    while i < egress.triggered_by.len()
        invariant
            i <= egress.triggered_by.len(),
            name == egress.name@,
            new == egress.triggered_by.deep_view().map_values(
                |raw: Seq<char>| egress_edge(name, raw),
            ),
            edges.deep_view() == edge_list(found + new.take(i as int)),
        decreases egress.triggered_by.len() - i,
    {
        let e = Edge {
            from: Node::Subject(parse_subject_silent(egress.triggered_by[i].as_str())),
            to: Node::Egress(egress.name.clone()),
            kind: EdgeKind::Egress,
            label: None,
        };
        assert(new[i as int] == e.deep_view());
        insert_edge(edges, e);
        proof {
            lemma_edge_list_push(found + new.take(i as int), new[i as int]);
            assert((found + new.take(i as int)).push(new[i as int]) =~= found + new.take(i + 1));
        }
        i += 1;
    }
    assert(new.take(i as int) =~= new);
}

/// The edges of call sites, sources and sinks.
fn collect_edges(sites: &[ResolvedSite], ingress: &[Ingress], egress: &[Egress]) -> (edges: Vec<
    Edge,
>)
    ensures
        edges.deep_view() == edge_list(
            sites.deep_view().map_values(|s: ResolvedView| site_edge(s)) + ingress_edges(
                ingress.deep_view(),
            ) + egress_edges(egress.deep_view()),
        ),
{
    let ghost of_sites = sites.deep_view().map_values(|s: ResolvedView| site_edge(s));
    let ghost sources = ingress.deep_view();
    let ghost sinks = egress.deep_view();
    let mut edges: Vec<Edge> = Vec::new();
    assert(edges.deep_view() =~= Seq::empty());
    assert(of_sites.take(0) =~= Seq::empty());
    let mut i: usize = 0;
    while i < sites.len()
        invariant
            i <= sites.len(),
            of_sites == sites.deep_view().map_values(|s: ResolvedView| site_edge(s)),
            edges.deep_view() == edge_list(of_sites.take(i as int)),
        decreases sites.len() - i,
    {
        assert(of_sites[i as int] == site_edge(sites@[i as int].deep_view()));
        insert_edge(&mut edges, edge_of_site(&sites[i]));
        proof {
            lemma_edge_list_push(of_sites.take(i as int), of_sites[i as int]);
            assert(of_sites.take(i as int).push(of_sites[i as int]) =~= of_sites.take(i + 1));
        }
        i += 1;
    }
    assert(of_sites.take(i as int) =~= of_sites);
    assert(of_sites + ingress_edges(sources.take(0)) =~= of_sites);
    let mut i: usize = 0;
    while i < ingress.len()
        invariant
            i <= ingress.len(),
            sources == ingress.deep_view(),
            edges.deep_view() == edge_list(of_sites + ingress_edges(sources.take(i as int))),
        decreases ingress.len() - i,
    {
        let ghost found = of_sites + ingress_edges(sources.take(i as int));
        let ghost next = sources.take(i + 1);
        assert(sources[i as int] == ingress@[i as int].deep_view());
        assert(next.drop_last() =~= sources.take(i as int));
        insert_ingress_edges(&mut edges, &ingress[i], Ghost(found));
        assert(of_sites + ingress_edges(next) =~= found + next.last().into.map_values(
            |raw: Seq<char>| ingress_edge(next.last().name, raw),
        ));
        i += 1;
    }
    assert(sources.take(i as int) =~= sources);
    let ghost before = of_sites + ingress_edges(sources);
    assert(before + egress_edges(sinks.take(0)) =~= before);
    let mut i: usize = 0;
    while i < egress.len()
        invariant
            i <= egress.len(),
            sinks == egress.deep_view(),
            edges.deep_view() == edge_list(before + egress_edges(sinks.take(i as int))),
        decreases egress.len() - i,
    {
        let ghost found = before + egress_edges(sinks.take(i as int));
        let ghost next = sinks.take(i + 1);
        assert(sinks[i as int] == egress@[i as int].deep_view());
        assert(next.drop_last() =~= sinks.take(i as int));
        insert_egress_edges(&mut edges, &egress[i], Ghost(found));
        assert(before + egress_edges(next) =~= found + next.last().triggered_by.map_values(
            |raw: Seq<char>| egress_edge(next.last().name, raw),
        ));
        i += 1;
    }
    assert(sinks.take(i as int) =~= sinks);
    edges
}

/// Builds the graph of resolved call sites and declared sources and sinks.
#[must_use]
pub fn assemble(sites: &[ResolvedSite], ingress: &[Ingress], egress: &[Egress]) -> (out: Graph)
    ensures
        out.deep_view() == flow_graph(flow_of(sites, ingress, egress)),
{
    let services = collect_services(sites, ingress, egress);
    let subjects = collect_subjects(sites, ingress, egress);
    let ingress_names = collect_ingress_names(ingress);
    let egress_names = collect_egress_names(egress);
    let nodes = materialise_nodes(&services, &subjects, &ingress_names, &egress_names);
    let ghost flow = flow_of(sites, ingress, egress);
    let ghost found = flow.sites.map_values(|s: ResolvedView| site_edge(s)) + ingress_edges(
        flow.ingress,
    ) + egress_edges(flow.egress);
    let mut edges = collect_edges(sites, ingress, egress);
    proof {
        lemma_subject_list(flow);
    }
    add_matches_edges(&mut edges, &subjects, Ghost(found));
    Graph { nodes, edges }
}

} // verus!
