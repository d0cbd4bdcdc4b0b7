//! The event-flow graph.
//!
//! Nodes are services, subjects, external sources and external sinks; edges say
//! what flows where. Node and edge lists are in a fixed order, so that two runs
//! over the same sources give the same graph, down to the order of its lists.

pub mod pattern;
pub mod pattern_laws;

use crate::text::concat;
pub use pattern::{NatsPattern, Segment};
use pattern::{render, SegmentView};
use vstd::prelude::*;

verus! {

/// Name of a service crate.
pub type ServiceId = String;

/// A subject pattern as text. Dynamic segments render as `*` or `>`, a subject
/// that is not known as `?`.
pub type SubjectPattern = String;

/// A node of the graph.
#[derive(Debug, PartialEq, Eq, PartialOrd, Ord)]
pub enum Node {
    /// A service crate that publishes or consumes.
    Service(ServiceId),
    /// A subject pattern.
    Subject(NatsPattern),
    /// An external source that feeds the system.
    Ingress(String),
    /// An external sink that the system feeds.
    Egress(String),
}

/// The model of a [`Node`].
pub enum NodeView {
    Service(Seq<char>),
    Subject(Seq<SegmentView>),
    Ingress(Seq<char>),
    Egress(Seq<char>),
}

impl DeepView for Node {
    type V = NodeView;

    open spec fn deep_view(&self) -> NodeView {
        match self {
            Node::Service(s) => NodeView::Service(s@),
            Node::Subject(p) => NodeView::Subject(p@),
            Node::Ingress(s) => NodeView::Ingress(s@),
            Node::Egress(s) => NodeView::Egress(s@),
        }
    }
}

/// What a node is called.
pub open spec fn node_label(n: NodeView) -> Seq<char> {
    match n {
        NodeView::Service(s) => s,
        NodeView::Subject(p) => render(p),
        NodeView::Ingress(s) => s,
        NodeView::Egress(s) => s,
    }
}

/// What stands before the label in an identifier.
pub open spec fn id_prefix(n: NodeView) -> Seq<char> {
    match n {
        NodeView::Service(_) => seq!['s', 'v', 'c', ':'],
        NodeView::Subject(_) => seq!['s', 'u', 'b', ':'],
        NodeView::Ingress(_) => seq!['i', 'n', 'g', ':'],
        NodeView::Egress(_) => seq!['e', 'g', ':'],
    }
}

/// The identifier of a node.
pub open spec fn node_id(n: NodeView) -> Seq<char> {
    id_prefix(n) + node_label(n)
}

/// The segments of a subject node are those of a pattern.
pub open spec fn valid_node(n: NodeView) -> bool {
    n matches NodeView::Subject(p) ==> pattern::well_formed(p)
}

/// Different nodes have different identifiers.
pub proof fn law_id_identifies(a: NodeView, b: NodeView)
    requires
        valid_node(a),
        valid_node(b),
        node_id(a) == node_id(b),
    ensures
        a == b,
{
    let x = node_id(a);
    let y = node_id(b);
    assert(x[0] == y[0] && x[1] == y[1] && x[2] == y[2]);
    assert(x[0] == id_prefix(a)[0] && x[1] == id_prefix(a)[1] && x[2] == id_prefix(a)[2]);
    assert(y[0] == id_prefix(b)[0] && y[1] == id_prefix(b)[1] && y[2] == id_prefix(b)[2]);
    assert(id_prefix(a) =~= id_prefix(b));
    assert(node_label(a) =~= node_label(b)) by {
        let n = id_prefix(a).len() as int;
        assert(x.skip(n) =~= node_label(a));
        assert(y.skip(n) =~= node_label(b));
    }
    if let (NodeView::Subject(p), NodeView::Subject(q)) = (a, b) {
        pattern::law_surface_form_identifies(p, q);
    }
}

impl Node {
    /// The identifier of this node.
    #[must_use]
    pub fn id(&self) -> (out: String)
        ensures
            out@ == node_id(self.deep_view()),
            valid_node(self.deep_view()),
    {
        proof {
            reveal_strlit("svc:");
            reveal_strlit("sub:");
            reveal_strlit("ing:");
            reveal_strlit("eg:");
            assert("svc:"@ =~= seq!['s', 'v', 'c', ':']);
            assert("sub:"@ =~= seq!['s', 'u', 'b', ':']);
            assert("ing:"@ =~= seq!['i', 'n', 'g', ':']);
            assert("eg:"@ =~= seq!['e', 'g', ':']);
        }
        match self {
            Node::Service(s) => concat("svc:", s.as_str()),
            Node::Subject(p) => concat("sub:", p.as_str()),
            Node::Ingress(s) => concat("ing:", s.as_str()),
            Node::Egress(s) => concat("eg:", s.as_str()),
        }
    }

    /// What this node is called.
    #[must_use]
    pub fn label(&self) -> (out: &str)
        ensures
            out@ == node_label(self.deep_view()),
    {
        match self {
            Node::Service(s) => s.as_str(),
            Node::Subject(p) => p.as_str(),
            Node::Ingress(s) => s.as_str(),
            Node::Egress(s) => s.as_str(),
        }
    }
}

impl Clone for Node {
    fn clone(&self) -> (out: Self)
        ensures
            out.deep_view() == self.deep_view(),
    {
        match self {
            Node::Service(s) => Node::Service(s.clone()),
            Node::Subject(p) => Node::Subject(p.clone()),
            Node::Ingress(s) => Node::Ingress(s.clone()),
            Node::Egress(s) => Node::Egress(s.clone()),
        }
    }
}

/// What an edge stands for. The order of the kinds is the order of edges
/// between the same two nodes.
#[derive(Debug, Clone, Copy, PartialEq, Eq, PartialOrd, Ord, Structural)]
pub enum EdgeKind {
    /// A service publishes a subject.
    Publish,
    /// A service consumes a subject.
    Consume,
    /// An external source feeds a subject.
    Ingress,
    /// A subject triggers an external sink.
    Egress,
    /// Two subjects share a concrete subject. The edge has no direction of its
    /// own and is written from the smaller identifier to the larger.
    Matches,
}

/// The place of a kind in the order of kinds.
pub open spec fn kind_rank(k: EdgeKind) -> int {
    match k {
        EdgeKind::Publish => 0,
        EdgeKind::Consume => 1,
        EdgeKind::Ingress => 2,
        EdgeKind::Egress => 3,
        EdgeKind::Matches => 4,
    }
}

impl EdgeKind {
    /// The place of this kind in the order of kinds.
    #[must_use]
    pub fn rank(self) -> (out: u8)
        ensures
            out == kind_rank(self),
    {
        match self {
            EdgeKind::Publish => 0,
            EdgeKind::Consume => 1,
            EdgeKind::Ingress => 2,
            EdgeKind::Egress => 3,
            EdgeKind::Matches => 4,
        }
    }
}

/// An edge from one node to another.
#[derive(Debug)]
pub struct Edge {
    /// Where it starts.
    pub from: Node,
    /// Where it ends.
    pub to: Node,
    /// What it stands for.
    pub kind: EdgeKind,
    /// A label, such as the name of a durable consumer.
    pub label: Option<String>,
}

/// The model of an [`Edge`].
pub struct EdgeView {
    pub from: NodeView,
    pub to: NodeView,
    pub kind: EdgeKind,
    pub label: Option<Seq<char>>,
}

impl DeepView for Edge {
    type V = EdgeView;

    open spec fn deep_view(&self) -> EdgeView {
        EdgeView {
            from: self.from.deep_view(),
            to: self.to.deep_view(),
            kind: self.kind,
            label: self.label.deep_view(),
        }
    }
}

impl Clone for Edge {
    fn clone(&self) -> (out: Self)
        ensures
            out.deep_view() == self.deep_view(),
    {
        Edge {
            from: self.from.clone(),
            to: self.to.clone(),
            kind: self.kind,
            label: match &self.label {
                Some(s) => Some(s.clone()),
                None => None,
            },
        }
    }
}

/// The event-flow graph.
#[derive(Debug)]
pub struct Graph {
    /// Nodes: services, subjects, sources, sinks, each by label.
    pub nodes: Vec<Node>,
    /// Edges, by the identifiers of their ends and by kind.
    pub edges: Vec<Edge>,
}

/// The model of a [`Graph`].
pub struct GraphView {
    pub nodes: Seq<NodeView>,
    pub edges: Seq<EdgeView>,
}

impl DeepView for Graph {
    type V = GraphView;

    open spec fn deep_view(&self) -> GraphView {
        GraphView { nodes: self.nodes.deep_view(), edges: self.edges.deep_view() }
    }
}

impl Default for Graph {
    fn default() -> (out: Self)
        ensures
            out.deep_view() == (GraphView { nodes: Seq::empty(), edges: Seq::empty() }),
    {
        let out = Graph { nodes: Vec::new(), edges: Vec::new() };
        assert(out.nodes.deep_view() =~= Seq::empty());
        assert(out.edges.deep_view() =~= Seq::empty());
        out
    }
}

impl Clone for Graph {
    fn clone(&self) -> (out: Self)
        ensures
            out.deep_view() == self.deep_view(),
    {
        let mut nodes: Vec<Node> = Vec::new();
        let mut i: usize = 0;
        while i < self.nodes.len()
            invariant
                i <= self.nodes.len(),
                nodes.deep_view() == self.nodes.deep_view().take(i as int),
            decreases self.nodes.len() - i,
        {
            let ghost front = nodes.deep_view();
            let next = self.nodes[i].clone();
            nodes.push(next);
            assert(nodes.deep_view() =~= front.push(self.nodes.deep_view()[i as int]));
            assert(self.nodes.deep_view().take(i + 1) =~= nodes.deep_view());
            i += 1;
        }
        assert(self.nodes.deep_view().take(i as int) =~= self.nodes.deep_view());
        let mut edges: Vec<Edge> = Vec::new();
        let mut j: usize = 0;
        while j < self.edges.len()
            invariant
                j <= self.edges.len(),
                edges.deep_view() == self.edges.deep_view().take(j as int),
            decreases self.edges.len() - j,
        {
            let ghost front = edges.deep_view();
            let next = self.edges[j].clone();
            edges.push(next);
            assert(edges.deep_view() =~= front.push(self.edges.deep_view()[j as int]));
            assert(self.edges.deep_view().take(j + 1) =~= edges.deep_view());
            j += 1;
        }
        assert(self.edges.deep_view().take(j as int) =~= self.edges.deep_view());
        Graph { nodes, edges }
    }
}

} // verus!
