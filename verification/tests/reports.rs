use cargo_eventflow::analysis::callsite::{CallKind, RawCallSite};
use cargo_eventflow::analysis::graph::assembly::{assemble, node_from_id, ResolvedSite};
use cargo_eventflow::analysis::graph::reports::report_orphans;
use cargo_eventflow::analysis::graph::{build_graph, Egress, GraphDiagnostic, GraphInputs, Ingress};
use cargo_eventflow::analysis::symbol_index::SymbolIndex;
use cargo_eventflow::model::pattern::NatsPattern;
use cargo_eventflow::model::{Edge, EdgeKind, Graph, Node};

fn call(crate_name: &str, kind: CallKind, expr: &str, name: Option<&str>) -> (String, RawCallSite) {
    (
        crate_name.to_string(),
        RawCallSite {
            kind,
            file: "src/a.rs".to_string(),
            line: 42,
            column: 7,
            subject_expr: expr.to_string(),
            consumer_name_expr: name.map(String::from),
            matched_method: "m".to_string(),
            enclosing_fn_body: None,
        },
    )
}

fn publish(crate_name: &str, subject: &str) -> (String, RawCallSite) {
    call(crate_name, CallKind::Publish, &format!("\"{subject}\""), None)
}

fn subscribe(crate_name: &str, subject: &str, name: &str) -> (String, RawCallSite) {
    call(
        crate_name,
        CallKind::Subscribe,
        &format!("\"{subject}\""),
        Some(&format!("\"{name}\"")),
    )
}

fn source(name: &str, into: &[&str]) -> Ingress {
    Ingress {
        name: name.to_string(),
        into: into.iter().map(|s| s.to_string()).collect(),
        crate_name: None,
    }
}

fn sink(name: &str, from: &str, triggered_by: &[&str]) -> Egress {
    Egress {
        name: name.to_string(),
        from_crate: from.to_string(),
        triggered_by: triggered_by.iter().map(|s| s.to_string()).collect(),
    }
}

fn ids(graph: &Graph) -> Vec<String> {
    graph.nodes.iter().map(Node::id).collect()
}

fn line(e: &Edge) -> String {
    format!("{} {:?} {} {:?}", e.from.id(), e.kind, e.to.id(), e.label)
}

fn build(
    call_sites: Vec<(String, RawCallSite)>,
    ingress: Vec<Ingress>,
    egress: Vec<Egress>,
) -> (Graph, Vec<GraphDiagnostic>) {
    let inputs = GraphInputs {
        call_sites,
        ingress,
        egress,
        ..Default::default()
    };
    build_graph(&inputs, &SymbolIndex::new())
}

fn messages(reports: &[GraphDiagnostic]) -> Vec<String> {
    reports.iter().map(GraphDiagnostic::to_string).collect()
}

#[test]
fn empty_inputs_give_an_empty_graph() {
    let (graph, reports) = build(vec![], vec![], vec![]);
    assert!(graph.nodes.is_empty() && graph.edges.is_empty() && reports.is_empty());
    let default = Graph::default();
    assert!(default.nodes.is_empty() && default.edges.is_empty());
}

#[test]
fn nodes_come_by_kind_and_by_label() {
    let (graph, _) = build(
        vec![publish("svc-b", "b.x"), subscribe("svc-a", "a.x", "n"), publish("svc-b", "b.x")],
        vec![source("in-2", &["c.x"]), source("in-1", &[])],
        vec![sink("out", "svc-c", &["a.x"])],
    );
    assert_eq!(
        ids(&graph),
        vec![
            "svc:svc-a",
            "svc:svc-b",
            "svc:svc-c",
            "sub:a.x",
            "sub:b.x",
            "sub:c.x",
            "ing:in-1",
            "ing:in-2",
            "eg:out",
        ]
    );
}

#[test]
fn edges_come_by_their_ends_and_their_kind() {
    let (graph, _) = build(
        vec![publish("s", "a.b"), subscribe("t", "a.*", "durable")],
        vec![source("in", &["a.b"])],
        vec![sink("out", "t", &["a.*"])],
    );
    let lines: Vec<_> = graph.edges.iter().map(line).collect();
    assert_eq!(
        lines,
        vec![
            "ing:in Ingress sub:a.b None",
            "sub:a.* Egress eg:out None",
            "sub:a.* Matches sub:a.b None",
            "sub:a.* Consume svc:t Some(\"durable\")",
            "svc:s Publish sub:a.b None",
        ]
    );
}

#[test]
fn every_edge_joins_two_nodes_of_the_graph() {
    let (graph, _) = build(
        vec![publish("s", "a b"), subscribe("t", "a.>", "n")],
        vec![source("in", &["", "x"])],
        vec![sink("out", "u", &["a..b"])],
    );
    for edge in &graph.edges {
        assert!(ids(&graph).contains(&edge.from.id()), "{}", line(edge));
        assert!(ids(&graph).contains(&edge.to.id()), "{}", line(edge));
    }
}

#[test]
fn order_of_the_call_sites_does_not_change_the_nodes() {
    let sites = || vec![publish("s", "a"), publish("r", "b"), subscribe("t", "a", "n")];
    let (forward, _) = build(sites(), vec![], vec![]);
    let mut turned = sites();
    turned.reverse();
    let (backward, _) = build(turned, vec![], vec![]);
    assert_eq!(ids(&forward), ids(&backward));
    let lines = |g: &Graph| g.edges.iter().map(line).collect::<Vec<_>>();
    assert_eq!(lines(&forward), lines(&backward));
}

#[test]
fn order_of_the_inputs_changes_neither_edges_nor_reports() {
    let sites = || {
        vec![
            publish("s", "a.b"),
            publish("s", "a.b"),
            publish("r", "no..pattern"),
            subscribe("t", "a.*", "one"),
            subscribe("t", "a.*", "two"),
            call("t", CallKind::Subscribe, "unknown", None),
            subscribe("u", "z", "n"),
        ]
    };
    let sources = || vec![source("i", &["a.b", "q"]), source("j", &["q", ""]), source("i", &["r"])];
    let sinks = || vec![sink("e", "s", &["a.b", "y"]), sink("d", "w", &["y"])];
    let (forward, reports) = build(sites(), sources(), sinks());
    let keys = |g: &Graph| {
        g.edges
            .iter()
            .map(|e| format!("{} {:?} {}", e.from.id(), e.kind, e.to.id()))
            .collect::<Vec<_>>()
    };
    let sorted = |reports: &[GraphDiagnostic]| {
        let mut all = messages(reports);
        all.sort();
        all
    };
    for turn in 0..7 {
        let (mut a, mut b, mut c) = (sites(), sources(), sinks());
        a.rotate_left(turn);
        a.swap(0, 3);
        b.reverse();
        b.rotate_left(turn % 3);
        c.rotate_left(turn % 2);
        let (turned, others) = build(a, b, c);
        assert_eq!(ids(&turned), ids(&forward));
        assert_eq!(keys(&turned), keys(&forward));
        assert_eq!(sorted(&others), sorted(&reports));
    }
}

#[test]
fn last_consumer_name_labels_the_edge() {
    let (graph, _) = build(
        vec![subscribe("t", "a", "one"), subscribe("t", "a", "two")],
        vec![],
        vec![],
    );
    assert_eq!(graph.edges.len(), 1);
    assert_eq!(graph.edges[0].label.as_deref(), Some("two"));
}

#[test]
fn subjects_that_are_no_patterns_become_unknown_and_are_reported() {
    let (graph, reports) = build(
        vec![publish("s", "a b")],
        vec![source("in", &["x..y"])],
        vec![sink("out", "t", &["."])],
    );
    assert!(ids(&graph).contains(&"sub:?".to_string()));
    assert_eq!(graph.nodes.iter().filter(|n| matches!(n, Node::Subject(_))).count(), 1);
    let texts = messages(&reports);
    assert_eq!(
        texts[..3],
        [
            "malformed subject from resolver: \"a b\" (illegal character in literal token at position 0: \"a b\")",
            "malformed subject from ingress:in: \"x..y\" (empty segment at position 1)",
            "malformed subject from egress:out: \".\" (empty pattern)",
        ]
    );
}

#[test]
fn unresolved_arguments_are_reported_with_place_and_reason() {
    let (graph, reports) = build(
        vec![
            call("svc", CallKind::Subscribe, "UNKNOWN", Some("1")),
            call("svc", CallKind::Publish, "a +", None),
        ],
        vec![],
        vec![],
    );
    assert_eq!(graph.edges[0].label.as_deref(), Some("?"));
    let texts = messages(&reports);
    assert_eq!(
        texts[0],
        "unresolved subject in svc at src/a.rs:42: SymbolNotFound { path: \"UNKNOWN\" }"
    );
    assert_eq!(
        texts[1],
        "unresolved consumer name in svc at src/a.rs:42: UnsupportedShape { kind: \"non-string literal\" }"
    );
    assert!(texts[2].starts_with(
        "unresolved subject in svc at src/a.rs:42: ParseError { snippet: \"a +\", message: \""
    ));
}

#[test]
fn budget_that_ran_out_is_reported() {
    let body = "{ let a = b; let b = c; let c = d; let d = e; let e = f; let f = g; }";
    let mut site = call("svc", CallKind::Publish, "a", None);
    site.1.enclosing_fn_body = Some(body.to_string());
    let (_, reports) = build(vec![site], vec![], vec![]);
    assert_eq!(
        messages(&reports)[0],
        "unresolved subject in svc at src/a.rs:42: DepthExhausted"
    );
}

#[test]
fn orphan_messages() {
    let (_, reports) = build(
        vec![publish("s", "a.b"), subscribe("t", "c.d", "n")],
        vec![source("in \"1\"", &["x.y"])],
        vec![sink("out", "t", &["z"])],
    );
    let texts = messages(&reports);
    assert_eq!(
        texts[..2],
        [
            "orphan ingress \"in \\\"1\\\"\": declared pattern \"x.y\" has no observed consumer in code (data flows in but nothing subscribes)",
            "orphan egress \"out\": declared trigger pattern \"z\" has no observed publisher in code (sink declared but nothing fires)",
        ]
    );
    assert!(texts.contains(
        &"orphan publisher in s: subject \"a.b\" has no observed consumer in code (events fire but nothing subscribes)".to_string()
    ));
    assert!(texts.contains(
        &"orphan consumer in t: subject \"c.d\" has no observed publisher in code (subscribed but nothing fires)".to_string()
    ));
}

#[test]
fn coverage_message() {
    let (_, reports) = build(
        vec![call("svc", CallKind::Publish, "runtime", None)],
        vec![],
        vec![],
    );
    assert!(messages(&reports).contains(
        &"unresolved publisher subject in svc: not checked for counterparts".to_string()
    ));
}

#[test]
fn node_ids_and_labels() {
    let subject = Node::Subject(NatsPattern::parse("a.*").unwrap());
    assert_eq!((subject.id().as_str(), subject.label()), ("sub:a.*", "a.*"));
    let service = Node::Service("a.*".to_string());
    assert_eq!((service.id().as_str(), service.label()), ("svc:a.*", "a.*"));
    let ingress = Node::Ingress("x".to_string());
    assert_eq!((ingress.id().as_str(), ingress.label()), ("ing:x", "x"));
    let egress = Node::Egress("x".to_string());
    assert_eq!((egress.id().as_str(), egress.label()), ("eg:x", "x"));
}

#[test]
fn identifiers_name_their_nodes() {
    let nodes = vec![
        Node::Subject(NatsPattern::parse("a.*.>").unwrap()),
        Node::Service("sub:x".to_string()),
        Node::Ingress("eg:".to_string()),
        Node::Egress(String::new()),
    ];
    for node in nodes {
        assert_eq!(node_from_id(&node.id()), node);
    }
    let subject = |text: &str| Node::Subject(NatsPattern::parse(text).unwrap());
    assert_eq!(node_from_id("sub:no..pattern"), subject("?"));
    assert_eq!(node_from_id("a.b"), subject("a.b"));
    assert_eq!(node_from_id("SVC:a"), subject("SVC:a"));
    assert_eq!(node_from_id(""), subject("?"));
}

#[test]
fn resolved_sites_assemble_without_the_resolver() {
    let site = |crate_name: &str, subject: &str, kind: CallKind| ResolvedSite {
        crate_name: crate_name.to_string(),
        subject: NatsPattern::parse(subject).unwrap(),
        kind,
        consumer_name: None,
    };
    let sites = [
        site("p", "a.b", CallKind::Publish),
        site("c", "a.>", CallKind::Subscribe),
    ];
    let graph = assemble(&sites, &[], &[]);
    let kinds: Vec<_> = graph.edges.iter().map(|e| e.kind).collect();
    assert_eq!(kinds, vec![EdgeKind::Matches, EdgeKind::Consume, EdgeKind::Publish]);
    let mut reports = Vec::new();
    report_orphans(&sites, &[source("in", &["a.x"])], &[], &mut reports);
    assert!(reports.is_empty());
    report_orphans(&sites[..1], &[], &[], &mut reports);
    assert_eq!(reports.len(), 1);
}

#[test]
fn subjects_match_across_heads_only_through_wildcards() {
    let subjects = ["a.b", "a.*", "b.b", "*.b", "*.c", ">", "b.c", "a"];
    let (graph, _) = build(
        subjects.iter().map(|s| publish("s", s)).collect(),
        vec![],
        vec![],
    );
    let pairs: Vec<_> = graph
        .edges
        .iter()
        .filter(|e| e.kind == EdgeKind::Matches)
        .map(|e| format!("{} {}", e.from.label(), e.to.label()))
        .collect();
    assert_eq!(
        pairs,
        vec![
            "*.b >", "*.b a.*", "*.b a.b", "*.b b.b", "*.c >", "*.c a.*", "*.c b.c", "> a",
            "> a.*", "> a.b", "> b.b", "> b.c", "a.* a.b",
        ]
    );
}
