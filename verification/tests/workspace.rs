use cargo_eventflow::analysis::callsite::{
    CallSiteConfig, ConsumerSpec, MethodMatch, PublisherKind, PublisherSpec,
};
use cargo_eventflow::analysis::pipeline::{analyze_sources, Collected, Declared, SourceText};
use cargo_eventflow::analysis::{GraphDiagnostic, Ingress};
use cargo_eventflow::config::Config;
use cargo_eventflow::model::Graph;
use cargo_eventflow::{AnalyzeError, MermaidOpts, Theme};

fn bus() -> CallSiteConfig {
    CallSiteConfig {
        method_match: MethodMatch::NameTraitPathHint,
        publishers: vec![PublisherSpec {
            kind: PublisherKind::Trait,
            path: Some("bus::Publisher".to_string()),
            type_path: None,
            method: "publish".to_string(),
            subject_arg_index: 0,
        }],
        consumers: vec![ConsumerSpec {
            kind: PublisherKind::Trait,
            path: Some("bus::Consumer".to_string()),
            type_path: None,
            method: "subscribe".to_string(),
            subject_arg_index: 0,
            consumer_name_arg_index: Some(1),
        }],
    }
}

fn file(crate_name: &str, text: &str) -> SourceText {
    SourceText {
        crate_name: crate_name.to_string(),
        file: format!("{crate_name}/src/lib.rs"),
        text: text.to_string(),
    }
}

fn nothing_declared() -> Declared {
    Declared {
        ingress: vec![],
        egress: vec![],
        helper_crates: vec!["protocol".to_string()],
        subject_builder_methods: vec!["nats_subject".to_string()],
        subject_builder_functions: vec![],
    }
}

fn edges(graph: &Graph) -> Vec<String> {
    graph
        .edges
        .iter()
        .map(|e| format!("{} {:?} {} {:?}", e.from.id(), e.kind, e.to.id(), e.label))
        .collect()
}

const SENDER: &str = r#"
use bus::Publisher;
impl Engine {
    fn fire(&self, p: &dyn Publisher, id: &str) {
        let subject = build(id);
        p.publish(&subject, &[]);
        p.publish(protocol::HALT, &[]);
    }
}
fn build(id: &str) -> String {
    format!("{}.{}", PREFIX, self.id)
}
"#;

const RECEIVER: &str = r#"
use bus::Consumer;
const NAME: &str = "durable";
async fn run(c: &dyn Consumer) {
    c.subscribe("fills.>", NAME).await;
}
"#;

const PROTOCOL: &str = r#"
pub const PREFIX: &str = "fills";
pub const HALT: &str = "control.halt";
"#;

#[test]
fn sources_become_a_graph() {
    let sources = [
        file("protocol", PROTOCOL),
        file("receiver", RECEIVER),
        file("sender", SENDER),
    ];
    let (graph, reports) = analyze_sources(&sources, &bus(), nothing_declared());
    assert_eq!(
        edges(&graph),
        vec![
            "sub:fills.* Matches sub:fills.> None",
            "sub:fills.> Consume svc:receiver Some(\"durable\")",
            "svc:sender Publish sub:control.halt None",
            "svc:sender Publish sub:fills.* None",
        ]
    );
    assert_eq!(reports.len(), 1);
    assert!(matches!(
        &reports[0],
        GraphDiagnostic::OrphanPublisher { crate_name, subject }
            if crate_name == "sender" && subject == "control.halt"
    ));
}

#[test]
fn sources_that_do_not_parse_are_passed_over() {
    let sources = [
        file("broken", "fn ("),
        file("protocol", PROTOCOL),
        file("receiver", RECEIVER),
    ];
    let (with, _) = analyze_sources(&sources, &bus(), nothing_declared());
    let (without, _) = analyze_sources(&sources[1..], &bus(), nothing_declared());
    assert_eq!(edges(&with), edges(&without));
    assert_eq!(with.nodes.len(), without.nodes.len());
}

#[test]
fn declared_sources_take_part() {
    let mut declared = nothing_declared();
    declared.ingress.push(Ingress {
        name: "feed".to_string(),
        into: vec!["fills.x".to_string()],
        crate_name: Some("gateway".to_string()),
    });
    let (graph, reports) = analyze_sources(&[file("receiver", RECEIVER)], &bus(), declared);
    assert_eq!(
        edges(&graph),
        vec![
            "ing:feed Ingress sub:fills.x None",
            "sub:fills.> Matches sub:fills.x None",
            "sub:fills.> Consume svc:receiver Some(\"durable\")",
        ]
    );
    assert!(graph.nodes.iter().any(|n| n.id() == "svc:gateway"));
    assert!(!reports
        .iter()
        .any(|r| matches!(r, GraphDiagnostic::OrphanIngress { .. })));
}

#[test]
fn collecting_says_which_sources_parsed() {
    let mut all = Collected::new();
    assert!(!all.add_source(&file("broken", "fn ("), &bus()));
    assert!(all.call_sites.is_empty() && all.index.is_empty());
    assert!(all.add_source(&file("receiver", RECEIVER), &bus()));
    assert_eq!(all.call_sites.len(), 1);
    assert_eq!(all.call_sites[0].0, "receiver");
    assert_eq!(all.index.len(), 2);
}

#[test]
fn configuration_defaults() {
    let config = Config::defaults();
    assert_eq!((config.schema_version, config.source), (1, None));
    let empty = Config::default();
    assert_eq!((empty.schema_version, empty.source), (0, None));
    let named = Config {
        schema_version: 3,
        source: Some("x.toml".to_string()),
    };
    let copy = named.clone();
    assert_eq!(copy.schema_version, 3);
    assert_eq!(copy.source.as_deref(), Some("x.toml"));
}

#[test]
fn diagram_defaults() {
    assert_eq!(
        MermaidOpts::default(),
        MermaidOpts {
            theme: Theme::Default,
            group_by_publisher: true,
            include_ingress_egress: true,
            include_version_stamp: false,
        }
    );
}

#[test]
fn analysis_error_messages() {
    assert_eq!(
        AnalyzeError::Discover("x".to_string()).to_string(),
        "workspace discovery failed: x"
    );
    assert_eq!(
        AnalyzeError::Parse {
            file: "a.rs".to_string(),
            message: "y".to_string()
        }
        .to_string(),
        "parse error in a.rs: y"
    );
    assert_eq!(AnalyzeError::Config("z".to_string()).to_string(), "config error: z");
}
