use cargo_eventflow::analysis::callsite::{
    default_subject_arg_index, extract, extract_parsed, is_string_shaped, CallKind, CallSiteConfig,
    ConsumerSpec, MethodMatch, ParseError, PerFileCallSites, PublisherKind, PublisherSpec,
};
use cargo_eventflow::analysis::symbol_index::Symbol;
use cargo_eventflow::syntax::{
    ArgNode, ExprNode, ImplNode, SourceEvent, SourceFile, UseNode,
};

fn trait_publisher(path: &str, method: &str) -> PublisherSpec {
    PublisherSpec {
        kind: PublisherKind::Trait,
        path: Some(path.to_string()),
        type_path: None,
        method: method.to_string(),
        subject_arg_index: default_subject_arg_index(),
    }
}

fn type_publisher(path: &str, method: &str, index: usize) -> PublisherSpec {
    PublisherSpec {
        kind: PublisherKind::Inherent,
        path: None,
        type_path: Some(path.to_string()),
        method: method.to_string(),
        subject_arg_index: index,
    }
}

fn trait_consumer(path: &str, method: &str, name_index: Option<usize>) -> ConsumerSpec {
    ConsumerSpec {
        kind: PublisherKind::Trait,
        path: Some(path.to_string()),
        type_path: None,
        method: method.to_string(),
        subject_arg_index: 0,
        consumer_name_arg_index: name_index,
    }
}

fn hinted(publishers: Vec<PublisherSpec>, consumers: Vec<ConsumerSpec>) -> CallSiteConfig {
    CallSiteConfig {
        method_match: MethodMatch::NameTraitPathHint,
        publishers,
        consumers,
    }
}

fn by_name(publishers: Vec<PublisherSpec>, consumers: Vec<ConsumerSpec>) -> CallSiteConfig {
    CallSiteConfig {
        method_match: MethodMatch::Name,
        publishers,
        consumers,
    }
}

fn run(config: &CallSiteConfig, source: &str) -> PerFileCallSites {
    extract("a/b.rs", source, "my-crate", config).expect("source parses")
}

fn subjects(out: &PerFileCallSites) -> Vec<&str> {
    out.sites.iter().map(|s| s.subject_expr.as_str()).collect()
}

#[test]
fn default_index_is_zero_and_default_match_takes_a_hint() {
    assert_eq!(default_subject_arg_index(), 0);
    assert_eq!(MethodMatch::default(), MethodMatch::NameTraitPathHint);
    let config = CallSiteConfig::default();
    assert_eq!(config.method_match, MethodMatch::NameTraitPathHint);
    assert!(config.publishers.is_empty() && config.consumers.is_empty());
}

#[test]
fn position_is_that_of_the_call() {
    let source = "use bus::P;\nfn f(p: u8) {\n    p.publish(\n        \"x.y\",\n    );\n}\n";
    let out = run(&hinted(vec![trait_publisher("bus::P", "publish")], vec![]), source);
    assert_eq!(out.sites.len(), 1);
    assert_eq!((out.sites[0].line, out.sites[0].column), (3, 5));
    assert_eq!(out.sites[0].file, "a/b.rs");
    assert_eq!(out.sites[0].subject_expr, "\"x.y\"");
    assert_eq!(out.sites[0].matched_method, "publish");
    assert_eq!(out.sites[0].consumer_name_expr, None);
}

#[test]
fn calls_at_the_same_place_stay_in_the_order_found() {
    let source = "use bus::P;\nfn f(p: u8) { p.publish(\"in\").publish(\"out\"); }\n";
    let out = run(&hinted(vec![trait_publisher("bus::P", "publish")], vec![]), source);
    assert_eq!(subjects(&out), vec!["\"out\"", "\"in\""]);
    assert_eq!(out.sites[0].column, out.sites[1].column);
}

#[test]
fn name_alone_counts_only_where_it_is_asked_for() {
    let source = "fn f(p: u8) { p.publish(\"x\"); p.send(\"y\"); }";
    let specs = vec![
        trait_publisher("bus::P", "publish"),
        type_publisher("bus::Q", "send", 0),
    ];
    assert!(run(&hinted(specs.clone(), vec![]), source).sites.is_empty());
    assert_eq!(
        subjects(&run(&by_name(specs, vec![]), source)),
        vec!["\"x\"", "\"y\""]
    );
}

#[test]
fn name_alone_needs_no_path_for_a_method_call() {
    let spec = PublisherSpec {
        kind: PublisherKind::Trait,
        path: None,
        type_path: None,
        method: "publish".to_string(),
        subject_arg_index: 0,
    };
    let source = "use bus::P; fn f(p: u8) { p.publish(\"x\"); }";
    assert!(run(&hinted(vec![spec.clone()], vec![]), source).sites.is_empty());
    assert_eq!(run(&by_name(vec![spec], vec![]), source).sites.len(), 1);
}

#[test]
fn imports_are_read_from_groups_renames_and_globs() {
    let spec = || hinted(vec![trait_publisher("bus::api::P", "publish")], vec![]);
    let call = "fn f(p: u8) { p.publish(\"x\"); }";
    let counts = |imports: &str| run(&spec(), &format!("{imports}\n{call}")).sites.len();
    assert_eq!(counts("use bus::api::P;"), 1);
    assert_eq!(counts("use bus::{api::{P, Q}};"), 1);
    assert_eq!(counts("use bus::api::P as Other;"), 1);
    assert_eq!(counts("use other::P;"), 1);
    assert_eq!(counts("use bus::api::*;"), 0);
    assert_eq!(counts("use bus::api::Q;"), 0);
}

#[test]
fn imports_count_wherever_they_stand_in_the_file() {
    let config = hinted(vec![trait_publisher("bus::api::P", "publish")], vec![]);
    let in_module = "mod m { use bus::api::P; fn f(p: u8) { p.publish(\"x\"); } }";
    assert_eq!(subjects(&run(&config, in_module)), vec!["\"x\""]);
    let deeper = "mod m { mod n { use super::P; fn f(p: u8) { p.publish(\"y\"); } } }";
    assert_eq!(subjects(&run(&config, deeper)), vec!["\"y\""]);
    let in_function = "fn f(p: u8) { use bus::api::P; p.publish(\"z\"); }";
    assert_eq!(subjects(&run(&config, in_function)), vec!["\"z\""]);
    let beside = "mod m { use bus::api::P; } fn f(p: u8) { p.publish(\"w\"); }";
    assert_eq!(subjects(&run(&config, beside)), vec!["\"w\""]);
    let elsewhere = "mod m { use bus::api::Q; fn f(p: u8) { p.publish(\"x\"); } }";
    assert!(run(&config, elsewhere).sites.is_empty());
}

#[test]
fn bare_import_matches_a_longer_path_but_not_a_bare_one() {
    let call = "use P; fn f(p: u8) { p.publish(\"x\"); }";
    let longer = hinted(vec![trait_publisher("bus::P", "publish")], vec![]);
    assert_eq!(run(&longer, call).sites.len(), 1);
    let other = hinted(vec![trait_publisher("Q", "publish")], vec![]);
    assert_eq!(run(&other, call).sites.len(), 0);
    let same = hinted(vec![trait_publisher("P", "publish")], vec![]);
    assert_eq!(run(&same, call).sites.len(), 1);
}

#[test]
fn associated_functions_match_by_full_path_end_or_last_segment() {
    let spec = || vec![type_publisher("bus::nats::Pub", "send", 1)];
    let count = |config: &CallSiteConfig, source: &str| run(config, source).sites.len();
    let full = "fn f() { bus::nats::Pub::send(tx, \"x\"); }";
    let end = "fn f() { nats::Pub::send(tx, \"x\"); }";
    let last = "fn f() { Pub::send(tx, \"x\"); }";
    let other = "fn f() { Sub::send(tx, \"x\"); }";
    let plain = "fn f() { send(tx, \"x\"); }";
    let import = "use bus::nats::Pub;";
    assert_eq!(count(&hinted(spec(), vec![]), full), 1);
    assert_eq!(count(&hinted(spec(), vec![]), end), 0);
    assert_eq!(count(&hinted(spec(), vec![]), last), 0);
    assert_eq!(count(&hinted(spec(), vec![]), &format!("{import}{end}")), 1);
    assert_eq!(count(&hinted(spec(), vec![]), &format!("{import}{last}")), 1);
    let parent = "use bus::nats;";
    assert_eq!(count(&hinted(spec(), vec![]), &format!("{parent}{end}")), 1);
    assert_eq!(count(&hinted(spec(), vec![]), &format!("{parent}{last}")), 0);
    assert_eq!(count(&hinted(spec(), vec![]), &format!("use bus::other;{end}")), 0);
    assert_eq!(count(&by_name(spec(), vec![]), end), 1);
    assert_eq!(count(&by_name(spec(), vec![]), last), 1);
    assert_eq!(count(&by_name(spec(), vec![]), other), 0);
    assert_eq!(count(&by_name(spec(), vec![]), plain), 0);
}

#[test]
fn missing_argument_leaves_the_call_to_the_next_specification() {
    let config = hinted(
        vec![
            type_publisher("bus::P", "send", 5),
            type_publisher("bus::P", "send", 0),
        ],
        vec![],
    );
    let out = run(&config, "use bus::P; fn f(p: u8) { p.send(\"x\"); }");
    assert_eq!(subjects(&out), vec!["\"x\""]);
}

#[test]
fn publisher_comes_before_consumer_and_trait_before_type() {
    let config = hinted(
        vec![type_publisher("bus::P", "go", 1), trait_publisher("bus::P", "go")],
        vec![trait_consumer("bus::P", "go", None)],
    );
    let out = run(&config, "use bus::P; fn f(p: u8) { p.go(\"a\", \"b\"); }");
    assert_eq!(out.sites.len(), 1);
    assert_eq!(out.sites[0].kind, CallKind::Publish);
    assert_eq!(out.sites[0].subject_expr, "\"a\"");
}

#[test]
fn consumer_name_may_be_absent() {
    let source = "use bus::C; fn f(c: u8) { c.sub(\"a\"); }";
    let named = hinted(vec![], vec![trait_consumer("bus::C", "sub", Some(1))]);
    let out = run(&named, source);
    assert_eq!(out.sites[0].kind, CallKind::Subscribe);
    assert_eq!(out.sites[0].consumer_name_expr, None);
    let at_zero = hinted(vec![], vec![trait_consumer("bus::C", "sub", Some(0))]);
    let out = run(&at_zero, source);
    assert_eq!(out.sites[0].consumer_name_expr.as_deref(), Some("\"a\""));
}

#[test]
fn body_is_that_of_the_innermost_function() {
    let source = "use bus::P;
        const A: u8 = p.publish(\"none\");
        fn outer() { fn inner() { p.publish(\"deep\"); } let c = || p.publish(\"shut\"); }
        impl T { fn m(&self) { p.publish(\"method\"); } }
        trait D { fn d(&self) { p.publish(\"default\"); } }";
    let out = run(&hinted(vec![trait_publisher("bus::P", "publish")], vec![]), source);
    let body = |subject: &str| {
        out.sites
            .iter()
            .find(|s| s.subject_expr == format!("\"{subject}\""))
            .expect(subject)
            .enclosing_fn_body
            .clone()
    };
    assert_eq!(body("none"), None);
    assert!(body("default").unwrap().contains("default"));
    assert!(!body("deep").unwrap().contains("shut"));
    assert!(body("shut").unwrap().contains("deep"));
    assert!(body("method").unwrap().contains("method"));
    assert_eq!(out.sites.len(), 5);
}

#[test]
fn symbols_have_the_paths_of_their_modules() {
    let source = "const A: &str = \"a\";
mod m { mod n { const B: &str = \"b\"; fn g() {} } }
impl < T > Wrap < T > { const C: u8 = 1; fn h(&self) { const D: u8 = 2; } }";
    let out = run(&CallSiteConfig::default(), source);
    let paths: Vec<_> = out.symbols.symbols.iter().map(|(p, _)| p.as_str()).collect();
    assert_eq!(
        paths,
        vec![
            "my_crate::A",
            "my_crate::m::n::B",
            "my_crate::m::n::g",
            "Wrap<T>::h",
            "my_crate::D",
        ]
    );
    assert_eq!(out.symbols.crate_name, "my-crate");
    match &out.symbols.symbols[0].1 {
        Symbol::Const(s) => {
            assert_eq!(s.source, "\"a\"");
            assert_eq!((s.span.line, s.span.column), (1, 7));
            assert_eq!(s.span.file, "a/b.rs");
        }
        other => panic!("expected a constant, got {other:?}"),
    }
    match &out.symbols.symbols[3].1 {
        Symbol::Method { type_path, body } => {
            assert_eq!(type_path, "Wrap<T>");
            assert_eq!((body.span.line, body.span.column), (3, 45));
        }
        other => panic!("expected a method, got {other:?}"),
    }
}

#[test]
fn calls_in_constants_of_an_impl_are_not_looked_at() {
    let source = "use bus::P;
        impl T { const C: u8 = p.publish(\"no\"); fn m(&self) { p.publish(\"yes\"); } }";
    let out = run(&hinted(vec![trait_publisher("bus::P", "publish")], vec![]), source);
    assert_eq!(subjects(&out), vec!["\"yes\""]);
}

#[test]
fn shapes_of_subjects() {
    let source = |argument: &str| format!("use bus::P; fn f(p: u8) {{ p.publish({argument}); }}");
    let config = hinted(vec![trait_publisher("bus::P", "publish")], vec![]);
    let taken = |argument: &str| run(&config, &source(argument)).sites.len() == 1;
    for yes in [
        "\"a\"",
        "b\"a\"",
        "format!(\"a\")",
        "std::format!(\"a\")",
        "concat!(\"a\")",
        "include_str!(\"a\")",
        "subject",
        "subject_2",
        "SUBJECT_2",
        "m::SUBJECT",
        "&SUBJECT",
        "(&subject)",
        "x.to_owned()",
        "x.to_string()",
        "x.into()",
        "x.clone()",
        "x.as_str()",
        "x.as_ref()",
        "build(1)",
        "m::Build(1)",
    ] {
        assert!(taken(yes), "{yes}");
    }
    for no in [
        "1",
        "true",
        "'c'",
        "Channel::Events",
        "mixedCase",
        "_hidden",
        "x.name()",
        "x.field",
        "println!(\"a\")",
        "S { a: 1 }",
        "(f)(1)",
        "|| 1",
    ] {
        assert!(!taken(no), "{no}");
    }
}

#[test]
fn shape_of_an_expression_given_as_a_tree() {
    let name = |s: &str| ExprNode::Path(vec![s.to_string()]);
    assert!(is_string_shaped(&name("abc")));
    assert!(!is_string_shaped(&name("Abc")));
    assert!(!is_string_shaped(&ExprNode::Path(vec![])));
    assert!(is_string_shaped(&ExprNode::Group(Box::new(name("A_1")))));
    assert!(!is_string_shaped(&ExprNode::Field));
    assert!(!is_string_shaped(&ExprNode::OtherLit));
}

#[test]
fn walk_given_as_events_is_extracted_like_a_file() {
    let parsed = SourceFile {
        events: vec![
            SourceEvent::Use(UseNode::Path {
                ident: "bus".to_string(),
                tree: Box::new(UseNode::Name("P".to_string())),
            }),
            SourceEvent::EnterImpl {
                self_type: "A < B >".to_string(),
                items: vec![
                    ImplNode::Other,
                    ImplNode::Fn {
                        name: "m".to_string(),
                        line: 7,
                        column: 8,
                        body: "{ }".to_string(),
                    },
                ],
            },
            SourceEvent::EnterMethod {
                body: "{ }".to_string(),
            },
            SourceEvent::MethodCall {
                method: "publish".to_string(),
                line: 9,
                column: usize::MAX,
                args: vec![ArgNode {
                    tree: ExprNode::Str("s".to_string()),
                    source: "\"s\"".to_string(),
                }],
            },
            SourceEvent::LeaveMethod,
            SourceEvent::LeaveImpl,
        ],
    };
    let config = hinted(vec![trait_publisher("bus::P", "publish")], vec![]);
    let out = extract_parsed(&parsed, "f.rs", "c-d", &config);
    assert_eq!(out.sites.len(), 1);
    assert_eq!((out.sites[0].line, out.sites[0].column), (9, usize::MAX));
    assert_eq!(out.sites[0].enclosing_fn_body.as_deref(), Some("{ }"));
    assert_eq!(out.symbols.symbols.len(), 1);
    assert_eq!(out.symbols.symbols[0].0, "A<B>::m");
}

#[test]
fn nothing_configured_finds_no_call() {
    let source = "use bus::P; fn f(p: u8) { p.publish(\"x\"); P::publish(\"y\"); }";
    assert!(run(&CallSiteConfig::default(), source).sites.is_empty());
}

#[test]
fn text_that_does_not_parse_names_its_file() {
    match extract("bad.rs", "fn (", "c", &CallSiteConfig::default()) {
        Err(ParseError::Syn { file, message }) => {
            assert_eq!(file, "bad.rs");
            assert!(!message.is_empty() && message != "fn (");
        }
        Ok(_) => panic!("expected an error"),
    }
    let error = ParseError::Syn {
        file: "a.rs".to_string(),
        message: "boom".to_string(),
    };
    assert_eq!(error.to_string(), "syn parse error in a.rs: boom");
}
