use cargo_eventflow::analysis::subject::{
    resolve, resolve_parsed, ResolveOutcome, Scope, UnresolvedReason, DEFAULT_DEPTH,
};
use cargo_eventflow::analysis::symbol_index::{
    ExprSnippet, PerFileSymbols, Span, Symbol, SymbolIndex,
};
use cargo_eventflow::syntax::ExprNode;

fn text(source: &str) -> ExprSnippet {
    ExprSnippet {
        source: source.to_string(),
        span: Span {
            file: "s.rs".to_string(),
            line: 1,
            column: 1,
        },
    }
}

fn constant(source: &str) -> Symbol {
    Symbol::Const(text(source))
}

fn function(source: &str) -> Symbol {
    Symbol::Function(text(source))
}

fn method(source: &str) -> Symbol {
    Symbol::Method {
        type_path: "T".to_string(),
        body: text(source),
    }
}

fn index_of(symbols: Vec<(&str, &str, Symbol)>) -> SymbolIndex {
    let mut index = SymbolIndex::new();
    for (crate_name, path, symbol) in symbols {
        index.merge(PerFileSymbols {
            crate_name: crate_name.to_string(),
            symbols: vec![(path.to_string(), symbol)],
        });
    }
    index
}

fn names(list: &[&str]) -> Vec<String> {
    list.iter().map(|s| s.to_string()).collect()
}

/// Resolves in `my-crate`, with helper crates `h1` and `h2` and the builder
/// method `subject`.
fn run(snippet: &str, index: &SymbolIndex, body: Option<&str>) -> ResolveOutcome {
    let helpers = names(&["h1", "h2"]);
    let methods = names(&["subject"]);
    let functions = names(&[]);
    let mut scope = Scope::new("my-crate", &helpers, &methods, &functions);
    scope.fn_body_source = body;
    resolve(snippet, index, &scope)
}

fn alone(snippet: &str) -> ResolveOutcome {
    run(snippet, &SymbolIndex::new(), None)
}

fn full(s: &str) -> ResolveOutcome {
    ResolveOutcome::Resolved(s.to_string())
}

fn partial(s: &str) -> ResolveOutcome {
    ResolveOutcome::PartiallyResolved(s.to_string())
}

fn not_found(s: &str) -> ResolveOutcome {
    ResolveOutcome::Unresolved(UnresolvedReason::SymbolNotFound {
        path: s.to_string(),
    })
}

fn unsupported(kind: &'static str) -> ResolveOutcome {
    ResolveOutcome::Unresolved(UnresolvedReason::UnsupportedShape { kind })
}

#[test]
fn literals_resolve_to_their_values() {
    assert_eq!(alone("\"a.\\u{62}\""), full("a.b"));
    assert_eq!(alone("r\"a.b\""), full("a.b"));
    assert_eq!(alone("b\"a.b\""), full("a.b"));
    assert_eq!(alone("b\"a\\xffb\""), full("a\u{fffd}b"));
    assert_eq!(alone("17"), unsupported("non-string literal"));
}

#[test]
fn adapters_are_transparent() {
    for e in [
        "&\"a\"",
        "(\"a\")",
        "\"a\".to_owned()",
        "\"a\".to_string()",
        "\"a\".clone()",
        "\"a\".into()",
        "\"a\".as_str()",
        "\"a\".as_ref()",
        "&(&\"a\".to_string()).clone()",
    ] {
        assert_eq!(alone(e), full("a"), "{e}");
    }
}

#[test]
fn shapes_that_are_not_followed() {
    assert_eq!(alone("x.trim()"), unsupported("non-builder method call"));
    assert_eq!(alone("(f)(1)"), unsupported("non-path function call"));
    assert_eq!(alone("println!(\"a\")"), unsupported("non-format macro"));
    assert_eq!(alone("|| 1"), unsupported("other expression shape"));
    assert_eq!(alone("format!(x)"), unsupported("format! without literal template"));
    assert_eq!(
        alone("concat!(A, 1)"),
        unsupported("concat! with non-literal args")
    );
    assert_eq!(alone("x.y.z"), partial("*"));
}

#[test]
fn text_that_does_not_parse_is_reported_with_the_text() {
    match alone("a +") {
        ResolveOutcome::Unresolved(UnresolvedReason::ParseError { snippet, message }) => {
            assert_eq!(snippet, "a +");
            assert!(!message.is_empty() && message != snippet);
        }
        other => panic!("expected a parse error, got {other:?}"),
    }
}

#[test]
fn concat_joins_its_literals() {
    assert_eq!(alone("concat!(\"a\", \".\", \"b\")"), full("a.b"));
    assert_eq!(alone("concat!(\"a.\", X)"), full("a."));
}

#[test]
fn template_without_braces_is_itself() {
    assert_eq!(alone("format!(\"a.b.c\")"), full("a.b.c"));
    assert_eq!(alone("format!(\"a.b.c\", unused)"), full("a.b.c"));
}

#[test]
fn holes_are_filled_by_position_number_and_name() {
    assert_eq!(alone("format!(\"{}.{}\", \"a\", \"b\")"), full("a.b"));
    assert_eq!(alone("format!(\"{1}.{0}.{}\", \"a\", \"b\")"), full("b.a.a"));
    assert_eq!(alone("format!(\"{x}.{}\", \"a\", x = \"b\")"), full("b.a"));
    assert_eq!(alone("format!(\"{x:?}.{:>4}\", \"a\", x = \"b\")"), full("b.a"));
    assert_eq!(alone("format!(\"{}.{}\", \"a\")"), partial("a.*"));
    assert_eq!(alone("format!(\"{7}\", \"a\")"), partial("*"));
    assert_eq!(alone("format!(\"{y}\", \"a\")"), partial("*"));
}

#[test]
fn doubled_braces_stand_for_one() {
    assert_eq!(alone("format!(\"{{a}}.{}\", \"b\")"), full("{a}.b"));
}

#[test]
fn commas_inside_brackets_do_not_split_arguments() {
    assert_eq!(alone("format!(\"{}.{}\", f(1, 2), \"b\")"), partial("*.b"));
    assert_eq!(alone("format!(\"{}.{}\", [1, 2], \"b\")"), partial("*.b"));
}

#[test]
fn formats_nest_without_using_up_the_budget() {
    let mut e = "\"x\"".to_string();
    for _ in 0..12 {
        e = format!("format!(\"a{{}}\", {e})");
    }
    assert_eq!(alone(&e), full("aaaaaaaaaaaax"));
}

#[test]
fn constants_are_found_at_the_root_as_written_and_by_name() {
    let index = index_of(vec![
        ("my-crate", "my_crate::A", constant("\"root\"")),
        ("my-crate", "A", constant("\"written\"")),
        ("my-crate", "my_crate::m::A", constant("\"nested\"")),
    ]);
    assert_eq!(run("A", &index, None), full("root"));
    let index = index_of(vec![
        ("my-crate", "A", constant("\"written\"")),
        ("my-crate", "my_crate::m::A", constant("\"nested\"")),
    ]);
    assert_eq!(run("A", &index, None), full("written"));
    let index = index_of(vec![("my-crate", "my_crate::m::A", constant("\"nested\""))]);
    assert_eq!(run("A", &index, None), full("nested"));
    assert_eq!(run("m::A", &index, None), full("nested"));
    assert_eq!(run("x::A", &index, None), full("nested"));
    assert_eq!(run("B", &index, None), not_found("B"));
    assert_eq!(run("x::B", &index, None), not_found("x::B"));
}

#[test]
fn own_crate_comes_before_helpers_and_helpers_in_order() {
    let index = index_of(vec![
        ("h2", "A", constant("\"second\"")),
        ("h1", "A", constant("\"first\"")),
        ("h3", "A", constant("\"unlisted\"")),
    ]);
    assert_eq!(run("A", &index, None), full("first"));
    let index = index_of(vec![
        ("h1", "A", constant("\"first\"")),
        ("my-crate", "my_crate::m::A", constant("\"own\"")),
    ]);
    assert_eq!(run("A", &index, None), full("own"));
    let index = index_of(vec![("h3", "A", constant("\"unlisted\""))]);
    assert_eq!(run("A", &index, None), not_found("A"));
    let index = index_of(vec![("h2", "h2::deep::A", constant("\"by name\""))]);
    assert_eq!(run("A", &index, None), full("by name"));
}

#[test]
fn functions_and_methods_are_no_constants() {
    let index = index_of(vec![
        ("my-crate", "my_crate::A", function("{ \"f\" }")),
        ("h1", "A", method("{ \"m\" }")),
    ]);
    assert_eq!(run("A", &index, None), not_found("A"));
}

#[test]
fn binding_comes_before_constants() {
    let index = index_of(vec![("my-crate", "my_crate::a", constant("\"constant\""))]);
    assert_eq!(run("a", &index, Some("{ let a = \"bound\"; }")), full("bound"));
    assert_eq!(
        run("a", &index, Some("{ let mut a = \"bound\"; }")),
        full("bound")
    );
    assert_eq!(
        run("a", &index, Some("{ let a = missing; }")),
        full("constant")
    );
    assert_eq!(run("a", &index, Some("{ let b = \"other\"; }")), full("constant"));
    assert_eq!(run("a", &index, Some("{ let a = x.field; }")), partial("*"));
    assert_eq!(
        run("a", &index, Some("{ let a = \"one\"; let a = \"two\"; }")),
        full("one")
    );
}

#[test]
fn binding_to_itself_falls_through() {
    let index = index_of(vec![("my-crate", "my_crate::a", constant("\"constant\""))]);
    assert_eq!(run("a", &index, Some("{ let a = a; }")), full("constant"));
    assert_eq!(
        run("a", &SymbolIndex::new(), Some("{ let a = a; }")),
        not_found("a")
    );
}

#[test]
fn chains_are_followed_as_far_as_the_budget_goes() {
    assert_eq!(DEFAULT_DEPTH, 6);
    let chain = |n: usize| {
        let paths: Vec<String> = (0..n).map(|i| format!("my_crate::C{i}")).collect();
        let mut index = SymbolIndex::new();
        for (i, path) in paths.iter().enumerate() {
            let value = if i + 1 == n {
                "\"end\"".to_string()
            } else {
                format!("C{}", i + 1)
            };
            index.merge(PerFileSymbols {
                crate_name: "my-crate".to_string(),
                symbols: vec![(path.clone(), constant(&value))],
            });
        }
        run("C0", &index, None)
    };
    assert_eq!(chain(5), full("end"));
    assert_eq!(
        chain(6),
        ResolveOutcome::Unresolved(UnresolvedReason::DepthExhausted)
    );
}

#[test]
fn constants_that_refer_to_each_other_are_not_found() {
    let index = index_of(vec![
        ("my-crate", "my_crate::A", constant("B")),
        ("my-crate", "my_crate::B", constant("A")),
    ]);
    assert_eq!(run("A", &index, None), not_found("A"));
}

#[test]
fn first_builder_body_that_resolves_wins() {
    let index = index_of(vec![
        ("a", "X::subject", method("{ unknown }")),
        ("b", "Y::subject", method("{ format!(\"y.{}\", self.id) }")),
        ("c", "Z::subject", method("{ \"z\" }")),
    ]);
    assert_eq!(run("event.subject()", &index, None), partial("y.*"));
    assert_eq!(run("event.other()", &index, None), unsupported("non-builder method call"));
    assert_eq!(
        run("event.subject()", &SymbolIndex::new(), None),
        not_found("subject")
    );
}

#[test]
fn value_of_a_builder_is_its_first_template() {
    let build = |body: &str| {
        run(
            "m::build(1)",
            &index_of(vec![("a", "a::build", function(body))]),
            None,
        )
    };
    assert_eq!(build("{ let s = format!(\"a.b\"); s }"), full("a.b"));
    assert_eq!(build("{ let s = format!(\"a.{}\", id); s }"), partial("a.*"));
    assert_eq!(build("{ return \"r\"; }"), full("r"));
    assert_eq!(build("{ return format!(\"r.{}\", 1).to_string(); }"), partial("r.*"));
    assert_eq!(build("{ log(1); let s = \"a\".to_owned(); s }"), full("a"));
    assert_eq!(build("{ let s = make(); format!(\"t.u\") }"), full("t.u"));
    assert_eq!(
        build("{ let msg = \"no bot id!\"; format!(\"trading.{}\", x) }"),
        partial("trading.*")
    );
    assert_eq!(
        build("{ let kind = \"bot\"; format!(\"trading.{}\", x) }"),
        partial("trading.*")
    );
    assert_eq!(build("{ format!(\"a.b\"); format!(\"c.d\") }"), full("a.b"));
    assert_eq!(build("{ let msg = \"no subject!\"; let s = \"a.b\"; s }"), full("a.b"));
    assert_eq!(build("{ \"only\"; let x = 1; }"), full("only"));
    assert_eq!(build("not a block"), not_found("build"));
    assert_eq!(build("{ build(2) }"), not_found("build"));
}

#[test]
fn builder_without_a_template_is_its_last_expression() {
    let build = |body: &str| {
        run(
            "m::build(1)",
            &index_of(vec![
                ("a", "a::build", function(body)),
                ("my-crate", "my_crate::A", constant("\"first\"")),
                ("my-crate", "my_crate::B", constant("\"last\"")),
            ]),
            None,
        )
    };
    assert_eq!(build("{ A; B }"), full("last"));
    assert_eq!(build("{ let x = A; B }"), full("last"));
    assert_eq!(build("{ let x; B }"), full("last"));
    assert_eq!(build("{ let msg = \"not a subject\"; B }"), full("last"));
    assert_eq!(build("{ \"not a subject\" }"), full("not a subject"));
    assert_eq!(build("{ A; return; }"), not_found("build"));
    assert_eq!(build("{ let x = 1; }"), not_found("build"));
}

#[test]
fn builder_at_the_end_of_the_budget_is_not_found() {
    let index = index_of(vec![
        ("my-crate", "my_crate::A", constant("B")),
        ("my-crate", "my_crate::B", constant("C")),
        ("my-crate", "my_crate::C", constant("D")),
        ("my-crate", "my_crate::D", constant("E")),
        ("my-crate", "my_crate::E", constant("build()")),
        ("my-crate", "my_crate::build", function("{ F }")),
        ("my-crate", "my_crate::F", constant("\"f\"")),
    ]);
    assert_eq!(run("A", &index, None), not_found("build"));
    assert_eq!(run("B", &index, None), not_found("build"));
    assert_eq!(run("C", &index, None), full("f"));
}

#[test]
fn guard_is_released_between_holes() {
    let index = index_of(vec![("my-crate", "my_crate::A", constant("\"a\""))]);
    assert_eq!(run("format!(\"{A}.{A}.{}\", A)", &index, None), full("a.a.a"));
}

#[test]
fn parsed_expression_resolves_like_its_text() {
    let index = index_of(vec![("h1", "A", constant("\"a\""))]);
    let helpers = names(&["h1"]);
    let none = names(&[]);
    let scope = Scope::new("c", &helpers, &none, &none);
    let path = ExprNode::Reference(Box::new(ExprNode::Path(vec!["A".to_string()])));
    assert_eq!(resolve_parsed(&path, &index, &scope), full("a"));
    let quoted = ExprNode::Macro {
        path: vec!["format".to_string()],
        tokens: "\"{}.z\" , A".to_string(),
    };
    assert_eq!(resolve_parsed(&quoted, &index, &scope), full("a.z"));
    let open = ExprNode::Macro {
        path: vec!["format".to_string()],
        tokens: "\"abc".to_string(),
    };
    assert_eq!(
        resolve_parsed(&open, &index, &scope),
        unsupported("format! template unclosed")
    );
}
