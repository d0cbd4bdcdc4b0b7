use cargo_eventflow::analysis::subject::{resolve, ResolveOutcome, Scope, UnresolvedReason};
use cargo_eventflow::analysis::symbol_index::{
    ExprSnippet, PerFileSymbols, Span, Symbol, SymbolIndex,
};

fn snip(source: &str) -> ExprSnippet {
    ExprSnippet {
        source: source.to_string(),
        span: Span {
            file: "test.rs".to_string(),
            line: 1,
            column: 1,
        },
    }
}

fn build_index_with(symbols: Vec<(&str, &str, Symbol)>) -> SymbolIndex {
    let mut idx = SymbolIndex::new();
    for (crate_name, path, sym) in symbols {
        idx.merge(PerFileSymbols {
            crate_name: crate_name.to_string(),
            symbols: vec![(path.to_string(), sym)],
        });
    }
    idx
}

fn helpers() -> Vec<String> {
    vec!["gordon-protocol".to_string()]
}

fn scope_no_body<'a>(
    helpers: &'a [String],
    builders: &'a [String],
    fns: &'a [String],
) -> Scope<'a> {
    Scope::new("test-crate", helpers, builders, fns)
}

#[test]
fn resolve_literal() {
    let idx = SymbolIndex::new();
    let h = helpers();
    let bm = vec!["nats_subject".to_string()];
    let bf = vec![];
    let scope = scope_no_body(&h, &bm, &bf);
    let out = resolve("\"foo.bar\"", &idx, &scope);
    assert_eq!(out, ResolveOutcome::Resolved("foo.bar".into()));
}

#[test]
fn resolve_reference_strips_amp() {
    let idx = SymbolIndex::new();
    let h = helpers();
    let bm = vec![];
    let bf = vec![];
    let scope = scope_no_body(&h, &bm, &bf);
    let out = resolve("&\"foo.bar\"", &idx, &scope);
    assert_eq!(out, ResolveOutcome::Resolved("foo.bar".into()));
}

#[test]
fn resolve_to_owned_strips() {
    let idx = SymbolIndex::new();
    let h = helpers();
    let bm = vec![];
    let bf = vec![];
    let scope = scope_no_body(&h, &bm, &bf);
    let out = resolve("\"foo\".to_owned()", &idx, &scope);
    assert_eq!(out, ResolveOutcome::Resolved("foo".into()));
}

#[test]
fn resolve_const_in_helper_crate() {
    let idx = build_index_with(vec![(
        "gordon-protocol",
        "TRADING_FILLS_SUBJECT",
        Symbol::Const(snip("\"trading.fills.bot\"")),
    )]);
    let h = helpers();
    let bm = vec![];
    let bf = vec![];
    let scope = scope_no_body(&h, &bm, &bf);
    let out = resolve("TRADING_FILLS_SUBJECT", &idx, &scope);
    assert_eq!(out, ResolveOutcome::Resolved("trading.fills.bot".into()));
}

#[test]
fn resolve_const_in_same_crate_first() {
    let idx = build_index_with(vec![
        (
            "test-crate",
            "X",
            Symbol::Const(snip("\"same-crate.value\"")),
        ),
        (
            "gordon-protocol",
            "X",
            Symbol::Const(snip("\"helper.value\"")),
        ),
    ]);
    let h = helpers();
    let bm = vec![];
    let bf = vec![];
    let scope = scope_no_body(&h, &bm, &bf);
    let out = resolve("X", &idx, &scope);
    assert_eq!(
        out,
        ResolveOutcome::Resolved("same-crate.value".into()),
        "same crate comes first"
    );
}

#[test]
fn resolve_format_macro_with_holes() {
    let idx = SymbolIndex::new();
    let h = helpers();
    let bm = vec![];
    let bf = vec![];
    let scope = scope_no_body(&h, &bm, &bf);
    let out = resolve(
        "format!(\"market.klines.binance.{market}.{symbol_lc}.1m\")",
        &idx,
        &scope,
    );
    assert_eq!(
        out,
        ResolveOutcome::PartiallyResolved("market.klines.binance.*.*.1m".into())
    );
}

#[test]
fn resolve_format_macro_literal_only() {
    let idx = SymbolIndex::new();
    let h = helpers();
    let bm = vec![];
    let bf = vec![];
    let scope = scope_no_body(&h, &bm, &bf);
    let out = resolve("format!(\"foo.bar\")", &idx, &scope);
    assert_eq!(out, ResolveOutcome::Resolved("foo.bar".into()));
}

#[test]
fn resolve_builder_function() {
    let idx = build_index_with(vec![(
        "gordon-risk",
        "gordon_risk::bus::build_breaker_subject",
        Symbol::Function(snip(
            "{ format!(\"{}.{}\", RISK_EVENTS_SUBJECT_PREFIX, breaker_name.to_ascii_lowercase()) }",
        )),
    )]);
    let h = vec!["gordon-risk".to_string()];
    let bm = vec![];
    let bf = vec!["build_breaker_subject".to_string()];
    let scope = scope_no_body(&h, &bm, &bf);
    let out = resolve("build_breaker_subject(name)", &idx, &scope);
    assert_eq!(out, ResolveOutcome::PartiallyResolved("*.*".into()));
}

#[test]
fn resolve_builder_method() {
    let idx = build_index_with(vec![(
        "gordon-domain",
        "FillEvent::nats_subject",
        Symbol::Method {
            type_path: "FillEvent".into(),
            body: snip("{ format!(\"trading.fills.{}\", self.bot_id) }"),
        },
    )]);
    let h = vec!["gordon-domain".to_string()];
    let bm = vec!["nats_subject".to_string()];
    let bf = vec![];
    let scope = scope_no_body(&h, &bm, &bf);
    let out = resolve("event.nats_subject()", &idx, &scope);
    assert_eq!(
        out,
        ResolveOutcome::PartiallyResolved("trading.fills.*".into())
    );
}

#[test]
fn resolve_depth_exhaustion_on_cycle() {
    let idx = build_index_with(vec![
        ("test-crate", "A", Symbol::Const(snip("B"))),
        ("test-crate", "B", Symbol::Const(snip("A"))),
    ]);
    let h = helpers();
    let bm = vec![];
    let bf = vec![];
    let scope = scope_no_body(&h, &bm, &bf);
    let out = resolve("A", &idx, &scope);
    assert!(
        matches!(out, ResolveOutcome::Unresolved(_)),
        "cycle must terminate as Unresolved, got {out:?}"
    );
}

#[test]
fn resolve_unknown_symbol_returns_not_found() {
    let idx = SymbolIndex::new();
    let h = helpers();
    let bm = vec![];
    let bf = vec![];
    let scope = scope_no_body(&h, &bm, &bf);
    let out = resolve("UNKNOWN_SUBJECT", &idx, &scope);
    assert!(matches!(
        out,
        ResolveOutcome::Unresolved(UnresolvedReason::SymbolNotFound { .. })
    ));
}

#[test]
fn resolve_field_access_is_partial_star() {
    let idx = SymbolIndex::new();
    let h = helpers();
    let bm = vec![];
    let bf = vec![];
    let scope = scope_no_body(&h, &bm, &bf);
    let out = resolve("self.subject_field", &idx, &scope);
    assert_eq!(out, ResolveOutcome::PartiallyResolved("*".into()));
}

#[test]
fn local_binding_follow_via_fn_body() {
    let idx = build_index_with(vec![(
        "test-crate",
        "INTENTS_SUBJECT",
        Symbol::Const(snip("\"intents.executor\"")),
    )]);
    let h = vec![];
    let bm = vec![];
    let bf = vec![];
    let body = "{ let subject = INTENTS_SUBJECT; let trace_uuid = ok(); publish(&subject); }";
    let mut scope = scope_no_body(&h, &bm, &bf);
    scope.fn_body_source = Some(body);
    let out = resolve("&subject", &idx, &scope);
    assert_eq!(out, ResolveOutcome::Resolved("intents.executor".into()));
}
