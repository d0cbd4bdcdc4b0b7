use cargo_eventflow::analysis::symbol_index::{
    ExprSnippet, MergeDiagnostic, PerFileSymbols, Span, Symbol, SymbolIndex,
};

fn snip(source: &str, file: &str, line: usize) -> ExprSnippet {
    ExprSnippet {
        source: source.to_string(),
        span: Span {
            file: file.to_string(),
            line,
            column: 1,
        },
    }
}

#[test]
fn merge_then_lookup_same_crate() {
    let mut idx = SymbolIndex::new();
    idx.merge(PerFileSymbols {
        crate_name: "gordon-bot".into(),
        symbols: vec![(
            "gordon_bot::strategy_loop::emission::INTENTS_SUBJECT".into(),
            Symbol::Const(snip("\"intents.executor\"", "emission.rs", 12)),
        )],
    });

    let sym = idx
        .lookup_in_crate(
            "gordon-bot",
            "gordon_bot::strategy_loop::emission::INTENTS_SUBJECT",
        )
        .expect("same-crate lookup");
    match sym {
        Symbol::Const(s) => assert_eq!(s.source, "\"intents.executor\""),
        _ => panic!("expected Const"),
    }
}

#[test]
fn lookup_misses_other_crate() {
    let mut idx = SymbolIndex::new();
    idx.merge(PerFileSymbols {
        crate_name: "gordon-bot".into(),
        symbols: vec![(
            "gordon_bot::s::INTENTS_SUBJECT".into(),
            Symbol::Const(snip("\"intents.executor\"", "emission.rs", 12)),
        )],
    });

    assert!(idx
        .lookup_in_crate("gordon-executor", "gordon_bot::s::INTENTS_SUBJECT")
        .is_none());
}

#[test]
fn helper_lookup_searches_in_order() {
    let mut idx = SymbolIndex::new();
    idx.merge(PerFileSymbols {
        crate_name: "gordon-protocol".into(),
        symbols: vec![(
            "TRADING_FILLS_SUBJECT_PREFIX".into(),
            Symbol::Const(snip("\"trading.fills\"", "trading.rs", 10)),
        )],
    });
    idx.merge(PerFileSymbols {
        crate_name: "gordon-domain".into(),
        symbols: vec![(
            "OTHER_PREFIX".into(),
            Symbol::Const(snip("\"other\"", "domain.rs", 5)),
        )],
    });

    let helpers = vec!["gordon-protocol".to_string(), "gordon-domain".to_string()];

    let sym = idx
        .lookup_in_helpers(&helpers, "TRADING_FILLS_SUBJECT_PREFIX")
        .expect("helper lookup");
    match sym {
        Symbol::Const(s) => assert_eq!(s.source, "\"trading.fills\""),
        _ => panic!("expected Const"),
    }
}

#[test]
fn duplicate_within_crate_first_wins_no_diagnostic() {
    let mut idx = SymbolIndex::new();
    idx.merge(PerFileSymbols {
        crate_name: "gordon-bot".into(),
        symbols: vec![
            ("DUP".into(), Symbol::Const(snip("\"first\"", "a.rs", 1))),
            ("DUP".into(), Symbol::Const(snip("\"second\"", "a.rs", 2))),
        ],
    });

    let sym = idx
        .lookup_in_crate("gordon-bot", "DUP")
        .expect("dup lookup");
    match sym {
        Symbol::Const(s) => assert_eq!(s.source, "\"first\""),
        _ => panic!("expected Const"),
    }
    assert!(idx.diagnostics().is_empty(), "no cross-crate dup");
}

#[test]
fn duplicate_cross_crate_diverging_value_diagnostic() {
    let mut idx = SymbolIndex::new();
    idx.merge(PerFileSymbols {
        crate_name: "gordon-bot".into(),
        symbols: vec![(
            "INTENTS_SUBJECT".into(),
            Symbol::Const(snip("\"intents.executor\"", "emission.rs", 12)),
        )],
    });
    idx.merge(PerFileSymbols {
        crate_name: "gordon-executor".into(),
        symbols: vec![(
            "INTENTS_SUBJECT".into(),
            Symbol::Const(snip("\"intents.wrong\"", "consumer.rs", 7)),
        )],
    });

    let diags = idx.diagnostics();
    assert_eq!(diags.len(), 1);
    match &diags[0] {
        MergeDiagnostic::DuplicateWithDifferentValue {
            path,
            first_crate,
            second_crate,
            ..
        } => {
            assert_eq!(path, "INTENTS_SUBJECT");
            assert_eq!(first_crate, "gordon-bot");
            assert_eq!(second_crate, "gordon-executor");
        }
    }
}

#[test]
fn duplicate_cross_crate_same_value_silent() {
    let mut idx = SymbolIndex::new();
    let snippet = || Symbol::Const(snip("\"intents.executor\"", "x.rs", 1));
    idx.merge(PerFileSymbols {
        crate_name: "gordon-bot".into(),
        symbols: vec![("INTENTS_SUBJECT".into(), snippet())],
    });
    idx.merge(PerFileSymbols {
        crate_name: "gordon-executor".into(),
        symbols: vec![("INTENTS_SUBJECT".into(), snippet())],
    });

    assert!(idx.diagnostics().is_empty(), "same value is fine");
}

#[test]
fn iteration_order_deterministic() {
    let build = |order: &[&str]| {
        let mut idx = SymbolIndex::new();
        for c in order {
            idx.merge(PerFileSymbols {
                crate_name: (*c).to_string(),
                symbols: vec![(format!("{c}::FOO"), Symbol::Const(snip("\"x\"", "a.rs", 1)))],
            });
        }
        idx.iter()
            .into_iter()
            .map(|(path, _)| path.clone())
            .collect::<Vec<_>>()
    };

    let forward = build(&["alpha", "beta", "gamma"]);
    let reverse = build(&["gamma", "beta", "alpha"]);
    assert_eq!(
        forward, reverse,
        "key order is insertion-independent"
    );
}

#[test]
fn len_and_is_empty() {
    let mut idx = SymbolIndex::new();
    assert!(idx.is_empty());
    idx.merge(PerFileSymbols {
        crate_name: "k".into(),
        symbols: vec![("p".into(), Symbol::Const(snip("\"v\"", "f.rs", 1)))],
    });
    assert_eq!(idx.len(), 1);
    assert!(!idx.is_empty());
}
