use cargo_eventflow::analysis::symbol_index::{
    ExprSnippet, MergeDiagnostic, PerFileSymbols, Span, Symbol, SymbolIndex,
};

fn snippet(source: &str, file: &str, line: usize) -> ExprSnippet {
    ExprSnippet {
        source: source.to_string(),
        span: Span {
            file: file.to_string(),
            line,
            column: 4,
        },
    }
}

fn merge(index: &mut SymbolIndex, crate_name: &str, path: &str, symbol: Symbol) {
    index.merge(PerFileSymbols {
        crate_name: crate_name.to_string(),
        symbols: vec![(path.to_string(), symbol)],
    });
}

fn keys(index: &SymbolIndex) -> Vec<String> {
    index.iter().iter().map(|(path, _)| path.to_string()).collect()
}

#[test]
fn walk_goes_by_crate_and_by_path() {
    let mut index = SymbolIndex::new();
    for (crate_name, path) in [("b", "x"), ("a", "z"), ("b", "a"), ("a", "y")] {
        merge(&mut index, crate_name, path, Symbol::Const(snippet("1", "f", 1)));
    }
    assert_eq!(keys(&index), vec!["y", "z", "a", "x"]);
    assert_eq!(index.len(), 4);
}

#[test]
fn first_definition_in_a_crate_wins() {
    let mut index = SymbolIndex::new();
    merge(&mut index, "a", "p", Symbol::Const(snippet("1", "f", 1)));
    merge(&mut index, "a", "p", Symbol::Function(snippet("2", "f", 2)));
    merge(&mut index, "a", "q", Symbol::Const(snippet("3", "f", 3)));
    assert!(matches!(index.lookup_in_crate("a", "p"), Some(Symbol::Const(s)) if s.source == "1"));
    assert!(matches!(index.lookup_in_crate("a", "q"), Some(Symbol::Const(s)) if s.source == "3"));
    assert_eq!(index.len(), 2);
    assert!(index.diagnostics().is_empty());
}

#[test]
fn helpers_are_asked_in_order() {
    let mut index = SymbolIndex::new();
    merge(&mut index, "a", "p", Symbol::Const(snippet("1", "f", 1)));
    merge(&mut index, "b", "p", Symbol::Const(snippet("1", "f", 1)));
    merge(&mut index, "b", "p2", Symbol::Const(snippet("b", "f", 1)));
    merge(&mut index, "a", "p2", Symbol::Const(snippet("a", "f", 1)));
    let order = vec!["c".to_string(), "b".to_string(), "a".to_string()];
    assert!(matches!(index.lookup_in_helpers(&order, "p2"), Some(Symbol::Const(s)) if s.source == "b"));
    assert!(index.lookup_in_helpers(&order, "p3").is_none());
    assert!(index.lookup_in_helpers(&[], "p2").is_none());
}

#[test]
fn diverging_definitions_are_reported_with_their_places() {
    let mut index = SymbolIndex::new();
    merge(&mut index, "a", "p", Symbol::Const(snippet("1", "first.rs", 10)));
    merge(&mut index, "b", "p", Symbol::Const(snippet("2", "second.rs", 20)));
    assert_eq!(index.diagnostics().len(), 1);
    match &index.diagnostics()[0] {
        MergeDiagnostic::DuplicateWithDifferentValue {
            path,
            first_crate,
            first_span,
            second_crate,
            second_span,
        } => {
            assert_eq!((path.as_str(), first_crate.as_str(), second_crate.as_str()), ("p", "a", "b"));
            assert_eq!((first_span.file.as_str(), first_span.line, first_span.column), ("first.rs", 10, 4));
            assert_eq!((second_span.file.as_str(), second_span.line), ("second.rs", 20));
        }
    }
    assert_eq!(index.len(), 2);
}

#[test]
fn places_do_not_make_definitions_differ_but_kinds_and_types_do() {
    let method = |type_path: &str| Symbol::Method {
        type_path: type_path.to_string(),
        body: snippet("{ }", "f", 1),
    };
    let reports = |first: Symbol, second: Symbol| {
        let mut index = SymbolIndex::new();
        merge(&mut index, "a", "p", first);
        merge(&mut index, "b", "p", second);
        index.diagnostics().len()
    };
    assert_eq!(
        reports(Symbol::Const(snippet("1", "f", 1)), Symbol::Const(snippet("1", "g", 9))),
        0
    );
    assert_eq!(
        reports(Symbol::Const(snippet("1", "f", 1)), Symbol::Function(snippet("1", "f", 1))),
        1
    );
    assert_eq!(reports(method("T"), method("T")), 0);
    assert_eq!(reports(method("T"), method("U")), 1);
}

fn reported(index: &SymbolIndex) -> Vec<(String, String, String)> {
    index
        .diagnostics()
        .iter()
        .map(|d| match d {
            MergeDiagnostic::DuplicateWithDifferentValue {
                first_crate,
                first_span,
                second_crate,
                ..
            } => (first_crate.clone(), first_span.file.clone(), second_crate.clone()),
        })
        .collect()
}

#[test]
fn reports_name_the_crate_that_came_first() {
    let mut index = SymbolIndex::new();
    merge(&mut index, "zeta", "X", Symbol::Const(snippet("1", "z.rs", 1)));
    merge(&mut index, "alpha", "X", Symbol::Const(snippet("1", "a.rs", 2)));
    merge(&mut index, "mid", "X", Symbol::Const(snippet("2", "m.rs", 3)));
    assert_eq!(
        reported(&index),
        vec![("zeta".to_string(), "z.rs".to_string(), "mid".to_string())]
    );
}

#[test]
fn values_are_held_against_the_first_definition() {
    let mut index = SymbolIndex::new();
    merge(&mut index, "zeta", "X", Symbol::Const(snippet("1", "z.rs", 1)));
    merge(&mut index, "alpha", "X", Symbol::Const(snippet("2", "a.rs", 2)));
    merge(&mut index, "mid", "X", Symbol::Const(snippet("1", "m.rs", 3)));
    assert_eq!(
        reported(&index),
        vec![("zeta".to_string(), "z.rs".to_string(), "alpha".to_string())]
    );
}
