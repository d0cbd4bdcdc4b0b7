//! Workspace-wide symbol table: the merged output of the per-file extraction.
//!
//! Holds `const` declarations, method bodies and free functions, keyed by crate
//! and by fully-qualified path (`crate::module::Item`). What is stored of each
//! is its source text, which the resolver parses again on demand.
//!
//! Entries stand in the order of `(crate, path)`, so a walk over the index does
//! not depend on the order in which files were merged.

use crate::order::{law_sorted_listing_unique, strict_order, strictly_sorted};
use crate::text::{
    lemma_lex_irreflexive, lemma_lex_total, lemma_lex_transitive, lex_lt, same_text, text_lt,
};
use vstd::prelude::*;

verus! {

broadcast use vstd::seq_lib::group_seq_properties;

/// Fully-qualified path to a symbol: `crate_name::module::item`.
pub type FqPath = String;

/// Source location for diagnostics.
#[derive(Debug, PartialEq, Eq)]
pub struct Span {
    /// File that holds the symbol.
    pub file: String,
    /// 1-based line number.
    pub line: usize,
    /// 1-based column number.
    pub column: usize,
}

/// The model of a [`Span`].
pub struct SpanView {
    pub file: Seq<char>,
    pub line: int,
    pub column: int,
}

impl DeepView for Span {
    type V = SpanView;

    open spec fn deep_view(&self) -> SpanView {
        SpanView { file: self.file@, line: self.line as int, column: self.column as int }
    }
}

impl Clone for Span {
    fn clone(&self) -> (out: Self)
        ensures
            out.deep_view() == self.deep_view(),
    {
        Span { file: self.file.clone(), line: self.line, column: self.column }
    }
}

/// A piece of Rust source text.
#[derive(Debug, PartialEq, Eq)]
pub struct ExprSnippet {
    /// The text: the right-hand side of a `const`, or the body of a `fn`.
    pub source: String,
    /// Where it came from.
    pub span: Span,
}

/// The model of an [`ExprSnippet`].
pub struct SnippetView {
    pub source: Seq<char>,
    pub span: SpanView,
}

impl DeepView for ExprSnippet {
    type V = SnippetView;

    open spec fn deep_view(&self) -> SnippetView {
        SnippetView { source: self.source@, span: self.span.deep_view() }
    }
}

impl Clone for ExprSnippet {
    fn clone(&self) -> (out: Self)
        ensures
            out.deep_view() == self.deep_view(),
    {
        ExprSnippet { source: self.source.clone(), span: self.span.clone() }
    }
}

/// A symbol that an expression can refer to.
#[derive(Debug)]
pub enum Symbol {
    /// `const NAME: TYPE = EXPR;`, by its right-hand side.
    Const(ExprSnippet),
    /// A method: `impl T { fn name(...) -> ... { BODY } }`.
    Method {
        /// The type that the method is implemented on, as text.
        type_path: String,
        /// The method body.
        body: ExprSnippet,
    },
    /// A free function, by its body.
    Function(ExprSnippet),
}

/// The model of a [`Symbol`].
pub enum SymbolView {
    Const(SnippetView),
    Method { type_path: Seq<char>, body: SnippetView },
    Function(SnippetView),
}

impl DeepView for Symbol {
    type V = SymbolView;

    open spec fn deep_view(&self) -> SymbolView {
        match self {
            Symbol::Const(s) => SymbolView::Const(s.deep_view()),
            Symbol::Method { type_path, body } => SymbolView::Method {
                type_path: type_path@,
                body: body.deep_view(),
            },
            Symbol::Function(s) => SymbolView::Function(s.deep_view()),
        }
    }
}

impl Clone for Symbol {
    fn clone(&self) -> (out: Self)
        ensures
            out.deep_view() == self.deep_view(),
    {
        match self {
            Symbol::Const(s) => Symbol::Const(s.clone()),
            Symbol::Method { type_path, body } => Symbol::Method {
                type_path: type_path.clone(),
                body: body.clone(),
            },
            Symbol::Function(s) => Symbol::Function(s.clone()),
        }
    }
}

/// What was extracted from one file.
#[derive(Debug)]
pub struct PerFileSymbols {
    /// Crate that the file belongs to.
    pub crate_name: String,
    /// The symbols of the file with their paths, in source order.
    pub symbols: Vec<(FqPath, Symbol)>,
}

/// The model of [`PerFileSymbols`].
pub struct PerFileSymbolsView {
    pub crate_name: Seq<char>,
    pub symbols: Seq<(Seq<char>, SymbolView)>,
}

impl DeepView for PerFileSymbols {
    type V = PerFileSymbolsView;

    open spec fn deep_view(&self) -> PerFileSymbolsView {
        PerFileSymbolsView {
            crate_name: self.crate_name@,
            symbols: self.symbols.deep_view(),
        }
    }
}

impl Clone for PerFileSymbols {
    fn clone(&self) -> (out: Self)
        ensures
            out.deep_view() == self.deep_view(),
    {
        let mut symbols: Vec<(FqPath, Symbol)> = Vec::new();
        let mut i: usize = 0;
        while i < self.symbols.len()
            invariant
                i <= self.symbols.len(),
                symbols.deep_view() == self.symbols.deep_view().take(i as int),
            decreases self.symbols.len() - i,
        {
            let ghost front = symbols.deep_view();
            let next = (self.symbols[i].0.clone(), self.symbols[i].1.clone());
            symbols.push(next);
            assert(symbols.deep_view() =~= front.push(self.symbols.deep_view()[i as int]));
            i += 1;
        }
        assert(self.symbols.deep_view().take(i as int) =~= self.symbols.deep_view());
        PerFileSymbols { crate_name: self.crate_name.clone(), symbols }
    }
}

impl Default for PerFileSymbols {
    fn default() -> (out: Self)
        ensures
            out.deep_view() == (PerFileSymbolsView {
                crate_name: Seq::empty(),
                symbols: Seq::empty(),
            }),
    {
        let out = PerFileSymbols { crate_name: String::new(), symbols: Vec::new() };
        assert(out.symbols.deep_view() =~= Seq::empty());
        out
    }
}

/// What merging has to report.
#[derive(Debug)]
pub enum MergeDiagnostic {
    /// A crate defines a path with another body than the crate that defined it
    /// first. Each keeps its own, and the discrepancy is recorded.
    DuplicateWithDifferentValue {
        /// The path that was defined twice.
        path: FqPath,
        /// Crate that defined it first.
        first_crate: String,
        /// Location of the first definition.
        first_span: Span,
        /// Crate that defines it again.
        second_crate: String,
        /// Location of the second definition.
        second_span: Span,
    },
}

/// The model of a [`MergeDiagnostic`].
pub struct DuplicateView {
    pub path: Seq<char>,
    pub first_crate: Seq<char>,
    pub first_span: SpanView,
    pub second_crate: Seq<char>,
    pub second_span: SpanView,
}

impl DeepView for MergeDiagnostic {
    type V = DuplicateView;

    open spec fn deep_view(&self) -> DuplicateView {
        match self {
            MergeDiagnostic::DuplicateWithDifferentValue {
                path,
                first_crate,
                first_span,
                second_crate,
                second_span,
            } => DuplicateView {
                path: path@,
                first_crate: first_crate@,
                first_span: first_span.deep_view(),
                second_crate: second_crate@,
                second_span: second_span.deep_view(),
            },
        }
    }
}

impl Clone for MergeDiagnostic {
    fn clone(&self) -> (out: Self)
        ensures
            out.deep_view() == self.deep_view(),
    {
        match self {
            MergeDiagnostic::DuplicateWithDifferentValue {
                path,
                first_crate,
                first_span,
                second_crate,
                second_span,
            } => MergeDiagnostic::DuplicateWithDifferentValue {
                path: path.clone(),
                first_crate: first_crate.clone(),
                first_span: first_span.clone(),
                second_crate: second_crate.clone(),
                second_span: second_span.clone(),
            },
        }
    }
}

// ---------------------------------------------------------------------
// model
// ---------------------------------------------------------------------

/// One symbol of the index.
pub struct EntryView {
    pub crate_name: Seq<char>,
    pub path: Seq<char>,
    pub symbol: SymbolView,
}

/// The model of a [`SymbolIndex`].
///
/// `entries` has every symbol by crate and path. `firsts` has the first
/// definition of each path, in whatever crate, in the order of merging.
pub struct IndexView {
    pub entries: Seq<EntryView>,
    pub firsts: Seq<EntryView>,
    pub diagnostics: Seq<DuplicateView>,
}

pub open spec fn has_key(e: EntryView, crate_name: Seq<char>, path: Seq<char>) -> bool {
    e.crate_name == crate_name && e.path == path
}

/// The order of entries: by crate, then by path.
pub open spec fn entry_lt(a: EntryView, b: EntryView) -> bool {
    lex_lt(a.crate_name, b.crate_name) || (a.crate_name == b.crate_name && lex_lt(a.path, b.path))
}

/// Entries stand in order and no key occurs twice.
pub open spec fn index_sorted(entries: Seq<EntryView>) -> bool {
    strictly_sorted(entries, |a: EntryView, b: EntryView| entry_lt(a, b))
}

/// The symbol under a key.
pub open spec fn lookup(
    entries: Seq<EntryView>,
    crate_name: Seq<char>,
    path: Seq<char>,
) -> Option<SymbolView>
    decreases entries.len(),
{
    if entries.len() == 0 {
        None
    } else if has_key(entries[0], crate_name, path) {
        Some(entries[0].symbol)
    } else {
        lookup(entries.drop_first(), crate_name, path)
    }
}

/// The symbol under `path` in the first of the crates that has one.
pub open spec fn lookup_any(
    entries: Seq<EntryView>,
    crates: Seq<Seq<char>>,
    path: Seq<char>,
) -> Option<SymbolView>
    decreases crates.len(),
{
    if crates.len() == 0 {
        None
    } else if lookup(entries, crates[0], path) is Some {
        lookup(entries, crates[0], path)
    } else {
        lookup_any(entries, crates.drop_first(), path)
    }
}

/// The first entry with the path.
pub open spec fn first_with_path(entries: Seq<EntryView>, path: Seq<char>) -> Option<EntryView>
    decreases entries.len(),
{
    if entries.len() == 0 {
        None
    } else if entries[0].path == path {
        Some(entries[0])
    } else {
        first_with_path(entries.drop_first(), path)
    }
}

/// The entries with `e` at its place, unless its key is there already.
pub open spec fn with_entry(entries: Seq<EntryView>, e: EntryView) -> Seq<EntryView>
    decreases entries.len(),
{
    if entries.len() == 0 || entry_lt(entries.last(), e) {
        entries.push(e)
    } else if has_key(entries.last(), e.crate_name, e.path) {
        entries
    } else {
        with_entry(entries.drop_last(), e).push(entries.last())
    }
}

pub open spec fn span_of(s: SymbolView) -> SpanView {
    match s {
        SymbolView::Const(x) => x.span,
        SymbolView::Function(x) => x.span,
        SymbolView::Method { type_path, body } => body.span,
    }
}

/// Same kind and same text; for methods also the same type. Locations do not
/// count.
pub open spec fn same_value(a: SymbolView, b: SymbolView) -> bool {
    match (a, b) {
        (SymbolView::Const(x), SymbolView::Const(y)) => x.source == y.source,
        (SymbolView::Function(x), SymbolView::Function(y)) => x.source == y.source,
        (
            SymbolView::Method { type_path: t, body: x },
            SymbolView::Method { type_path: u, body: y },
        ) => t == u && x.source == y.source,
        _ => false,
    }
}

/// The empty index.
pub open spec fn empty_index() -> IndexView {
    IndexView { entries: Seq::empty(), firsts: Seq::empty(), diagnostics: Seq::empty() }
}

/// The index after one symbol of `crate_name` was merged: the key keeps its
/// first symbol, and a value that differs from the first definition of the path,
/// where that is in another crate, is reported.
pub open spec fn merged_symbol(
    index: IndexView,
    crate_name: Seq<char>,
    path: Seq<char>,
    symbol: SymbolView,
) -> IndexView {
    let e = EntryView { crate_name, path, symbol };
    match first_with_path(index.firsts, path) {
        Some(first) => IndexView {
            entries: with_entry(index.entries, e),
            firsts: index.firsts,
            diagnostics: if first.crate_name != crate_name && !same_value(symbol, first.symbol) {
                index.diagnostics.push(
                    DuplicateView {
                        path,
                        first_crate: first.crate_name,
                        first_span: span_of(first.symbol),
                        second_crate: crate_name,
                        second_span: span_of(symbol),
                    },
                )
            } else {
                index.diagnostics
            },
        },
        None => IndexView {
            entries: with_entry(index.entries, e),
            firsts: index.firsts.push(e),
            diagnostics: index.diagnostics,
        },
    }
}

/// The index after the symbols of one file were merged in order.
pub open spec fn merged(
    index: IndexView,
    crate_name: Seq<char>,
    symbols: Seq<(Seq<char>, SymbolView)>,
) -> IndexView
    decreases symbols.len(),
{
    if symbols.len() == 0 {
        index
    } else {
        merged_symbol(
            merged(index, crate_name, symbols.drop_last()),
            crate_name,
            symbols.last().0,
            symbols.last().1,
        )
    }
}

// ---------------------------------------------------------------------
// laws
// ---------------------------------------------------------------------

proof fn lemma_entry_order()
    ensures
        strict_order(|a: EntryView, b: EntryView| entry_lt(a, b)),
{
    let lt = |a: EntryView, b: EntryView| entry_lt(a, b);
    assert forall|x: EntryView| !#[trigger] lt(x, x) by {
        lemma_lex_irreflexive(x.crate_name);
        lemma_lex_irreflexive(x.path);
    }
    assert forall|x: EntryView, y: EntryView, z: EntryView| #[trigger]
        lt(x, y) && #[trigger] lt(y, z) implies lt(x, z) by {
        if lex_lt(x.crate_name, y.crate_name) && lex_lt(y.crate_name, z.crate_name) {
            lemma_lex_transitive(x.crate_name, y.crate_name, z.crate_name);
        }
        if lex_lt(x.path, y.path) && lex_lt(y.path, z.path) {
            lemma_lex_transitive(x.path, y.path, z.path);
        }
    }
}

proof fn lemma_entry_total(a: EntryView, b: EntryView)
    ensures
        entry_lt(a, b) || has_key(a, b.crate_name, b.path) || entry_lt(b, a),
{
    lemma_lex_total(a.crate_name, b.crate_name);
    lemma_lex_total(a.path, b.path);
}

proof fn lemma_with_entry_elements(entries: Seq<EntryView>, e: EntryView, x: EntryView)
    ensures
        with_entry(entries, e).contains(x) ==> entries.contains(x) || x == e,
    decreases entries.len(),
{
    let out = with_entry(entries, e);
    if out.contains(x) {
        let k = choose|k: int| 0 <= k < out.len() && out[k] == x;
        if entries.len() == 0 || entry_lt(entries.last(), e) {
            if k < entries.len() {
                assert(entries[k] == x);
            }
        } else if !has_key(entries.last(), e.crate_name, e.path) {
            let front = with_entry(entries.drop_last(), e);
            if k < front.len() {
                assert(front[k] == x);
                assert(front.contains(x));
                lemma_with_entry_elements(entries.drop_last(), e, x);
                if entries.drop_last().contains(x) {
                    let m = choose|m: int|
                        0 <= m < entries.drop_last().len() && entries.drop_last()[m] == x;
                    assert(entries[m] == x);
                }
            } else {
                assert(entries[entries.len() - 1] == x);
            }
        }
    }
}

/// Adding an entry keeps the order.
pub proof fn law_with_entry_sorted(entries: Seq<EntryView>, e: EntryView)
    requires
        index_sorted(entries),
    ensures
        index_sorted(with_entry(entries, e)),
    decreases entries.len(),
{
    let lt = |a: EntryView, b: EntryView| entry_lt(a, b);
    lemma_entry_order();
    let out = with_entry(entries, e);
    if entries.len() == 0 {
    } else if entry_lt(entries.last(), e) {
        assert forall|i: int, j: int|
            #![trigger out[i], out[j]]
            0 <= i < j < out.len() implies lt(out[i], out[j]) by {
            if j == entries.len() {
                if i < entries.len() - 1 {
                    assert(lt(entries[i], entries[entries.len() - 1]));
                    assert(lt(entries.last(), e));
                }
            } else {
                assert(lt(entries[i], entries[j]));
            }
        }
    } else if !has_key(entries.last(), e.crate_name, e.path) {
        let rest = entries.drop_last();
        let last = entries.last();
        assert forall|i: int, j: int|
            #![trigger rest[i], rest[j]]
            0 <= i < j < rest.len() implies lt(rest[i], rest[j]) by {
            assert(lt(entries[i], entries[j]));
        }
        law_with_entry_sorted(rest, e);
        lemma_entry_total(last, e);
        let front = with_entry(rest, e);
        assert forall|i: int, j: int|
            #![trigger out[i], out[j]]
            0 <= i < j < out.len() implies lt(out[i], out[j]) by {
            if j < front.len() {
                assert(lt(front[i], front[j]));
            } else {
                assert(front.contains(front[i]));
                lemma_with_entry_elements(rest, e, front[i]);
                if rest.contains(front[i]) {
                    let m = choose|m: int| 0 <= m < rest.len() && rest[m] == front[i];
                    assert(lt(entries[m], entries[entries.len() - 1]));
                }
            }
        }
    }
}

/// Merging a file keeps the order.
pub proof fn law_merged_sorted(
    index: IndexView,
    crate_name: Seq<char>,
    symbols: Seq<(Seq<char>, SymbolView)>,
)
    requires
        index_sorted(index.entries),
    ensures
        index_sorted(merged(index, crate_name, symbols).entries),
    decreases symbols.len(),
{
    if symbols.len() > 0 {
        law_merged_sorted(index, crate_name, symbols.drop_last());
        law_with_entry_sorted(
            merged(index, crate_name, symbols.drop_last()).entries,
            EntryView { crate_name, path: symbols.last().0, symbol: symbols.last().1 },
        );
    }
}

proof fn lemma_lookup_push(
    entries: Seq<EntryView>,
    e: EntryView,
    crate_name: Seq<char>,
    path: Seq<char>,
)
    ensures
        lookup(entries.push(e), crate_name, path) == (if lookup(entries, crate_name, path) is Some {
            lookup(entries, crate_name, path)
        } else if has_key(e, crate_name, path) {
            Some(e.symbol)
        } else {
            None
        }),
    decreases entries.len(),
{
    if entries.len() == 0 {
        assert(entries.push(e).drop_first() =~= Seq::<EntryView>::empty());
    } else {
        assert(entries.push(e).drop_first() =~= entries.drop_first().push(e));
        lemma_lookup_push(entries.drop_first(), e, crate_name, path);
    }
}

/// Where a lookup finds its symbol, or that no entry has the key.
pub proof fn lemma_lookup_found(
    entries: Seq<EntryView>,
    crate_name: Seq<char>,
    path: Seq<char>,
) -> (k: int)
    ensures
        lookup(entries, crate_name, path) matches Some(s) ==> 0 <= k < entries.len() && has_key(
            entries[k],
            crate_name,
            path,
        ) && entries[k].symbol == s,
        lookup(entries, crate_name, path) is None ==> forall|i: int|
            0 <= i < entries.len() ==> !has_key(#[trigger] entries[i], crate_name, path),
    decreases entries.len(),
{
    if entries.len() == 0 {
        0
    } else if has_key(entries[0], crate_name, path) {
        0
    } else {
        let rest = entries.drop_first();
        let k = lemma_lookup_found(rest, crate_name, path);
        assert forall|i: int|
            0 <= i < entries.len() && lookup(entries, crate_name, path) is None implies !has_key(
            #[trigger] entries[i],
            crate_name,
            path,
        ) by {
            if i > 0 {
                assert(rest[i - 1] == entries[i]);
            }
        }
        k + 1
    }
}

/// The key of an added entry keeps the symbol it had, and else gets the new
/// one; every other key keeps what it had.
pub proof fn law_first_definition_wins(
    entries: Seq<EntryView>,
    e: EntryView,
    crate_name: Seq<char>,
    path: Seq<char>,
)
    requires
        index_sorted(entries),
    ensures
        lookup(with_entry(entries, e), crate_name, path) == (if lookup(
            entries,
            crate_name,
            path,
        ) is Some {
            lookup(entries, crate_name, path)
        } else if has_key(e, crate_name, path) {
            Some(e.symbol)
        } else {
            None
        }),
    decreases entries.len(),
{
    let lt = |a: EntryView, b: EntryView| entry_lt(a, b);
    lemma_entry_order();
    if entries.len() == 0 || entry_lt(entries.last(), e) {
        lemma_lookup_push(entries, e, crate_name, path);
    } else if has_key(entries.last(), e.crate_name, e.path) {
        if has_key(e, crate_name, path) {
            let k = lemma_lookup_found(entries, crate_name, path);
            assert(has_key(entries[entries.len() - 1], crate_name, path));
        }
    } else {
        let rest = entries.drop_last();
        assert forall|i: int, j: int|
            #![trigger rest[i], rest[j]]
            0 <= i < j < rest.len() implies lt(rest[i], rest[j]) by {
            assert(lt(entries[i], entries[j]));
        }
        law_first_definition_wins(rest, e, crate_name, path);
        lemma_lookup_push(rest, entries.last(), crate_name, path);
        lemma_lookup_push(with_entry(rest, e), entries.last(), crate_name, path);
        assert(rest.push(entries.last()) =~= entries);
    }
}

proof fn lemma_first_push(entries: Seq<EntryView>, e: EntryView, path: Seq<char>)
    ensures
        first_with_path(entries.push(e), path) == (if first_with_path(entries, path) is Some {
            first_with_path(entries, path)
        } else if e.path == path {
            Some(e)
        } else {
            None
        }),
        first_with_path(entries, path) matches Some(x) ==> x.path == path,
    decreases entries.len(),
{
    if entries.len() == 0 {
        assert(entries.push(e).drop_first() =~= Seq::<EntryView>::empty());
    } else {
        assert(entries.push(e).drop_first() =~= entries.drop_first().push(e));
        lemma_first_push(entries.drop_first(), e, path);
    }
}

/// A path belongs to whoever defined it first: merging a symbol under it gives it
/// a first definition if it had none, and changes nothing about those that are
/// there.
pub proof fn law_first_definer_stays(
    index: IndexView,
    crate_name: Seq<char>,
    path: Seq<char>,
    symbol: SymbolView,
    other: Seq<char>,
)
    ensures
        first_with_path(merged_symbol(index, crate_name, path, symbol).firsts, other) == (
        if first_with_path(index.firsts, other) is Some {
            first_with_path(index.firsts, other)
        } else if path == other {
            Some(EntryView { crate_name, path, symbol })
        } else {
            None
        }),
{
    lemma_first_push(index.firsts, EntryView { crate_name, path, symbol }, other);
}

/// Every path of the index has a first definition, and that is what a lookup in
/// its crate gives.
pub open spec fn firsts_hold(index: IndexView) -> bool {
    &&& forall|crate_name: Seq<char>, path: Seq<char>| #[trigger]
        lookup(index.entries, crate_name, path) is Some ==> first_with_path(
            index.firsts,
            path,
        ) is Some
    &&& forall|path: Seq<char>| #[trigger]
        first_with_path(index.firsts, path) matches Some(e) ==> e.path == path && lookup(
            index.entries,
            e.crate_name,
            path,
        ) == Some(e.symbol)
}

/// It holds of the empty index.
pub proof fn law_empty_index_holds()
    ensures
        index_sorted(empty_index().entries),
        firsts_hold(empty_index()),
{
}

/// The first definition of a path is the one that its crate keeps, however much
/// is merged later.
pub proof fn law_first_definitions_hold(
    index: IndexView,
    crate_name: Seq<char>,
    symbols: Seq<(Seq<char>, SymbolView)>,
)
    requires
        index_sorted(index.entries),
        firsts_hold(index),
    ensures
        firsts_hold(merged(index, crate_name, symbols)),
    decreases symbols.len(),
{
    if symbols.len() > 0 {
        let before = merged(index, crate_name, symbols.drop_last());
        let (path, symbol) = symbols.last();
        let after = merged_symbol(before, crate_name, path, symbol);
        let e = EntryView { crate_name, path, symbol };
        law_first_definitions_hold(index, crate_name, symbols.drop_last());
        law_merged_sorted(index, crate_name, symbols.drop_last());
        assert forall|c: Seq<char>, p: Seq<char>| #[trigger]
            lookup(after.entries, c, p) is Some implies first_with_path(after.firsts, p) is Some by {
            law_first_definition_wins(before.entries, e, c, p);
            law_first_definer_stays(before, crate_name, path, symbol, p);
        }
        assert forall|p: Seq<char>|
            (#[trigger] first_with_path(after.firsts, p)) is Some implies ({
            let x = first_with_path(after.firsts, p)->0;
            x.path == p && lookup(after.entries, x.crate_name, p) == Some(x.symbol)
        }) by {
            law_first_definer_stays(before, crate_name, path, symbol, p);
            let x = first_with_path(after.firsts, p)->0;
            law_first_definition_wins(before.entries, e, x.crate_name, p);
        }
    }
}

/// Two indexes that answer every lookup alike are walked in the same order: the
/// order in which files were merged leaves no trace.
pub proof fn law_walk_is_determined_by_content(a: Seq<EntryView>, b: Seq<EntryView>)
    requires
        index_sorted(a),
        index_sorted(b),
        forall|c: Seq<char>, p: Seq<char>| #[trigger] lookup(a, c, p) == lookup(b, c, p),
    ensures
        a == b,
{
    let lt = |x: EntryView, y: EntryView| entry_lt(x, y);
    lemma_entry_order();
    assert forall|x: EntryView| #[trigger] a.contains(x) == b.contains(x) by {
        lemma_entry_by_lookup(a, x);
        lemma_entry_by_lookup(b, x);
    }
    law_sorted_listing_unique(a, b, lt);
}

/// An entry is in a sorted index exactly where a lookup of its key gives its symbol.
pub proof fn lemma_entry_by_lookup(entries: Seq<EntryView>, x: EntryView)
    requires
        index_sorted(entries),
    ensures
        entries.contains(x) == (lookup(entries, x.crate_name, x.path) == Some(x.symbol)),
{
    let lt = |a: EntryView, b: EntryView| entry_lt(a, b);
    lemma_entry_order();
    let k = lemma_lookup_found(entries, x.crate_name, x.path);
    if entries.contains(x) {
        let i = choose|i: int| 0 <= i < entries.len() && entries[i] == x;
        assert(has_key(entries[i], x.crate_name, x.path));
        assert(lookup(entries, x.crate_name, x.path) is Some);
        if i < k {
            assert(lt(entries[i], entries[k]));
            assert(!lt(entries[k], entries[k]));
        } else if k < i {
            assert(lt(entries[k], entries[i]));
            assert(!lt(entries[k], entries[k]));
        }
    }
    if lookup(entries, x.crate_name, x.path) == Some(x.symbol) {
        assert(entries[k] == x);
    }
}

// ---------------------------------------------------------------------
// the index
// ---------------------------------------------------------------------

#[derive(Debug)]
struct Entry {
    crate_name: String,
    path: FqPath,
    symbol: Symbol,
}

impl DeepView for Entry {
    type V = EntryView;

    closed spec fn deep_view(&self) -> EntryView {
        EntryView {
            crate_name: self.crate_name@,
            path: self.path@,
            symbol: self.symbol.deep_view(),
        }
    }
}

/// Workspace-wide symbol table, keyed by crate and path.
#[derive(Debug)]
pub struct SymbolIndex {
    entries: Vec<Entry>,
    firsts: Vec<Entry>,
    diagnostics: Vec<MergeDiagnostic>,
}

impl View for SymbolIndex {
    type V = IndexView;

    closed spec fn view(&self) -> IndexView {
        IndexView {
            entries: self.entries.deep_view(),
            firsts: self.firsts.deep_view(),
            diagnostics: self.diagnostics.deep_view(),
        }
    }
}

impl Default for SymbolIndex {
    fn default() -> (out: Self)
        ensures
            out@ == empty_index(),
    {
        SymbolIndex::new()
    }
}

impl SymbolIndex {
    /// The entries stand in order, and the first definition of each path is the
    /// one that its crate keeps.
    #[verifier::type_invariant]
    spec fn consistent(self) -> bool {
        index_sorted(self.entries.deep_view()) && firsts_hold(
            IndexView {
                entries: self.entries.deep_view(),
                firsts: self.firsts.deep_view(),
                diagnostics: self.diagnostics.deep_view(),
            },
        )
    }

    /// An empty index.
    #[must_use]
    pub fn new() -> (out: Self)
        ensures
            out@ == empty_index(),
    {
        let entries: Vec<Entry> = Vec::new();
        let firsts: Vec<Entry> = Vec::new();
        let diagnostics: Vec<MergeDiagnostic> = Vec::new();
        assert(entries.deep_view() =~= Seq::empty());
        assert(firsts.deep_view() =~= Seq::empty());
        assert(diagnostics.deep_view() =~= Seq::empty());
        proof {
            law_empty_index_holds();
        }
        SymbolIndex { entries, firsts, diagnostics }
    }

    /// Merges what was extracted from one file. Within a crate the first
    /// definition of a path wins. A definition that differs from the first one of
    /// the path, where another crate had that, is reported; an equal one is not.
    pub fn merge(&mut self, per_file: PerFileSymbols)
        ensures
            final(self)@ == merged(
                old(self)@,
                per_file.crate_name@,
                per_file.symbols.deep_view(),
            ),
            index_sorted(final(self)@.entries),
            firsts_hold(final(self)@),
    {
        proof {
            use_type_invariant(&*self);
        }
        let ghost start = self@;
        let ghost symbols = per_file.symbols.deep_view();
        let mut whole = SymbolIndex::new();
        core::mem::swap(&mut whole, self);
        let SymbolIndex { mut entries, mut firsts, mut diagnostics } = whole;
        let mut i: usize = 0;
        while i < per_file.symbols.len()
            invariant
                i <= per_file.symbols.len(),
                symbols == per_file.symbols.deep_view(),
                (IndexView {
                    entries: entries.deep_view(),
                    firsts: firsts.deep_view(),
                    diagnostics: diagnostics.deep_view(),
                }) == merged(start, per_file.crate_name@, symbols.take(i as int)),
            decreases per_file.symbols.len() - i,
        {
            let path = &per_file.symbols[i].0;
            let symbol = &per_file.symbols[i].1;
            assert(symbols.take(i + 1).drop_last() =~= symbols.take(i as int));
            assert(symbols[i as int] == (path@, symbol.deep_view()));
            let ghost reports = diagnostics.deep_view();
            match find_by_path(&firsts, path.as_str()) {
                Some(k) => {
                    let first = &firsts[k];
                    if !same_text(first.crate_name.as_str(), per_file.crate_name.as_str())
                        && !symbols_equal(symbol, &first.symbol) {
                        diagnostics.push(
                            MergeDiagnostic::DuplicateWithDifferentValue {
                                path: path.clone(),
                                first_crate: first.crate_name.clone(),
                                first_span: symbol_span(&first.symbol).clone(),
                                second_crate: per_file.crate_name.clone(),
                                second_span: symbol_span(symbol).clone(),
                            },
                        );
                        assert(diagnostics.deep_view() =~= reports.push(
                            diagnostics@.last().deep_view(),
                        ));
                    }
                },
                None => {
                    let ghost known = firsts.deep_view();
                    let first = Entry {
                        crate_name: per_file.crate_name.clone(),
                        path: path.clone(),
                        symbol: symbol.clone(),
                    };
                    firsts.push(first);
                    assert(firsts.deep_view() =~= known.push(first.deep_view()));
                },
            }
            insert_entry(
                &mut entries,
                Entry {
                    crate_name: per_file.crate_name.clone(),
                    path: path.clone(),
                    symbol: symbol.clone(),
                },
            );
            i += 1;
        }
        assert(symbols.take(i as int) =~= symbols);
        proof {
            law_merged_sorted(start, per_file.crate_name@, symbols);
            law_first_definitions_hold(start, per_file.crate_name@, symbols);
        }
        *self = SymbolIndex { entries, firsts, diagnostics };
    }

    /// The symbol that a crate has under a path.
    #[must_use]
    pub fn lookup_in_crate(&self, crate_name: &str, path: &str) -> (out: Option<&Symbol>)
        ensures
            out.deep_view() == lookup(self@.entries, crate_name@, path@),
    {
        let ghost all = self@.entries;
        let mut i: usize = 0;
        assert(all.skip(0) =~= all);
        while i < self.entries.len()
            invariant
                i <= self.entries.len(),
                all == self.entries.deep_view(),
                lookup(all, crate_name@, path@) == lookup(
                    all.skip(i as int),
                    crate_name@,
                    path@,
                ),
            decreases self.entries.len() - i,
        {
            let entry = &self.entries[i];
            assert(all.skip(i as int)[0] == entry.deep_view());
            assert(all.skip(i as int).drop_first() =~= all.skip(i + 1));
            if same_text(entry.crate_name.as_str(), crate_name) && same_text(
                entry.path.as_str(),
                path,
            ) {
                return Some(&entry.symbol);
            }
            i += 1;
        }
        None
    }

    /// The symbol under a path in the first of the helper crates that has one.
    #[must_use]
    pub fn lookup_in_helpers(&self, helpers: &[String], path: &str) -> (out: Option<&Symbol>)
        ensures
            out.deep_view() == lookup_any(self@.entries, helpers.deep_view(), path@),
    {
        let ghost all = helpers.deep_view();
        let mut i: usize = 0;
        assert(all.skip(0) =~= all);
        while i < helpers.len()
            invariant
                i <= helpers.len(),
                all == helpers.deep_view(),
                lookup_any(self@.entries, all, path@) == lookup_any(
                    self@.entries,
                    all.skip(i as int),
                    path@,
                ),
            decreases helpers.len() - i,
        {
            assert(all.skip(i as int)[0] == helpers@[i as int]@);
            assert(all.skip(i as int).drop_first() =~= all.skip(i + 1));
            let found = self.lookup_in_crate(helpers[i].as_str(), path);
            if found.is_some() {
                return found;
            }
            i += 1;
        }
        None
    }

    /// What merging reported so far, in order.
    #[must_use]
    pub fn diagnostics(&self) -> (out: &[MergeDiagnostic])
        ensures
            out.deep_view() == self@.diagnostics,
            firsts_hold(self@),
    {
        proof {
            use_type_invariant(self);
        }
        self.diagnostics.as_slice()
    }

    /// How many symbols the index holds.
    #[must_use]
    pub fn len(&self) -> (n: usize)
        ensures
            n == self@.entries.len(),
    {
        self.entries.len()
    }

    /// Whether the index holds no symbol.
    #[must_use]
    pub fn is_empty(&self) -> (yes: bool)
        ensures
            yes == (self@.entries.len() == 0),
    {
        self.entries.len() == 0
    }

    /// Every path with its symbol, in the order of the index.
    #[must_use]
    pub fn iter(&self) -> (out: Vec<(&String, &Symbol)>)
        ensures
            out.deep_view() == self@.entries.map_values(|e: EntryView| (e.path, e.symbol)),
            index_sorted(self@.entries),
            firsts_hold(self@),
    {
        proof {
            use_type_invariant(self);
        }
        let ghost all = self@.entries.map_values(|e: EntryView| (e.path, e.symbol));
        let mut out: Vec<(&String, &Symbol)> = Vec::new();
        let mut i: usize = 0;
        while i < self.entries.len()
            invariant
                i <= self.entries.len(),
                all == self.entries.deep_view().map_values(
                    |e: EntryView| (e.path, e.symbol),
                ),
                out.deep_view() == all.take(i as int),
            decreases self.entries.len() - i,
        {
            let ghost front = out.deep_view();
            out.push((&self.entries[i].path, &self.entries[i].symbol));
            assert(out.deep_view() =~= front.push(all[i as int]));
            i += 1;
        }
        assert(all.take(i as int) =~= all);
        out
    }
}

fn find_by_path(entries: &Vec<Entry>, path: &str) -> (out: Option<usize>)
    ensures
        match out {
            Some(k) => k < entries.len() && first_with_path(entries.deep_view(), path@) == Some(
                entries@[k as int].deep_view(),
            ),
            None => first_with_path(entries.deep_view(), path@) is None,
        },
{
    let ghost all = entries.deep_view();
    let mut i: usize = 0;
    assert(all.skip(0) =~= all);
    while i < entries.len()
        invariant
            i <= entries.len(),
            all == entries.deep_view(),
            first_with_path(all, path@) == first_with_path(all.skip(i as int), path@),
        decreases entries.len() - i,
    {
        assert(all.skip(i as int)[0] == entries@[i as int].deep_view());
        assert(all.skip(i as int).drop_first() =~= all.skip(i + 1));
        if same_text(entries[i].path.as_str(), path) {
            return Some(i);
        }
        i += 1;
    }
    None
}

fn entry_before(a: &Entry, b: &Entry) -> (before: bool)
    ensures
        before == entry_lt(a.deep_view(), b.deep_view()),
{
    text_lt(a.crate_name.as_str(), b.crate_name.as_str()) || (same_text(
        a.crate_name.as_str(),
        b.crate_name.as_str(),
    ) && text_lt(a.path.as_str(), b.path.as_str()))
}

fn insert_entry(entries: &mut Vec<Entry>, e: Entry)
    ensures
        final(entries).deep_view() == with_entry(old(entries).deep_view(), e.deep_view()),
{
    let ghost all = entries.deep_view();
    let ghost new = e.deep_view();
    let mut n: usize = entries.len();
    assert(all.take(n as int) =~= all);
    assert(all.skip(n as int) =~= Seq::empty());
    assert(with_entry(all.take(n as int), new) + all.skip(n as int) =~= with_entry(all, new));
    while n > 0 && !entry_before(&entries[n - 1], &e)
        invariant
            n <= entries.len(),
            all == entries.deep_view(),
            new == e.deep_view(),
            with_entry(all.take(n as int), new) + all.skip(n as int) == with_entry(all, new),
        decreases n,
    {
        let ghost front = all.take(n as int);
        assert(front.last() == entries@[n - 1].deep_view());
        if same_text(entries[n - 1].crate_name.as_str(), e.crate_name.as_str()) && same_text(
            entries[n - 1].path.as_str(),
            e.path.as_str(),
        ) {
            assert(front + all.skip(n as int) =~= all);
            return ;
        }
        assert(front.drop_last() =~= all.take(n - 1));
        assert(with_entry(all.take(n - 1), new) + all.skip(n - 1) =~= with_entry(front, new)
            + all.skip(n as int));
        n -= 1;
    }
    let ghost front = all.take(n as int);
    if n > 0 {
        assert(front.last() == entries@[n - 1].deep_view());
    }
    entries.insert(n, e);
    assert(entries.deep_view() =~= front.push(new) + all.skip(n as int));
}

fn symbol_span(symbol: &Symbol) -> (out: &Span)
    ensures
        out.deep_view() == span_of(symbol.deep_view()),
{
    match symbol {
        Symbol::Const(s) => &s.span,
        Symbol::Function(s) => &s.span,
        Symbol::Method { type_path: _, body } => &body.span,
    }
}

fn symbols_equal(a: &Symbol, b: &Symbol) -> (same: bool)
    ensures
        same == same_value(a.deep_view(), b.deep_view()),
{
    match (a, b) {
        (Symbol::Const(x), Symbol::Const(y)) => same_text(x.source.as_str(), y.source.as_str()),
        (Symbol::Function(x), Symbol::Function(y)) => same_text(
            x.source.as_str(),
            y.source.as_str(),
        ),
        (
            Symbol::Method { type_path: t, body: x },
            Symbol::Method { type_path: u, body: y },
        ) => same_text(t.as_str(), u.as_str()) && same_text(x.source.as_str(), y.source.as_str()),
        _ => false,
    }
}

} // verus!
