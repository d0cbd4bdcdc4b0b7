//! What the symbol index answers after files were merged into it.

use super::symbol_index::{
    empty_index, first_with_path, index_sorted, law_first_definer_stays, law_first_definition_wins,
    law_merged_sorted, lemma_entry_by_lookup, lemma_lookup_found, lookup, lookup_any, merged,
    same_value, span_of, DuplicateView, EntryView, IndexView, SnippetView, SpanView, SymbolView,
};
use crate::text::lex_lt;
use vstd::prelude::*;

verus! {

/// A list of symbols that defines nothing at that path.
pub open spec fn leaves_out(symbols: Seq<(Seq<char>, SymbolView)>, path: Seq<char>) -> bool {
    forall|i: int| 0 <= i < symbols.len() ==> (#[trigger] symbols[i]).0 != path
}

/// A lookup finds what is in the index under that crate and that path, and nothing
/// else.
pub proof fn law_lookup_finds_what_is_there(
    entries: Seq<EntryView>,
    crate_name: Seq<char>,
    path: Seq<char>,
    symbol: SymbolView,
)
    requires
        index_sorted(entries),
    ensures
        (lookup(entries, crate_name, path) == Some(symbol)) == entries.contains(
            EntryView { crate_name, path, symbol },
        ),
        (lookup(entries, crate_name, path) is None) == (forall|i: int|
            0 <= i < entries.len() ==> !((#[trigger] entries[i]).crate_name == crate_name
                && entries[i].path == path)),
{
    lemma_entry_by_lookup(entries, EntryView { crate_name, path, symbol });
    let k = lemma_lookup_found(entries, crate_name, path);
    if lookup(entries, crate_name, path) is Some {
        assert(entries[k].crate_name == crate_name && entries[k].path == path);
    }
}

/// The index is walked crate by crate, and within a crate by path.
pub proof fn law_index_order(entries: Seq<EntryView>, i: int, j: int)
    requires
        index_sorted(entries),
        0 <= i < j < entries.len(),
    ensures
        lex_lt(entries[i].crate_name, entries[j].crate_name) || (entries[i].crate_name
            == entries[j].crate_name && lex_lt(entries[i].path, entries[j].path)),
{
}

/// Among crates the first that has the path answers, and none answers where none
/// has it.
pub proof fn law_crates_answer_in_order(
    entries: Seq<EntryView>,
    before: Seq<Seq<char>>,
    crate_name: Seq<char>,
    rest: Seq<Seq<char>>,
    path: Seq<char>,
)
    requires
        forall|i: int|
            0 <= i < before.len() ==> lookup(entries, #[trigger] before[i], path) is None,
    ensures
        lookup(entries, crate_name, path) is Some ==> lookup_any(
            entries,
            before + seq![crate_name] + rest,
            path,
        ) == lookup(entries, crate_name, path),
        lookup_any(entries, before, path) is None,
    decreases before.len(),
{
    let all = before + seq![crate_name] + rest;
    if before.len() > 0 {
        assert(all[0] == before[0]);
        assert(lookup(entries, before[0], path) is None);
        assert(all.drop_first() =~= before.drop_first() + seq![crate_name] + rest);
        assert forall|i: int| 0 <= i < before.drop_first().len() implies lookup(
            entries,
            #[trigger] before.drop_first()[i],
            path,
        ) is None by {
            assert(before.drop_first()[i] == before[i + 1]);
        }
        law_crates_answer_in_order(entries, before.drop_first(), crate_name, rest, path);
    } else {
        assert(all[0] == crate_name);
    }
}

/// Merging a file leaves every other crate as it was, and every path that the file
/// does not define.
pub proof fn law_merge_leaves_the_rest(
    index: IndexView,
    crate_name: Seq<char>,
    symbols: Seq<(Seq<char>, SymbolView)>,
    other: Seq<char>,
    path: Seq<char>,
)
    requires
        index_sorted(index.entries),
        other != crate_name || leaves_out(symbols, path),
    ensures
        lookup(merged(index, crate_name, symbols).entries, other, path) == lookup(
            index.entries,
            other,
            path,
        ),
    decreases symbols.len(),
{
    if symbols.len() > 0 {
        let front = symbols.drop_last();
        assert(leaves_out(symbols, path) ==> leaves_out(front, path)) by {
            if leaves_out(symbols, path) {
                assert forall|i: int| 0 <= i < front.len() implies (#[trigger] front[i]).0
                    != path by {
                    assert(front[i] == symbols[i]);
                }
            }
        }
        assert(symbols.last() == symbols[symbols.len() - 1]);
        law_merge_leaves_the_rest(index, crate_name, front, other, path);
        law_merged_sorted(index, crate_name, front);
        law_first_definition_wins(
            merged(index, crate_name, front).entries,
            EntryView { crate_name, path: symbols.last().0, symbol: symbols.last().1 },
            other,
            path,
        );
    }
}

/// What a file defines is found in its crate: the first definition of a path, and
/// an earlier one from another file of the crate stays.
pub proof fn law_merge_adds_what_the_file_defines(
    index: IndexView,
    crate_name: Seq<char>,
    before: Seq<(Seq<char>, SymbolView)>,
    path: Seq<char>,
    symbol: SymbolView,
    rest: Seq<(Seq<char>, SymbolView)>,
)
    requires
        index_sorted(index.entries),
        leaves_out(before, path),
    ensures
        lookup(
            merged(index, crate_name, before + seq![(path, symbol)] + rest).entries,
            crate_name,
            path,
        ) == (if lookup(index.entries, crate_name, path) is Some {
            lookup(index.entries, crate_name, path)
        } else {
            Some(symbol)
        }),
    decreases rest.len(),
{
    let all = before + seq![(path, symbol)] + rest;
    let front = all.drop_last();
    let last = all.last();
    law_merged_sorted(index, crate_name, front);
    law_first_definition_wins(
        merged(index, crate_name, front).entries,
        EntryView { crate_name, path: last.0, symbol: last.1 },
        crate_name,
        path,
    );
    if rest.len() > 0 {
        law_merge_adds_what_the_file_defines(
            index,
            crate_name,
            before,
            path,
            symbol,
            rest.drop_last(),
        );
        assert(front =~= before + seq![(path, symbol)] + rest.drop_last());
    } else {
        assert(front =~= before);
        assert(last == (path, symbol));
        law_merge_leaves_the_rest(index, crate_name, before, crate_name, path);
    }
}

/// The first crate that defines a path is remembered with its definition, whatever
/// is merged later.
pub proof fn law_first_definition_is_remembered(
    index: IndexView,
    crate_name: Seq<char>,
    before: Seq<(Seq<char>, SymbolView)>,
    path: Seq<char>,
    symbol: SymbolView,
    rest: Seq<(Seq<char>, SymbolView)>,
)
    requires
        leaves_out(before, path),
    ensures
        first_with_path(
            merged(index, crate_name, before + seq![(path, symbol)] + rest).firsts,
            path,
        ) == (if first_with_path(index.firsts, path) is Some {
            first_with_path(index.firsts, path)
        } else {
            Some(EntryView { crate_name, path, symbol })
        }),
        first_with_path(merged(index, crate_name, before).firsts, path) == first_with_path(
            index.firsts,
            path,
        ),
        first_with_path(empty_index().firsts, path) is None,
    decreases before.len() + rest.len(),
{
    let all = before + seq![(path, symbol)] + rest;
    let front = all.drop_last();
    let last = all.last();
    law_first_definer_stays(merged(index, crate_name, front), crate_name, last.0, last.1, path);
    if before.len() > 0 {
        let some = before.drop_last();
        assert forall|i: int| 0 <= i < some.len() implies (#[trigger] some[i]).0 != path by {
            assert(some[i] == before[i]);
        }
        assert(before.last() == before[before.len() - 1]);
        law_first_definition_is_remembered(
            index,
            crate_name,
            some,
            path,
            symbol,
            Seq::empty(),
        );
        law_first_definer_stays(
            merged(index, crate_name, some),
            crate_name,
            before.last().0,
            before.last().1,
            path,
        );
    }
    if rest.len() > 0 {
        law_first_definition_is_remembered(
            index,
            crate_name,
            before,
            path,
            symbol,
            rest.drop_last(),
        );
        assert(front =~= before + seq![(path, symbol)] + rest.drop_last());
    } else {
        assert(front =~= before);
        assert(last == (path, symbol));
    }
}

/// Whether a definition differs from that of the first crate that defined its path.
pub open spec fn clashes(
    index: IndexView,
    crate_name: Seq<char>,
    d: (Seq<char>, SymbolView),
) -> bool {
    first_with_path(index.firsts, d.0) matches Some(first) && first.crate_name != crate_name
        && !same_value(d.1, first.symbol)
}

/// What is reported of a definition that differs from the first: the path, and both
/// places, the first one first.
pub open spec fn clash(
    index: IndexView,
    crate_name: Seq<char>,
    d: (Seq<char>, SymbolView),
) -> DuplicateView {
    let first = first_with_path(index.firsts, d.0)->0;
    DuplicateView {
        path: d.0,
        first_crate: first.crate_name,
        first_span: span_of(first.symbol),
        second_crate: crate_name,
        second_span: span_of(d.1),
    }
}

proof fn lemma_own_first(
    index: IndexView,
    crate_name: Seq<char>,
    symbols: Seq<(Seq<char>, SymbolView)>,
    path: Seq<char>,
)
    ensures
        first_with_path(index.firsts, path) is Some ==> first_with_path(
            merged(index, crate_name, symbols).firsts,
            path,
        ) == first_with_path(index.firsts, path),
        first_with_path(index.firsts, path) is None ==> match first_with_path(
            merged(index, crate_name, symbols).firsts,
            path,
        ) {
            Some(e) => e.crate_name == crate_name,
            None => true,
        },
    decreases symbols.len(),
{
    if symbols.len() > 0 {
        let front = symbols.drop_last();
        lemma_own_first(index, crate_name, front, path);
        law_first_definer_stays(
            merged(index, crate_name, front),
            crate_name,
            symbols.last().0,
            symbols.last().1,
            path,
        );
    }
}

/// Merging a file adds one report for each of its definitions that differs from
/// that of the first other crate, in the order of the file, and none for the rest.
pub proof fn law_merge_reports_the_clashes(
    index: IndexView,
    crate_name: Seq<char>,
    symbols: Seq<(Seq<char>, SymbolView)>,
)
    ensures
        merged(index, crate_name, symbols).diagnostics == index.diagnostics + symbols.filter(
            |d: (Seq<char>, SymbolView)| clashes(index, crate_name, d),
        ).map_values(|d: (Seq<char>, SymbolView)| clash(index, crate_name, d)),
    decreases symbols.len(),
{
    reveal(Seq::filter);
    let odd = |d: (Seq<char>, SymbolView)| clashes(index, crate_name, d);
    let told = |d: (Seq<char>, SymbolView)| clash(index, crate_name, d);
    if symbols.len() > 0 {
        let front = symbols.drop_last();
        let d = symbols.last();
        law_merge_reports_the_clashes(index, crate_name, front);
        lemma_own_first(index, crate_name, front, d.0);
        if odd(d) {
            assert(front.filter(odd).push(d).map_values(told) =~= front.filter(odd).map_values(
                told,
            ).push(told(d)));
            assert(index.diagnostics + front.filter(odd).map_values(told).push(told(d)) =~= (
            index.diagnostics + front.filter(odd).map_values(told)).push(told(d)));
        }
    } else {
        assert(index.diagnostics + symbols.filter(odd).map_values(told) =~= index.diagnostics);
    }
}

/// Two definitions are the same where they are of one kind and their sources are
/// the same, wherever they stand. Methods are the same on the same type only.
pub proof fn law_same_definition(
    a: Seq<char>,
    b: Seq<char>,
    s: SpanView,
    t: SpanView,
    x: Seq<char>,
    y: Seq<char>,
)
    ensures
        ({
            let l = SnippetView { source: a, span: s };
            let r = SnippetView { source: b, span: t };
            let lm = SymbolView::Method { type_path: x, body: l };
            let rm = SymbolView::Method { type_path: y, body: r };
            &&& same_value(SymbolView::Const(l), SymbolView::Const(r)) == (a == b)
            &&& same_value(SymbolView::Function(l), SymbolView::Function(r)) == (a == b)
            &&& same_value(lm, rm) == (a == b && x == y)
            &&& !same_value(SymbolView::Const(l), SymbolView::Function(r))
            &&& !same_value(SymbolView::Function(l), SymbolView::Const(r))
            &&& !same_value(lm, SymbolView::Const(r)) && !same_value(SymbolView::Const(l), rm)
            &&& !same_value(lm, SymbolView::Function(r)) && !same_value(
                SymbolView::Function(l),
                rm,
            )
            &&& span_of(SymbolView::Const(l)) == s
            &&& span_of(SymbolView::Function(l)) == s
            &&& span_of(lm) == s
        }),
{
}

} // verus!
