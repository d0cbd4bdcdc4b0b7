//! What a `format!`, a `concat!` and the statements of a builder come to.

use super::subject::{
    fill_pieces, gives_format, gives_literal, held, is_adapter, is_format, is_subject_literal,
    lemma_pieces_released, resolve_argument, resolve_format, resolve_node, resolve_text,
    OutcomeView, ReasonView, ScopeView,
};
use super::symbol_index::EntryView;
use super::template::{
    format_tokens, hole_source, lemma_count_hole_source, quoted_chars, template_pieces,
    FormatTokens, PieceView,
};
use super::template_laws::{braceless, law_template, letters};
use crate::model::pattern::parsed;
use crate::order::flat;
use crate::syntax::{ExprView, StmtView};
use crate::text::upto;
use crate::text_laws::{blank, law_trim, law_upto, tight};
use vstd::prelude::*;

verus! {

// ---------------------------------------------------------------------
// format!
// ---------------------------------------------------------------------

/// A hole without a name, with or without a format after a colon.
pub open spec fn unnamed(p: PieceView) -> bool {
    p matches PieceView::Hole(h) && upto(h, ':').len() == 0
}

/// How many holes without a name come before the `k`-th piece.
pub open spec fn unnamed_before(pieces: Seq<PieceView>, k: int) -> int {
    pieces.take(k).filter(|p: PieceView| unnamed(p)).len() as int
}

/// What is being looked up when the `k`-th piece is filled.
pub open spec fn marks_before(
    tokens: Seq<char>,
    k: int,
    entries: Seq<EntryView>,
    scope: ScopeView,
    depth: nat,
    visited: Set<Seq<char>>,
) -> Set<Seq<char>> {
    fill_pieces(tokens, k as nat, entries, scope, depth, visited).visited
}

/// What the `k`-th piece comes to: text to itself, a hole to what its expression
/// resolves to, if it has one.
pub open spec fn piece_outcome(
    tokens: Seq<char>,
    k: int,
    entries: Seq<EntryView>,
    scope: ScopeView,
    depth: nat,
    visited: Set<Seq<char>>,
) -> OutcomeView {
    let f = format_tokens(tokens)->Ok_0;
    let pieces = template_pieces(f.template);
    let marks = marks_before(tokens, k, entries, scope, depth, visited);
    match pieces[k] {
        PieceView::Text(s) => OutcomeView::Resolved(s),
        PieceView::Hole(h) => match hole_source(
            f.args,
            upto(h, ':'),
            unnamed_before(pieces, k),
        ) {
            Some(text) => resolve_argument(text, entries, scope, depth, marks).outcome,
            None => OutcomeView::Unresolved(ReasonView::DepthExhausted),
        },
    }
}

/// An outcome in a text: what is known of it, or `*`.
pub open spec fn shown(o: OutcomeView) -> Seq<char> {
    match o {
        OutcomeView::Resolved(s) => s,
        OutcomeView::PartiallyResolved(s) => s,
        OutcomeView::Unresolved(_) => seq!['*'],
    }
}

/// The numbers below `n`.
pub open spec fn below_number(n: nat) -> Seq<int> {
    Seq::new(n, |i: int| i)
}

/// The text of the first `n` pieces.
pub open spec fn shown_pieces(
    tokens: Seq<char>,
    n: nat,
    entries: Seq<EntryView>,
    scope: ScopeView,
    depth: nat,
    visited: Set<Seq<char>>,
) -> Seq<char> {
    flat(
        below_number(n),
        |k: int| shown(piece_outcome(tokens, k, entries, scope, depth, visited)),
    )
}

/// Whether one of the first `n` pieces is not known in full.
pub open spec fn unsure(
    tokens: Seq<char>,
    n: int,
    entries: Seq<EntryView>,
    scope: ScopeView,
    depth: nat,
    visited: Set<Seq<char>>,
) -> bool {
    exists|k: int|
        0 <= k < n && !(#[trigger] piece_outcome(tokens, k, entries, scope, depth, visited)
            is Resolved)
}

proof fn lemma_filled(
    tokens: Seq<char>,
    n: nat,
    entries: Seq<EntryView>,
    scope: ScopeView,
    depth: nat,
    visited: Set<Seq<char>>,
)
    requires
        format_tokens(tokens) is Ok,
        n <= template_pieces(format_tokens(tokens)->Ok_0.template).len(),
    ensures
        ({
            let f = format_tokens(tokens)->Ok_0;
            let done = fill_pieces(tokens, n, entries, scope, depth, visited);
            &&& done.text == shown_pieces(tokens, n, entries, scope, depth, visited)
            &&& done.dynamic == unsure(tokens, n as int, entries, scope, depth, visited)
            &&& done.next == unnamed_before(template_pieces(f.template), n as int)
        }),
    decreases n,
{
    let f = format_tokens(tokens)->Ok_0;
    let pieces = template_pieces(f.template);
    let v = |k: int| shown(piece_outcome(tokens, k, entries, scope, depth, visited));
    reveal(Seq::filter);
    if n == 0 {
        assert(pieces.take(0) =~= Seq::empty());
        assert(below_number(0) =~= Seq::empty());
    } else {
        let m = (n - 1) as nat;
        lemma_filled(tokens, m, entries, scope, depth, visited);
        assert(below_number(n).drop_last() =~= below_number(m));
        assert(below_number(n).last() == m);
        assert(shown_pieces(tokens, n, entries, scope, depth, visited) == shown_pieces(
            tokens,
            m,
            entries,
            scope,
            depth,
            visited,
        ) + v(m as int));
        assert(pieces.take(n as int).drop_last() =~= pieces.take(m as int));
        assert(pieces.take(n as int).last() == pieces[m as int]);
        let o = piece_outcome(tokens, m as int, entries, scope, depth, visited);
        reveal_strlit("*");
        assert("*"@ =~= seq!['*']);
        assert(unsure(tokens, n as int, entries, scope, depth, visited) == (unsure(
            tokens,
            m as int,
            entries,
            scope,
            depth,
            visited,
        ) || !(o is Resolved))) by {
            if unsure(tokens, n as int, entries, scope, depth, visited) {
                let k = choose|k: int|
                    0 <= k < n && !(#[trigger] piece_outcome(
                        tokens,
                        k,
                        entries,
                        scope,
                        depth,
                        visited,
                    ) is Resolved);
                if k == m {
                    assert(!(o is Resolved));
                }
            }
        }
        if let PieceView::Hole(h) = pieces[m as int] {
            if let Some(text) = hole_source(
                f.args,
                upto(h, ':'),
                unnamed_before(pieces, m as int),
            ) {
                lemma_count_hole_source(tokens, m as int, unnamed_before(pieces, m as int), '!');
            }
        }
    }
}

/// A `format!` is its pieces one after the other: text as it is, each hole as what
/// its expression resolves to, in full or in part, and as `*` where that is not
/// known. It is known in full where every hole is. Filling a hole leaves no mark
/// that would be in the way of the next.
pub proof fn law_format_fills_its_holes(
    tokens: Seq<char>,
    f: FormatTokens,
    entries: Seq<EntryView>,
    scope: ScopeView,
    depth: nat,
    visited: Set<Seq<char>>,
    path: Seq<Seq<char>>,
    k: int,
)
    requires
        format_tokens(tokens) == Ok::<FormatTokens, Seq<char>>(f),
    ensures
        ({
            let n = template_pieces(f.template).len();
            let text = shown_pieces(tokens, n, entries, scope, depth, visited);
            let out = resolve_format(tokens, entries, scope, depth, visited).outcome;
            &&& out == (if unsure(tokens, n as int, entries, scope, depth, visited) {
                OutcomeView::PartiallyResolved(text)
            } else {
                OutcomeView::Resolved(text)
            })
            &&& resolve_node(
                ExprView::Macro { path: path.push("format"@), tokens },
                entries,
                scope,
                depth,
                visited,
            ).outcome == out
        }),
        marks_before(tokens, k, entries, scope, depth, visited).subset_of(visited),
{
    lemma_filled(tokens, template_pieces(f.template).len(), entries, scope, depth, visited);
    lemma_pieces_released(tokens, k as nat, entries, scope, depth, visited);
}

/// Without a template literal a `format!` does not resolve.
pub proof fn law_format_needs_a_template(
    tokens: Seq<char>,
    entries: Seq<EntryView>,
    scope: ScopeView,
    depth: nat,
    visited: Set<Seq<char>>,
)
    requires
        format_tokens(tokens) is Err,
    ensures
        resolve_format(tokens, entries, scope, depth, visited).outcome == OutcomeView::Unresolved(
            ReasonView::UnsupportedShape { kind: format_tokens(tokens)->Err_0 },
        ),
{
}

/// The expression of a hole resolves as the text it is, without the white space
/// around it. An empty one is a part that is not known.
pub proof fn law_arguments_resolve_as_texts(
    a: Seq<char>,
    text: Seq<char>,
    b: Seq<char>,
    entries: Seq<EntryView>,
    scope: ScopeView,
    depth: nat,
    visited: Set<Seq<char>>,
)
    requires
        blank(a),
        blank(b),
        tight(text),
    ensures
        text.len() > 0 ==> resolve_argument(a + text + b, entries, scope, depth, visited)
            == resolve_text(text, entries, scope, depth, visited),
        text.len() == 0 ==> resolve_argument(
            a + text + b,
            entries,
            scope,
            depth,
            visited,
        ).outcome == OutcomeView::PartiallyResolved(seq!['*']),
{
    law_trim(a, text, b);
    reveal_strlit("*");
    assert("*"@ =~= seq!['*']);
}

proof fn lemma_shown_letters(
    tokens: Seq<char>,
    at: int,
    s: Seq<char>,
    n: nat,
    entries: Seq<EntryView>,
    scope: ScopeView,
    depth: nat,
    visited: Set<Seq<char>>,
)
    requires
        format_tokens(tokens) is Ok,
        0 <= at,
        n <= s.len(),
        at + s.len() <= template_pieces(format_tokens(tokens)->Ok_0.template).len(),
        forall|i: int|
            0 <= i < s.len() ==> #[trigger] template_pieces(
                format_tokens(tokens)->Ok_0.template,
            )[at + i] == PieceView::Text(seq![s[i]]),
    ensures
        shown_pieces(tokens, (at + n) as nat, entries, scope, depth, visited) == shown_pieces(
            tokens,
            at as nat,
            entries,
            scope,
            depth,
            visited,
        ) + s.take(n as int),
        marks_before(tokens, at + n, entries, scope, depth, visited) == marks_before(
            tokens,
            at,
            entries,
            scope,
            depth,
            visited,
        ),
    decreases n,
{
    let f = format_tokens(tokens)->Ok_0;
    let v = |k: int| shown(piece_outcome(tokens, k, entries, scope, depth, visited));
    if n > 0 {
        let m = (n - 1) as nat;
        lemma_shown_letters(tokens, at, s, m, entries, scope, depth, visited);
        assert(below_number((at + n) as nat).drop_last() =~= below_number((at + m) as nat));
        assert(below_number((at + n) as nat).last() == at + m);
        assert(template_pieces(f.template)[at + m] == PieceView::Text(seq![s[m as int]]));
        assert(v(at + m) == seq![s[m as int]]);
        assert(s.take(n as int) =~= s.take(m as int) + seq![s[m as int]]);
    } else {
        assert(s.take(0) =~= Seq::empty());
    }
}

/// A template with one hole between two texts comes to the texts with what the
/// hole comes to between them: all that is known of a part that is known in part,
/// and `*` only where nothing is known.
pub proof fn law_one_hole(
    tokens: Seq<char>,
    a: Seq<char>,
    name: Seq<char>,
    b: Seq<char>,
    args: Seq<Seq<char>>,
    entries: Seq<EntryView>,
    scope: ScopeView,
    depth: nat,
    visited: Set<Seq<char>>,
)
    requires
        braceless(a),
        braceless(b),
        braceless(name),
        format_tokens(tokens) == Ok::<FormatTokens, Seq<char>>(
            FormatTokens { template: a + seq!['{'] + name + seq!['}'] + b, args },
        ),
    ensures
        ({
            let filled = match hole_source(args, upto(name, ':'), 0) {
                Some(text) => resolve_argument(text, entries, scope, depth, visited).outcome,
                None => OutcomeView::Unresolved(ReasonView::DepthExhausted),
            };
            let out = resolve_format(tokens, entries, scope, depth, visited).outcome;
            match filled {
                OutcomeView::Resolved(s) => out == OutcomeView::Resolved(a + s + b),
                OutcomeView::PartiallyResolved(s) => out == OutcomeView::PartiallyResolved(
                    a + s + b,
                ),
                OutcomeView::Unresolved(_) => out == OutcomeView::PartiallyResolved(
                    a + seq!['*'] + b,
                ),
            }
        }),
{
    let f = format_tokens(tokens)->Ok_0;
    let pieces = template_pieces(f.template);
    if b.len() > 0 {
        assert(b.contains(b[0]));
    }
    law_template(a, name, b);
    law_template(b, name, Seq::empty());
    assert(pieces =~= letters(a) + seq![PieceView::Hole(name)] + letters(b));
    let n = pieces.len();
    law_format_fills_its_holes(tokens, f, entries, scope, depth, visited, Seq::empty(), 0);
    let at = a.len() as int;
    assert forall|i: int| 0 <= i < a.len() implies #[trigger] pieces[0 + i] == PieceView::Text(
        seq![a[i]],
    ) by {}
    lemma_shown_letters(tokens, 0, a, a.len(), entries, scope, depth, visited);
    assert(a.take(at) =~= a);
    assert(below_number(0) =~= Seq::empty());
    assert(marks_before(tokens, at, entries, scope, depth, visited) == visited);
    assert forall|i: int| 0 <= i < b.len() implies #[trigger] pieces[at + 1 + i]
        == PieceView::Text(seq![b[i]]) by {}
    lemma_shown_letters(tokens, at + 1, b, b.len(), entries, scope, depth, visited);
    assert(b.take(b.len() as int) =~= b);
    let v = |k: int| shown(piece_outcome(tokens, k, entries, scope, depth, visited));
    assert(below_number((at + 1) as nat).drop_last() =~= below_number(at as nat));
    assert(below_number((at + 1) as nat).last() == at);
    assert(pieces[at] == PieceView::Hole(name));
    let un = |p: PieceView| unnamed(p);
    assert(unnamed_before(pieces, at) == 0) by {
        let front = pieces.take(at);
        assert(front =~= letters(a));
        assert forall|i: int| 0 <= i < front.len() implies !un(#[trigger] front[i]) by {}
        front.lemma_all_neg_filter_empty(un);
    }
    let o = piece_outcome(tokens, at, entries, scope, depth, visited);
    assert(shown_pieces(tokens, n, entries, scope, depth, visited) =~= a + shown(o) + b);
    assert(unsure(tokens, n as int, entries, scope, depth, visited) == !(o is Resolved)) by {
        if unsure(tokens, n as int, entries, scope, depth, visited) {
            let k = choose|k: int|
                0 <= k < n && !(#[trigger] piece_outcome(
                    tokens,
                    k,
                    entries,
                    scope,
                    depth,
                    visited,
                ) is Resolved);
            if k != at {
                if k < at {
                    assert(pieces[k] == PieceView::Text(seq![a[k]]));
                } else {
                    assert(pieces[k] == PieceView::Text(seq![b[k - at - 1]]));
                }
            }
        }
    }
}

/// A `format!` with one hole and one argument comes to what is before the hole,
/// all that is known of the argument, and what is after the hole. Without the
/// argument, or where nothing is known of it, a `*` stands there.
pub proof fn law_one_argument(
    tokens: Seq<char>,
    a: Seq<char>,
    b: Seq<char>,
    argument: Seq<char>,
    s: Seq<char>,
    entries: Seq<EntryView>,
    scope: ScopeView,
    depth: nat,
    visited: Set<Seq<char>>,
)
    requires
        braceless(a),
        braceless(b),
        tight(argument),
        argument.len() > 0,
        format_tokens(tokens) is Ok,
        format_tokens(tokens)->Ok_0.template == a + seq!['{', '}'] + b,
    ensures
        ({
            let args = format_tokens(tokens)->Ok_0.args;
            let inner = resolve_text(argument, entries, scope, depth, visited).outcome;
            let out = resolve_format(tokens, entries, scope, depth, visited).outcome;
            &&& args == seq![argument] && inner == OutcomeView::Resolved(s) ==> out
                == OutcomeView::Resolved(a + s + b)
            &&& args == seq![argument] && inner == OutcomeView::PartiallyResolved(s) ==> out
                == OutcomeView::PartiallyResolved(a + s + b)
            &&& args == seq![argument] && inner is Unresolved ==> out
                == OutcomeView::PartiallyResolved(a + seq!['*'] + b)
            &&& args.len() == 0 ==> out == OutcomeView::PartiallyResolved(a + seq!['*'] + b)
        }),
{
    let f = format_tokens(tokens)->Ok_0;
    let none = Seq::<char>::empty();
    assert(a + seq!['{', '}'] + b =~= a + seq!['{'] + none + seq!['}'] + b);
    law_one_hole(tokens, a, none, b, f.args, entries, scope, depth, visited);
    assert(upto(none, ':') =~= none);
    law_arguments_resolve_as_texts(none, argument, none, entries, scope, depth, visited);
    assert(none + argument + none =~= argument);
    assert(f == FormatTokens { template: a + seq!['{'] + none + seq!['}'] + b, args: f.args });
}

/// What stands after a colon in a hole says how it is printed and makes no
/// difference.
pub proof fn law_print_format_is_ignored(name: Seq<char>, how: Seq<char>)
    requires
        !name.contains(':'),
    ensures
        upto(name + seq![':'] + how, ':') == name,
        upto(name, ':') == name,
{
    law_upto(name, ':', how);
}

// ---------------------------------------------------------------------
// concat!
// ---------------------------------------------------------------------

/// A `concat!` comes to the texts of its literals, and to nothing without any.
pub proof fn law_concat_comes_to_its_literals(
    tokens: Seq<char>,
    path: Seq<Seq<char>>,
    entries: Seq<EntryView>,
    scope: ScopeView,
    depth: nat,
    visited: Set<Seq<char>>,
)
    ensures
        ({
            let text = quoted_chars(tokens, 0, false);
            let out = resolve_node(
                ExprView::Macro { path: path.push("concat"@), tokens },
                entries,
                scope,
                depth,
                visited,
            ).outcome;
            if text.len() > 0 {
                out == OutcomeView::Resolved(text)
            } else {
                out is Unresolved
            }
        }),
{
    reveal_strlit("concat");
    reveal_strlit("format");
    assert("concat"@ != "format"@) by {
        assert("concat"@[0] != "format"@[0]);
    }
}

// ---------------------------------------------------------------------
// the statements of a builder
// ---------------------------------------------------------------------

/// A statement holds the expression that it is, binds, returns or invokes, and is a
/// template where that expression is one.
pub proof fn law_what_a_statement_holds(e: ExprView)
    ensures
        gives_format(StmtView::Expr(e)) == is_format(e),
        gives_format(StmtView::Let(Some(e))) == is_format(e),
        gives_format(StmtView::Return(Some(e))) == is_format(e),
        gives_format(StmtView::Macro(e)) == is_format(e),
        !gives_format(StmtView::Let(None)) && !gives_format(StmtView::Return(None)),
        !gives_format(StmtView::Other),
        gives_literal(StmtView::Expr(e)) == is_subject_literal(e),
        gives_literal(StmtView::Let(Some(e))) == is_subject_literal(e),
        gives_literal(StmtView::Return(Some(e))) == is_subject_literal(e),
        gives_literal(StmtView::Macro(e)) == is_subject_literal(e),
        !gives_literal(StmtView::Let(None)) && !gives_literal(StmtView::Return(None)),
        !gives_literal(StmtView::Other),
        held(StmtView::Expr(e)) == Some(e),
        held(StmtView::Let(Some(e))) == Some(e),
        held(StmtView::Return(Some(e))) == Some(e),
        held(StmtView::Macro(e)) == Some(e),
        held(StmtView::Let(None)) is None,
        held(StmtView::Return(None)) is None,
        held(StmtView::Other) is None,
{
}

/// A `format!` is a template wherever it stands in a path and in adapters. A string
/// literal is one where it parses as a pattern. Nothing else is.
pub proof fn law_what_is_a_template(
    path: Seq<Seq<char>>,
    name: Seq<char>,
    tokens: Seq<char>,
    text: Seq<char>,
    method: Seq<char>,
    e: ExprView,
)
    ensures
        is_format(ExprView::Macro { path: path.push("format"@), tokens }),
        name != "format"@ ==> !is_format(ExprView::Macro { path: path.push(name), tokens }),
        is_subject_literal(ExprView::Str(text)) == (parsed(text) is Ok),
        is_format(ExprView::Reference(Box::new(e))) == is_format(e),
        is_format(ExprView::Paren(Box::new(e))) == is_format(e),
        is_format(ExprView::Group(Box::new(e))) == is_format(e),
        is_subject_literal(ExprView::Reference(Box::new(e))) == is_subject_literal(e),
        is_subject_literal(ExprView::Paren(Box::new(e))) == is_subject_literal(e),
        is_subject_literal(ExprView::Group(Box::new(e))) == is_subject_literal(e),
        ({
            let call = ExprView::MethodCall { receiver: Box::new(e), method };
            &&& is_format(call) == (is_adapter(method) && is_format(e))
            &&& is_subject_literal(call) == (is_adapter(method) && is_subject_literal(e))
        }),
        e is Str || e is ByteStr || e is OtherLit || e is Path || e is Call || e is Field || e
            is Other ==> !is_format(e),
        e is ByteStr || e is OtherLit || e is Path || e is Macro || e is Call || e is Field || e
            is Other ==> !is_subject_literal(e),
{
}

} // verus!
