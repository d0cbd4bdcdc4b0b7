//! How `format!` and `concat!` tokens and `let` bindings are read.

use super::template::{
    argument_texts, bare_statement, binding_in, comma_parts, format_tokens, hole_source,
    let_binding, named_argument, opens, pieces_from, quoted_chars, template_pieces, trimmed_parts,
    FormatTokens, PieceView,
};
use crate::text::{
    all_digits, digits_value, drop_while, drop_while_back, has_prefix, is_space, join,
    lemma_join_split, lemma_upto, trim_of, upto,
};
use crate::text_laws::{blank, law_ends, law_trim, law_trim_start, law_upto, tight};
use vstd::prelude::*;

verus! {

// ---------------------------------------------------------------------
// templates
// ---------------------------------------------------------------------

/// No braces.
pub open spec fn braceless(s: Seq<char>) -> bool {
    !s.contains('{') && !s.contains('}')
}

/// Text, character by character.
pub open spec fn letters(s: Seq<char>) -> Seq<PieceView> {
    s.map_values(|c: char| PieceView::Text(seq![c]))
}

proof fn lemma_braceless_tail(x: Seq<char>)
    requires
        braceless(x),
        x.len() > 0,
    ensures
        braceless(x.drop_first()),
{
    let tail = x.drop_first();
    if tail.contains('{') {
        let k = choose|k: int| 0 <= k < tail.len() && tail[k] == '{';
        assert(x[k + 1] == '{');
    }
    if tail.contains('}') {
        let k = choose|k: int| 0 <= k < tail.len() && tail[k] == '}';
        assert(x[k + 1] == '}');
    }
}

proof fn lemma_pieces_shift(x: Seq<char>, t: Seq<char>, i: int, hole: Option<Seq<char>>)
    requires
        0 <= i,
    ensures
        pieces_from(x + t, x.len() + i, hole) == pieces_from(t, i, hole),
    decreases t.len() - i,
{
    let s = x + t;
    let n = x.len();
    if i < t.len() {
        assert(s[n + i] == t[i]);
        if i + 1 < t.len() {
            assert(s[n + i + 1] == t[i + 1]);
            lemma_pieces_shift(x, t, i + 2, hole);
        }
        lemma_pieces_shift(x, t, i + 1, Some(Seq::empty()));
        lemma_pieces_shift(x, t, i + 1, None);
        if let Some(h) = hole {
            lemma_pieces_shift(x, t, i + 1, Some(h.push(t[i])));
        }
    }
}

proof fn lemma_letters_first(a: Seq<char>, rest: Seq<char>)
    requires
        braceless(a),
    ensures
        template_pieces(a + rest) == letters(a) + template_pieces(rest),
    decreases a.len(),
{
    if a.len() == 0 {
        assert(a + rest =~= rest);
        assert(letters(a) + template_pieces(rest) =~= template_pieces(rest));
    } else {
        let tail = a.drop_first();
        assert(a.contains(a[0]));
        lemma_braceless_tail(a);
        lemma_letters_first(tail, rest);
        lemma_pieces_shift(seq![a[0]], tail + rest, 0, None);
        assert(a + rest =~= seq![a[0]] + (tail + rest));
        assert(letters(a) =~= seq![PieceView::Text(seq![a[0]])] + letters(tail));
        assert(template_pieces(a + rest) =~= letters(a) + template_pieces(rest));
    }
}

proof fn lemma_in_hole(name: Seq<char>, rest: Seq<char>, done: Seq<char>)
    requires
        braceless(name),
        rest.len() > 0 ==> rest[0] != '}',
    ensures
        pieces_from(name + seq!['}'] + rest, 0, Some(done)) == seq![
            PieceView::Hole(done + name),
        ] + template_pieces(rest),
    decreases name.len(),
{
    let t = name + seq!['}'] + rest;
    if name.len() == 0 {
        assert(t =~= seq!['}'] + rest);
        lemma_pieces_shift(seq!['}'], rest, 0, None);
        assert(done + name =~= done);
    } else {
        let tail = name.drop_first();
        assert(name.contains(name[0]));
        lemma_braceless_tail(name);
        let next = tail + seq!['}'] + rest;
        lemma_in_hole(tail, rest, done.push(name[0]));
        lemma_pieces_shift(seq![name[0]], next, 0, Some(done.push(name[0])));
        assert(t =~= seq![name[0]] + next);
        assert(done.push(name[0]) + tail =~= done + name);
    }
}

/// A template is read from left to right: text is itself, what stands in braces
/// is a hole, and a doubled brace is a brace.
pub proof fn law_template(a: Seq<char>, name: Seq<char>, rest: Seq<char>)
    requires
        braceless(a),
        braceless(name),
    ensures
        template_pieces(a) == letters(a),
        rest.len() == 0 || rest[0] != '}' ==> template_pieces(
            a + seq!['{'] + name + seq!['}'] + rest,
        ) == letters(a) + seq![PieceView::Hole(name)] + template_pieces(rest),
        template_pieces(a + seq!['{', '{'] + rest) == letters(a) + seq![
            PieceView::Text(seq!['{']),
        ] + template_pieces(rest),
        template_pieces(a + seq!['}', '}'] + rest) == letters(a) + seq![
            PieceView::Text(seq!['}']),
        ] + template_pieces(rest),
{
    let none = Seq::<char>::empty();
    lemma_letters_first(a, none);
    assert(a + none =~= a);
    assert(letters(a) + template_pieces(none) =~= letters(a));
    if rest.len() == 0 || rest[0] != '}' {
        let t = seq!['{'] + (name + seq!['}'] + rest);
        lemma_letters_first(a, t);
        assert(a + seq!['{'] + name + seq!['}'] + rest =~= a + t);
        if name.len() > 0 {
            assert(name.contains(name[0]));
            assert(t[1] == name[0]);
        } else {
            assert(t[1] == '}');
        }
        lemma_pieces_shift(seq!['{'], name + seq!['}'] + rest, 0, Some(none));
        lemma_in_hole(name, rest, none);
        assert(none + name =~= name);
        assert(template_pieces(t) == seq![PieceView::Hole(name)] + template_pieces(rest));
        assert(letters(a) + (seq![PieceView::Hole(name)] + template_pieces(rest)) =~= letters(a)
            + seq![PieceView::Hole(name)] + template_pieces(rest));
    }
    let open = seq!['{', '{'] + rest;
    lemma_letters_first(a, open);
    lemma_pieces_shift(seq!['{', '{'], rest, 0, None);
    assert(a + seq!['{', '{'] + rest =~= a + open);
    assert(template_pieces(open) == seq![PieceView::Text(seq!['{'])] + template_pieces(rest));
    assert(template_pieces(a + seq!['{', '{'] + rest) =~= letters(a) + seq![
        PieceView::Text(seq!['{']),
    ] + template_pieces(rest));
    let close = seq!['}', '}'] + rest;
    lemma_letters_first(a, close);
    lemma_pieces_shift(seq!['}', '}'], rest, 0, None);
    assert(a + seq!['}', '}'] + rest =~= a + close);
    assert(template_pieces(close) == seq![PieceView::Text(seq!['}'])] + template_pieces(rest));
    assert(template_pieces(a + seq!['}', '}'] + rest) =~= letters(a) + seq![
        PieceView::Text(seq!['}']),
    ] + template_pieces(rest));
}

proof fn lemma_unclosed(x: Seq<char>, done: Seq<char>)
    requires
        braceless(x),
    ensures
        pieces_from(x, 0, Some(done)) == Seq::<PieceView>::empty(),
    decreases x.len(),
{
    if x.len() > 0 {
        let tail = x.drop_first();
        assert(x.contains(x[0]));
        lemma_braceless_tail(x);
        lemma_unclosed(tail, done.push(x[0]));
        lemma_pieces_shift(seq![x[0]], tail, 0, Some(done.push(x[0])));
        assert(x =~= seq![x[0]] + tail);
    }
}

proof fn lemma_restarted(x: Seq<char>, rest: Seq<char>, done: Seq<char>)
    requires
        braceless(x),
        rest.len() == 0 || rest[0] != '{',
    ensures
        pieces_from(x + seq!['{'] + rest, 0, Some(done)) == pieces_from(
            rest,
            0,
            Some(Seq::empty()),
        ),
    decreases x.len(),
{
    let t = x + seq!['{'] + rest;
    if x.len() == 0 {
        assert(t =~= seq!['{'] + rest);
        lemma_pieces_shift(seq!['{'], rest, 0, Some(Seq::empty()));
    } else {
        let tail = x.drop_first();
        assert(x.contains(x[0]));
        lemma_braceless_tail(x);
        lemma_restarted(tail, rest, done.push(x[0]));
        let next = tail + seq!['{'] + rest;
        lemma_pieces_shift(seq![x[0]], next, 0, Some(done.push(x[0])));
        assert(t =~= seq![x[0]] + next);
    }
}

/// A brace out of place: a hole that is not closed is nothing, a hole that opens in
/// another takes its place, and a closing brace by itself is text.
pub proof fn law_stray_braces(a: Seq<char>, x: Seq<char>, name: Seq<char>, rest: Seq<char>)
    requires
        braceless(a),
        braceless(x),
        braceless(name),
        x.len() > 0,
    ensures
        template_pieces(a + seq!['{'] + x) == letters(a),
        rest.len() == 0 || rest[0] != '}' ==> template_pieces(
            a + seq!['{'] + x + seq!['{'] + name + seq!['}'] + rest,
        ) == letters(a) + seq![PieceView::Hole(name)] + template_pieces(rest),
        rest.len() == 0 || rest[0] != '}' ==> template_pieces(a + seq!['}'] + rest) == letters(a)
            + seq![PieceView::Text(seq!['}'])] + template_pieces(rest),
{
    let none = Seq::<char>::empty();
    let open = seq!['{'] + x;
    assert(x.contains(x[0]));
    assert(open[1] == x[0]);
    lemma_letters_first(a, open);
    assert(a + seq!['{'] + x =~= a + open);
    lemma_pieces_shift(seq!['{'], x, 0, Some(none));
    lemma_unclosed(x, none);
    assert(template_pieces(open) =~= Seq::<PieceView>::empty());
    assert(letters(a) + Seq::<PieceView>::empty() =~= letters(a));
    if rest.len() == 0 || rest[0] != '}' {
        let inner = name + seq!['}'] + rest;
        let after = x + seq!['{'] + inner;
        let t = seq!['{'] + after;
        assert(t[1] == x[0]);
        lemma_letters_first(a, t);
        assert(a + seq!['{'] + x + seq!['{'] + name + seq!['}'] + rest =~= a + t);
        lemma_pieces_shift(seq!['{'], after, 0, Some(none));
        if name.len() > 0 {
            assert(name.contains(name[0]));
            assert(inner[0] == name[0]);
        } else {
            assert(inner[0] == '}');
        }
        lemma_restarted(x, inner, none);
        lemma_in_hole(name, rest, none);
        assert(none + name =~= name);
        assert(template_pieces(t) == seq![PieceView::Hole(name)] + template_pieces(rest));
        assert(letters(a) + (seq![PieceView::Hole(name)] + template_pieces(rest)) =~= letters(a)
            + seq![PieceView::Hole(name)] + template_pieces(rest));
        let close = seq!['}'] + rest;
        lemma_letters_first(a, close);
        assert(a + seq!['}'] + rest =~= a + close);
        if rest.len() > 0 {
            assert(close[1] == rest[0]);
        }
        lemma_pieces_shift(seq!['}'], rest, 0, None);
        assert(template_pieces(close) == seq![PieceView::Text(seq!['}'])] + template_pieces(
            rest,
        ));
        assert(letters(a) + (seq![PieceView::Text(seq!['}'])] + template_pieces(rest))
            =~= letters(a) + seq![PieceView::Text(seq!['}'])] + template_pieces(rest));
    }
}

proof fn lemma_on_in_hole(x: Seq<char>, t: Seq<char>, done: Seq<char>)
    requires
        braceless(x),
    ensures
        pieces_from(x + t, 0, Some(done)) == pieces_from(t, 0, Some(done + x)),
    decreases x.len(),
{
    if x.len() == 0 {
        assert(x + t =~= t);
        assert(done + x =~= done);
    } else {
        let tail = x.drop_first();
        assert(x.contains(x[0]));
        lemma_braceless_tail(x);
        lemma_on_in_hole(tail, t, done.push(x[0]));
        lemma_pieces_shift(seq![x[0]], tail + t, 0, Some(done.push(x[0])));
        assert(x + t =~= seq![x[0]] + (tail + t));
        assert(done.push(x[0]) + tail =~= done + x);
    }
}

/// A doubled brace within a hole is a brace before the hole, which goes on after it.
pub proof fn law_doubled_braces_in_a_hole(
    a: Seq<char>,
    x: Seq<char>,
    brace: char,
    y: Seq<char>,
    rest: Seq<char>,
)
    requires
        braceless(a),
        braceless(x),
        braceless(y),
        brace == '{' || brace == '}',
        brace == '{' ==> x.len() > 0,
        rest.len() == 0 || rest[0] != '}',
    ensures
        template_pieces(a + seq!['{'] + x + seq![brace, brace] + y + seq!['}'] + rest) == letters(a)
            + seq![PieceView::Text(seq![brace]), PieceView::Hole(x + y)] + template_pieces(rest),
{
    let none = Seq::<char>::empty();
    let inner = y + seq!['}'] + rest;
    let t = seq![brace, brace] + inner;
    let after = x + t;
    let all = seq!['{'] + after;
    lemma_letters_first(a, all);
    assert(a + seq!['{'] + x + seq![brace, brace] + y + seq!['}'] + rest =~= a + all);
    if x.len() > 0 {
        assert(x.contains(x[0]));
        assert(all[1] == x[0]);
    } else {
        assert(all[1] == brace);
    }
    lemma_pieces_shift(seq!['{'], after, 0, Some(none));
    lemma_on_in_hole(x, t, none);
    assert(none + x =~= x);
    assert(t[0] == brace && t[1] == brace);
    lemma_pieces_shift(seq![brace, brace], inner, 0, Some(x));
    lemma_in_hole(y, rest, x);
    let ends = seq![PieceView::Text(seq![brace])] + (seq![PieceView::Hole(x + y)]
        + template_pieces(rest));
    assert(template_pieces(all) == ends);
    assert(letters(a) + ends =~= letters(a) + seq![
        PieceView::Text(seq![brace]),
        PieceView::Hole(x + y),
    ] + template_pieces(rest));
}

// ---------------------------------------------------------------------
// arguments
// ---------------------------------------------------------------------

/// How many brackets are open after the first `n` characters.
pub open spec fn open_after(s: Seq<char>, n: int) -> int
    decreases n,
{
    if n <= 0 || n > s.len() {
        0
    } else {
        open_after(s, n - 1) + (if s[n - 1] == '(' || s[n - 1] == '[' || s[n - 1] == '{' {
            1int
        } else if s[n - 1] == ')' || s[n - 1] == ']' || s[n - 1] == '}' {
            -1int
        } else {
            0int
        })
    }
}

/// Every comma stands inside brackets.
pub open spec fn one_argument(s: Seq<char>) -> bool {
    forall|i: int| 0 <= i < s.len() && #[trigger] s[i] == ',' ==> open_after(s, i) != 0
}

proof fn lemma_open_prefix(a: Seq<char>, b: Seq<char>, n: int)
    requires
        0 <= n <= a.len(),
    ensures
        open_after(a + b, n) == open_after(a, n),
    decreases n,
{
    if n > 0 {
        lemma_open_prefix(a, b, n - 1);
        assert((a + b)[n - 1] == a[n - 1]);
    }
}

proof fn lemma_comma_scan(a: Seq<char>, rest: Seq<char>, i: int)
    requires
        one_argument(a),
        0 <= i <= a.len(),
    ensures
        comma_parts(a + rest, 0, i, open_after(a, i)) == comma_parts(
            a + rest,
            0,
            a.len() as int,
            open_after(a, a.len() as int),
        ),
    decreases a.len() - i,
{
    if i < a.len() {
        assert((a + rest)[i] == a[i]);
        lemma_comma_scan(a, rest, i + 1);
    }
}

proof fn lemma_comma_shift(x: Seq<char>, s: Seq<char>, start: int, i: int, depth: int)
    requires
        0 <= start <= i,
    ensures
        comma_parts(x + s, x.len() + start, x.len() + i, depth) == comma_parts(
            s,
            start,
            i,
            depth,
        ),
    decreases s.len() - i,
{
    let t = x + s;
    let n = x.len();
    if i < s.len() {
        assert(t[n + i] == s[i]);
        lemma_comma_shift(x, s, start, i + 1, depth + 1);
        lemma_comma_shift(x, s, start, i + 1, depth - 1);
        lemma_comma_shift(x, s, start, i + 1, depth);
        lemma_comma_shift(x, s, i + 1, i + 1, depth);
        assert(t.subrange(n + start, n + i) =~= s.subrange(start, i));
    } else if start < s.len() {
        assert(t.skip(n + start) =~= s.skip(start));
    }
}

/// Arguments are cut at the commas outside all brackets, and nowhere else.
pub proof fn law_arguments_are_cut_at_commas(a: Seq<char>, b: Seq<char>)
    requires
        one_argument(a),
    ensures
        a.len() > 0 ==> comma_parts(a, 0, 0, 0) == seq![a],
        open_after(a, a.len() as int) == 0 ==> comma_parts(a + seq![','] + b, 0, 0, 0) == seq![a]
            + comma_parts(b, 0, 0, 0),
{
    let none = Seq::<char>::empty();
    lemma_comma_scan(a, none, 0);
    assert(a + none =~= a);
    assert(a.skip(0) =~= a);
    if open_after(a, a.len() as int) == 0 {
        let rest = seq![','] + b;
        let all = a + rest;
        assert(all =~= a + seq![','] + b);
        lemma_comma_scan(a, rest, 0);
        assert(all[a.len() as int] == ',');
        assert(all.subrange(0, a.len() as int) =~= a);
        lemma_comma_shift(a + seq![','], b, 0, 0, 0);
        assert(a + seq![','] + b =~= all);
    }
}

/// Each argument is taken without the white space around it; empty ones do not
/// count.
pub proof fn law_arguments_are_trimmed(parts: Seq<Seq<char>>)
    ensures
        trimmed_parts(parts) == parts.map_values(|s: Seq<char>| trim_of(s)).filter(
            |s: Seq<char>| s.len() > 0,
        ),
    decreases parts.len(),
{
    let f = |s: Seq<char>| trim_of(s);
    let p = |s: Seq<char>| s.len() > 0;
    reveal(Seq::filter);
    if parts.len() > 0 {
        let rest = parts.drop_first();
        law_arguments_are_trimmed(rest);
        let head = seq![f(parts[0])];
        assert(parts.map_values(f) =~= head + rest.map_values(f));
        Seq::filter_distributes_over_add(head, rest.map_values(f), p);
        assert(head.drop_last() =~= Seq::<Seq<char>>::empty());
        assert(Seq::<Seq<char>>::empty().filter(p) =~= Seq::<Seq<char>>::empty());
        if p(f(parts[0])) {
            assert(head.filter(p) =~= head);
        } else {
            assert(head.filter(p) =~= Seq::<Seq<char>>::empty());
        }
        assert(trimmed_parts(parts) =~= head.filter(p) + rest.map_values(f).filter(p));
    } else {
        assert(parts.map_values(f).filter(p) =~= Seq::empty());
        assert(trimmed_parts(parts) =~= Seq::empty());
    }
}

/// The tokens of a `format!` are its template between quotation marks, and the
/// arguments after a comma, with white space wherever it stands.
pub proof fn law_format_tokens(
    lead: Seq<char>,
    template: Seq<char>,
    gap: Seq<char>,
    space: Seq<char>,
    list: Seq<char>,
    tail: Seq<char>,
)
    requires
        blank(lead),
        blank(gap),
        blank(space),
        blank(tail),
        tight(list),
        list.len() > 0,
        !template.contains('"'),
    ensures
        format_tokens(lead + (seq!['"'] + template + seq!['"']) + gap) == Ok::<
            FormatTokens,
            Seq<char>,
        >(FormatTokens { template, args: Seq::empty() }),
        format_tokens(
            lead + (seq!['"'] + template + seq!['"']) + (gap + (seq![','] + space + list) + tail),
        ) == Ok::<FormatTokens, Seq<char>>(
            FormatTokens {
                template,
                args: comma_parts(list, 0, 0, 0).map_values(|s: Seq<char>| trim_of(s)).filter(
                    |s: Seq<char>| s.len() > 0,
                ),
            },
        ),
        format_tokens(lead + (seq!['"'] + template)) == Err::<FormatTokens, Seq<char>>(
            "format! template unclosed"@,
        ),
{
    assert(!is_space('"'));
    let none = Seq::<char>::empty();
    let quoted = seq!['"'] + template + seq!['"'];
    lemma_quoted(lead, template, gap);
    law_trim(gap, none, none);
    assert(gap + none + none =~= gap);
    let after = gap + (seq![','] + space + list) + tail;
    lemma_quoted(lead, template, after);
    let m = seq![','] + space + list;
    assert(m.last() == list.last());
    law_trim(gap, m, tail);
    law_trim(space, list, none);
    assert(m.skip(1) =~= space + list + none);
    law_arguments_are_trimmed(comma_parts(list, 0, 0, 0));
    let open = seq!['"'] + template;
    law_trim_start(lead, open);
    assert(open.skip(1) =~= template);
}

proof fn lemma_quoted(lead: Seq<char>, template: Seq<char>, after: Seq<char>)
    requires
        blank(lead),
        !template.contains('"'),
    ensures
        format_tokens(lead + (seq!['"'] + template + seq!['"']) + after) == Ok::<
            FormatTokens,
            Seq<char>,
        >(FormatTokens { template, args: argument_texts(trim_of(after)) }),
{
    assert(!is_space('"'));
    let quoted = seq!['"'] + template + seq!['"'];
    let t = quoted + after;
    assert(lead + quoted + after =~= lead + t);
    law_trim_start(lead, t);
    let rest = t.skip(1);
    assert(rest =~= template + seq!['"'] + after);
    assert(rest[template.len() as int] == '"');
    law_upto(template, '"', after);
    assert(rest.skip(template.len() as int + 1) =~= after);
}

/// An argument that is not given under the name: without `=`, or with another name
/// before it.
pub open spec fn not_named(arg: Seq<char>, name: Seq<char>) -> bool {
    !arg.contains('=') || trim_of(upto(trim_of(arg), '=')) != name
}

/// Nothing but `=`.
pub open spec fn equals_signs(s: Seq<char>) -> bool {
    forall|i: int| 0 <= i < s.len() ==> #[trigger] s[i] == '='
}

/// An argument that is given under the name: the name, white space, `=` once or
/// more, and the value.
pub open spec fn named_as(
    arg: Seq<char>,
    name: Seq<char>,
    gap: Seq<char>,
    signs: Seq<char>,
    value: Seq<char>,
) -> bool {
    &&& arg == name + gap + signs + value
    &&& signs.len() > 0
    &&& equals_signs(signs)
    &&& value.len() > 0
    &&& value[0] != '='
    &&& !is_space(value.last())
}

/// What fills a hole: for an empty one the next argument, for a number the
/// argument at that place, for a name the first argument that is given under it; a
/// name that no argument has stands for itself.
pub proof fn law_what_fills_a_hole(
    args: Seq<Seq<char>>,
    next: int,
    digits: Seq<char>,
    name: Seq<char>,
    i: int,
    gap: Seq<char>,
    signs: Seq<char>,
    value: Seq<char>,
)
    requires
        name.len() > 0,
        !all_digits(name),
        tight(name),
        !name.contains('='),
        blank(gap),
        digits.len() > 0,
        all_digits(digits),
    ensures
        0 <= next < args.len() ==> hole_source(args, Seq::empty(), next) == Some(args[next]),
        next >= args.len() ==> hole_source(args, Seq::empty(), next) is None,
        digits_value(digits) < args.len() ==> hole_source(args, digits, next) == Some(
            args[digits_value(digits) as int],
        ),
        digits_value(digits) >= args.len() ==> hole_source(args, digits, next) is None,
        (forall|j: int| 0 <= j < args.len() ==> not_named(#[trigger] args[j], name))
            ==> hole_source(args, name, next) == Some(name),
        0 <= i < args.len() && (forall|j: int| 0 <= j < i ==> not_named(#[trigger] args[j], name))
            && named_as(args[i], name, gap, signs, value) ==> hole_source(args, name, next)
            == Some(value),
{
    if forall|j: int| 0 <= j < args.len() ==> not_named(#[trigger] args[j], name) {
        lemma_no_named(args, name);
    }
    if 0 <= i < args.len() && (forall|j: int| 0 <= j < i ==> not_named(#[trigger] args[j], name))
        && named_as(args[i], name, gap, signs, value) {
        lemma_named_at(args, name, i, gap, signs, value);
    }
}

proof fn lemma_trim_keeps_out(s: Seq<char>, c: char)
    requires
        !s.contains(c),
    ensures
        !trim_of(s).contains(c),
{
    let a = drop_while(s, |x: char| is_space(x));
    lemma_drop_while_part(s, |x: char| is_space(x));
    let n = s.len() - a.len();
    if trim_of(s).contains(c) {
        let k = choose|k: int| 0 <= k < trim_of(s).len() && trim_of(s)[k] == c;
        lemma_drop_back_part(a, |x: char| is_space(x));
        assert(a[k] == c);
        assert(s[n + k] == c);
    }
}

proof fn lemma_drop_while_part(s: Seq<char>, p: spec_fn(char) -> bool)
    ensures
        drop_while(s, p).len() <= s.len(),
        drop_while(s, p) == s.skip(s.len() - drop_while(s, p).len()),
    decreases s.len(),
{
    if s.len() > 0 && p(s[0]) {
        lemma_drop_while_part(s.drop_first(), p);
        assert(drop_while(s, p) =~= s.skip(s.len() - drop_while(s, p).len()));
    } else {
        assert(s.skip(0) =~= s);
    }
}

proof fn lemma_drop_back_part(s: Seq<char>, p: spec_fn(char) -> bool)
    ensures
        drop_while_back(s, p).len() <= s.len(),
        drop_while_back(s, p) == s.take(
            drop_while_back(s, p).len() as int,
        ),
    decreases s.len(),
{
    if s.len() > 0 && p(s.last()) {
        lemma_drop_back_part(s.drop_last(), p);
        assert(drop_while_back(s, p) =~= s.take(
            drop_while_back(s, p).len() as int,
        ));
    } else {
        assert(s.take(s.len() as int) =~= s);
    }
}

proof fn lemma_not_named(args: Seq<Seq<char>>, name: Seq<char>)
    requires
        args.len() > 0,
        not_named(args[0], name),
    ensures
        named_argument(args, name) == named_argument(args.drop_first(), name),
{
    let s = trim_of(args[0]);
    if !args[0].contains('=') {
        lemma_trim_keeps_out(args[0], '=');
    }
    lemma_upto(s, '=');
    assert(s.take(upto(s, '=').len() as int) == upto(s, '='));
}

proof fn lemma_no_named(args: Seq<Seq<char>>, name: Seq<char>)
    requires
        forall|j: int| 0 <= j < args.len() ==> not_named(#[trigger] args[j], name),
    ensures
        named_argument(args, name) is None,
    decreases args.len(),
{
    if args.len() > 0 {
        lemma_not_named(args, name);
        let rest = args.drop_first();
        assert forall|j: int| 0 <= j < rest.len() implies not_named(#[trigger] rest[j], name) by {
            assert(rest[j] == args[j + 1]);
        }
        lemma_no_named(rest, name);
    }
}

proof fn lemma_drop_signs(signs: Seq<char>, value: Seq<char>)
    requires
        equals_signs(signs),
        value.len() > 0,
        value[0] != '=',
    ensures
        drop_while(signs + value, |c: char| c == '=') == value,
    decreases signs.len(),
{
    if signs.len() > 0 {
        let rest = signs.drop_first();
        assert forall|i: int| 0 <= i < rest.len() implies #[trigger] rest[i] == '=' by {
            assert(rest[i] == signs[i + 1]);
        }
        lemma_drop_signs(rest, value);
        assert((signs + value).drop_first() =~= rest + value);
        assert((signs + value)[0] == '=');
    } else {
        assert(signs + value =~= value);
    }
}

proof fn lemma_named_at(
    args: Seq<Seq<char>>,
    name: Seq<char>,
    i: int,
    gap: Seq<char>,
    signs: Seq<char>,
    value: Seq<char>,
)
    requires
        0 <= i < args.len(),
        name.len() > 0,
        tight(name),
        !name.contains('='),
        blank(gap),
        forall|j: int| 0 <= j < i ==> not_named(#[trigger] args[j], name),
        named_as(args[i], name, gap, signs, value),
    ensures
        named_argument(args, name) == Some(value),
    decreases i,
{
    let none = Seq::<char>::empty();
    if i > 0 {
        lemma_not_named(args, name);
        let rest = args.drop_first();
        assert forall|j: int| 0 <= j < i - 1 implies not_named(#[trigger] rest[j], name) by {
            assert(rest[j] == args[j + 1]);
        }
        assert(rest[i - 1] == args[i]);
        lemma_named_at(rest, name, i - 1, gap, signs, value);
    } else {
        let s = args[0];
        assert(s[0] == name[0]);
        assert(s.last() == value.last());
        law_trim(none, s, none);
        assert(none + s + none =~= s);
        let lhs = name + gap;
        assert(!lhs.contains('=')) by {
            if lhs.contains('=') {
                let k = choose|k: int| 0 <= k < lhs.len() && lhs[k] == '=';
                if k < name.len() {
                    assert(name[k] == '=');
                } else {
                    assert(is_space(gap[k - name.len()]));
                    assert(!is_space('='));
                }
            }
        }
        let more = signs.drop_first();
        assert(signs[0] == '=');
        law_upto(lhs, '=', more + value);
        assert(s =~= lhs + seq!['='] + (more + value));
        assert(s[lhs.len() as int] == '=');
        assert(s.take(lhs.len() as int) =~= none + name + gap);
        law_trim(none, name, gap);
        let right = s.skip(lhs.len() as int);
        assert(right =~= signs + value);
        lemma_drop_signs(signs, value);
    }
}

// ---------------------------------------------------------------------
// concat!
// ---------------------------------------------------------------------

proof fn lemma_quoted_shift(x: Seq<char>, s: Seq<char>, i: int, inside: bool)
    requires
        0 <= i,
    ensures
        quoted_chars(x + s, x.len() + i, inside) == quoted_chars(s, i, inside),
    decreases s.len() - i,
{
    if i < s.len() {
        assert((x + s)[x.len() + i] == s[i]);
        lemma_quoted_shift(x, s, i + 1, inside);
        lemma_quoted_shift(x, s, i + 1, !inside);
    }
}

proof fn lemma_unquoted(a: Seq<char>, rest: Seq<char>, inside: bool)
    requires
        !a.contains('"'),
    ensures
        quoted_chars(a + rest, 0, inside) == (if inside {
            a
        } else {
            Seq::empty()
        }) + quoted_chars(rest, 0, inside),
    decreases a.len(),
{
    if a.len() == 0 {
        assert(a + rest =~= rest);
        assert((if inside {
            a
        } else {
            Seq::empty()
        }) + quoted_chars(rest, 0, inside) =~= quoted_chars(rest, 0, inside));
    } else {
        let tail = a.drop_first();
        assert(a.contains(a[0]));
        assert(!tail.contains('"')) by {
            if tail.contains('"') {
                let k = choose|k: int| 0 <= k < tail.len() && tail[k] == '"';
                assert(a[k + 1] == '"');
            }
        }
        lemma_unquoted(tail, rest, inside);
        lemma_quoted_shift(seq![a[0]], tail + rest, 0, inside);
        assert(a + rest =~= seq![a[0]] + (tail + rest));
        if inside {
            assert(seq![a[0]] + (tail + quoted_chars(rest, 0, inside)) =~= a + quoted_chars(
                rest,
                0,
                inside,
            ));
        }
    }
}

/// A `concat!` is its string literals one after the other; what stands between
/// them does not count.
pub proof fn law_concat(between: Seq<char>, text: Seq<char>, rest: Seq<char>)
    requires
        !between.contains('"'),
        !text.contains('"'),
    ensures
        quoted_chars(between, 0, false) == Seq::<char>::empty(),
        quoted_chars(between + (seq!['"'] + text + seq!['"']) + rest, 0, false) == text
            + quoted_chars(rest, 0, false),
{
    let none = Seq::<char>::empty();
    lemma_unquoted(between, none, false);
    assert(between + none =~= between);
    assert(none + quoted_chars(none, 0, false) =~= none);
    let closed = seq!['"'] + rest;
    let inner = text + closed;
    let opened = seq!['"'] + inner;
    lemma_unquoted(between, opened, false);
    assert(between + (seq!['"'] + text + seq!['"']) + rest =~= between + opened);
    lemma_quoted_shift(seq!['"'], inner, 0, true);
    lemma_unquoted(text, closed, true);
    lemma_quoted_shift(seq!['"'], rest, 0, false);
    assert(quoted_chars(opened, 0, false) == quoted_chars(inner, 0, true));
    assert(quoted_chars(closed, 0, true) == quoted_chars(rest, 0, false));
    assert(none + quoted_chars(opened, 0, false) =~= text + quoted_chars(rest, 0, false));
}

// ---------------------------------------------------------------------
// let bindings
// ---------------------------------------------------------------------

/// White space and opening braces.
pub open spec fn padding(s: Seq<char>) -> bool {
    forall|i: int| 0 <= i < s.len() ==> is_space(#[trigger] s[i]) || s[i] == '{'
}

/// The statement binds the name, plainly or as mutable, to what `rhs` says.
pub open spec fn binds(s: Seq<char>, name: Seq<char>, lead: Seq<char>, rhs: Seq<char>) -> bool {
    padding(lead) && (s == lead + ("let "@ + name + " ="@) + rhs || s == lead + ("let mut "@
        + name + " ="@) + rhs)
}

/// The statement has nothing to do with a binding of the name.
pub open spec fn does_not_bind(s: Seq<char>, name: Seq<char>) -> bool {
    let t = bare_statement(s);
    !has_prefix(t, "let "@ + name + " ="@) && !has_prefix(t, "let mut "@ + name + " ="@)
}

proof fn lemma_drop_padding(lead: Seq<char>, m: Seq<char>)
    requires
        padding(lead),
        m.len() > 0,
        !is_space(m[0]) && m[0] != '{',
    ensures
        drop_while(lead + m, |c: char| is_space(c) || c == '{') == m,
    decreases lead.len(),
{
    if lead.len() > 0 {
        assert((lead + m).drop_first() =~= lead.drop_first() + m);
        assert(padding(lead.drop_first())) by {
            let t = lead.drop_first();
            assert forall|i: int| 0 <= i < t.len() implies is_space(#[trigger] t[i]) || t[i]
                == '{' by {
                assert(t[i] == lead[i + 1]);
            }
        }
        lemma_drop_padding(lead.drop_first(), m);
    } else {
        assert(lead + m =~= m);
    }
}

proof fn lemma_binding_at(statements: Seq<Seq<char>>, k: int, name: Seq<char>)
    requires
        0 <= k <= statements.len(),
        forall|j: int| 0 <= j < k ==> does_not_bind(#[trigger] statements[j], name),
    ensures
        binding_in(statements, name) == binding_in(statements.skip(k), name),
    decreases k,
{
    if k > 0 {
        lemma_binding_at(statements, k - 1, name);
        let rest = statements.skip(k - 1);
        assert(rest[0] == statements[k - 1]);
        assert(rest.drop_first() =~= statements.skip(k));
    } else {
        assert(statements.skip(0) =~= statements);
    }
}

/// A name is bound to the right-hand side of the first statement that binds it,
/// without the white space around it. Statements end at semicolons.
pub proof fn law_first_binding_counts(
    statements: Seq<Seq<char>>,
    k: int,
    name: Seq<char>,
    lead: Seq<char>,
    pad: Seq<char>,
    value: Seq<char>,
    trail: Seq<char>,
)
    requires
        statements.len() > 0,
        forall|i: int| 0 <= i < statements.len() ==> !(#[trigger] statements[i]).contains(';'),
        tight(value),
        value.len() > 0,
        blank(pad),
        blank(trail),
        !name.contains('='),
    ensures
        0 <= k < statements.len() && (forall|j: int|
            0 <= j < k ==> does_not_bind(#[trigger] statements[j], name)) && binds(
            statements[k],
            name,
            lead,
            pad + value + trail,
        ) ==> let_binding(join(statements, seq![';']), name) == Some(value),
        (forall|j: int|
            0 <= j < statements.len() ==> does_not_bind(#[trigger] statements[j], name))
            ==> let_binding(join(statements, seq![';']), name) is None,
{
    lemma_join_split(statements, ';');
    if forall|j: int| 0 <= j < statements.len() ==> does_not_bind(#[trigger] statements[j], name) {
        lemma_binding_at(statements, statements.len() as int, name);
        assert(statements.skip(statements.len() as int) =~= Seq::empty());
    }
    if 0 <= k < statements.len() && (forall|j: int|
        0 <= j < k ==> does_not_bind(#[trigger] statements[j], name)) && binds(
        statements[k],
        name,
        lead,
        pad + value + trail,
    ) {
        lemma_binding_at(statements, k, name);
        assert(statements.skip(k)[0] == statements[k]);
        lemma_bare_binding(statements[k], name, lead, pad, value, trail);
    }
}

proof fn lemma_bare_binding(
    s: Seq<char>,
    name: Seq<char>,
    lead: Seq<char>,
    pad: Seq<char>,
    value: Seq<char>,
    trail: Seq<char>,
)
    requires
        tight(value),
        value.len() > 0,
        blank(pad),
        blank(trail),
        !name.contains('='),
        binds(s, name, lead, pad + value + trail),
    ensures
        binding_in(seq![s], name) == Some(value),
        forall|rest: Seq<Seq<char>>|
            rest.len() > 0 && rest[0] == s ==> #[trigger] binding_in(rest, name) == Some(value),
{
    reveal_strlit("let ");
    reveal_strlit("let mut ");
    reveal_strlit(" =");
    let plain = "let "@ + name + " ="@;
    let mutable = "let mut "@ + name + " ="@;
    let rhs = pad + value + trail;
    let none = Seq::<char>::empty();
    let start = if s == lead + plain + rhs {
        plain
    } else {
        mutable
    };
    let m = start + rhs;
    assert(m[0] == 'l');
    assert(s =~= lead + m);
    lemma_drop_padding(lead, m);
    let core = start + pad + value;
    assert(core[0] == 'l');
    assert(core.last() == value.last());
    law_trim(none, core, trail);
    assert(none + core + trail =~= m);
    assert(bare_statement(s) == core);
    law_trim(pad, value, none);
    law_ends(core, start, pad + value);
    assert(core =~= start + (pad + value));
    assert(core.skip(start.len() as int) =~= pad + value + none);
    if s != lead + plain + rhs {
        lemma_mut_is_no_name(name, pad + value);
    }
    assert(seq![s][0] == s);
}

proof fn lemma_mut_is_no_name(name: Seq<char>, after: Seq<char>)
    requires
        !name.contains('='),
    ensures
        !has_prefix("let mut "@ + name + " ="@ + after, "let "@ + name + " ="@),
{
    reveal_strlit("let ");
    reveal_strlit("let mut ");
    reveal_strlit(" =");
    let s = "let mut "@ + name + " ="@ + after;
    let plain = "let "@ + name + " ="@;
    let k = plain.len() - 1;
    assert(plain[k] == '=');
    if has_prefix(s, plain) {
        assert(s.take(plain.len() as int)[k] == '=');
        assert(s[k] == '=');
        if k < 8 {
            assert(s[k] == "let mut "@[k]);
        } else {
            assert(s[k] == name[k - 8]);
        }
    }
}

} // verus!
