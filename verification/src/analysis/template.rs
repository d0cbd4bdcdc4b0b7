//! Reading `format!` and `concat!` tokens, and `let` bindings, as text.

use crate::text::{
    all_digits, chars_of, count_of, digits_below, digits_value, drop_while, drop_while_back, find,
    has_prefix, is_space, lemma_count_add, lemma_count_subrange, lemma_upto, only_digits,
    same_chars, space, split, split_on, starts_with, string_of, trim, trim_of, trim_start,
    trim_start_of, upto,
};
use vstd::prelude::*;

verus! {

// ---------------------------------------------------------------------
// the arguments of format!
// ---------------------------------------------------------------------

pub open spec fn opens(c: char) -> bool {
    c == '(' || c == '[' || c == '{'
}

pub open spec fn closes(c: char) -> bool {
    c == ')' || c == ']' || c == '}'
}

/// The pieces of `s` from `start` on, cut at the commas that stand at or after
/// `i` outside all brackets, when `depth` brackets are open at `i`. A piece
/// after the last comma counts only if it is not empty.
pub open spec fn comma_parts(s: Seq<char>, start: int, i: int, depth: int) -> Seq<Seq<char>>
    decreases s.len() - i,
{
    if i >= s.len() {
        if start < s.len() {
            seq![s.skip(start)]
        } else {
            Seq::empty()
        }
    } else if opens(s[i]) {
        comma_parts(s, start, i + 1, depth + 1)
    } else if closes(s[i]) {
        comma_parts(s, start, i + 1, depth - 1)
    } else if s[i] == ',' && depth == 0 {
        seq![s.subrange(start, i)] + comma_parts(s, i + 1, i + 1, depth)
    } else {
        comma_parts(s, start, i + 1, depth)
    }
}

/// The pieces without surrounding white space, except those that are then empty.
pub open spec fn trimmed_parts(parts: Seq<Seq<char>>) -> Seq<Seq<char>>
    decreases parts.len(),
{
    if parts.len() == 0 {
        Seq::empty()
    } else {
        let rest = trimmed_parts(parts.drop_first());
        let head = trim_of(parts[0]);
        if head.len() == 0 {
            rest
        } else {
            seq![head] + rest
        }
    }
}

/// The arguments in what follows the template: nothing unless it starts with a
/// comma.
pub open spec fn argument_texts(after: Seq<char>) -> Seq<Seq<char>> {
    if after.len() > 0 && after[0] == ',' {
        trimmed_parts(comma_parts(trim_of(after.skip(1)), 0, 0, 0))
    } else {
        Seq::empty()
    }
}

/// The tokens of a `format!`: the text of its template literal, and its
/// arguments.
pub struct FormatTokens {
    pub template: Seq<char>,
    pub args: Seq<Seq<char>>,
}

/// What the tokens of a `format!` hold, or what is missing.
pub open spec fn format_tokens(tokens: Seq<char>) -> Result<FormatTokens, Seq<char>> {
    let t = trim_start_of(tokens);
    if t.len() == 0 || t[0] != '"' {
        Err("format! without literal template"@)
    } else if !t.skip(1).contains('"') {
        Err("format! template unclosed"@)
    } else {
        let rest = t.skip(1);
        let template = upto(rest, '"');
        Ok(
            FormatTokens {
                template,
                args: argument_texts(trim_of(rest.skip((template.len() + 1) as int))),
            },
        )
    }
}

/// Splits at the commas outside all brackets.
pub fn split_top_level_commas(s: &[char]) -> (out: Vec<String>)
    ensures
        out.deep_view() == comma_parts(s@, 0, 0, 0),
{
    let mut parts: Vec<String> = Vec::new();
    let mut depth: i128 = 0;
    let mut start: usize = 0;
    let mut i: usize = 0;
    assert(parts.deep_view() =~= Seq::empty());
    assert(parts.deep_view() + comma_parts(s@, 0, 0, 0) =~= comma_parts(s@, 0, 0, 0));
    while i < s.len()
        invariant
            start <= i <= s.len(),
            -(i as int) <= depth <= i as int,
            parts.deep_view() + comma_parts(s@, start as int, i as int, depth as int)
                == comma_parts(s@, 0, 0, 0),
        decreases s.len() - i,
    {
        let c = s[i];
        if c == '(' || c == '[' || c == '{' {
            depth += 1;
        } else if c == ')' || c == ']' || c == '}' {
            depth -= 1;
        } else if c == ',' && depth == 0 {
            let ghost front = parts.deep_view();
            let piece = vstd::slice::slice_subrange(s, start, i);
            parts.push(string_of(piece));
            assert(parts.deep_view() =~= front.push(piece@));
            assert(parts.deep_view() + comma_parts(s@, i + 1, i + 1, 0) =~= front + (
            seq![piece@] + comma_parts(s@, i + 1, i + 1, 0)));
            start = i + 1;
        }
        i += 1;
    }
    if start < s.len() {
        let ghost front = parts.deep_view();
        let piece = vstd::slice::slice_subrange(s, start, s.len());
        parts.push(string_of(piece));
        assert(piece@ =~= s@.skip(start as int));
        assert(parts.deep_view() =~= front + seq![piece@]);
    } else {
        assert(parts.deep_view() =~= parts.deep_view() + Seq::empty());
    }
    parts
}

fn trim_parts(parts: &[String]) -> (out: Vec<String>)
    ensures
        out.deep_view() == trimmed_parts(parts.deep_view()),
{
    let ghost all = parts.deep_view();
    let mut out: Vec<String> = Vec::new();
    let mut i: usize = 0;
    assert(all.skip(0) =~= all);
    assert(out.deep_view() + trimmed_parts(all) =~= trimmed_parts(all));
    while i < parts.len()
        invariant
            i <= parts.len(),
            all == parts.deep_view(),
            out.deep_view() + trimmed_parts(all.skip(i as int)) == trimmed_parts(all),
        decreases parts.len() - i,
    {
        let chars = chars_of(parts[i].as_str());
        let piece = trim(&chars);
        assert(all.skip(i as int)[0] == parts@[i as int]@);
        assert(all.skip(i as int).drop_first() =~= all.skip(i + 1));
        if piece.len() > 0 {
            let ghost front = out.deep_view();
            out.push(string_of(piece));
            assert(out.deep_view() =~= front.push(piece@));
            assert(out.deep_view() + trimmed_parts(all.skip(i + 1)) =~= front + (seq![piece@]
                + trimmed_parts(all.skip(i + 1))));
        }
        i += 1;
    }
    assert(all.skip(i as int) =~= Seq::empty());
    assert(out.deep_view() + Seq::<Seq<char>>::empty() =~= out.deep_view());
    out
}

/// Takes the tokens of a `format!` apart.
pub fn read_format(tokens: &str) -> (out: Result<(Vec<char>, Vec<String>), &'static str>)
    ensures
        match out {
            Ok(parts) => format_tokens(tokens@) == Ok::<FormatTokens, Seq<char>>(
                FormatTokens { template: parts.0@, args: parts.1.deep_view() },
            ),
            Err(kind) => format_tokens(tokens@) == Err::<FormatTokens, Seq<char>>(kind@),
        },
{
    let chars = chars_of(tokens);
    let t = trim_start(&chars);
    if t.len() == 0 || t[0] != '"' {
        return Err("format! without literal template");
    }
    let rest = vstd::slice::slice_subrange(t, 1, t.len());
    assert(rest@ =~= t@.skip(1));
    let end = find(rest, '"');
    if end == rest.len() {
        return Err("format! template unclosed");
    }
    let template = vstd::slice::slice_subrange(rest, 0, end);
    assert(template@ =~= rest@.take(end as int));
    let tail = vstd::slice::slice_subrange(rest, end + 1, rest.len());
    assert(tail@ =~= rest@.skip(end + 1));
    let after = trim(tail);
    let mut kept: Vec<char> = Vec::new();
    let mut i: usize = 0;
    while i < template.len()
        invariant
            i <= template.len(),
            kept@ == template@.take(i as int),
        decreases template.len() - i,
    {
        kept.push(template[i]);
        i += 1;
    }
    assert(template@.take(i as int) =~= template@);
    if after.len() > 0 && after[0] == ',' {
        let list = vstd::slice::slice_subrange(after, 1, after.len());
        assert(list@ =~= after@.skip(1));
        let parts = split_top_level_commas(trim(list));
        let args = trim_parts(&parts);
        Ok((kept, args))
    } else {
        let args: Vec<String> = Vec::new();
        assert(args.deep_view() =~= Seq::empty());
        Ok((kept, args))
    }
}

// ---------------------------------------------------------------------
// templates
// ---------------------------------------------------------------------

/// A piece of a template: a character, or a hole by what stands in its braces.
#[derive(Debug)]
pub enum Piece {
    Char(char),
    Hole(String),
}

/// The model of a [`Piece`].
pub enum PieceView {
    Text(Seq<char>),
    Hole(Seq<char>),
}

impl DeepView for Piece {
    type V = PieceView;

    open spec fn deep_view(&self) -> PieceView {
        match self {
            Piece::Char(c) => PieceView::Text(seq![*c]),
            Piece::Hole(h) => PieceView::Hole(h@),
        }
    }
}

/// The pieces of the template from `i` on, when `hole` is what was read of an
/// open hole. `{{` and `}}` stand for one brace everywhere, inside a hole too;
/// a hole that is not closed is dropped.
pub open spec fn pieces_from(t: Seq<char>, i: int, hole: Option<Seq<char>>) -> Seq<PieceView>
    decreases t.len() - i,
{
    if i < 0 || i >= t.len() {
        Seq::empty()
    } else if t[i] == '{' && i + 1 < t.len() && t[i + 1] == '{' {
        seq![PieceView::Text(seq!['{'])] + pieces_from(t, i + 2, hole)
    } else if t[i] == '}' && i + 1 < t.len() && t[i + 1] == '}' {
        seq![PieceView::Text(seq!['}'])] + pieces_from(t, i + 2, hole)
    } else if t[i] == '{' {
        pieces_from(t, i + 1, Some(Seq::empty()))
    } else {
        match hole {
            Some(h) => if t[i] == '}' {
                seq![PieceView::Hole(h)] + pieces_from(t, i + 1, None)
            } else {
                pieces_from(t, i + 1, Some(h.push(t[i])))
            },
            None => seq![PieceView::Text(seq![t[i]])] + pieces_from(t, i + 1, None),
        }
    }
}

/// The pieces of a template.
pub open spec fn template_pieces(t: Seq<char>) -> Seq<PieceView> {
    pieces_from(t, 0, None)
}

fn char_at(s: &[char], i: usize) -> (c: char)
    requires
        i < s.len(),
    ensures
        c == s@[i as int],
{
    s[i]
}

/// Reads a template.
pub fn read_template(t: &[char]) -> (out: Vec<Piece>)
    ensures
        out.deep_view() == template_pieces(t@),
{
    let mut out: Vec<Piece> = Vec::new();
    let mut in_hole = false;
    let mut hole = String::new();
    let mut i: usize = 0;
    assert(out.deep_view() + template_pieces(t@) =~= template_pieces(t@));
    while i < t.len()
        invariant
            i <= t.len(),
            out.deep_view() + pieces_from(
                t@,
                i as int,
                if in_hole {
                    Some(hole@)
                } else {
                    None
                },
            ) == template_pieces(t@),
        decreases t.len() - i,
    {
        let ghost front = out.deep_view();
        let c = char_at(t, i);
        let doubled = i + 1 < t.len() && t[i + 1] == c;
        if c == '{' && doubled {
            out.push(Piece::Char('{'));
            assert(out.deep_view() =~= front + seq![PieceView::Text(seq!['{'])]);
            i += 2;
        } else if c == '}' && doubled {
            out.push(Piece::Char('}'));
            assert(out.deep_view() =~= front + seq![PieceView::Text(seq!['}'])]);
            i += 2;
        } else if c == '{' {
            in_hole = true;
            hole = String::new();
            assert(hole@ =~= Seq::empty());
            i += 1;
        } else if in_hole && c == '}' {
            let ghost text = hole@;
            in_hole = false;
            out.push(Piece::Hole(hole));
            hole = String::new();
            assert(out.deep_view() =~= front + seq![PieceView::Hole(text)]);
            i += 1;
        } else if in_hole {
            hole.push(c);
            i += 1;
        } else {
            out.push(Piece::Char(c));
            assert(out.deep_view() =~= front + seq![PieceView::Text(seq![c])]);
            i += 1;
        }
        assert(out.deep_view() + pieces_from(
            t@,
            i as int,
            if in_hole {
                Some(hole@)
            } else {
                None
            },
        ) =~= template_pieces(t@));
    }
    assert(out.deep_view() + Seq::<PieceView>::empty() =~= out.deep_view());
    out
}

/// The value of the first argument of the form `name = value`.
pub open spec fn named_argument(args: Seq<Seq<char>>, name: Seq<char>) -> Option<Seq<char>>
    decreases args.len(),
{
    if args.len() == 0 {
        None
    } else {
        let s = trim_of(args[0]);
        let n = upto(s, '=').len() as int;
        if s.contains('=') && trim_of(s.take(n)) == name {
            Some(drop_while(s.skip(n), |c: char| c == '='))
        } else {
            named_argument(args.drop_first(), name)
        }
    }
}

/// The expression that fills a hole: the next argument for an empty name, the
/// argument at that index for a number, and else the argument of that name or,
/// when there is none, the name itself.
pub open spec fn hole_source(
    args: Seq<Seq<char>>,
    name: Seq<char>,
    next: int,
) -> Option<Seq<char>> {
    if name.len() == 0 {
        if 0 <= next < args.len() {
            Some(args[next])
        } else {
            None
        }
    } else if all_digits(name) {
        if digits_value(name) < args.len() {
            Some(args[digits_value(name) as int])
        } else {
            None
        }
    } else if named_argument(args, name) is Some {
        named_argument(args, name)
    } else {
        Some(name)
    }
}

fn find_named(args: &[String], name: &[char]) -> (out: Option<String>)
    ensures
        out.deep_view() == named_argument(args.deep_view(), name@),
{
    let ghost all = args.deep_view();
    let mut i: usize = 0;
    assert(all.skip(0) =~= all);
    while i < args.len()
        invariant
            i <= args.len(),
            all == args.deep_view(),
            named_argument(all, name@) == named_argument(all.skip(i as int), name@),
        decreases args.len() - i,
    {
        let chars = chars_of(args[i].as_str());
        let s = trim(&chars);
        assert(all.skip(i as int)[0] == args@[i as int]@);
        assert(all.skip(i as int).drop_first() =~= all.skip(i + 1));
        let n = find(s, '=');
        if n < s.len() {
            let lhs = vstd::slice::slice_subrange(s, 0, n);
            assert(lhs@ =~= s@.take(n as int));
            if same_chars(trim(lhs), name) {
                let mut k: usize = n;
                while k < s.len() && s[k] == '='
                    invariant
                        n <= k <= s.len(),
                        drop_while(s@.skip(n as int), |c: char| c == '=') == drop_while(
                            s@.skip(k as int),
                            |c: char| c == '=',
                        ),
                    decreases s.len() - k,
                {
                    assert(s@.skip(k as int).drop_first() =~= s@.skip(k + 1));
                    k += 1;
                }
                let value = vstd::slice::slice_subrange(s, k, s.len());
                assert(value@ =~= s@.skip(k as int));
                return Some(string_of(value));
            }
        }
        i += 1;
    }
    None
}

/// The expression that fills a hole.
pub fn find_hole_source(args: &[String], name: &[char], next: usize) -> (out: Option<String>)
    ensures
        out.deep_view() == hole_source(args.deep_view(), name@, next as int),
{
    if name.len() == 0 {
        if next < args.len() {
            Some(args[next].clone())
        } else {
            None
        }
    } else if only_digits(name) {
        match digits_below(name, args.len()) {
            Some(k) => Some(args[k].clone()),
            None => None,
        }
    } else {
        match find_named(args, name) {
            Some(value) => Some(value),
            None => Some(string_of(name)),
        }
    }
}

// ---------------------------------------------------------------------
// concat!
// ---------------------------------------------------------------------

/// The characters of `s` from `i` on that stand between quotation marks, when
/// `inside` says whether a quotation is open at `i`.
pub open spec fn quoted_chars(s: Seq<char>, i: int, inside: bool) -> Seq<char>
    decreases s.len() - i,
{
    if i < 0 || i >= s.len() {
        Seq::empty()
    } else if s[i] == '"' {
        quoted_chars(s, i + 1, !inside)
    } else if inside {
        seq![s[i]] + quoted_chars(s, i + 1, inside)
    } else {
        quoted_chars(s, i + 1, inside)
    }
}

/// The characters between quotation marks.
pub fn read_quoted(tokens: &str) -> (out: String)
    ensures
        out@ == quoted_chars(tokens@, 0, false),
{
    let s = chars_of(tokens);
    let mut out = String::new();
    let mut inside = false;
    let mut i: usize = 0;
    assert(out@ + quoted_chars(s@, 0, false) =~= quoted_chars(s@, 0, false));
    while i < s.len()
        invariant
            i <= s.len(),
            out@ + quoted_chars(s@, i as int, inside) == quoted_chars(s@, 0, false),
        decreases s.len() - i,
    {
        let ghost front = out@;
        if s[i] == '"' {
            inside = !inside;
        } else if inside {
            out.push(s[i]);
            assert(out@ + quoted_chars(s@, i + 1, true) =~= front + (seq![s@[i as int]]
                + quoted_chars(s@, i + 1, true)));
        }
        i += 1;
    }
    assert(out@ + Seq::<char>::empty() =~= out@);
    out
}

// ---------------------------------------------------------------------
// let bindings
// ---------------------------------------------------------------------

/// A statement without the white space and opening braces before it and the
/// white space after it.
pub open spec fn bare_statement(s: Seq<char>) -> Seq<char> {
    trim_of(drop_while(s, |c: char| is_space(c) || c == '{'))
}

/// The right-hand side of the first of the statements that binds `ident`.
pub open spec fn binding_in(statements: Seq<Seq<char>>, ident: Seq<char>) -> Option<Seq<char>>
    decreases statements.len(),
{
    if statements.len() == 0 {
        None
    } else {
        let s = bare_statement(statements[0]);
        let plain = "let "@ + ident + " ="@;
        let mutable = "let mut "@ + ident + " ="@;
        if has_prefix(s, plain) {
            Some(trim_of(s.skip(plain.len() as int)))
        } else if has_prefix(s, mutable) {
            Some(trim_of(s.skip(mutable.len() as int)))
        } else {
            binding_in(statements.drop_first(), ident)
        }
    }
}

/// The right-hand side of the first `let ident = ..;` or `let mut ident = ..;`
/// in the text of a body.
pub open spec fn let_binding(body: Seq<char>, ident: Seq<char>) -> Option<Seq<char>> {
    binding_in(split_on(body, ';'), ident)
}

fn strip_statement(s: &[char]) -> (out: &[char])
    ensures
        out@ == bare_statement(s@),
{
    let mut i: usize = 0;
    assert(s@.skip(0) =~= s@);
    while i < s.len() && (space(s[i]) || s[i] == '{')
        invariant
            i <= s.len(),
            drop_while(s@, |c: char| is_space(c) || c == '{') == drop_while(
                s@.skip(i as int),
                |c: char| is_space(c) || c == '{',
            ),
        decreases s.len() - i,
    {
        assert(s@.skip(i as int).drop_first() =~= s@.skip(i + 1));
        i += 1;
    }
    let rest = vstd::slice::slice_subrange(s, i, s.len());
    assert(rest@ =~= s@.skip(i as int));
    trim(rest)
}

/// The right-hand side that `ident` is bound to in the text of a body.
pub fn find_let_binding(body: &str, ident: &str) -> (out: Option<String>)
    ensures
        out.deep_view() == let_binding(body@, ident@),
{
    let mut plain = "let ".to_owned();
    plain.append(ident);
    plain.append(" =");
    let mut mutable = "let mut ".to_owned();
    mutable.append(ident);
    mutable.append(" =");
    let plain_chars = chars_of(plain.as_str());
    let mutable_chars = chars_of(mutable.as_str());
    let body_chars = chars_of(body);
    let statements = split(&body_chars, ';');
    let ghost all = statements.deep_view();
    let mut i: usize = 0;
    assert(all.skip(0) =~= all);
    while i < statements.len()
        invariant
            i <= statements.len(),
            all == statements.deep_view(),
            all == split_on(body@, ';'),
            plain_chars@ == "let "@ + ident@ + " ="@,
            mutable_chars@ == "let mut "@ + ident@ + " ="@,
            binding_in(all, ident@) == binding_in(all.skip(i as int), ident@),
        decreases statements.len() - i,
    {
        let chars = chars_of(statements[i].as_str());
        let s = strip_statement(&chars);
        assert(all.skip(i as int)[0] == statements@[i as int]@);
        assert(all.skip(i as int).drop_first() =~= all.skip(i + 1));
        if starts_with(s, &plain_chars) {
            let rhs = vstd::slice::slice_subrange(s, plain_chars.len(), s.len());
            assert(rhs@ =~= s@.skip(plain_chars@.len() as int));
            return Some(string_of(trim(rhs)));
        }
        if starts_with(s, &mutable_chars) {
            let rhs = vstd::slice::slice_subrange(s, mutable_chars.len(), s.len());
            assert(rhs@ =~= s@.skip(mutable_chars@.len() as int));
            return Some(string_of(trim(rhs)));
        }
        i += 1;
    }
    None
}

// ---------------------------------------------------------------------
// what is read holds no character that was not there
// ---------------------------------------------------------------------

proof fn lemma_count_drop_while(s: Seq<char>, p: spec_fn(char) -> bool, c: char)
    ensures
        count_of(drop_while(s, p), c) <= count_of(s, c),
    decreases s.len(),
{
    if s.len() > 0 && p(s[0]) {
        lemma_count_drop_while(s.drop_first(), p, c);
        assert(s.drop_first() =~= s.subrange(1, s.len() as int));
        lemma_count_subrange(s, 1, s.len() as int, c);
    }
}

proof fn lemma_count_drop_while_back(s: Seq<char>, p: spec_fn(char) -> bool, c: char)
    ensures
        count_of(drop_while_back(s, p), c) <= count_of(s, c),
    decreases s.len(),
{
    if s.len() > 0 && p(s.last()) {
        lemma_count_drop_while_back(s.drop_last(), p, c);
    }
}

/// Trimming adds no character.
pub proof fn lemma_count_trim(s: Seq<char>, c: char)
    ensures
        count_of(trim_of(s), c) <= count_of(s, c),
        count_of(trim_start_of(s), c) <= count_of(s, c),
{
    lemma_count_drop_while(s, |x: char| is_space(x), c);
    lemma_count_drop_while_back(trim_start_of(s), |x: char| is_space(x), c);
}

proof fn lemma_count_comma_parts(s: Seq<char>, start: int, i: int, depth: int, c: char, k: int)
    requires
        0 <= start <= i <= s.len(),
        0 <= k < comma_parts(s, start, i, depth).len(),
    ensures
        count_of(comma_parts(s, start, i, depth)[k], c) <= count_of(s, c),
    decreases s.len() - i,
{
    if i >= s.len() {
        assert(s.skip(start) =~= s.subrange(start, s.len() as int));
        lemma_count_subrange(s, start, s.len() as int, c);
    } else if opens(s[i]) {
        lemma_count_comma_parts(s, start, i + 1, depth + 1, c, k);
    } else if closes(s[i]) {
        lemma_count_comma_parts(s, start, i + 1, depth - 1, c, k);
    } else if s[i] == ',' && depth == 0 {
        if k > 0 {
            lemma_count_comma_parts(s, i + 1, i + 1, depth, c, k - 1);
        } else {
            lemma_count_subrange(s, start, i, c);
        }
    } else {
        lemma_count_comma_parts(s, start, i + 1, depth, c, k);
    }
}

proof fn lemma_count_trimmed_parts(parts: Seq<Seq<char>>, c: char, bound: nat)
    requires
        forall|k: int| 0 <= k < parts.len() ==> count_of(#[trigger] parts[k], c) <= bound,
    ensures
        forall|k: int|
            0 <= k < trimmed_parts(parts).len() ==> count_of(#[trigger] trimmed_parts(parts)[k], c)
                <= bound,
    decreases parts.len(),
{
    if parts.len() > 0 {
        let tail = parts.drop_first();
        assert forall|k: int| 0 <= k < tail.len() implies count_of(#[trigger] tail[k], c)
            <= bound by {
            assert(tail[k] == parts[k + 1]);
        }
        lemma_count_trimmed_parts(tail, c, bound);
        lemma_count_trim(parts[0], c);
        let rest = trimmed_parts(tail);
        let all = trimmed_parts(parts);
        assert forall|k: int| 0 <= k < all.len() implies count_of(#[trigger] all[k], c)
            <= bound by {
            if trim_of(parts[0]).len() > 0 {
                if k > 0 {
                    assert(all[k] == rest[k - 1]);
                }
            } else {
                assert(all[k] == rest[k]);
            }
        }
    }
}

/// Template and arguments of a `format!` hold no character that its tokens do
/// not hold as often.
pub proof fn lemma_count_format_tokens(tokens: Seq<char>, c: char)
    ensures
        format_tokens(tokens) matches Ok(f) ==> count_of(f.template, c) <= count_of(tokens, c)
            && forall|k: int|
            0 <= k < f.args.len() ==> count_of(#[trigger] f.args[k], c) <= count_of(tokens, c),
{
    if format_tokens(tokens) is Ok {
        let t = trim_start_of(tokens);
        let rest = t.skip(1);
        let template = upto(rest, '"');
        let n = template.len() as int;
        lemma_count_trim(tokens, c);
        assert(rest =~= t.subrange(1, t.len() as int));
        lemma_count_subrange(t, 1, t.len() as int, c);
        lemma_upto(rest, '"');
        assert(template =~= rest.subrange(0, n));
        lemma_count_subrange(rest, 0, n, c);
        let tail = rest.skip(n + 1);
        assert(tail =~= rest.subrange(n + 1, rest.len() as int));
        lemma_count_subrange(rest, n + 1, rest.len() as int, c);
        let after = trim_of(tail);
        lemma_count_trim(tail, c);
        if after.len() > 0 && after[0] == ',' {
            assert(after.skip(1) =~= after.subrange(1, after.len() as int));
            lemma_count_subrange(after, 1, after.len() as int, c);
            let list = trim_of(after.skip(1));
            lemma_count_trim(after.skip(1), c);
            let parts = comma_parts(list, 0, 0, 0);
            assert forall|k: int| 0 <= k < parts.len() implies count_of(#[trigger] parts[k], c)
                <= count_of(tokens, c) by {
                lemma_count_comma_parts(list, 0, 0, 0, c, k);
            }
            lemma_count_trimmed_parts(parts, c, count_of(tokens, c));
        }
    }
}

proof fn lemma_count_pieces(t: Seq<char>, i: int, hole: Option<Seq<char>>, c: char, k: int)
    requires
        0 <= i,
        0 <= k < pieces_from(t, i, hole).len(),
    ensures
        pieces_from(t, i, hole)[k] matches PieceView::Hole(h) ==> count_of(h, c) <= (match hole {
            Some(open) => count_of(open, c),
            None => 0,
        }) + count_of(if i <= t.len() { t.skip(i) } else { Seq::empty() }, c),
    decreases t.len() - i,
{
    if i < t.len() {
        let here = t.skip(i);
        assert(here =~= seq![t[i]] + t.skip(i + 1));
        lemma_count_add(seq![t[i]], t.skip(i + 1), c);
        lemma_count_one(t[i], c);
        if t[i] == '{' && i + 1 < t.len() && t[i + 1] == '{' {
            assert(t.skip(i + 1) =~= seq![t[i + 1]] + t.skip(i + 2));
            lemma_count_add(seq![t[i + 1]], t.skip(i + 2), c);
            if k > 0 {
                lemma_count_pieces(t, i + 2, hole, c, k - 1);
            }
        } else if t[i] == '}' && i + 1 < t.len() && t[i + 1] == '}' {
            assert(t.skip(i + 1) =~= seq![t[i + 1]] + t.skip(i + 2));
            lemma_count_add(seq![t[i + 1]], t.skip(i + 2), c);
            if k > 0 {
                lemma_count_pieces(t, i + 2, hole, c, k - 1);
            }
        } else if t[i] == '{' {
            lemma_count_pieces(t, i + 1, Some(Seq::empty()), c, k);
        } else {
            match hole {
                Some(h) => {
                    if t[i] == '}' {
                        if k > 0 {
                            lemma_count_pieces(t, i + 1, None, c, k - 1);
                        }
                    } else {
                        lemma_count_pieces(t, i + 1, Some(h.push(t[i])), c, k);
                        assert(h.push(t[i]) =~= h + seq![t[i]]);
                        lemma_count_add(h, seq![t[i]], c);
                    }
                },
                None => {
                    if k > 0 {
                        lemma_count_pieces(t, i + 1, None, c, k - 1);
                    }
                },
            }
        }
    }
}

proof fn lemma_count_one(x: char, c: char)
    ensures
        count_of(seq![x], c) == (if x == c { 1nat } else { 0nat }),
{
    assert(seq![x].drop_last() =~= Seq::<char>::empty());
    assert(count_of(Seq::<char>::empty(), c) == 0);
}

proof fn lemma_count_named(args: Seq<Seq<char>>, name: Seq<char>, c: char, bound: nat)
    requires
        forall|k: int| 0 <= k < args.len() ==> count_of(#[trigger] args[k], c) <= bound,
    ensures
        named_argument(args, name) matches Some(v) ==> count_of(v, c) <= bound,
    decreases args.len(),
{
    if args.len() > 0 {
        let s = trim_of(args[0]);
        let n = upto(s, '=').len() as int;
        lemma_count_trim(args[0], c);
        lemma_upto(s, '=');
        assert(s.skip(n) =~= s.subrange(n, s.len() as int));
        lemma_count_subrange(s, n, s.len() as int, c);
        lemma_count_drop_while(s.skip(n), |x: char| x == '=', c);
        let tail = args.drop_first();
        assert forall|k: int| 0 <= k < tail.len() implies count_of(#[trigger] tail[k], c)
            <= bound by {
            assert(tail[k] == args[k + 1]);
        }
        lemma_count_named(tail, name, c, bound);
    }
}

/// What fills a hole of a `format!` holds no character that the tokens do not
/// hold as often.
pub proof fn lemma_count_hole_source(tokens: Seq<char>, k: int, next: int, c: char)
    requires
        format_tokens(tokens) is Ok,
        0 <= k < template_pieces(format_tokens(tokens)->Ok_0.template).len(),
    ensures
        template_pieces(format_tokens(tokens)->Ok_0.template)[k] matches PieceView::Hole(h) ==> (
        hole_source(format_tokens(tokens)->Ok_0.args, upto(h, ':'), next) matches Some(s)
            ==> count_of(s, c) <= count_of(tokens, c)),
{
    let f = format_tokens(tokens)->Ok_0;
    lemma_count_format_tokens(tokens, c);
    if let PieceView::Hole(h) = template_pieces(f.template)[k] {
        lemma_count_pieces(f.template, 0, None, c, k);
        assert(f.template.skip(0) =~= f.template);
        let name = upto(h, ':');
        lemma_upto(h, ':');
        assert(name =~= h.subrange(0, name.len() as int));
        lemma_count_subrange(h, 0, name.len() as int, c);
        lemma_count_named(f.args, name, c, count_of(tokens, c));
    }
}

} // verus!
