//! NATS subject pattern algebra.
//!
//! A [`NatsPattern`] is a non-empty sequence of `.`-separated segments; each is
//! a literal token, the single-segment wildcard `*`, or the tail wildcard `>`,
//! which stands last. Every `NatsPattern` in existence is well-formed: its
//! fields are private and its type invariant is [`well_formed`].
//!
//! Equality is structural and the order is that of the surface form, so a
//! sorted list of patterns reads like the sorted list of their strings.
//!
//! Two relations are decided, both over the concrete subjects that a pattern
//! accepts ([`accepts`]):
//!
//! - [`NatsPattern::overlaps`]: some concrete subject is accepted by both;
//! - [`NatsPattern::covers`]: every concrete subject that the other accepts is
//!   accepted by this one.

use crate::text::{
    chars_of, concat, debug_quoted, debug_text, decimal, decimal_text, join, lemma_join_split,
    lemma_lex_irreflexive, lemma_lex_total, lemma_split_join, lex_lt, same_text, split, split_on,
    text_lt,
};
use core::cmp::Ordering;
use core::str::FromStr;
use vstd::prelude::*;

verus! {

broadcast use vstd::seq_lib::group_seq_properties;

/// A single segment of a subject pattern.
#[derive(Debug, PartialEq, Eq, Hash, PartialOrd, Ord)]
pub enum Segment {
    /// A literal subject token (e.g. `foo`, `market`, `1m`).
    Literal(String),
    /// The single-segment wildcard `*`.
    Star,
    /// The tail wildcard `>`: one or more segments.
    Gt,
}

/// The model of a [`Segment`].
pub enum SegmentView {
    Literal(Seq<char>),
    Star,
    Gt,
}

impl DeepView for Segment {
    type V = SegmentView;

    open spec fn deep_view(&self) -> SegmentView {
        match self {
            Segment::Literal(t) => SegmentView::Literal(t@),
            Segment::Star => SegmentView::Star,
            Segment::Gt => SegmentView::Gt,
        }
    }
}

impl Clone for Segment {
    fn clone(&self) -> (out: Self)
        ensures
            out.deep_view() == self.deep_view(),
    {
        match self {
            Segment::Literal(t) => Segment::Literal(t.clone()),
            Segment::Star => Segment::Star,
            Segment::Gt => Segment::Gt,
        }
    }
}

/// Why a text or a segment list is not a pattern.
#[derive(Debug, PartialEq, Eq)]
pub enum ParseError {
    /// There was nothing to parse, or nothing but dots.
    Empty,
    /// A segment was empty (`foo..bar`, a leading or trailing `.`).
    EmptySegment(usize),
    /// A `>` stood before the last segment.
    GtNotAtTail(usize),
    /// A literal token held `*`, `>`, `.`, white space, a control character or
    /// a character outside ASCII, or was empty.
    IllegalCharInToken {
        /// 0-based segment index.
        position: usize,
        /// The rejected token.
        token: String,
    },
}

/// The model of a [`ParseError`].
pub enum ParseErrorView {
    Empty,
    EmptySegment(int),
    GtNotAtTail(int),
    IllegalCharInToken { position: int, token: Seq<char> },
}

impl DeepView for ParseError {
    type V = ParseErrorView;

    open spec fn deep_view(&self) -> ParseErrorView {
        match self {
            ParseError::Empty => ParseErrorView::Empty,
            ParseError::EmptySegment(i) => ParseErrorView::EmptySegment(*i as int),
            ParseError::GtNotAtTail(i) => ParseErrorView::GtNotAtTail(*i as int),
            ParseError::IllegalCharInToken { position, token } => ParseErrorView::IllegalCharInToken {
                position: *position as int,
                token: token@,
            },
        }
    }
}

// ---------------------------------------------------------------------
// well-formedness
// ---------------------------------------------------------------------

/// A character that a literal token may hold: visible ASCII other than `.`,
/// `*` and `>`.
pub open spec fn legal_char(c: char) -> bool {
    0x21 <= c as u32 <= 0x7e && c != '.' && c != '*' && c != '>'
}

/// A token that stands for itself.
pub open spec fn legal_token(t: Seq<char>) -> bool {
    t.len() > 0 && forall|i: int| 0 <= i < t.len() ==> legal_char(#[trigger] t[i])
}

/// Literals are legal tokens and `>` stands only at the end.
pub open spec fn valid_segments(p: Seq<SegmentView>) -> bool {
    forall|i: int|
        0 <= i < p.len() ==> match #[trigger] p[i] {
            SegmentView::Literal(t) => legal_token(t),
            SegmentView::Star => true,
            SegmentView::Gt => i == p.len() - 1,
        }
}

/// What holds of the segments of every pattern.
pub open spec fn well_formed(p: Seq<SegmentView>) -> bool {
    p.len() > 0 && valid_segments(p)
}

/// The surface form of a segment.
pub open spec fn segment_text(s: SegmentView) -> Seq<char> {
    match s {
        SegmentView::Literal(t) => t,
        SegmentView::Star => seq!['*'],
        SegmentView::Gt => seq!['>'],
    }
}

/// The surface form of a pattern: its segments with dots between them.
pub open spec fn render(p: Seq<SegmentView>) -> Seq<char> {
    join(p.map_values(|s: SegmentView| segment_text(s)), seq!['.'])
}

/// The segment that a token denotes.
pub open spec fn token_segment(t: Seq<char>) -> SegmentView {
    if t == seq!['*'] {
        SegmentView::Star
    } else if t == seq!['>'] {
        SegmentView::Gt
    } else {
        SegmentView::Literal(t)
    }
}

/// What is wrong with the `i`-th of the tokens, if anything is.
pub open spec fn token_fault(tokens: Seq<Seq<char>>, i: int) -> Option<ParseErrorView> {
    let t = tokens[i];
    if t.len() == 0 {
        Some(ParseErrorView::EmptySegment(i))
    } else if t == seq!['*'] {
        None
    } else if t == seq!['>'] {
        if i == tokens.len() - 1 {
            None
        } else {
            Some(ParseErrorView::GtNotAtTail(i))
        }
    } else if legal_token(t) {
        None
    } else {
        Some(ParseErrorView::IllegalCharInToken { position: i, token: t })
    }
}

/// The first fault at or after the `i`-th token.
pub open spec fn first_token_fault(tokens: Seq<Seq<char>>, i: int) -> Option<ParseErrorView>
    decreases tokens.len() - i,
{
    if i < 0 || i >= tokens.len() {
        None
    } else if token_fault(tokens, i) is Some {
        token_fault(tokens, i)
    } else {
        first_token_fault(tokens, i + 1)
    }
}

/// Nothing but dots, or nothing at all.
pub open spec fn only_dots(s: Seq<char>) -> bool {
    forall|i: int| 0 <= i < s.len() ==> #[trigger] s[i] == '.'
}

/// What parsing `s` gives: the segments, or the first fault from the left.
pub open spec fn parsed(s: Seq<char>) -> Result<Seq<SegmentView>, ParseErrorView> {
    let tokens = split_on(s, '.');
    if only_dots(s) {
        Err(ParseErrorView::Empty)
    } else {
        match first_token_fault(tokens, 0) {
            Some(e) => Err(e),
            None => Ok(tokens.map_values(|t: Seq<char>| token_segment(t))),
        }
    }
}

/// What is wrong with the `i`-th segment, if anything is.
pub open spec fn segment_fault(p: Seq<SegmentView>, i: int) -> Option<ParseErrorView> {
    match p[i] {
        SegmentView::Gt => if i == p.len() - 1 {
            None
        } else {
            Some(ParseErrorView::GtNotAtTail(i))
        },
        SegmentView::Literal(t) => if legal_token(t) {
            None
        } else {
            Some(ParseErrorView::IllegalCharInToken { position: i, token: t })
        },
        SegmentView::Star => None,
    }
}

/// The first fault at or after the `i`-th segment.
pub open spec fn first_segment_fault(p: Seq<SegmentView>, i: int) -> Option<ParseErrorView>
    decreases p.len() - i,
{
    if i < 0 || i >= p.len() {
        None
    } else if segment_fault(p, i) is Some {
        segment_fault(p, i)
    } else {
        first_segment_fault(p, i + 1)
    }
}

/// What is wrong with a segment list, if anything is.
pub open spec fn segments_fault(p: Seq<SegmentView>) -> Option<ParseErrorView> {
    if p.len() == 0 {
        Some(ParseErrorView::Empty)
    } else {
        first_segment_fault(p, 0)
    }
}

// ---------------------------------------------------------------------
// what a pattern accepts
// ---------------------------------------------------------------------

/// A concrete subject: one or more literal tokens.
pub open spec fn concrete(s: Seq<Seq<char>>) -> bool {
    s.len() > 0 && forall|i: int| 0 <= i < s.len() ==> legal_token(#[trigger] s[i])
}

/// Whether the tokens `s` match the segments `p`: a literal matches itself,
/// `*` any one token, `>` one or more tokens up to the end.
pub open spec fn accepts(p: Seq<SegmentView>, s: Seq<Seq<char>>) -> bool
    decreases p.len(),
{
    if p.len() == 0 || s.len() == 0 {
        p.len() == 0 && s.len() == 0
    } else {
        match p[0] {
            SegmentView::Gt => true,
            SegmentView::Star => accepts(p.drop_first(), s.drop_first()),
            SegmentView::Literal(t) => s[0] == t && accepts(p.drop_first(), s.drop_first()),
        }
    }
}

/// Some concrete subject is accepted by both patterns.
pub open spec fn overlap(a: Seq<SegmentView>, b: Seq<SegmentView>) -> bool {
    exists|s: Seq<Seq<char>>| concrete(s) && #[trigger] accepts(a, s) && accepts(b, s)
}

/// `b` accepts every concrete subject that `a` accepts.
pub open spec fn cover(b: Seq<SegmentView>, a: Seq<SegmentView>) -> bool {
    forall|s: Seq<Seq<char>>| concrete(s) && #[trigger] accepts(a, s) ==> accepts(b, s)
}

/// The segment-by-segment test for [`overlap`].
spec fn overlap_walk(a: Seq<SegmentView>, b: Seq<SegmentView>) -> bool
    decreases a.len(),
{
    if a.len() == 0 || b.len() == 0 {
        a.len() == 0 && b.len() == 0
    } else {
        match (a[0], b[0]) {
            (SegmentView::Gt, _) => true,
            (_, SegmentView::Gt) => true,
            (SegmentView::Literal(x), SegmentView::Literal(y)) => x == y && overlap_walk(
                a.drop_first(),
                b.drop_first(),
            ),
            _ => overlap_walk(a.drop_first(), b.drop_first()),
        }
    }
}

/// The segment-by-segment test for [`cover`].
spec fn cover_walk(b: Seq<SegmentView>, a: Seq<SegmentView>) -> bool
    decreases b.len(),
{
    if a.len() == 0 || b.len() == 0 {
        a.len() == 0 && b.len() == 0
    } else {
        match (b[0], a[0]) {
            (SegmentView::Gt, _) => true,
            (_, SegmentView::Gt) => false,
            (SegmentView::Star, _) => cover_walk(b.drop_first(), a.drop_first()),
            (SegmentView::Literal(_), SegmentView::Star) => false,
            (SegmentView::Literal(x), SegmentView::Literal(y)) => x == y && cover_walk(
                b.drop_first(),
                a.drop_first(),
            ),
        }
    }
}

proof fn lemma_valid_tail(p: Seq<SegmentView>)
    requires
        valid_segments(p),
        p.len() > 0,
    ensures
        valid_segments(p.drop_first()),
{
    let q = p.drop_first();
    assert forall|i: int| 0 <= i < q.len() implies match #[trigger] q[i] {
        SegmentView::Literal(t) => legal_token(t),
        SegmentView::Star => true,
        SegmentView::Gt => i == q.len() - 1,
    } by {
        assert(q[i] == p[i + 1]);
    }
}

/// All tokens are legal; unlike [`concrete`], there may be none.
spec fn legal_tokens(s: Seq<Seq<char>>) -> bool {
    forall|i: int| 0 <= i < s.len() ==> legal_token(#[trigger] s[i])
}

proof fn lemma_prepend(t: Seq<char>, s: Seq<Seq<char>>)
    requires
        legal_token(t),
        legal_tokens(s),
    ensures
        legal_tokens(seq![t] + s),
        (seq![t] + s).drop_first() == s,
        (seq![t] + s)[0] == t,
        concrete(seq![t] + s),
{
    let r = seq![t] + s;
    assert(r.drop_first() =~= s);
    assert forall|i: int| 0 <= i < r.len() implies legal_token(#[trigger] r[i]) by {
        if i > 0 {
            assert(r[i] == s[i - 1]);
        }
    }
}

/// The token that stands for any token.
spec fn any_token() -> Seq<char> {
    seq!['x']
}

/// A token other than `t`.
spec fn other_token(t: Seq<char>) -> Seq<char> {
    if t == seq!['x'] {
        seq!['y']
    } else {
        seq!['x']
    }
}

proof fn lemma_sample_tokens(t: Seq<char>)
    ensures
        legal_token(any_token()),
        legal_token(other_token(t)),
        other_token(t) != t,
{
    assert(seq!['x'] != seq!['y']) by {
        assert(seq!['x'][0] != seq!['y'][0]);
    }
}

/// Tokens that `p` accepts.
spec fn sample(p: Seq<SegmentView>) -> Seq<Seq<char>>
    decreases p.len(),
{
    if p.len() == 0 {
        Seq::empty()
    } else {
        let head = match p[0] {
            SegmentView::Literal(t) => t,
            _ => any_token(),
        };
        seq![head] + sample(p.drop_first())
    }
}

proof fn lemma_sample(p: Seq<SegmentView>)
    requires
        valid_segments(p),
    ensures
        accepts(p, sample(p)),
        legal_tokens(sample(p)),
        sample(p).len() == p.len(),
    decreases p.len(),
{
    if p.len() > 0 {
        lemma_valid_tail(p);
        lemma_sample(p.drop_first());
        lemma_sample_tokens(any_token());
        let head = match p[0] {
            SegmentView::Literal(t) => t,
            _ => any_token(),
        };
        lemma_prepend(head, sample(p.drop_first()));
    }
}

proof fn lemma_overlap_witness(a: Seq<SegmentView>, b: Seq<SegmentView>) -> (s: Seq<Seq<char>>)
    requires
        valid_segments(a),
        valid_segments(b),
        overlap_walk(a, b),
    ensures
        accepts(a, s),
        accepts(b, s),
        legal_tokens(s),
        a.len() > 0 ==> concrete(s),
    decreases a.len(),
{
    if a.len() == 0 {
        Seq::empty()
    } else if a[0] is Gt {
        lemma_sample(b);
        sample(b)
    } else if b[0] is Gt {
        lemma_sample(a);
        sample(a)
    } else {
        lemma_valid_tail(a);
        lemma_valid_tail(b);
        lemma_sample_tokens(any_token());
        let rest = lemma_overlap_witness(a.drop_first(), b.drop_first());
        let head = match (a[0], b[0]) {
            (SegmentView::Literal(t), _) => t,
            (_, SegmentView::Literal(t)) => t,
            _ => any_token(),
        };
        lemma_prepend(head, rest);
        seq![head] + rest
    }
}

proof fn lemma_overlap_complete(
    a: Seq<SegmentView>,
    b: Seq<SegmentView>,
    s: Seq<Seq<char>>,
)
    requires
        accepts(a, s),
        accepts(b, s),
    ensures
        overlap_walk(a, b),
    decreases a.len(),
{
    if a.len() > 0 && b.len() > 0 && !(a[0] is Gt) && !(b[0] is Gt) {
        lemma_overlap_complete(a.drop_first(), b.drop_first(), s.drop_first());
    }
}

proof fn lemma_overlap_decided(a: Seq<SegmentView>, b: Seq<SegmentView>)
    requires
        well_formed(a),
        well_formed(b),
    ensures
        overlap_walk(a, b) == overlap(a, b),
{
    if overlap_walk(a, b) {
        let s = lemma_overlap_witness(a, b);
        assert(concrete(s) && accepts(a, s) && accepts(b, s));
    }
    if overlap(a, b) {
        let s = choose|s: Seq<Seq<char>>| concrete(s) && #[trigger] accepts(a, s) && accepts(b, s);
        lemma_overlap_complete(a, b, s);
    }
}

proof fn lemma_cover_sound(b: Seq<SegmentView>, a: Seq<SegmentView>, s: Seq<Seq<char>>)
    requires
        cover_walk(b, a),
        accepts(a, s),
    ensures
        accepts(b, s),
    decreases b.len(),
{
    if a.len() > 0 && b.len() > 0 && !(b[0] is Gt) {
        lemma_cover_sound(b.drop_first(), a.drop_first(), s.drop_first());
    }
}

/// A subject that `a` accepts and `b` does not.
proof fn lemma_cover_counterexample(b: Seq<SegmentView>, a: Seq<SegmentView>) -> (s: Seq<Seq<char>>)
    requires
        valid_segments(a),
        valid_segments(b),
        !cover_walk(b, a),
    ensures
        accepts(a, s),
        !accepts(b, s),
        legal_tokens(s),
        a.len() > 0 ==> concrete(s),
    decreases b.len(),
{
    if a.len() == 0 {
        Seq::empty()
    } else if b.len() == 0 {
        lemma_sample(a);
        sample(a)
    } else {
        lemma_valid_tail(a);
        lemma_valid_tail(b);
        lemma_sample(a.drop_first());
        lemma_sample_tokens(any_token());
        match (b[0], a[0]) {
            (SegmentView::Literal(x), SegmentView::Literal(y)) => {
                if x != y {
                    lemma_prepend(y, sample(a.drop_first()));
                    seq![y] + sample(a.drop_first())
                } else {
                    let rest = lemma_cover_counterexample(b.drop_first(), a.drop_first());
                    lemma_prepend(y, rest);
                    seq![y] + rest
                }
            },
            (SegmentView::Literal(x), _) => {
                lemma_sample_tokens(x);
                lemma_prepend(other_token(x), sample(a.drop_first()));
                seq![other_token(x)] + sample(a.drop_first())
            },
            (_, SegmentView::Gt) => {
                lemma_prepend(any_token(), Seq::empty());
                let one = seq![any_token()] + Seq::<Seq<char>>::empty();
                if b.len() == 1 {
                    lemma_prepend(any_token(), one);
                    assert(!accepts(b.drop_first(), one));
                    seq![any_token()] + one
                } else {
                    assert(!accepts(b.drop_first(), Seq::<Seq<char>>::empty()));
                    one
                }
            },
            (_, SegmentView::Literal(y)) => {
                let rest = lemma_cover_counterexample(b.drop_first(), a.drop_first());
                lemma_prepend(y, rest);
                seq![y] + rest
            },
            _ => {
                let rest = lemma_cover_counterexample(b.drop_first(), a.drop_first());
                lemma_prepend(any_token(), rest);
                seq![any_token()] + rest
            },
        }
    }
}

proof fn lemma_cover_decided(b: Seq<SegmentView>, a: Seq<SegmentView>)
    requires
        well_formed(a),
        well_formed(b),
    ensures
        cover_walk(b, a) == cover(b, a),
{
    if cover_walk(b, a) {
        assert forall|s: Seq<Seq<char>>| concrete(s) && #[trigger] accepts(a, s) implies accepts(
            b,
            s,
        ) by {
            lemma_cover_sound(b, a, s);
        }
    } else {
        let s = lemma_cover_counterexample(b, a);
        assert(concrete(s) && accepts(a, s) && !accepts(b, s));
    }
}

// ---------------------------------------------------------------------
// surface form
// ---------------------------------------------------------------------

proof fn lemma_no_token_fault(tokens: Seq<Seq<char>>, i: int, j: int)
    requires
        first_token_fault(tokens, i) is None,
        0 <= i <= j < tokens.len(),
    ensures
        token_fault(tokens, j) is None,
    decreases j - i,
{
    if i < j {
        lemma_no_token_fault(tokens, i + 1, j);
    }
}

proof fn lemma_no_fault_from(tokens: Seq<Seq<char>>, i: int)
    requires
        0 <= i <= tokens.len(),
        forall|j: int| i <= j < tokens.len() ==> #[trigger] token_fault(tokens, j) is None,
    ensures
        first_token_fault(tokens, i) is None,
    decreases tokens.len() - i,
{
    if i < tokens.len() {
        lemma_no_fault_from(tokens, i + 1);
    }
}

/// What parses is well-formed, and its surface form is the text it came from.
pub proof fn law_parsed_renders_back(s: Seq<char>)
    ensures
        parsed(s) matches Ok(p) ==> well_formed(p) && render(p) == s,
{
    if parsed(s) is Ok {
        let tokens = split_on(s, '.');
        let p = parsed(s)->Ok_0;
        lemma_split_join(s, '.');
        assert forall|i: int| 0 <= i < p.len() implies match #[trigger] p[i] {
            SegmentView::Literal(t) => legal_token(t),
            SegmentView::Star => true,
            SegmentView::Gt => i == p.len() - 1,
        } by {
            lemma_no_token_fault(tokens, 0, i);
        }
        assert(p.map_values(|x: SegmentView| segment_text(x)) =~= tokens);
    }
}

proof fn lemma_legal_has_no_dot(x: SegmentView)
    requires
        x matches SegmentView::Literal(t) ==> legal_token(t),
    ensures
        segment_text(x).len() > 0,
        !segment_text(x).contains('.'),
        token_segment(segment_text(x)) == x,
{
    let t = segment_text(x);
    if x is Literal {
        if t.contains('.') {
            let k = choose|k: int| 0 <= k < t.len() && t[k] == '.';
            assert(legal_char(t[k]));
        }
        assert(legal_char(t[0]));
        assert(t != seq!['*'] && t != seq!['>']);
    } else {
        assert(seq!['*'][0] != seq!['>'][0]);
        assert(seq!['*'] != seq!['>']);
    }
}

proof fn lemma_join_nonempty(parts: Seq<Seq<char>>, sep: Seq<char>)
    requires
        parts.len() > 0,
        parts[0].len() > 0,
    ensures
        join(parts, sep).len() > 0,
    decreases parts.len(),
{
    if parts.len() > 1 {
        lemma_join_nonempty(parts.drop_last(), sep);
    }
}

/// Parsing the surface form of a well-formed pattern gives the pattern back.
pub proof fn law_rendered_parses_back(p: Seq<SegmentView>)
    requires
        well_formed(p),
    ensures
        parsed(render(p)) == Ok::<Seq<SegmentView>, ParseErrorView>(p),
{
    let texts = p.map_values(|x: SegmentView| segment_text(x));
    assert forall|i: int| 0 <= i < texts.len() implies !(#[trigger] texts[i]).contains('.')
        && texts[i].len() > 0 && token_segment(texts[i]) == p[i] by {
        lemma_legal_has_no_dot(p[i]);
    }
    lemma_join_split(texts, '.');
    lemma_join_nonempty(texts, seq!['.']);
    assert forall|i: int| 0 <= i < texts.len() implies #[trigger] token_fault(texts, i) is None by {
        lemma_legal_has_no_dot(p[i]);
        assert(texts[i] == segment_text(p[i]));
    }
    lemma_no_fault_from(texts, 0);
    assert(texts.map_values(|t: Seq<char>| token_segment(t)) =~= p);
}

/// Two well-formed patterns with the same surface form are the same.
pub proof fn law_surface_form_identifies(p: Seq<SegmentView>, q: Seq<SegmentView>)
    requires
        well_formed(p),
        well_formed(q),
        render(p) == render(q),
    ensures
        p == q,
{
    law_rendered_parses_back(p);
    law_rendered_parses_back(q);
}

proof fn lemma_no_segment_fault(p: Seq<SegmentView>, i: int, j: int)
    requires
        first_segment_fault(p, i) is None,
        0 <= i <= j < p.len(),
    ensures
        segment_fault(p, j) is None,
    decreases j - i,
{
    if i < j {
        lemma_no_segment_fault(p, i + 1, j);
    }
}

proof fn lemma_no_segment_fault_from(p: Seq<SegmentView>, i: int)
    requires
        valid_segments(p),
        0 <= i <= p.len(),
    ensures
        first_segment_fault(p, i) is None,
    decreases p.len() - i,
{
    if i < p.len() {
        assert(p[i] is Gt ==> i == p.len() - 1);
        lemma_no_segment_fault_from(p, i + 1);
    }
}

/// A segment list has no fault exactly when it is well-formed.
pub proof fn law_faultless_is_well_formed(p: Seq<SegmentView>)
    ensures
        segments_fault(p) is None <==> well_formed(p),
{
    if segments_fault(p) is None {
        assert forall|i: int| 0 <= i < p.len() implies match #[trigger] p[i] {
            SegmentView::Literal(t) => legal_token(t),
            SegmentView::Star => true,
            SegmentView::Gt => i == p.len() - 1,
        } by {
            lemma_no_segment_fault(p, 0, i);
        }
    }
    if well_formed(p) {
        lemma_no_segment_fault_from(p, 0);
    }
}

fn is_legal_literal(token: &str) -> (legal: bool)
    ensures
        legal == legal_token(token@),
{
    let chars = chars_of(token);
    let mut i: usize = 0;
    while i < chars.len()
        invariant
            i <= chars.len(),
            chars@ == token@,
            forall|j: int| 0 <= j < i ==> legal_char(#[trigger] chars@[j]),
        decreases chars.len() - i,
    {
        if !is_legal_char(chars[i]) {
            return false;
        }
        i += 1;
    }
    chars.len() > 0
}

fn is_legal_char(c: char) -> (legal: bool)
    ensures
        legal == legal_char(c),
{
    0x21 <= c as u32 && c as u32 <= 0x7e && c != '.' && c != '*' && c != '>'
}

fn is_single(token: &str, c: char) -> (yes: bool)
    ensures
        yes == (token@ == seq![c]),
{
    let chars = chars_of(token);
    if chars.len() == 1 && chars[0] == c {
        assert(chars@ =~= seq![c]);
        true
    } else {
        assert(chars@ == seq![c] ==> chars@[0] == c);
        false
    }
}

fn render_segments(segments: &[Segment]) -> (out: String)
    ensures
        out@ == render(segments.deep_view()),
{
    let mut out = String::new();
    let ghost texts = segments.deep_view().map_values(|s: SegmentView| segment_text(s));
    let mut i: usize = 0;
    while i < segments.len()
        invariant
            i <= segments.len(),
            texts == segments.deep_view().map_values(|s: SegmentView| segment_text(s)),
            out@ == join(texts.take(i as int), seq!['.']),
        decreases segments.len() - i,
    {
        let ghost done = out@;
        assert(texts.take(i + 1).drop_last() =~= texts.take(i as int));
        assert(texts[i as int] == segment_text(segments@[i as int].deep_view()));
        if i > 0 {
            out.push('.');
        }
        match &segments[i] {
            Segment::Literal(t) => out.append(t.as_str()),
            Segment::Star => out.push('*'),
            Segment::Gt => out.push('>'),
        }
        assert(out@ =~= join(texts.take(i + 1), seq!['.']));
        i += 1;
    }
    assert(texts.take(i as int) =~= texts);
    out
}

// ---------------------------------------------------------------------
// the type
// ---------------------------------------------------------------------

/// A well-formed subject pattern.
#[derive(Debug, PartialEq, Eq, Hash, Ord)]
pub struct NatsPattern {
    /// The surface form. It stands first, so that the derived order is its
    /// order.
    canonical: String,
    segments: Vec<Segment>,
}

impl View for NatsPattern {
    type V = Seq<SegmentView>;

    closed spec fn view(&self) -> Seq<SegmentView> {
        self.segments.deep_view()
    }
}

impl DeepView for NatsPattern {
    type V = Seq<SegmentView>;

    open spec fn deep_view(&self) -> Seq<SegmentView> {
        self@
    }
}

fn all_dots(chars: &[char]) -> (yes: bool)
    ensures
        yes == only_dots(chars@),
{
    let mut i: usize = 0;
    while i < chars.len()
        invariant
            i <= chars.len(),
            forall|j: int| 0 <= j < i ==> #[trigger] chars@[j] == '.',
        decreases chars.len() - i,
    {
        if chars[i] != '.' {
            assert(chars@[i as int] != '.');
            return false;
        }
        i += 1;
    }
    true
}

impl NatsPattern {
    #[verifier::type_invariant]
    spec fn valid(self) -> bool {
        &&& well_formed(self.segments.deep_view())
        &&& self.canonical@ == render(self.segments.deep_view())
    }

    /// Parses a subject text. Rejects a text that is empty or all dots, empty
    /// segments (`foo..bar`, a leading or trailing `.`), `>` before the last segment, and
    /// tokens that hold anything but visible ASCII without `*` and `>`.
    pub fn parse(s: &str) -> (out: Result<Self, ParseError>)
        ensures
            match out {
                Ok(p) => parsed(s@) == Ok::<Seq<SegmentView>, ParseErrorView>(p@),
                Err(e) => parsed(s@) == Err::<Seq<SegmentView>, ParseErrorView>(e.deep_view()),
            },
    {
        let chars = chars_of(s);
        if all_dots(&chars) {
            return Err(ParseError::Empty);
        }
        let tokens = split(&chars, '.');
        let ghost texts = split_on(s@, '.');
        let mut segments: Vec<Segment> = Vec::new();
        let mut i: usize = 0;
        while i < tokens.len()
            invariant
                i <= tokens.len(),
                !only_dots(s@),
                texts == split_on(s@, '.'),
                tokens.deep_view() == texts,
                segments.deep_view() == texts.take(i as int).map_values(
                    |t: Seq<char>| token_segment(t),
                ),
                first_token_fault(texts, 0) == first_token_fault(texts, i as int),
            decreases tokens.len() - i,
        {
            let token = &tokens[i];
            let ghost front = segments.deep_view();
            assert(texts[i as int] == token@);
            let segment = if is_empty_text(token) {
                return Err(ParseError::EmptySegment(i));
            } else if is_single(token, '*') {
                Segment::Star
            } else if is_single(token, '>') {
                if i != tokens.len() - 1 {
                    return Err(ParseError::GtNotAtTail(i));
                }
                Segment::Gt
            } else {
                if !is_legal_literal(token) {
                    return Err(
                        ParseError::IllegalCharInToken { position: i, token: token.clone() },
                    );
                }
                Segment::Literal(token.clone())
            };
            assert(segment.deep_view() == token_segment(texts[i as int]));
            segments.push(segment);
            assert(segments.deep_view() =~= front.push(segment.deep_view()));
            assert(texts.take(i + 1).map_values(|t: Seq<char>| token_segment(t)) =~= front.push(
                token_segment(texts[i as int]),
            ));
            i += 1;
        }
        assert(texts.take(i as int) =~= texts);
        proof {
            law_parsed_renders_back(s@);
        }
        let canonical = render_segments(&segments);
        Ok(NatsPattern { canonical, segments })
    }

    /// Builds a pattern from segments. Rejects the empty list, `>` before the
    /// last segment, and literals that are not legal tokens.
    pub fn from_segments(segments: Vec<Segment>) -> (out: Result<Self, ParseError>)
        ensures
            match out {
                Ok(p) => segments_fault(segments.deep_view()) is None && p@ == segments.deep_view(),
                Err(e) => segments_fault(segments.deep_view()) == Some(e.deep_view()),
            },
    {
        if segments.len() == 0 {
            return Err(ParseError::Empty);
        }
        let ghost model = segments.deep_view();
        let mut i: usize = 0;
        while i < segments.len()
            invariant
                i <= segments.len(),
                model == segments.deep_view(),
                model.len() > 0,
                segments_fault(model) == first_segment_fault(model, i as int),
            decreases segments.len() - i,
        {
            assert(model[i as int] == segments@[i as int].deep_view());
            match &segments[i] {
                Segment::Gt => {
                    if i != segments.len() - 1 {
                        return Err(ParseError::GtNotAtTail(i));
                    }
                },
                Segment::Literal(token) => {
                    if !is_legal_literal(token.as_str()) {
                        return Err(
                            ParseError::IllegalCharInToken { position: i, token: token.clone() },
                        );
                    }
                },
                Segment::Star => {},
            }
            i += 1;
        }
        proof {
            law_faultless_is_well_formed(model);
        }
        let canonical = render_segments(&segments);
        Ok(NatsPattern { canonical, segments })
    }

    /// The segments.
    #[must_use]
    pub fn segments(&self) -> (out: &[Segment])
        ensures
            out.deep_view() == self@,
            well_formed(self@),
    {
        proof {
            use_type_invariant(self);
        }
        self.segments.as_slice()
    }

    /// The surface form, which parses back to this pattern.
    #[must_use]
    pub fn as_str(&self) -> (out: &str)
        ensures
            out@ == render(self@),
            well_formed(self@),
            parsed(out@) == Ok::<Seq<SegmentView>, ParseErrorView>(self@),
    {
        proof {
            use_type_invariant(self);
            law_rendered_parses_back(self@);
        }
        self.canonical.as_str()
    }

    /// The surface form, as a string of its own.
    #[must_use]
    pub fn to_string(&self) -> (out: String)
        ensures
            out@ == render(self@),
    {
        self.as_str().to_owned()
    }

    /// Whether this pattern accepts every concrete subject that `other`
    /// accepts: `foo.*` covers `foo.bar`, and not the other way round.
    #[must_use]
    pub fn covers(&self, other: &Self) -> (yes: bool)
        ensures
            yes == cover(self@, other@),
    {
        proof {
            use_type_invariant(self);
            use_type_invariant(other);
            lemma_cover_decided(self@, other@);
        }
        covers_segments(self.segments.as_slice(), other.segments.as_slice())
    }

    /// Whether some concrete subject is accepted by both patterns.
    #[must_use]
    pub fn overlaps(&self, other: &Self) -> (yes: bool)
        ensures
            yes == overlap(self@, other@),
    {
        proof {
            use_type_invariant(self);
            use_type_invariant(other);
            lemma_overlap_decided(self@, other@);
        }
        overlaps_segments(self.segments.as_slice(), other.segments.as_slice())
    }

    /// Whether two patterns are equal, which is to have the same surface form.
    #[must_use]
    pub fn same_as(&self, other: &Self) -> (same: bool)
        ensures
            same == (self@ == other@),
            same == (render(self@) == render(other@)),
    {
        proof {
            use_type_invariant(self);
            use_type_invariant(other);
            if render(self@) == render(other@) {
                law_surface_form_identifies(self@, other@);
            }
        }
        same_text(self.canonical.as_str(), other.canonical.as_str())
    }
}

fn is_empty_text(s: &str) -> (yes: bool)
    ensures
        yes == (s@.len() == 0),
{
    chars_of(s).len() == 0
}

/// The walk is along both lists at once, and decided at the first `>`, the
/// first difference, or the end of one list.
fn overlaps_segments(a: &[Segment], b: &[Segment]) -> (yes: bool)
    ensures
        yes == overlap_walk(a.deep_view(), b.deep_view()),
{
    let ghost x = a.deep_view();
    let ghost y = b.deep_view();
    let mut i: usize = 0;
    assert(x.skip(0) =~= x);
    assert(y.skip(0) =~= y);
    while i < a.len() && i < b.len()
        invariant
            i <= a.len(),
            i <= b.len(),
            x == a.deep_view(),
            y == b.deep_view(),
            overlap_walk(x, y) == overlap_walk(x.skip(i as int), y.skip(i as int)),
        decreases a.len() - i,
    {
        assert(x.skip(i as int)[0] == a@[i as int].deep_view());
        assert(y.skip(i as int)[0] == b@[i as int].deep_view());
        assert(x.skip(i as int).drop_first() =~= x.skip(i + 1));
        assert(y.skip(i as int).drop_first() =~= y.skip(i + 1));
        match (&a[i], &b[i]) {
            (Segment::Gt, _) => {
                return true;
            },
            (_, Segment::Gt) => {
                return true;
            },
            (Segment::Literal(s), Segment::Literal(t)) => {
                if !same_text(s.as_str(), t.as_str()) {
                    return false;
                }
            },
            _ => {},
        }
        i += 1;
    }
    i == a.len() && i == b.len()
}

fn covers_segments(b: &[Segment], a: &[Segment]) -> (yes: bool)
    ensures
        yes == cover_walk(b.deep_view(), a.deep_view()),
{
    let ghost x = a.deep_view();
    let ghost y = b.deep_view();
    let mut i: usize = 0;
    assert(x.skip(0) =~= x);
    assert(y.skip(0) =~= y);
    while i < a.len() && i < b.len()
        invariant
            i <= a.len(),
            i <= b.len(),
            x == a.deep_view(),
            y == b.deep_view(),
            cover_walk(y, x) == cover_walk(y.skip(i as int), x.skip(i as int)),
        decreases a.len() - i,
    {
        assert(x.skip(i as int)[0] == a@[i as int].deep_view());
        assert(y.skip(i as int)[0] == b@[i as int].deep_view());
        assert(x.skip(i as int).drop_first() =~= x.skip(i + 1));
        assert(y.skip(i as int).drop_first() =~= y.skip(i + 1));
        match (&b[i], &a[i]) {
            (Segment::Gt, _) => {
                return true;
            },
            (_, Segment::Gt) => {
                return false;
            },
            (Segment::Star, _) => {},
            (Segment::Literal(_), Segment::Star) => {
                return false;
            },
            (Segment::Literal(t), Segment::Literal(s)) => {
                if !same_text(t.as_str(), s.as_str()) {
                    return false;
                }
            },
        }
        i += 1;
    }
    i == a.len() && i == b.len()
}

/// The segments of `list`, copied.
fn copy_segments(list: &[Segment]) -> (out: Vec<Segment>)
    ensures
        out.deep_view() == list.deep_view(),
{
    let mut out: Vec<Segment> = Vec::new();
    let mut i: usize = 0;
    while i < list.len()
        invariant
            i <= list.len(),
            out.deep_view() == list.deep_view().take(i as int),
        decreases list.len() - i,
    {
        let ghost front = out.deep_view();
        let next = list[i].clone();
        out.push(next);
        assert(out.deep_view() =~= front.push(list@[i as int].deep_view()));
        assert(list.deep_view().take(i + 1) =~= front.push(list.deep_view()[i as int]));
        i += 1;
    }
    assert(list.deep_view().take(i as int) =~= list.deep_view());
    out
}

impl Clone for NatsPattern {
    fn clone(&self) -> (out: Self)
        ensures
            out@ == self@,
    {
        proof {
            use_type_invariant(self);
        }
        NatsPattern {
            canonical: self.canonical.clone(),
            segments: copy_segments(self.segments.as_slice()),
        }
    }
}

impl FromStr for NatsPattern {
    type Err = ParseError;

    fn from_str(s: &str) -> (out: Result<Self, Self::Err>)
        ensures
            match out {
                Ok(p) => parsed(s@) == Ok::<Seq<SegmentView>, ParseErrorView>(p@),
                Err(e) => parsed(s@) == Err::<Seq<SegmentView>, ParseErrorView>(e.deep_view()),
            },
    {
        NatsPattern::parse(s)
    }
}

/// The order of patterns is the order of their surface forms.
impl PartialOrd for NatsPattern {
    fn partial_cmp(&self, other: &Self) -> (out: Option<Ordering>) {
        let mine = self.as_str();
        let theirs = other.as_str();
        proof {
            lemma_lex_irreflexive(mine@);
            lemma_lex_total(mine@, theirs@);
        }
        if text_lt(mine, theirs) {
            Some(Ordering::Less)
        } else if text_lt(theirs, mine) {
            Some(Ordering::Greater)
        } else {
            Some(Ordering::Equal)
        }
    }
}

impl vstd::std_specs::cmp::PartialOrdSpecImpl for NatsPattern {
    open spec fn obeys_partial_cmp_spec() -> bool {
        true
    }

    open spec fn partial_cmp_spec(&self, other: &Self) -> Option<Ordering> {
        if lex_lt(render(self@), render(other@)) {
            Some(Ordering::Less)
        } else if lex_lt(render(other@), render(self@)) {
            Some(Ordering::Greater)
        } else {
            Some(Ordering::Equal)
        }
    }
}

impl Clone for ParseError {
    fn clone(&self) -> (out: Self)
        ensures
            out.deep_view() == self.deep_view(),
    {
        match self {
            ParseError::Empty => ParseError::Empty,
            ParseError::EmptySegment(i) => ParseError::EmptySegment(*i),
            ParseError::GtNotAtTail(i) => ParseError::GtNotAtTail(*i),
            ParseError::IllegalCharInToken { position, token } => ParseError::IllegalCharInToken {
                position: *position,
                token: token.clone(),
            },
        }
    }
}

/// The message of a parse error.
pub open spec fn parse_error_text(e: ParseErrorView) -> Seq<char> {
    match e {
        ParseErrorView::Empty => "empty pattern"@,
        ParseErrorView::EmptySegment(i) => "empty segment at position "@ + decimal(i as nat),
        ParseErrorView::GtNotAtTail(i) => "`>` (tail wildcard) must appear last; found at position "@
            + decimal(i as nat),
        ParseErrorView::IllegalCharInToken { position, token } =>
            "illegal character in literal token at position "@ + decimal(position as nat) + ": "@
            + debug_quoted(token),
    }
}

impl ParseError {
    /// The message of this error.
    #[must_use]
    pub fn to_string(&self) -> (out: String)
        ensures
            out@ == parse_error_text(self.deep_view()),
    {
        match self {
            ParseError::Empty => "empty pattern".to_owned(),
            ParseError::EmptySegment(i) => concat(
                "empty segment at position ",
                decimal_text(*i).as_str(),
            ),
            ParseError::GtNotAtTail(i) => concat(
                "`>` (tail wildcard) must appear last; found at position ",
                decimal_text(*i).as_str(),
            ),
            ParseError::IllegalCharInToken { position, token } => {
                let mut out = "illegal character in literal token at position ".to_owned();
                out.append(decimal_text(*position).as_str());
                out.append(": ");
                out.append(debug_text(token.as_str()).as_str());
                out
            },
        }
    }
}

// ---------------------------------------------------------------------
// laws
// ---------------------------------------------------------------------

/// Overlap is symmetric.
pub proof fn law_overlap_symmetric(a: Seq<SegmentView>, b: Seq<SegmentView>)
    ensures
        overlap(a, b) == overlap(b, a),
{
    if overlap(a, b) {
        let s = choose|s: Seq<Seq<char>>| concrete(s) && #[trigger] accepts(a, s) && accepts(b, s);
        assert(concrete(s) && accepts(b, s) && accepts(a, s));
    }
    if overlap(b, a) {
        let s = choose|s: Seq<Seq<char>>| concrete(s) && #[trigger] accepts(b, s) && accepts(a, s);
        assert(concrete(s) && accepts(a, s) && accepts(b, s));
    }
}

/// A pattern overlaps itself: every pattern accepts some concrete subject.
pub proof fn law_overlap_reflexive(a: Seq<SegmentView>)
    requires
        well_formed(a),
    ensures
        overlap(a, a),
{
    lemma_overlap_decided(a, a);
    lemma_overlap_walk_reflexive(a);
}

proof fn lemma_overlap_walk_reflexive(a: Seq<SegmentView>)
    ensures
        overlap_walk(a, a),
    decreases a.len(),
{
    if a.len() > 0 {
        lemma_overlap_walk_reflexive(a.drop_first());
    }
}

/// A pattern covers itself.
pub proof fn law_cover_reflexive(a: Seq<SegmentView>)
    ensures
        cover(a, a),
{
}

/// What covers a cover covers.
pub proof fn law_cover_transitive(
    a: Seq<SegmentView>,
    b: Seq<SegmentView>,
    c: Seq<SegmentView>,
)
    requires
        cover(a, b),
        cover(b, c),
    ensures
        cover(a, c),
{
}

/// A pattern overlaps everything that it covers.
pub proof fn law_cover_overlaps(a: Seq<SegmentView>, b: Seq<SegmentView>)
    requires
        well_formed(b),
        cover(a, b),
    ensures
        overlap(a, b),
{
    law_overlap_reflexive(b);
    let s = choose|s: Seq<Seq<char>>| concrete(s) && #[trigger] accepts(b, s) && accepts(b, s);
    assert(accepts(a, s));
}

/// What overlaps a covered pattern overlaps the pattern that covers it.
pub proof fn law_cover_keeps_overlap(
    a: Seq<SegmentView>,
    b: Seq<SegmentView>,
    c: Seq<SegmentView>,
)
    requires
        cover(a, b),
        overlap(b, c),
    ensures
        overlap(a, c),
{
    let s = choose|s: Seq<Seq<char>>| concrete(s) && #[trigger] accepts(b, s) && accepts(c, s);
    assert(accepts(a, s));
}

/// Two patterns that start with different literals share no concrete subject.
pub proof fn law_different_heads_do_not_overlap(a: Seq<SegmentView>, b: Seq<SegmentView>)
    requires
        a.len() > 0,
        b.len() > 0,
        a[0] is Literal,
        b[0] is Literal,
        a[0] != b[0],
    ensures
        !overlap(a, b),
{
    if overlap(a, b) {
        let s = choose|s: Seq<Seq<char>>| concrete(s) && #[trigger] accepts(a, s) && accepts(b, s);
        assert(s[0] == a[0]->Literal_0 && s[0] == b[0]->Literal_0);
    }
}

/// Two patterns that cover each other are the same: no two patterns accept the
/// same concrete subjects.
pub proof fn law_cover_antisymmetric(a: Seq<SegmentView>, b: Seq<SegmentView>)
    requires
        well_formed(a),
        well_formed(b),
        cover(a, b),
        cover(b, a),
    ensures
        a == b,
{
    lemma_cover_decided(a, b);
    lemma_cover_decided(b, a);
    lemma_cover_walk_antisymmetric(a, b);
}

proof fn lemma_cover_walk_antisymmetric(a: Seq<SegmentView>, b: Seq<SegmentView>)
    requires
        valid_segments(a),
        valid_segments(b),
        cover_walk(a, b),
        cover_walk(b, a),
    ensures
        a == b,
    decreases a.len(),
{
    if a.len() == 0 || b.len() == 0 {
        assert(a =~= b);
    } else if a[0] is Gt {
        assert(a.len() == 1 && b.len() == 1);
        assert(a =~= b);
    } else {
        lemma_valid_tail(a);
        lemma_valid_tail(b);
        lemma_cover_walk_antisymmetric(a.drop_first(), b.drop_first());
        assert(a =~= seq![a[0]] + a.drop_first());
        assert(b =~= seq![b[0]] + b.drop_first());
    }
}

} // verus!
