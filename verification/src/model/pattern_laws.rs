//! Which texts are patterns, what is wrong with the others, and what patterns
//! accept.

use super::pattern::{
    accepts, concrete, cover, first_segment_fault, first_token_fault, legal_char, legal_token,
    only_dots, overlap, parsed, render, segment_fault, segment_text, segments_fault, token_fault,
    NatsPattern, ParseErrorView, SegmentView,
};
use crate::text::{
    join, lemma_join_split, lemma_lex_irreflexive, lemma_lex_total, lemma_lex_transitive, lex_lt,
};
use std::cmp::Ordering;
use vstd::prelude::*;
use vstd::std_specs::cmp::PartialOrdSpec;

verus! {

/// Visible ASCII other than the dot and the two wildcards.
pub open spec fn plain_char(c: char) -> bool {
    0x21 <= c as u32 <= 0x7e && c != '.' && c != '*' && c != '>'
}

/// A token that stands for itself.
pub open spec fn plain_token(t: Seq<char>) -> bool {
    t.len() > 0 && forall|i: int| 0 <= i < t.len() ==> plain_char(#[trigger] t[i])
}

/// Tokens with a dot between each two.
pub open spec fn dotted(tokens: Seq<Seq<char>>) -> Seq<char>
    decreases tokens.len(),
{
    if tokens.len() == 0 {
        Seq::empty()
    } else if tokens.len() == 1 {
        tokens[0]
    } else {
        tokens[0] + seq!['.'] + dotted(tokens.drop_first())
    }
}

proof fn lemma_dotted_push(tokens: Seq<Seq<char>>, t: Seq<char>)
    requires
        tokens.len() > 0,
    ensures
        dotted(tokens.push(t)) == dotted(tokens) + seq!['.'] + t,
    decreases tokens.len(),
{
    let all = tokens.push(t);
    assert(all.drop_first() =~= tokens.drop_first().push(t));
    if tokens.len() > 1 {
        lemma_dotted_push(tokens.drop_first(), t);
        assert(dotted(all) =~= dotted(tokens) + seq!['.'] + t);
    } else {
        assert(all.drop_first() =~= seq![t]);
        assert(dotted(seq![t]) == t);
    }
}

proof fn lemma_joined(tokens: Seq<Seq<char>>)
    ensures
        join(tokens, seq!['.']) == dotted(tokens),
    decreases tokens.len(),
{
    if tokens.len() > 1 {
        lemma_joined(tokens.drop_last());
        lemma_dotted_push(tokens.drop_last(), tokens.last());
        assert(tokens.drop_last().push(tokens.last()) =~= tokens);
    }
}

proof fn lemma_plain(t: Seq<char>)
    ensures
        legal_token(t) == plain_token(t),
        plain_token(t) ==> !t.contains('.') && t != seq!['*'] && t != seq!['>'],
{
    assert forall|i: int| 0 <= i < t.len() implies legal_char(#[trigger] t[i]) == plain_char(
        t[i],
    ) by {}
    if plain_token(t) {
        assert forall|i: int| 0 <= i < t.len() implies #[trigger] t[i] != '.' by {
            assert(plain_char(t[i]));
        }
        assert(plain_char(t[0]));
    }
    if legal_token(t) {
        assert forall|i: int| 0 <= i < t.len() implies plain_char(#[trigger] t[i]) by {
            assert(legal_char(t[i]));
        }
    }
    if plain_token(t) {
        assert forall|i: int| 0 <= i < t.len() implies legal_char(#[trigger] t[i]) by {
            assert(plain_char(t[i]));
        }
    }
}

/// A token that may stand at that place: one that stands for itself, `*`, or at
/// the end `>`.
pub open spec fn in_place(tokens: Seq<Seq<char>>, i: int) -> bool {
    plain_token(tokens[i]) || tokens[i] == seq!['*'] || (tokens[i] == seq!['>'] && i
        == tokens.len() - 1)
}

proof fn lemma_in_place(tokens: Seq<Seq<char>>, i: int)
    requires
        0 <= i < tokens.len(),
        in_place(tokens, i),
    ensures
        token_fault(tokens, i) is None,
        tokens[i].len() > 0,
        !tokens[i].contains('.'),
{
    lemma_plain(tokens[i]);
}

proof fn lemma_first_fault(tokens: Seq<Seq<char>>, i: int, k: int)
    requires
        0 <= i <= k <= tokens.len(),
        forall|j: int| 0 <= j < k ==> #[trigger] in_place(tokens, j),
    ensures
        first_token_fault(tokens, i) == first_token_fault(tokens, k),
    decreases k - i,
{
    if i < k {
        assert(in_place(tokens, i));
        lemma_in_place(tokens, i);
        lemma_first_fault(tokens, i + 1, k);
    }
}

proof fn lemma_dotted_starts(tokens: Seq<Seq<char>>)
    requires
        tokens.len() > 0,
        tokens[0].len() > 0,
    ensures
        dotted(tokens).len() > 0,
        dotted(tokens)[0] == tokens[0][0],
{
}

/// A text of tokens that may each stand at their place is a pattern: `*` and `>`
/// are the wildcards, and every other token is the literal that it is.
pub proof fn law_parse_reads_the_tokens(tokens: Seq<Seq<char>>)
    requires
        tokens.len() > 0,
        forall|i: int| 0 <= i < tokens.len() ==> #[trigger] in_place(tokens, i),
    ensures
        parsed(dotted(tokens)) is Ok,
        ({
            let p = parsed(dotted(tokens))->Ok_0;
            &&& p.len() == tokens.len()
            &&& forall|i: int|
                0 <= i < p.len() ==> #[trigger] p[i] == (if tokens[i] == seq!['*'] {
                    SegmentView::Star
                } else if tokens[i] == seq!['>'] {
                    SegmentView::Gt
                } else {
                    SegmentView::Literal(tokens[i])
                })
        }),
{
    let s = dotted(tokens);
    assert forall|i: int| 0 <= i < tokens.len() implies !(#[trigger] tokens[i]).contains('.') by {
        assert(in_place(tokens, i));
        lemma_in_place(tokens, i);
    }
    assert(in_place(tokens, 0));
    lemma_in_place(tokens, 0);
    lemma_joined(tokens);
    lemma_join_split(tokens, '.');
    lemma_dotted_starts(tokens);
    assert(tokens[0].contains(tokens[0][0]));
    assert(s[0] != '.');
    lemma_first_fault(tokens, 0, tokens.len() as int);
}

/// A text that is no pattern is blamed on the first token that may not stand at its
/// place: an empty one, a `>` before the end, or one with a character that no
/// token may hold.
pub proof fn law_parse_blames_the_first_fault(tokens: Seq<Seq<char>>, k: int, at: int)
    requires
        0 <= k < tokens.len(),
        forall|i: int| 0 <= i < tokens.len() ==> !(#[trigger] tokens[i]).contains('.'),
        forall|i: int| 0 <= i < k ==> #[trigger] in_place(tokens, i),
        !in_place(tokens, k),
        0 <= at < dotted(tokens).len(),
        dotted(tokens)[at] != '.',
    ensures
        parsed(dotted(tokens)) == Err::<Seq<SegmentView>, ParseErrorView>(
            if tokens[k].len() == 0 {
                ParseErrorView::EmptySegment(k)
            } else if tokens[k] == seq!['>'] {
                ParseErrorView::GtNotAtTail(k)
            } else {
                ParseErrorView::IllegalCharInToken { position: k, token: tokens[k] }
            },
        ),
{
    lemma_joined(tokens);
    lemma_join_split(tokens, '.');
    lemma_first_fault(tokens, 0, k);
    lemma_plain(tokens[k]);
    assert(!only_dots(dotted(tokens)));
}

/// Nothing, or nothing but dots, is an empty pattern.
pub proof fn law_dots_are_no_pattern(s: Seq<char>)
    requires
        forall|i: int| 0 <= i < s.len() ==> #[trigger] s[i] == '.',
    ensures
        parsed(s) == Err::<Seq<SegmentView>, ParseErrorView>(ParseErrorView::Empty),
{
}

/// The surface form of a pattern is its segments with dots between them.
pub proof fn law_surface_form(p: Seq<SegmentView>, texts: Seq<Seq<char>>)
    requires
        texts.len() == p.len(),
        forall|i: int|
            0 <= i < p.len() ==> #[trigger] texts[i] == (match p[i] {
                SegmentView::Literal(t) => t,
                SegmentView::Star => seq!['*'],
                SegmentView::Gt => seq!['>'],
            }),
    ensures
        render(p) == dotted(texts),
{
    assert(texts =~= p.map_values(|s: SegmentView| segment_text(s)));
    lemma_joined(texts);
}

/// A segment that may stand at that place.
pub open spec fn segment_in_place(p: Seq<SegmentView>, i: int) -> bool {
    match p[i] {
        SegmentView::Literal(t) => plain_token(t),
        SegmentView::Star => true,
        SegmentView::Gt => i == p.len() - 1,
    }
}

proof fn lemma_first_segment_fault(p: Seq<SegmentView>, i: int, k: int)
    requires
        0 <= i <= k <= p.len(),
        forall|j: int| 0 <= j < k ==> #[trigger] segment_in_place(p, j),
    ensures
        first_segment_fault(p, i) == first_segment_fault(p, k),
    decreases k - i,
{
    if i < k {
        assert(segment_in_place(p, i));
        if let SegmentView::Literal(t) = p[i] {
            lemma_plain(t);
        }
        assert(segment_fault(p, i) is None);
        lemma_first_segment_fault(p, i + 1, k);
    }
}

/// Segments are a pattern where there are some and each may stand at its place.
/// Otherwise the first that may not is blamed.
pub proof fn law_segments_that_are_a_pattern(p: Seq<SegmentView>, k: int)
    requires
        0 <= k <= p.len(),
        forall|j: int| 0 <= j < k ==> #[trigger] segment_in_place(p, j),
        k < p.len() ==> !segment_in_place(p, k),
    ensures
        p.len() == 0 ==> segments_fault(p) == Some(ParseErrorView::Empty),
        p.len() > 0 && k == p.len() ==> segments_fault(p) is None,
        k < p.len() ==> segments_fault(p) == Some(
            match p[k] {
                SegmentView::Literal(t) => ParseErrorView::IllegalCharInToken {
                    position: k,
                    token: t,
                },
                _ => ParseErrorView::GtNotAtTail(k),
            },
        ),
{
    lemma_first_segment_fault(p, 0, k);
    if k < p.len() {
        if let SegmentView::Literal(t) = p[k] {
            lemma_plain(t);
        }
    }
}

/// A segment and a token that it matches: a literal matches itself, a wildcard
/// anything.
pub open spec fn fits(x: SegmentView, token: Seq<char>) -> bool {
    x matches SegmentView::Literal(t) ==> t == token
}

/// Without `>` a pattern accepts as many tokens as it has segments, each matched by
/// the segment at its place. With `>` at the end it accepts that many or more.
pub proof fn law_what_a_pattern_accepts(p: Seq<SegmentView>, s: Seq<Seq<char>>)
    requires
        forall|i: int| 0 <= i < p.len() - 1 ==> !(#[trigger] p[i] is Gt),
    ensures
        accepts(p, s) == ({
            let open = p.len() > 0 && p.last() is Gt;
            &&& if open {
                s.len() >= p.len()
            } else {
                s.len() == p.len()
            }
            &&& forall|i: int| 0 <= i < p.len() ==> #[trigger] fits(p[i], s[i])
        }),
    decreases p.len(),
{
    if p.len() > 0 && s.len() > 0 {
        let q = p.drop_first();
        let r = s.drop_first();
        assert forall|i: int| 0 <= i < q.len() - 1 implies !(#[trigger] q[i] is Gt) by {
            assert(q[i] == p[i + 1]);
        }
        law_what_a_pattern_accepts(q, r);
        let all = forall|i: int| 0 <= i < p.len() ==> #[trigger] fits(p[i], s[i]);
        let rest = forall|i: int| 0 <= i < q.len() ==> #[trigger] fits(q[i], r[i]);
        if p.len() > 1 {
            assert(!(p[0] is Gt));
            assert(q.last() == p.last());
            if s.len() >= p.len() {
                assert(all == (fits(p[0], s[0]) && rest)) by {
                    if all {
                        assert(fits(p[0], s[0]));
                        assert forall|i: int| 0 <= i < q.len() implies #[trigger] fits(
                            q[i],
                            r[i],
                        ) by {
                            assert(fits(p[i + 1], s[i + 1]));
                        }
                    }
                    if fits(p[0], s[0]) && rest {
                        assert forall|i: int| 0 <= i < p.len() implies #[trigger] fits(
                            p[i],
                            s[i],
                        ) by {
                            if i > 0 {
                                assert(fits(q[i - 1], r[i - 1]));
                            }
                        }
                    }
                }
            }
        } else {
            assert(fits(p[0], s[0]) == all) by {
                if all {
                    assert(fits(p[0], s[0]));
                }
            }
        }
    }
}

/// A concrete subject: some tokens, each of which stands for itself.
pub open spec fn plain_subject(s: Seq<Seq<char>>) -> bool {
    s.len() > 0 && forall|i: int| 0 <= i < s.len() ==> plain_token(#[trigger] s[i])
}

proof fn lemma_plain_subject(s: Seq<Seq<char>>)
    ensures
        concrete(s) == plain_subject(s),
{
    if concrete(s) {
        assert forall|i: int| 0 <= i < s.len() implies plain_token(#[trigger] s[i]) by {
            lemma_plain(s[i]);
        }
    }
    if plain_subject(s) {
        assert forall|i: int| 0 <= i < s.len() implies legal_token(#[trigger] s[i]) by {
            lemma_plain(s[i]);
        }
    }
}

/// Two patterns overlap where some subject is accepted by both, and one covers the
/// other where it accepts every subject that the other accepts.
pub proof fn law_overlap_and_cover(a: Seq<SegmentView>, b: Seq<SegmentView>)
    ensures
        overlap(a, b) == exists|s: Seq<Seq<char>>|
            plain_subject(s) && #[trigger] accepts(a, s) && accepts(b, s),
        cover(b, a) == forall|s: Seq<Seq<char>>|
            plain_subject(s) && #[trigger] accepts(a, s) ==> accepts(b, s),
{
    assert forall|s: Seq<Seq<char>>| true implies concrete(s) == #[trigger] plain_subject(s) by {
        lemma_plain_subject(s);
    }
    if overlap(a, b) {
        let s = choose|s: Seq<Seq<char>>|
            concrete(s) && #[trigger] accepts(a, s) && accepts(b, s);
        assert(plain_subject(s) && accepts(a, s));
    }
    if cover(b, a) {
        assert forall|s: Seq<Seq<char>>|
            plain_subject(s) && #[trigger] accepts(a, s) implies accepts(b, s) by {
            assert(concrete(s));
        }
    }
}

/// Patterns are ordered as their surface forms are, and none comes both before and
/// after another.
pub proof fn law_patterns_order_by_surface_form(a: NatsPattern, b: NatsPattern)
    ensures
        (a.partial_cmp_spec(&b) == Some(Ordering::Less)) == lex_lt(render(a@), render(b@)),
        (a.partial_cmp_spec(&b) == Some(Ordering::Greater)) == lex_lt(render(b@), render(a@)),
        (a.partial_cmp_spec(&b) == Some(Ordering::Equal)) == (render(a@) == render(b@)),
{
    lemma_lex_total(render(a@), render(b@));
    lemma_lex_irreflexive(render(a@));
    if lex_lt(render(a@), render(b@)) && lex_lt(render(b@), render(a@)) {
        lemma_lex_transitive(render(a@), render(b@), render(a@));
    }
    if render(a@) == render(b@) {
        lemma_lex_irreflexive(render(b@));
    }
}

} // verus!
