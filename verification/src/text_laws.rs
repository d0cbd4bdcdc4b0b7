//! What holds of texts, paths and numbers.

use crate::text::{
    after_last_path_sep, all_digits, decimal, digit_char, digits_value, drop_while, drop_while_back,
    has_path_sep, has_prefix, has_suffix, is_digit, is_space, join, last_path_segment,
    lemma_lex_common_prefix, lex_lt, trim_of, trim_start_of, underscored, upto,
};
use vstd::prelude::*;

verus! {

/// A path as it is written: its segments with `::` between them.
pub open spec fn colon_path(segments: Seq<Seq<char>>) -> Seq<char>
    decreases segments.len(),
{
    if segments.len() == 0 {
        Seq::empty()
    } else if segments.len() == 1 {
        segments[0]
    } else {
        segments[0] + seq![':', ':'] + colon_path(segments.drop_first())
    }
}

/// Text after text with `::` between them.
pub open spec fn below(outer: Seq<char>, name: Seq<char>) -> Seq<char> {
    outer + seq![':', ':'] + name
}

/// All of these are white space.
pub open spec fn blank(s: Seq<char>) -> bool {
    forall|i: int| 0 <= i < s.len() ==> is_space(#[trigger] s[i])
}

/// Nothing, or a text that neither starts nor ends in white space.
pub open spec fn tight(s: Seq<char>) -> bool {
    s.len() > 0 ==> !is_space(s[0]) && !is_space(s.last())
}

/// The separator of paths is two colons.
pub proof fn lemma_colons()
    ensures
        "::"@ == seq![':', ':'],
{
    reveal_strlit("::");
    assert("::"@ =~= seq![':', ':']);
}

/// Every segment but the last stands before a `::`.
pub proof fn lemma_colon_path_push(segments: Seq<Seq<char>>, name: Seq<char>)
    requires
        segments.len() > 0,
    ensures
        colon_path(segments.push(name)) == below(colon_path(segments), name),
    decreases segments.len(),
{
    let all = segments.push(name);
    assert(all.drop_first() =~= segments.drop_first().push(name));
    if segments.len() > 1 {
        lemma_colon_path_push(segments.drop_first(), name);
        assert(colon_path(all) =~= below(colon_path(segments), name));
    } else {
        assert(all.drop_first() =~= seq![name]);
        assert(colon_path(seq![name]) == name);
        assert(colon_path(all) =~= below(colon_path(segments), name));
    }
}

/// Joined with `::`, segments are the path that they are.
pub proof fn law_joined_segments_are_a_path(segments: Seq<Seq<char>>)
    ensures
        join(segments, "::"@) == colon_path(segments),
    decreases segments.len(),
{
    lemma_colons();
    if segments.len() > 1 {
        law_joined_segments_are_a_path(segments.drop_last());
        lemma_colon_path_push(segments.drop_last(), segments.last());
        assert(segments.drop_last().push(segments.last()) =~= segments);
    }
}

proof fn lemma_last_sep(s: Seq<char>, cut: int, n: int)
    requires
        cut <= n <= s.len(),
        forall|i: int| cut <= i < s.len() ==> #[trigger] s[i] != ':',
        cut == 0 || (cut >= 2 && s[cut - 2] == ':' && s[cut - 1] == ':'),
        0 <= cut,
    ensures
        after_last_path_sep(s, n) == cut,
    decreases n,
{
    if n >= 2 {
        if n > cut {
            assert(s[n - 1] != ':');
            lemma_last_sep(s, cut, n - 1);
        }
    }
}

/// The last segment of a path is what follows its last `::`, and a name without
/// one is its own last segment.
pub proof fn law_last_segment(outer: Seq<char>, name: Seq<char>)
    requires
        !name.contains(':'),
    ensures
        last_path_segment(below(outer, name)) == name,
        last_path_segment(name) == name,
        has_path_sep(below(outer, name)),
        !has_path_sep(name),
{
    let s = below(outer, name);
    let cut: int = outer.len() as int + 2;
    assert forall|i: int| cut <= i < s.len() implies #[trigger] s[i] != ':' by {
        assert(name[i - cut] == s[i]);
    }
    assert(s[cut - 2] == ':' && s[cut - 1] == ':');
    lemma_last_sep(s, cut, s.len() as int);
    assert(s.skip(cut) =~= name);
    assert forall|i: int| 0 <= i < name.len() implies #[trigger] name[i] != ':' by {}
    lemma_last_sep(name, 0, name.len() as int);
    assert(name.skip(0) =~= name);
}

proof fn lemma_drop_blank(a: Seq<char>, m: Seq<char>)
    requires
        blank(a),
        m.len() > 0 ==> !is_space(m[0]),
    ensures
        drop_while(a + m, |c: char| is_space(c)) == m,
    decreases a.len(),
{
    if a.len() > 0 {
        assert((a + m).drop_first() =~= a.drop_first() + m);
        assert forall|i: int| 0 <= i < a.drop_first().len() implies is_space(
            #[trigger] a.drop_first()[i],
        ) by {
            assert(a.drop_first()[i] == a[i + 1]);
        }
        lemma_drop_blank(a.drop_first(), m);
        assert(is_space(a[0]));
    } else {
        assert(a + m =~= m);
    }
}

proof fn lemma_drop_blank_back(m: Seq<char>, b: Seq<char>)
    requires
        blank(b),
        m.len() > 0 ==> !is_space(m.last()),
    ensures
        drop_while_back(m + b, |c: char| is_space(c)) == m,
    decreases b.len(),
{
    if b.len() > 0 {
        assert((m + b).drop_last() =~= m + b.drop_last());
        assert forall|i: int| 0 <= i < b.drop_last().len() implies is_space(
            #[trigger] b.drop_last()[i],
        ) by {
            assert(b.drop_last()[i] == b[i]);
        }
        lemma_drop_blank_back(m, b.drop_last());
        assert((m + b).last() == b[b.len() - 1]);
    } else {
        assert(m + b =~= m);
    }
}

/// Trimming takes off the white space around a text and nothing else.
pub proof fn law_trim(a: Seq<char>, m: Seq<char>, b: Seq<char>)
    requires
        blank(a),
        blank(b),
        tight(m),
    ensures
        trim_of(a + m + b) == m,
{
    if m.len() > 0 {
        assert(a + m + b =~= a + (m + b));
        assert((m + b)[0] == m[0]);
        lemma_drop_blank(a, m + b);
        lemma_drop_blank_back(m, b);
    } else {
        let all = a + m + b;
        assert(blank(all)) by {
            assert forall|i: int| 0 <= i < all.len() implies is_space(#[trigger] all[i]) by {
                if i < a.len() {
                    assert(all[i] == a[i]);
                } else {
                    assert(all[i] == b[i - a.len()]);
                }
            }
        }
        lemma_drop_blank(all, m);
        assert(all + m =~= all);
        lemma_drop_blank_back(m, m);
        assert(m + m =~= m);
    }
}

/// Trimming at the start takes off the white space there and nothing else.
pub proof fn law_trim_start(a: Seq<char>, m: Seq<char>)
    requires
        blank(a),
        m.len() > 0 ==> !is_space(m[0]),
    ensures
        trim_start_of(a + m) == m,
{
    lemma_drop_blank(a, m);
}

/// A prefix ends before the first occurrence of the character.
pub proof fn law_upto(a: Seq<char>, c: char, b: Seq<char>)
    requires
        !a.contains(c),
    ensures
        upto(a + seq![c] + b, c) == a,
        upto(a, c) == a,
    decreases a.len(),
{
    let s = a + seq![c] + b;
    if a.len() > 0 {
        let rest = a.drop_first();
        assert(!rest.contains(c)) by {
            if rest.contains(c) {
                let k = choose|k: int| 0 <= k < rest.len() && rest[k] == c;
                assert(a[k + 1] == c);
            }
        }
        law_upto(rest, c, b);
        assert(s.drop_first() =~= rest + seq![c] + b);
        assert(a[0] != c);
        assert(seq![a[0]] + rest =~= a);
    } else {
        assert(upto(s, c) =~= a);
        assert(upto(a, c) =~= a);
    }
}

/// Texts are ordered by the first character in which they differ, and a text
/// comes before what continues it.
pub proof fn law_text_order(p: Seq<char>, x: char, y: char, a: Seq<char>, b: Seq<char>)
    ensures
        x != y ==> lex_lt(p + seq![x] + a, p + seq![y] + b) == ((x as int) < (y as int)),
        lex_lt(p, p + seq![x] + a),
        !lex_lt(p + a, p),
{
    let l = seq![x] + a;
    let r = seq![y] + b;
    lemma_lex_common_prefix(p, l, r);
    assert(p + l =~= p + seq![x] + a);
    assert(p + r =~= p + seq![y] + b);
    let none = Seq::<char>::empty();
    lemma_lex_common_prefix(p, none, l);
    assert(p + none =~= p);
    lemma_lex_common_prefix(p, a, none);
}

/// A crate name in a path has an underscore for each hyphen and is otherwise as
/// it was.
pub proof fn law_crate_in_path(s: Seq<char>)
    ensures
        underscored(s).len() == s.len(),
        forall|i: int|
            0 <= i < s.len() ==> (#[trigger] underscored(s)[i]) == (if s[i] == '-' {
                '_'
            } else {
                s[i]
            }),
{
}

/// A number written in decimal reads back as that number.
pub proof fn law_decimal_reads_back(n: nat)
    ensures
        all_digits(decimal(n)),
        digits_value(decimal(n)) == n,
        decimal(n).len() > 0,
        n > 0 ==> decimal(n)[0] != '0',
    decreases n,
{
    let d = digit_char(n % 10);
    assert(d as u32 - '0' as u32 == n % 10);
    if n < 10 {
        assert(decimal(n).drop_last() =~= Seq::<char>::empty());
        assert(digits_value(Seq::<char>::empty()) == 0);
        assert(digits_value(decimal(n)) == n);
    } else {
        law_decimal_reads_back(n / 10);
        let front = decimal(n / 10);
        assert(decimal(n).drop_last() =~= front);
        assert(decimal(n).last() == d);
        assert(digits_value(decimal(n)) == digits_value(front) * 10 + n % 10);
        assert forall|i: int| 0 <= i < decimal(n).len() implies is_digit(
            #[trigger] decimal(n)[i],
        ) by {
            if i < front.len() {
                assert(is_digit(front[i]));
            }
        }
    }
}

/// What has another text at its end is something followed by that text, and the
/// same at the start.
pub proof fn law_ends(s: Seq<char>, t: Seq<char>, a: Seq<char>)
    ensures
        has_suffix(a + t, t),
        has_suffix(s, t) ==> s == s.take(s.len() - t.len()) + t,
        has_prefix(t + a, t),
        has_prefix(s, t) ==> s == t + s.skip(t.len() as int),
{
    assert((a + t).skip(a.len() as int) =~= t);
    if has_suffix(s, t) {
        assert(s =~= s.take(s.len() - t.len()) + s.skip(s.len() - t.len()));
    }
    assert((t + a).take(t.len() as int) =~= t);
    if has_prefix(s, t) {
        assert(s =~= s.take(t.len() as int) + s.skip(t.len() as int));
    }
}

/// White space is what Unicode takes for it: the control characters from the tab to
/// the carriage return, the blank, and the spaces and separators beyond ASCII.
pub proof fn law_white_space(c: char)
    ensures
        is_space(c) == ({
            let n = c as u32;
            ||| n == 0x20 || n == 0x85 || n == 0xa0 || n == 0x1680 || n == 0x3000
            ||| 0x09 <= n && n <= 0x0d
            ||| 0x2000 <= n && n <= 0x200a
            ||| n == 0x2028 || n == 0x2029 || n == 0x202f || n == 0x205f
        }),
{
}

/// A number is read from its digits, each ten times what it would be one place
/// further on.
pub proof fn law_digits(s: Seq<char>, c: char)
    ensures
        digits_value(Seq::empty()) == 0,
        all_digits(s.push(c)) == (all_digits(s) && 0x30 <= c as u32 <= 0x39),
        0x30 <= c as u32 <= 0x39 ==> digits_value(s.push(c)) == 10 * digits_value(s) + (c as u32
            - 0x30),
{
    let all = s.push(c);
    assert(all.drop_last() =~= s);
    assert('0' as u32 == 0x30);
    if all_digits(all) {
        assert forall|i: int| 0 <= i < s.len() implies is_digit(#[trigger] s[i]) by {
            assert(all[i] == s[i]);
        }
        assert(is_digit(all[s.len() as int]));
    }
    if all_digits(s) && 0x30 <= c as u32 <= 0x39 {
        assert forall|i: int| 0 <= i < all.len() implies is_digit(#[trigger] all[i]) by {
            if i < s.len() {
                assert(is_digit(s[i]));
            }
        }
    }
}

} // verus!
