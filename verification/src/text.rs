//! Text as sequences of characters.
//!
//! Every string operation the analysis needs is stated over `Seq<char>`, the
//! view of `str` and `String`, and implemented over `Vec<char>` / `&[char]`.

use vstd::prelude::*;

verus! {

broadcast use vstd::seq_lib::group_seq_properties;

/// `String::push` appends the character at the end of the string.
pub assume_specification[ String::push ](s: &mut String, c: char)
    ensures
        final(s)@ == old(s)@.push(c),
;

// ---------------------------------------------------------------------
// conversions
// ---------------------------------------------------------------------

/// The characters of `s`.
pub fn chars_of(s: &str) -> (out: Vec<char>)
    ensures
        out@ == s@,
{
    let mut out: Vec<char> = Vec::new();
    for c in it: s.chars()
        invariant
            it.seq() == s@,
            out@ == s@.take(it.index() as int),
    {
        out.push(c);
    }
    out
}

/// The string with the characters `chars`.
pub fn string_of(chars: &[char]) -> (out: String)
    ensures
        out@ == chars@,
{
    let mut out = String::new();
    let mut i: usize = 0;
    while i < chars.len()
        invariant
            i <= chars.len(),
            out@ == chars@.take(i as int),
        decreases chars.len() - i,
    {
        out.push(chars[i]);
        i += 1;
    }
    out
}

/// Whether two strings hold the same characters.
pub fn same_text(a: &str, b: &str) -> (same: bool)
    ensures
        same == (a@ == b@),
{
    let x = chars_of(a);
    let y = chars_of(b);
    same_chars(&x, &y)
}

/// Whether two character slices are equal.
pub fn same_chars(a: &[char], b: &[char]) -> (same: bool)
    ensures
        same == (a@ == b@),
{
    if a.len() != b.len() {
        return false;
    }
    let mut i: usize = 0;
    while i < a.len()
        invariant
            i <= a.len(),
            a.len() == b.len(),
            a@.take(i as int) == b@.take(i as int),
        decreases a.len() - i,
    {
        if a[i] != b[i] {
            return false;
        }
        i += 1;
    }
    assert(a@.take(i as int) == a@);
    assert(b@.take(i as int) == b@);
    true
}

/// The concatenation of two strings.
pub fn concat(a: &str, b: &str) -> (out: String)
    ensures
        out@ == a@ + b@,
{
    let mut out = a.to_owned();
    out.append(b);
    out
}

/// A copy of a list of strings.
pub fn copy_texts(list: &Vec<String>) -> (out: Vec<String>)
    ensures
        out.deep_view() == list.deep_view(),
{
    let mut out: Vec<String> = Vec::new();
    let mut i: usize = 0;
    while i < list.len()
        invariant
            i <= list.len(),
            out.deep_view() == list.deep_view().take(i as int),
        decreases list.len() - i,
    {
        let ghost front = out.deep_view();
        out.push(list[i].clone());
        assert(out.deep_view() =~= front.push(list.deep_view()[i as int]));
        assert(list.deep_view().take(i + 1) =~= out.deep_view());
        i += 1;
    }
    assert(list.deep_view().take(i as int) =~= list.deep_view());
    out
}

/// Whether `s` is one of the strings of `list`.
pub fn list_has(list: &[String], s: &str) -> (found: bool)
    ensures
        found == list.deep_view().contains(s@),
{
    let mut i: usize = 0;
    while i < list.len()
        invariant
            i <= list.len(),
            forall|j: int| 0 <= j < i ==> list@[j]@ != s@,
        decreases list.len() - i,
    {
        if same_text(list[i].as_str(), s) {
            assert(list.deep_view()[i as int] == s@);
            return true;
        }
        i += 1;
    }
    assert forall|j: int| 0 <= j < list.deep_view().len() implies list.deep_view()[j] != s@ by {
        assert(list.deep_view()[j] == list@[j]@);
    }
    false
}

// ---------------------------------------------------------------------
// order
// ---------------------------------------------------------------------

/// Lexicographic order by code point, which is the byte order of UTF-8 and so
/// the order of `String`.
pub open spec fn lex_lt(a: Seq<char>, b: Seq<char>) -> bool
    decreases a.len(),
{
    if b.len() == 0 {
        false
    } else if a.len() == 0 {
        true
    } else if a[0] != b[0] {
        (a[0] as int) < (b[0] as int)
    } else {
        lex_lt(a.drop_first(), b.drop_first())
    }
}

/// No string comes before itself.
pub proof fn lemma_lex_irreflexive(a: Seq<char>)
    ensures
        !lex_lt(a, a),
    decreases a.len(),
{
    if a.len() > 0 {
        lemma_lex_irreflexive(a.drop_first());
    }
}

/// The order of strings is transitive.
pub proof fn lemma_lex_transitive(a: Seq<char>, b: Seq<char>, c: Seq<char>)
    requires
        lex_lt(a, b),
        lex_lt(b, c),
    ensures
        lex_lt(a, c),
    decreases a.len(),
{
    if a.len() > 0 && a[0] == b[0] && b[0] == c[0] {
        lemma_lex_transitive(a.drop_first(), b.drop_first(), c.drop_first());
    }
}

/// Of two different strings one comes before the other.
pub proof fn lemma_lex_total(a: Seq<char>, b: Seq<char>)
    ensures
        lex_lt(a, b) || a == b || lex_lt(b, a),
    decreases a.len(),
{
    if a.len() > 0 && b.len() > 0 && a[0] == b[0] {
        lemma_lex_total(a.drop_first(), b.drop_first());
        if a.drop_first() == b.drop_first() {
            assert(a =~= seq![a[0]] + a.drop_first());
            assert(b =~= seq![b[0]] + b.drop_first());
        }
    } else if a.len() == 0 && b.len() == 0 {
        assert(a =~= b);
    }
}

/// Two strings that start alike are ordered by what follows.
pub proof fn lemma_lex_common_prefix(p: Seq<char>, a: Seq<char>, b: Seq<char>)
    ensures
        lex_lt(p + a, p + b) == lex_lt(a, b),
    decreases p.len(),
{
    if p.len() == 0 {
        assert(p + a =~= a);
        assert(p + b =~= b);
    } else {
        assert((p + a).drop_first() =~= p.drop_first() + a);
        assert((p + b).drop_first() =~= p.drop_first() + b);
        lemma_lex_common_prefix(p.drop_first(), a, b);
    }
}

fn char_lt(a: char, b: char) -> (before: bool)
    ensures
        before == ((a as int) < (b as int)),
{
    (a as u32) < (b as u32)
}

/// Whether the text `a` comes before the text `b`.
pub fn text_lt(a: &str, b: &str) -> (before: bool)
    ensures
        before == lex_lt(a@, b@),
{
    let x = chars_of(a);
    let y = chars_of(b);
    let mut i: usize = 0;
    assert(x@.skip(0) == x@);
    assert(y@.skip(0) == y@);
    while i < x.len() && i < y.len()
        invariant
            i <= x.len(),
            i <= y.len(),
            x@ == a@,
            y@ == b@,
            lex_lt(a@, b@) == lex_lt(x@.skip(i as int), y@.skip(i as int)),
        decreases x.len() - i,
    {
        if x[i] != y[i] {
            return char_lt(x[i], y[i]);
        }
        assert(x@.skip(i as int).drop_first() == x@.skip(i + 1));
        assert(y@.skip(i as int).drop_first() == y@.skip(i + 1));
        i += 1;
    }
    i < y.len()
}

// ---------------------------------------------------------------------
// character classes
// ---------------------------------------------------------------------

/// The Unicode property `White_Space`.
pub open spec fn is_space(c: char) -> bool {
    let n = c as u32;
    ||| 0x09 <= n <= 0x0d
    ||| n == 0x20
    ||| n == 0x85
    ||| n == 0xa0
    ||| n == 0x1680
    ||| 0x2000 <= n <= 0x200a
    ||| n == 0x2028
    ||| n == 0x2029
    ||| n == 0x202f
    ||| n == 0x205f
    ||| n == 0x3000
}

pub fn space(c: char) -> (yes: bool)
    ensures
        yes == is_space(c),
{
    let n = c as u32;
    (0x09 <= n && n <= 0x0d) || n == 0x20 || n == 0x85 || n == 0xa0 || n == 0x1680 || (0x2000 <= n
        && n <= 0x200a) || n == 0x2028 || n == 0x2029 || n == 0x202f || n == 0x205f || n == 0x3000
}

pub open spec fn is_digit(c: char) -> bool {
    '0' as u32 <= c as u32 <= '9' as u32
}

pub fn digit(c: char) -> (yes: bool)
    ensures
        yes == is_digit(c),
{
    '0' as u32 <= c as u32 && c as u32 <= '9' as u32
}

pub open spec fn is_upper(c: char) -> bool {
    'A' as u32 <= c as u32 <= 'Z' as u32
}

pub fn upper(c: char) -> (yes: bool)
    ensures
        yes == is_upper(c),
{
    'A' as u32 <= c as u32 && c as u32 <= 'Z' as u32
}

pub open spec fn is_lower(c: char) -> bool {
    'a' as u32 <= c as u32 <= 'z' as u32
}

pub fn lower(c: char) -> (yes: bool)
    ensures
        yes == is_lower(c),
{
    'a' as u32 <= c as u32 && c as u32 <= 'z' as u32
}

// ---------------------------------------------------------------------
// trimming
// ---------------------------------------------------------------------

/// `s` without its longest prefix of characters in `p`.
pub open spec fn drop_while(s: Seq<char>, p: spec_fn(char) -> bool) -> Seq<char>
    decreases s.len(),
{
    if s.len() > 0 && p(s[0]) {
        drop_while(s.drop_first(), p)
    } else {
        s
    }
}

/// `s` without its longest suffix of characters in `p`.
pub open spec fn drop_while_back(s: Seq<char>, p: spec_fn(char) -> bool) -> Seq<char>
    decreases s.len(),
{
    if s.len() > 0 && p(s.last()) {
        drop_while_back(s.drop_last(), p)
    } else {
        s
    }
}

pub open spec fn trim_start_of(s: Seq<char>) -> Seq<char> {
    drop_while(s, |c: char| is_space(c))
}

pub open spec fn trim_of(s: Seq<char>) -> Seq<char> {
    drop_while_back(trim_start_of(s), |c: char| is_space(c))
}

/// `s` without leading white space.
pub fn trim_start(s: &[char]) -> (out: &[char])
    ensures
        out@ == trim_start_of(s@),
{
    let mut i: usize = 0;
    assert(s@.skip(0) == s@);
    while i < s.len() && space(s[i])
        invariant
            i <= s.len(),
            trim_start_of(s@) == trim_start_of(s@.skip(i as int)),
        decreases s.len() - i,
    {
        assert(s@.skip(i as int).drop_first() == s@.skip(i + 1));
        i += 1;
    }
    vstd::slice::slice_subrange(s, i, s.len())
}

/// `s` without leading and trailing white space.
pub fn trim(s: &[char]) -> (out: &[char])
    ensures
        out@ == trim_of(s@),
{
    let t = trim_start(s);
    let mut n: usize = t.len();
    assert(t@.take(n as int) == t@);
    while n > 0 && space(t[n - 1])
        invariant
            n <= t.len(),
            drop_while_back(t@, |c: char| is_space(c)) == drop_while_back(
                t@.take(n as int),
                |c: char| is_space(c),
            ),
        decreases n,
    {
        assert(t@.take(n as int).drop_last() == t@.take(n - 1));
        n -= 1;
    }
    vstd::slice::slice_subrange(t, 0, n)
}

// ---------------------------------------------------------------------
// prefixes and suffixes
// ---------------------------------------------------------------------

pub open spec fn has_prefix(s: Seq<char>, p: Seq<char>) -> bool {
    p.len() <= s.len() && s.take(p.len() as int) == p
}

pub open spec fn has_suffix(s: Seq<char>, p: Seq<char>) -> bool {
    p.len() <= s.len() && s.skip(s.len() - p.len()) == p
}

pub fn starts_with(s: &[char], p: &[char]) -> (yes: bool)
    ensures
        yes == has_prefix(s@, p@),
{
    if p.len() > s.len() {
        return false;
    }
    same_chars(vstd::slice::slice_subrange(s, 0, p.len()), p)
}

pub fn ends_with(s: &[char], p: &[char]) -> (yes: bool)
    ensures
        yes == has_suffix(s@, p@),
{
    if p.len() > s.len() {
        return false;
    }
    same_chars(vstd::slice::slice_subrange(s, s.len() - p.len(), s.len()), p)
}

// ---------------------------------------------------------------------
// splitting and joining
// ---------------------------------------------------------------------

/// The pieces of `s` between the occurrences of `sep`.
pub open spec fn split_on(s: Seq<char>, sep: char) -> Seq<Seq<char>>
    decreases s.len(),
{
    if s.len() == 0 {
        seq![Seq::<char>::empty()]
    } else {
        let front = split_on(s.drop_last(), sep);
        if s.last() == sep {
            front.push(Seq::<char>::empty())
        } else {
            front.drop_last().push(front.last().push(s.last()))
        }
    }
}

/// The pieces in order, with `sep` between each two.
pub open spec fn join(parts: Seq<Seq<char>>, sep: Seq<char>) -> Seq<char>
    decreases parts.len(),
{
    if parts.len() == 0 {
        Seq::empty()
    } else if parts.len() == 1 {
        parts[0]
    } else {
        join(parts.drop_last(), sep) + sep + parts.last()
    }
}

/// Splitting loses nothing, and no piece holds the separator.
pub proof fn lemma_split_join(s: Seq<char>, sep: char)
    ensures
        split_on(s, sep).len() > 0,
        join(split_on(s, sep), seq![sep]) == s,
        forall|i: int| 0 <= i < split_on(s, sep).len() ==> !(#[trigger] split_on(s, sep)[i]).contains(
            sep,
        ),
    decreases s.len(),
{
    let parts = split_on(s, sep);
    if s.len() == 0 {
        assert(s =~= Seq::<char>::empty());
    } else {
        let front = split_on(s.drop_last(), sep);
        lemma_split_join(s.drop_last(), sep);
        assert(s =~= s.drop_last().push(s.last()));
        if s.last() == sep {
            assert(parts.drop_last() =~= front);
            assert(join(parts, seq![sep]) =~= s);
        } else {
            let last = front.last().push(s.last());
            assert(parts.drop_last() =~= front.drop_last());
            assert(join(parts, seq![sep]) =~= s);
            assert forall|i: int| 0 <= i < parts.len() implies !(#[trigger] parts[i]).contains(
                sep,
            ) by {
                if i < parts.len() - 1 {
                    assert(parts[i] == front[i]);
                } else {
                    assert(parts[i] == last);
                    assert(!front[front.len() - 1].contains(sep));
                    if last.contains(sep) {
                        let k = choose|k: int| 0 <= k < last.len() && last[k] == sep;
                        assert(k < front.last().len());
                        assert(front.last()[k] == sep);
                    }
                }
            }
        }
    }
}

proof fn lemma_split_no_sep(s: Seq<char>, sep: char)
    requires
        !s.contains(sep),
    ensures
        split_on(s, sep) == seq![s],
    decreases s.len(),
{
    if s.len() > 0 {
        assert(s.last() == s[s.len() - 1]);
        assert(!s.drop_last().contains(sep)) by {
            if s.drop_last().contains(sep) {
                let k = choose|k: int| 0 <= k < s.drop_last().len() && s.drop_last()[k] == sep;
                assert(s[k] == sep);
            }
        }
        lemma_split_no_sep(s.drop_last(), sep);
        assert(s.drop_last().push(s.last()) =~= s);
        assert(split_on(s, sep) =~= seq![s]);
    } else {
        assert(s =~= Seq::<char>::empty());
    }
}

proof fn lemma_split_append(a: Seq<char>, b: Seq<char>, sep: char)
    requires
        !b.contains(sep),
    ensures
        split_on(a.push(sep) + b, sep) == split_on(a, sep).push(b),
    decreases b.len(),
{
    let s = a.push(sep) + b;
    if b.len() == 0 {
        assert(s =~= a.push(sep));
        assert(s.drop_last() =~= a);
        assert(b =~= Seq::<char>::empty());
    } else {
        assert(s.drop_last() =~= a.push(sep) + b.drop_last());
        assert(s.last() == b[b.len() - 1]);
        assert(!b.drop_last().contains(sep)) by {
            if b.drop_last().contains(sep) {
                let k = choose|k: int| 0 <= k < b.drop_last().len() && b.drop_last()[k] == sep;
                assert(b[k] == sep);
            }
        }
        lemma_split_append(a, b.drop_last(), sep);
        assert(b.drop_last().push(b.last()) =~= b);
        assert(split_on(s, sep) =~= split_on(a, sep).push(b));
    }
}

/// Joining pieces that do not hold the separator and splitting again gives the
/// same pieces.
pub proof fn lemma_join_split(parts: Seq<Seq<char>>, sep: char)
    requires
        parts.len() > 0,
        forall|i: int| 0 <= i < parts.len() ==> !(#[trigger] parts[i]).contains(sep),
    ensures
        split_on(join(parts, seq![sep]), sep) == parts,
    decreases parts.len(),
{
    if parts.len() == 1 {
        lemma_split_no_sep(parts[0], sep);
        assert(parts =~= seq![parts[0]]);
    } else {
        let front = join(parts.drop_last(), seq![sep]);
        assert forall|i: int| 0 <= i < parts.drop_last().len() implies !(
        #[trigger] parts.drop_last()[i]).contains(sep) by {
            assert(parts.drop_last()[i] == parts[i]);
        }
        lemma_join_split(parts.drop_last(), sep);
        assert(!parts[parts.len() - 1].contains(sep));
        lemma_split_append(front, parts.last(), sep);
        assert(front + seq![sep] + parts.last() =~= front.push(sep) + parts.last());
        assert(parts.drop_last().push(parts.last()) =~= parts);
    }
}

/// The pieces of `s` between the occurrences of `sep`.
pub fn split(s: &[char], sep: char) -> (out: Vec<String>)
    ensures
        out.deep_view() == split_on(s@, sep),
{
    let mut out: Vec<String> = Vec::new();
    let mut piece = String::new();
    let mut i: usize = 0;
    assert(s@.take(0) =~= Seq::<char>::empty());
    assert(out.deep_view().push(piece@) =~= seq![Seq::<char>::empty()]);
    while i < s.len()
        invariant
            i <= s.len(),
            out.deep_view().push(piece@) == split_on(s@.take(i as int), sep),
        decreases s.len() - i,
    {
        let ghost front = out.deep_view();
        assert(s@.take(i + 1).drop_last() =~= s@.take(i as int));
        assert(s@.take(i + 1).last() == s@[i as int]);
        if s[i] == sep {
            out.push(piece);
            piece = String::new();
            assert(out.deep_view() =~= front.push(out@.last()@));
        } else {
            assert(front.push(piece@).drop_last() =~= front);
            piece.push(s[i]);
        }
        i += 1;
    }
    let ghost front = out.deep_view();
    out.push(piece);
    assert(out.deep_view() =~= front.push(piece@));
    assert(s@.take(i as int) =~= s@);
    out
}

/// The pieces in order, with `sep` between each two.
pub fn join_with(parts: &[String], sep: &str) -> (out: String)
    ensures
        out@ == join(parts.deep_view(), sep@),
{
    let mut out = String::new();
    let mut i: usize = 0;
    while i < parts.len()
        invariant
            i <= parts.len(),
            out@ == join(parts.deep_view().take(i as int), sep@),
        decreases parts.len() - i,
    {
        assert(parts.deep_view().take(i + 1).drop_last() =~= parts.deep_view().take(i as int));
        if i > 0 {
            out.append(sep);
        }
        out.append(parts[i].as_str());
        i += 1;
    }
    assert(parts.deep_view().take(i as int) =~= parts.deep_view());
    out
}

// ---------------------------------------------------------------------
// searching
// ---------------------------------------------------------------------

/// The longest prefix of `s` that does not hold `c`.
pub open spec fn upto(s: Seq<char>, c: char) -> Seq<char>
    decreases s.len(),
{
    if s.len() == 0 || s[0] == c {
        Seq::empty()
    } else {
        seq![s[0]] + upto(s.drop_first(), c)
    }
}

/// The prefix `upto(s, c)` ends just before the first `c`, or is all of `s`.
pub proof fn lemma_upto(s: Seq<char>, c: char)
    ensures
        upto(s, c).len() <= s.len(),
        upto(s, c) == s.take(upto(s, c).len() as int),
        !upto(s, c).contains(c),
        s.contains(c) <==> upto(s, c).len() < s.len(),
        upto(s, c).len() < s.len() ==> s[upto(s, c).len() as int] == c,
    decreases s.len(),
{
    let u = upto(s, c);
    if s.len() > 0 && s[0] != c {
        let rest = s.drop_first();
        lemma_upto(rest, c);
        let v = upto(rest, c);
        assert(u =~= s.take(u.len() as int)) by {
            assert forall|i: int| 0 <= i < u.len() implies u[i] == s[i] by {
                if i > 0 {
                    assert(v[i - 1] == rest.take(v.len() as int)[i - 1]);
                }
            }
        }
        if u.contains(c) {
            let k = choose|k: int| 0 <= k < u.len() && u[k] == c;
            assert(v[k - 1] == c);
        }
        if v.len() < rest.len() {
            assert(s[u.len() as int] == rest[v.len() as int]);
        } else if s.contains(c) {
            let k = choose|k: int| 0 <= k < s.len() && s[k] == c;
            assert(rest[k - 1] == c);
            assert(false);
        }
    } else {
        assert(u =~= s.take(0));
    }
}

/// The length of the longest prefix of `s` without `c`.
pub fn find(s: &[char], c: char) -> (n: usize)
    ensures
        n == upto(s@, c).len(),
        n <= s.len(),
        s@.take(n as int) == upto(s@, c),
        s@.contains(c) <==> n < s.len(),
{
    proof {
        lemma_upto(s@, c);
    }
    let mut n: usize = 0;
    while n < s.len() && s[n] != c
        invariant
            n <= s.len(),
            n <= upto(s@, c).len() <= s.len(),
            upto(s@, c).len() < s.len() ==> s@[upto(s@, c).len() as int] == c,
            upto(s@, c) == s@.take(upto(s@, c).len() as int),
            forall|j: int| 0 <= j < n ==> s@[j] != c,
        decreases s.len() - n,
    {
        n += 1;
    }
    proof {
        if n < upto(s@, c).len() {
            assert(upto(s@, c)[n as int] == c);
            assert(upto(s@, c).contains(c));
        }
    }
    n
}

/// Whether `::` occurs in `s`.
pub open spec fn has_path_sep(s: Seq<char>) -> bool {
    exists|i: int| 0 <= i < s.len() - 1 && #[trigger] s[i] == ':' && s[i + 1] == ':'
}

/// What follows the last `::` of `s`, or all of `s` when there is none.
pub open spec fn last_path_segment(s: Seq<char>) -> Seq<char> {
    s.skip(after_last_path_sep(s, s.len() as int))
}

/// The position just after the last `::` that ends at or before `n`, or 0.
pub open spec fn after_last_path_sep(s: Seq<char>, n: int) -> int
    decreases n,
{
    if n < 2 {
        0
    } else if s[n - 2] == ':' && s[n - 1] == ':' {
        n
    } else {
        after_last_path_sep(s, n - 1)
    }
}

pub fn path_sep_in(s: &[char]) -> (yes: bool)
    ensures
        yes == has_path_sep(s@),
{
    let mut i: usize = 0;
    while i < s.len() && s.len() - i >= 2
        invariant
            i <= s.len(),
            forall|j: int|
                0 <= j < i && j < s.len() - 1 ==> !(#[trigger] s@[j] == ':' && s@[j + 1] == ':'),
        decreases s.len() - i,
    {
        if s[i] == ':' && s[i + 1] == ':' {
            return true;
        }
        i += 1;
    }
    false
}

pub fn last_segment(s: &[char]) -> (out: &[char])
    ensures
        out@ == last_path_segment(s@),
{
    let mut n: usize = s.len();
    while n >= 2 && !(s[n - 2] == ':' && s[n - 1] == ':')
        invariant
            n <= s.len(),
            after_last_path_sep(s@, s.len() as int) == after_last_path_sep(s@, n as int),
        decreases n,
    {
        n -= 1;
    }
    if n < 2 {
        n = 0;
    }
    vstd::slice::slice_subrange(s, n, s.len())
}

// ---------------------------------------------------------------------
// decimal numbers
// ---------------------------------------------------------------------

pub open spec fn digit_char(d: nat) -> char {
    if d == 0 { '0' } else if d == 1 { '1' } else if d == 2 { '2' } else if d == 3 { '3' }
    else if d == 4 { '4' } else if d == 5 { '5' } else if d == 6 { '6' } else if d == 7 { '7' }
    else if d == 8 { '8' } else { '9' }
}

/// `n` in decimal notation.
pub open spec fn decimal(n: nat) -> Seq<char>
    decreases n,
{
    if n < 10 {
        seq![digit_char(n)]
    } else {
        decimal(n / 10).push(digit_char(n % 10))
    }
}

/// `n` in decimal notation.
pub fn decimal_text(n: usize) -> (out: String)
    ensures
        out@ == decimal(n as nat),
    decreases n,
{
    let d = n % 10;
    let c = if d == 0 { '0' } else if d == 1 { '1' } else if d == 2 { '2' } else if d == 3 { '3' }
    else if d == 4 { '4' } else if d == 5 { '5' } else if d == 6 { '6' } else if d == 7 { '7' }
    else if d == 8 { '8' } else { '9' };
    let mut out = if n < 10 {
        String::new()
    } else {
        decimal_text(n / 10)
    };
    out.push(c);
    assert(out@ =~= decimal(n as nat));
    out
}

/// What the formatting `{:?}` of std prints for the string `s`: its characters
/// between double quotes, with escapes.
pub uninterp spec fn debug_quoted(s: Seq<char>) -> Seq<char>;

/// `format!("{:?}", s)` for a string. Only that the text depends on `s` alone is
/// stated; which characters std escapes, and how, is not.
#[verifier::external_body]
pub(crate) fn debug_text(s: &str) -> (out: String)
    ensures
        out@ == debug_quoted(s@),
{
    format!("{:?}", s)
}

/// The number that a string of decimal digits denotes.
pub open spec fn digits_value(s: Seq<char>) -> nat
    decreases s.len(),
{
    if s.len() == 0 {
        0
    } else {
        digits_value(s.drop_last()) * 10 + (s.last() as u32 - '0' as u32) as nat
    }
}

pub open spec fn all_digits(s: Seq<char>) -> bool {
    forall|i: int| 0 <= i < s.len() ==> is_digit(#[trigger] s[i])
}

pub fn only_digits(s: &[char]) -> (yes: bool)
    ensures
        yes == all_digits(s@),
{
    let mut i: usize = 0;
    while i < s.len()
        invariant
            i <= s.len(),
            forall|j: int| 0 <= j < i ==> is_digit(#[trigger] s@[j]),
        decreases s.len() - i,
    {
        if !digit(s[i]) {
            return false;
        }
        i += 1;
    }
    true
}

/// The number that the digits `s` denote, when it is below `limit`.
pub fn digits_below(s: &[char], limit: usize) -> (out: Option<usize>)
    requires
        all_digits(s@),
    ensures
        match out {
            Some(v) => v == digits_value(s@) && v < limit,
            None => digits_value(s@) >= limit,
        },
{
    if limit == 0 {
        return None;
    }
    let mut v: usize = 0;
    let mut over = false;
    let mut i: usize = 0;
    while i < s.len()
        invariant
            i <= s.len(),
            all_digits(s@),
            !over ==> v == digits_value(s@.take(i as int)) && v < limit,
            over ==> digits_value(s@.take(i as int)) >= limit,
        decreases s.len() - i,
    {
        let d: usize = (s[i] as u32 - '0' as u32) as usize;
        assert(s@.take(i + 1).drop_last() =~= s@.take(i as int));
        if !over {
            let w: u128 = v as u128 * 10 + d as u128;
            if w < limit as u128 {
                v = w as usize;
            } else {
                over = true;
            }
        }
        i += 1;
    }
    assert(s@.take(i as int) =~= s@);
    if over {
        None
    } else {
        Some(v)
    }
}

// ---------------------------------------------------------------------
// bytes
// ---------------------------------------------------------------------

/// What `String::from_utf8_lossy` makes of bytes.
pub uninterp spec fn utf8_lossy(bytes: Seq<u8>) -> Seq<char>;

/// `String::from_utf8_lossy`. Valid UTF-8 is decoded; what stands for the parts
/// that are not valid depends on the bytes alone and is left open.
#[verifier::external_body]
pub(crate) fn lossy_text(bytes: &[u8]) -> (out: String)
    ensures
        out@ == utf8_lossy(bytes@),
        vstd::utf8::valid_utf8(bytes@) ==> out@ == vstd::utf8::decode_utf8(bytes@),
{
    String::from_utf8_lossy(bytes).to_string()
}

/// `s` with underscores for hyphens, as a crate name is written in paths.
pub open spec fn underscored(s: Seq<char>) -> Seq<char> {
    s.map_values(|c: char| if c == '-' { '_' } else { c })
}

/// `s` with underscores for hyphens.
pub fn underscore(s: &str) -> (out: String)
    ensures
        out@ == underscored(s@),
{
    let chars = chars_of(s);
    let mut out = String::new();
    let mut i: usize = 0;
    while i < chars.len()
        invariant
            i <= chars.len(),
            chars@ == s@,
            out@ == underscored(s@).take(i as int),
        decreases chars.len() - i,
    {
        out.push(if chars[i] == '-' { '_' } else { chars[i] });
        assert(out@ =~= underscored(s@).take(i + 1));
        i += 1;
    }
    assert(underscored(s@).take(i as int) =~= underscored(s@));
    out
}

// ---------------------------------------------------------------------
// counting
// ---------------------------------------------------------------------

/// How often `c` occurs in `s`.
pub open spec fn count_of(s: Seq<char>, c: char) -> nat
    decreases s.len(),
{
    if s.len() == 0 {
        0
    } else {
        count_of(s.drop_last(), c) + (if s.last() == c { 1nat } else { 0nat })
    }
}

pub proof fn lemma_count_add(a: Seq<char>, b: Seq<char>, c: char)
    ensures
        count_of(a + b, c) == count_of(a, c) + count_of(b, c),
    decreases b.len(),
{
    if b.len() == 0 {
        assert(a + b =~= a);
    } else {
        assert((a + b).drop_last() =~= a + b.drop_last());
        lemma_count_add(a, b.drop_last(), c);
    }
}

pub proof fn lemma_count_subrange(s: Seq<char>, i: int, j: int, c: char)
    requires
        0 <= i <= j <= s.len(),
    ensures
        count_of(s.subrange(i, j), c) <= count_of(s, c),
{
    let a = s.subrange(0, i);
    let m = s.subrange(i, j);
    let b = s.subrange(j, s.len() as int);
    assert(s =~= a + m + b);
    lemma_count_add(a + m, b, c);
    lemma_count_add(a, m, c);
}

} // verus!
