//! Sorted sequences.

use vstd::prelude::*;

verus! {

/// Each element comes before every later one.
pub open spec fn strictly_sorted<T>(s: Seq<T>, lt: spec_fn(T, T) -> bool) -> bool {
    forall|i: int, j: int| #![trigger s[i], s[j]] 0 <= i < j < s.len() ==> lt(s[i], s[j])
}

/// `lt` is irreflexive and transitive.
pub open spec fn strict_order<T>(lt: spec_fn(T, T) -> bool) -> bool {
    &&& forall|x: T| !#[trigger] lt(x, x)
    &&& forall|x: T, y: T, z: T| #[trigger] lt(x, y) && #[trigger] lt(y, z) ==> lt(x, z)
}

/// A set has one listing in strict order.
pub proof fn law_sorted_listing_unique<T>(a: Seq<T>, b: Seq<T>, lt: spec_fn(T, T) -> bool)
    requires
        strict_order(lt),
        strictly_sorted(a, lt),
        strictly_sorted(b, lt),
        forall|x: T| #[trigger] a.contains(x) == b.contains(x),
    ensures
        a == b,
    decreases a.len(),
{
    if a.len() == 0 {
        if b.len() > 0 {
            assert(b.contains(b[0]));
            assert(a.contains(b[0]));
        }
        assert(a =~= b);
    } else {
        assert(a.contains(a[0]));
        let k = choose|k: int| 0 <= k < b.len() && b[k] == a[0];
        assert(b.contains(b[0]));
        assert(a.contains(b[0]));
        let m = choose|m: int| 0 <= m < a.len() && a[m] == b[0];
        if k > 0 && m > 0 {
            assert(lt(b[0], b[k]) && lt(a[0], a[m]));
            assert(lt(a[0], a[0]));
        }
        assert(a[0] == b[0]);
        let x = a.drop_first();
        let y = b.drop_first();
        assert forall|e: T| #[trigger] x.contains(e) == y.contains(e) by {
            if x.contains(e) {
                let i = choose|i: int| 0 <= i < x.len() && x[i] == e;
                assert(lt(a[0], a[i + 1]));
                assert(a.contains(a[i + 1]));
                let j = choose|j: int| 0 <= j < b.len() && b[j] == e;
                assert(j > 0);
                assert(y[j - 1] == e);
            }
            if y.contains(e) {
                let i = choose|i: int| 0 <= i < y.len() && y[i] == e;
                assert(lt(b[0], b[i + 1]));
                assert(b.contains(b[i + 1]));
                assert(a.contains(e) == b.contains(e));
                let j = choose|j: int| 0 <= j < a.len() && a[j] == e;
                assert(j > 0);
                assert(x[j - 1] == e);
            }
        }
        assert forall|i: int, j: int|
            #![trigger x[i], x[j]]
            0 <= i < j < x.len() implies lt(x[i], x[j]) by {
            assert(lt(a[i + 1], a[j + 1]));
        }
        assert forall|i: int, j: int|
            #![trigger y[i], y[j]]
            0 <= i < j < y.len() implies lt(y[i], y[j]) by {
            assert(lt(b[i + 1], b[j + 1]));
        }
        law_sorted_listing_unique(x, y, lt);
        assert(a =~= seq![a[0]] + x);
        assert(b =~= seq![b[0]] + y);
    }
}

/// `s` with `x` at its place, unless it is there already.
pub open spec fn with_element<T>(s: Seq<T>, x: T, lt: spec_fn(T, T) -> bool) -> Seq<T>
    decreases s.len(),
{
    if s.len() == 0 || lt(s.last(), x) {
        s.push(x)
    } else if s.last() == x {
        s
    } else {
        with_element(s.drop_last(), x, lt).push(s.last())
    }
}

/// The elements of `s` in strict order, each once.
pub open spec fn listed<T>(s: Seq<T>, lt: spec_fn(T, T) -> bool) -> Seq<T>
    decreases s.len(),
{
    if s.len() == 0 {
        s
    } else {
        with_element(listed(s.drop_last(), lt), s.last(), lt)
    }
}

/// Of two different elements of `s` one comes before the other.
pub open spec fn total_on<T>(s: Seq<T>, lt: spec_fn(T, T) -> bool) -> bool {
    forall|i: int, j: int|
        #![trigger s[i], s[j]]
        0 <= i < s.len() && 0 <= j < s.len() ==> s[i] == s[j] || lt(s[i], s[j]) || lt(s[j], s[i])
}

proof fn lemma_with_element<T>(s: Seq<T>, x: T, lt: spec_fn(T, T) -> bool)
    requires
        strict_order(lt),
        strictly_sorted(s, lt),
        forall|i: int| 0 <= i < s.len() ==> #[trigger] s[i] == x || lt(s[i], x) || lt(x, s[i]),
    ensures
        strictly_sorted(with_element(s, x, lt), lt),
        forall|e: T| #[trigger] with_element(s, x, lt).contains(e) == (s.contains(e) || e == x),
    decreases s.len(),
{
    let out = with_element(s, x, lt);
    if s.len() == 0 || lt(s.last(), x) {
        assert forall|i: int, j: int|
            #![trigger out[i], out[j]]
            0 <= i < j < out.len() implies lt(out[i], out[j]) by {
            if j == s.len() && i < s.len() - 1 {
                assert(lt(s[i], s[s.len() - 1]));
                assert(lt(s.last(), x));
            } else if j < s.len() {
                assert(lt(s[i], s[j]));
            }
        }
        assert forall|e: T| #[trigger] out.contains(e) == (s.contains(e) || e == x) by {
            if s.contains(e) {
                let k = choose|k: int| 0 <= k < s.len() && s[k] == e;
                assert(out[k] == e);
            }
            if e == x {
                assert(out[s.len() as int] == e);
            }
            if out.contains(e) {
                let k = choose|k: int| 0 <= k < out.len() && out[k] == e;
                if k < s.len() {
                    assert(s[k] == e);
                }
            }
        }
    } else if s.last() == x {
        assert(s.contains(x)) by {
            assert(s[s.len() - 1] == x);
        }
    } else {
        let rest = s.drop_last();
        let last = s.last();
        assert(lt(x, s[s.len() - 1]));
        assert forall|i: int, j: int|
            #![trigger rest[i], rest[j]]
            0 <= i < j < rest.len() implies lt(rest[i], rest[j]) by {
            assert(lt(s[i], s[j]));
        }
        assert forall|i: int| 0 <= i < rest.len() implies #[trigger] rest[i] == x || lt(
            rest[i],
            x,
        ) || lt(x, rest[i]) by {
            assert(rest[i] == s[i]);
        }
        lemma_with_element(rest, x, lt);
        let front = with_element(rest, x, lt);
        assert forall|i: int, j: int|
            #![trigger out[i], out[j]]
            0 <= i < j < out.len() implies lt(out[i], out[j]) by {
            if j < front.len() {
                assert(lt(front[i], front[j]));
            } else {
                assert(front.contains(front[i]));
                if rest.contains(front[i]) {
                    let m = choose|m: int| 0 <= m < rest.len() && rest[m] == front[i];
                    assert(lt(s[m], s[s.len() - 1]));
                }
            }
        }
        assert forall|e: T| #[trigger] out.contains(e) == (s.contains(e) || e == x) by {
            if s.contains(e) {
                let k = choose|k: int| 0 <= k < s.len() && s[k] == e;
                if k < rest.len() {
                    assert(rest[k] == e);
                    assert(rest.contains(e));
                    assert(front.contains(e));
                    let m = choose|m: int| 0 <= m < front.len() && front[m] == e;
                    assert(out[m] == e);
                } else {
                    assert(out[front.len() as int] == e);
                }
            }
            if e == x {
                assert(front.contains(x));
                let m = choose|m: int| 0 <= m < front.len() && front[m] == x;
                assert(out[m] == x);
            }
            if out.contains(e) {
                let k = choose|k: int| 0 <= k < out.len() && out[k] == e;
                if k < front.len() {
                    assert(front[k] == e);
                    assert(front.contains(e));
                    if rest.contains(e) {
                        let m = choose|m: int| 0 <= m < rest.len() && rest[m] == e;
                        assert(s[m] == e);
                    }
                } else {
                    assert(s[s.len() - 1] == e);
                }
            }
        }
    }
}

/// A listing is in strict order and holds what was listed, and nothing else.
pub proof fn law_listed<T>(s: Seq<T>, lt: spec_fn(T, T) -> bool)
    requires
        strict_order(lt),
        total_on(s, lt),
    ensures
        strictly_sorted(listed(s, lt), lt),
        forall|e: T| #[trigger] listed(s, lt).contains(e) == s.contains(e),
    decreases s.len(),
{
    if s.len() > 0 {
        let rest = s.drop_last();
        let x = s.last();
        assert forall|i: int, j: int|
            #![trigger rest[i], rest[j]]
            0 <= i < rest.len() && 0 <= j < rest.len() implies rest[i] == rest[j] || lt(
            rest[i],
            rest[j],
        ) || lt(rest[j], rest[i]) by {
            assert(rest[i] == s[i] && rest[j] == s[j]);
        }
        law_listed(rest, lt);
        let front = listed(rest, lt);
        assert forall|i: int| 0 <= i < front.len() implies #[trigger] front[i] == x || lt(
            front[i],
            x,
        ) || lt(x, front[i]) by {
            assert(front.contains(front[i]));
            let m = choose|m: int| 0 <= m < rest.len() && rest[m] == front[i];
            assert(s[m] == front[i] && s[s.len() - 1] == x);
        }
        lemma_with_element(front, x, lt);
        assert forall|e: T| #[trigger] listed(s, lt).contains(e) == s.contains(e) by {
            assert(rest.contains(e) == front.contains(e));
            if s.contains(e) {
                let k = choose|k: int| 0 <= k < s.len() && s[k] == e;
                if k < rest.len() {
                    assert(rest[k] == e);
                }
            }
            if rest.contains(e) {
                let k = choose|k: int| 0 <= k < rest.len() && rest[k] == e;
                assert(s[k] == e);
            }
            if e == x {
                assert(s[s.len() - 1] == x);
            }
        }
    }
}

/// The order of elements leaves no trace in a listing.
pub proof fn law_listing_ignores_order<T>(a: Seq<T>, b: Seq<T>, lt: spec_fn(T, T) -> bool)
    requires
        strict_order(lt),
        total_on(a, lt),
        total_on(b, lt),
        forall|e: T| #[trigger] a.contains(e) == b.contains(e),
    ensures
        listed(a, lt) == listed(b, lt),
{
    law_listed(a, lt);
    law_listed(b, lt);
    assert forall|e: T| #[trigger] listed(a, lt).contains(e) == listed(b, lt).contains(e) by {
        assert(a.contains(e) == b.contains(e));
        assert(listed(b, lt).contains(e) == b.contains(e));
    }
    law_sorted_listing_unique(listed(a, lt), listed(b, lt), lt);
}

// ---------------------------------------------------------------------
// stable sorting
// ---------------------------------------------------------------------

/// `lt` orders classes of elements that tie with each other.
pub open spec fn weak_order<T>(lt: spec_fn(T, T) -> bool) -> bool {
    &&& forall|x: T| !#[trigger] lt(x, x)
    &&& forall|x: T, y: T, z: T| #[trigger] lt(x, y) && #[trigger] lt(y, z) ==> lt(x, z)
    &&& forall|x: T, y: T, z: T|
        !#[trigger] lt(x, y) && !#[trigger] lt(y, z) ==> !lt(x, z)
}

/// No element comes before an earlier one.
pub open spec fn sorted_by<T>(s: Seq<T>, lt: spec_fn(T, T) -> bool) -> bool {
    forall|i: int, j: int| #![trigger s[i], s[j]] 0 <= i < j < s.len() ==> !lt(s[j], s[i])
}

/// `s` with `x` behind the last element that does not come after it.
pub open spec fn placed<T>(s: Seq<T>, x: T, lt: spec_fn(T, T) -> bool) -> Seq<T>
    decreases s.len(),
{
    if s.len() == 0 || !lt(x, s.last()) {
        s.push(x)
    } else {
        placed(s.drop_last(), x, lt).push(s.last())
    }
}

/// The elements of `s` in order, those that tie in the order they had.
pub open spec fn stable_sorted<T>(s: Seq<T>, lt: spec_fn(T, T) -> bool) -> Seq<T>
    decreases s.len(),
{
    if s.len() == 0 {
        s
    } else {
        placed(stable_sorted(s.drop_last(), lt), s.last(), lt)
    }
}

proof fn lemma_placed<T>(s: Seq<T>, x: T, lt: spec_fn(T, T) -> bool) -> (k: int)
    requires
        weak_order(lt),
        sorted_by(s, lt),
    ensures
        0 <= k <= s.len(),
        placed(s, x, lt) == s.take(k).push(x) + s.skip(k),
        forall|i: int| 0 <= i < k ==> !lt(x, #[trigger] s[i]),
        forall|i: int| k <= i < s.len() ==> lt(x, #[trigger] s[i]),
    decreases s.len(),
{
    if s.len() == 0 || !lt(x, s.last()) {
        let k = s.len() as int;
        assert(s.take(k) =~= s);
        assert(s.take(k).push(x) + s.skip(k) =~= s.push(x));
        assert forall|i: int| 0 <= i < k implies !lt(x, #[trigger] s[i]) by {
            if i < k - 1 {
                assert(!lt(s[k - 1], s[i]));
                assert(!lt(x, s[k - 1]));
            }
        }
        k
    } else {
        let rest = s.drop_last();
        assert forall|i: int, j: int|
            #![trigger rest[i], rest[j]]
            0 <= i < j < rest.len() implies !lt(rest[j], rest[i]) by {
            assert(!lt(s[j], s[i]));
        }
        let k = lemma_placed(rest, x, lt);
        assert(rest.take(k) =~= s.take(k));
        assert(s.take(k).push(x) + s.skip(k) =~= (rest.take(k).push(x) + rest.skip(k)).push(
            s.last(),
        ));
        assert forall|i: int| 0 <= i < k implies !lt(x, #[trigger] s[i]) by {
            assert(rest[i] == s[i]);
        }
        assert forall|i: int| k <= i < s.len() implies lt(x, #[trigger] s[i]) by {
            if i < s.len() - 1 {
                assert(rest[i] == s[i]);
            }
        }
        k
    }
}

/// A stable sort sorts.
pub proof fn law_stable_sorted_is_sorted<T>(s: Seq<T>, lt: spec_fn(T, T) -> bool)
    requires
        weak_order(lt),
    ensures
        sorted_by(stable_sorted(s, lt), lt),
    decreases s.len(),
{
    if s.len() > 0 {
        let front = stable_sorted(s.drop_last(), lt);
        law_stable_sorted_is_sorted(s.drop_last(), lt);
        let x = s.last();
        let k = lemma_placed(front, x, lt);
        let out = stable_sorted(s, lt);
        assert forall|i: int, j: int|
            #![trigger out[i], out[j]]
            0 <= i < j < out.len() implies !lt(out[j], out[i]) by {
            let a = if i < k {
                i
            } else {
                i - 1
            };
            let b = if j < k {
                j
            } else {
                j - 1
            };
            if i != k && j != k {
                assert(!lt(front[b], front[a]));
            } else if i == k {
                assert(lt(x, front[b]));
                if lt(front[b], x) {
                    assert(lt(x, x));
                }
            } else {
                assert(!lt(x, front[a]));
            }
        }
    }
}

/// A stable sort keeps every element as often as it was there.
pub proof fn law_stable_sorted_permutes<T>(s: Seq<T>, lt: spec_fn(T, T) -> bool)
    requires
        weak_order(lt),
    ensures
        stable_sorted(s, lt).to_multiset() == s.to_multiset(),
    decreases s.len(),
{
    broadcast use vstd::seq_lib::group_to_multiset_ensures;

    if s.len() > 0 {
        let front = stable_sorted(s.drop_last(), lt);
        law_stable_sorted_permutes(s.drop_last(), lt);
        law_stable_sorted_is_sorted(s.drop_last(), lt);
        let x = s.last();
        let k = lemma_placed(front, x, lt);
        assert(front =~= front.take(k) + front.skip(k));
        assert(front.take(k).push(x) + front.skip(k) =~= front.insert(k, x));
        vstd::seq_lib::to_multiset_insert(front, k, x);
        assert(s =~= s.drop_last().push(x));
        assert(stable_sorted(s, lt).to_multiset() =~= s.to_multiset());
    }
}

/// A stable sort keeps the order of elements that tie: the elements of a class
/// in which no two are ordered come out in the order they had.
pub proof fn law_stable_sorted_keeps_ties<T>(
    s: Seq<T>,
    lt: spec_fn(T, T) -> bool,
    class: spec_fn(T) -> bool,
)
    requires
        weak_order(lt),
        forall|x: T, y: T| class(x) && class(y) ==> !#[trigger] lt(x, y),
    ensures
        stable_sorted(s, lt).filter(class) == s.filter(class),
    decreases s.len(),
{
    if s.len() > 0 {
        let front = stable_sorted(s.drop_last(), lt);
        law_stable_sorted_keeps_ties(s.drop_last(), lt, class);
        law_stable_sorted_is_sorted(s.drop_last(), lt);
        let x = s.last();
        let k = lemma_placed(front, x, lt);
        let a = front.take(k);
        let b = front.skip(k);
        assert(front =~= a + b);
        Seq::filter_distributes_over_add(a, b, class);
        Seq::filter_distributes_over_add(a.push(x), b, class);
        assert(a.push(x) =~= a + seq![x]);
        Seq::filter_distributes_over_add(a, seq![x], class);
        assert(s =~= s.drop_last() + seq![x]);
        Seq::filter_distributes_over_add(s.drop_last(), seq![x], class);
        lemma_filter_one(x, class);
        if class(x) {
            assert forall|i: int| 0 <= i < b.len() implies !class(#[trigger] b[i]) by {
                assert(lt(x, front[i + k]));
            }
            lemma_filter_none(b, class);
            assert(stable_sorted(s, lt).filter(class) =~= s.filter(class));
        } else {
            assert(stable_sorted(s, lt).filter(class) =~= s.filter(class));
        }
    }
}

proof fn lemma_filter_one<T>(x: T, class: spec_fn(T) -> bool)
    ensures
        seq![x].filter(class) == (if class(x) {
            seq![x]
        } else {
            Seq::empty()
        }),
{
    reveal(Seq::filter);
    assert(seq![x].drop_last() =~= Seq::<T>::empty());
    assert(Seq::<T>::empty().filter(class) =~= Seq::<T>::empty());
    assert(Seq::<T>::empty().push(x) =~= seq![x]);
}

proof fn lemma_filter_none<T>(s: Seq<T>, class: spec_fn(T) -> bool)
    requires
        forall|i: int| 0 <= i < s.len() ==> !class(#[trigger] s[i]),
    ensures
        s.filter(class) == Seq::<T>::empty(),
    decreases s.len(),
{
    reveal(Seq::filter);
    if s.len() > 0 {
        assert forall|i: int| 0 <= i < s.drop_last().len() implies !class(
            #[trigger] s.drop_last()[i],
        ) by {
            assert(s.drop_last()[i] == s[i]);
        }
        lemma_filter_none(s.drop_last(), class);
        assert(!class(s[s.len() - 1]));
    }
}

// ---------------------------------------------------------------------
// what a list contains
// ---------------------------------------------------------------------

/// What a list with one more element contains.
pub proof fn lemma_contains_push<T>(s: Seq<T>, x: T, y: T)
    ensures
        s.push(x).contains(y) == (s.contains(y) || x == y),
{
    if s.contains(y) {
        let k = choose|k: int| 0 <= k < s.len() && s[k] == y;
        assert(s.push(x)[k] == y);
    }
    if x == y {
        assert(s.push(x)[s.len() as int] == y);
    }
    if s.push(x).contains(y) {
        let k = choose|k: int| 0 <= k < s.push(x).len() && s.push(x)[k] == y;
        if k < s.len() {
            assert(s[k] == y);
        }
    }
}

/// What two lists side by side contain.
pub proof fn lemma_contains_add<T>(a: Seq<T>, b: Seq<T>, y: T)
    ensures
        (a + b).contains(y) == (a.contains(y) || b.contains(y)),
{
    if a.contains(y) {
        let k = choose|k: int| 0 <= k < a.len() && a[k] == y;
        assert((a + b)[k] == y);
    }
    if b.contains(y) {
        let k = choose|k: int| 0 <= k < b.len() && b[k] == y;
        assert((a + b)[a.len() + k] == y);
    }
    if (a + b).contains(y) {
        let k = choose|k: int| 0 <= k < (a + b).len() && (a + b)[k] == y;
        if k < a.len() {
            assert(a[k] == y);
        } else {
            assert(b[k - a.len()] == y);
        }
    }
}

// ---------------------------------------------------------------------
// the same elements in another order
// ---------------------------------------------------------------------

/// The lists that the elements stand for, one behind the other.
pub open spec fn flat<T, U>(s: Seq<T>, f: spec_fn(T) -> Seq<U>) -> Seq<U>
    decreases s.len(),
{
    if s.len() == 0 {
        Seq::empty()
    } else {
        flat(s.drop_last(), f) + f(s.last())
    }
}

/// Two lists side by side hold what each of them holds.
pub proof fn lemma_joined_multiset<T>(a: Seq<T>, b: Seq<T>)
    ensures
        (a + b).to_multiset() == a.to_multiset().add(b.to_multiset()),
{
    vstd::seq_lib::lemma_multiset_commutative(a, b);
}

/// Lists that hold the same elements equally often hold the same elements.
pub proof fn lemma_same_elements<T>(a: Seq<T>, b: Seq<T>)
    requires
        a.to_multiset() == b.to_multiset(),
    ensures
        forall|x: T| #[trigger] a.contains(x) == b.contains(x),
{
    assert forall|x: T| #[trigger] a.contains(x) == b.contains(x) by {
        vstd::seq_lib::to_multiset_contains(a, x);
        vstd::seq_lib::to_multiset_contains(b, x);
    }
}

/// Lists of the same elements, none of which occurs twice, hold them equally
/// often.
pub proof fn lemma_distinct_multiset<T>(a: Seq<T>, b: Seq<T>)
    requires
        a.no_duplicates(),
        b.no_duplicates(),
        forall|x: T| #[trigger] a.contains(x) == b.contains(x),
    ensures
        a.to_multiset() == b.to_multiset(),
{
    a.lemma_multiset_has_no_duplicates();
    b.lemma_multiset_has_no_duplicates();
    assert forall|x: T| #[trigger] a.to_multiset().count(x) == b.to_multiset().count(x) by {
        vstd::seq_lib::to_multiset_contains(a, x);
        vstd::seq_lib::to_multiset_contains(b, x);
        assert(a.contains(x) == b.contains(x));
    }
    assert(a.to_multiset() =~= b.to_multiset());
}

proof fn lemma_flat_without<T, U>(s: Seq<T>, f: spec_fn(T) -> Seq<U>, k: int)
    requires
        0 <= k < s.len(),
    ensures
        flat(s, f).to_multiset() == flat(s.remove(k), f).to_multiset().add(f(s[k]).to_multiset()),
    decreases s.len(),
{
    let rest = s.drop_last();
    lemma_joined_multiset(flat(rest, f), f(s.last()));
    if k == s.len() - 1 {
        assert(s.remove(k) =~= rest);
    } else {
        let t = s.remove(k);
        lemma_flat_without(rest, f, k);
        assert(t.drop_last() =~= rest.remove(k));
        assert(t.last() == s.last());
        lemma_joined_multiset(flat(t.drop_last(), f), f(s.last()));
        assert(flat(s, f).to_multiset() =~= flat(t, f).to_multiset().add(f(s[k]).to_multiset()));
    }
}

/// What the lists hold together depends on which elements they come from, not on
/// the order of these.
pub proof fn law_flat_ignores_order<T, U>(a: Seq<T>, b: Seq<T>, f: spec_fn(T) -> Seq<U>)
    requires
        a.to_multiset() == b.to_multiset(),
    ensures
        flat(a, f).to_multiset() == flat(b, f).to_multiset(),
    decreases a.len(),
{
    vstd::seq_lib::to_multiset_len(a);
    vstd::seq_lib::to_multiset_len(b);
    if a.len() > 0 {
        let x = a.last();
        assert(a[a.len() - 1] == x);
        lemma_same_elements(a, b);
        assert(a.contains(x));
        let k = choose|k: int| 0 <= k < b.len() && b[k] == x;
        vstd::seq_lib::to_multiset_remove(a, a.len() - 1);
        vstd::seq_lib::to_multiset_remove(b, k);
        lemma_flat_without(a, f, a.len() - 1);
        lemma_flat_without(b, f, k);
        law_flat_ignores_order(a.remove(a.len() - 1), b.remove(k), f);
    } else {
        assert(a =~= b);
    }
}

/// Mapping each element keeps lists with the same elements that.
pub proof fn lemma_mapped_multiset<T, U>(a: Seq<T>, b: Seq<T>, f: spec_fn(T) -> U)
    requires
        a.to_multiset() == b.to_multiset(),
    ensures
        a.map_values(f).to_multiset() == b.map_values(f).to_multiset(),
{
    let g = |x: T| seq![f(x)];
    law_flat_ignores_order(a, b, g);
    lemma_flat_of_singles(a, f);
    lemma_flat_of_singles(b, f);
}

proof fn lemma_flat_of_singles<T, U>(s: Seq<T>, f: spec_fn(T) -> U)
    ensures
        flat(s, |x: T| seq![f(x)]) == s.map_values(f),
    decreases s.len(),
{
    if s.len() > 0 {
        lemma_flat_of_singles(s.drop_last(), f);
        assert(s.map_values(f) =~= s.drop_last().map_values(f) + seq![f(s.last())]);
    } else {
        assert(s.map_values(f) =~= Seq::empty());
    }
}

} // verus!
