//! Which subjects overlap.
//!
//! Subjects that start with different literals never overlap, so subjects are
//! put into buckets by their first token. Only subjects of one bucket are
//! compared with each other, and those of each bucket with the subjects that
//! start with a wildcard.

use super::assembly::{
    edge_list, edge_order, insert_edge, lemma_edge_list_push, match_edge, match_edges,
    pattern_order, same_key, with_edge,
};
use super::laws::{
    found_last, law_edges_in_order, lemma_edge_order, lemma_last_with_key, lemma_match_found,
    lemma_match_has,
};
use crate::model::pattern::{
    law_different_heads_do_not_overlap, law_overlap_symmetric, law_surface_form_identifies,
    overlap, render, well_formed, NatsPattern, Segment, SegmentView,
};
use crate::model::{law_id_identifies, Edge, EdgeKind, EdgeView, Node};
use crate::order::{law_sorted_listing_unique, lemma_contains_push, strictly_sorted};
use crate::text::{
    lemma_lex_irreflexive, lemma_lex_total, lemma_lex_transitive, lex_lt, same_text, text_lt,
};
use vstd::prelude::*;

verus! {

// ---------------------------------------------------------------------
// pairs
// ---------------------------------------------------------------------

/// Two different subjects that overlap.
pub open spec fn joined(p: Seq<SegmentView>, q: Seq<SegmentView>) -> bool {
    p != q && overlap(p, q)
}

/// The edge between two subjects, from the smaller to the larger.
pub open spec fn pair_edge(p: Seq<SegmentView>, q: Seq<SegmentView>) -> EdgeView {
    if lex_lt(render(q), render(p)) {
        match_edge(q, p)
    } else {
        match_edge(p, q)
    }
}

/// An edge between a subject of `left` and one of `right`.
pub open spec fn edge_between(
    left: Seq<Seq<SegmentView>>,
    right: Seq<Seq<SegmentView>>,
    e: EdgeView,
) -> bool {
    exists|p: Seq<SegmentView>, q: Seq<SegmentView>|
        #![trigger left.contains(p), right.contains(q)]
        left.contains(p) && right.contains(q) && joined(p, q) && e == pair_edge(p, q)
}

pub open spec fn all_well_formed(list: Seq<Seq<SegmentView>>) -> bool {
    forall|i: int| 0 <= i < list.len() ==> well_formed(#[trigger] list[i])
}

/// Which of two subjects comes first makes no difference.
proof fn lemma_pair_symmetric(p: Seq<SegmentView>, q: Seq<SegmentView>)
    requires
        well_formed(p),
        well_formed(q),
    ensures
        pair_edge(p, q) == pair_edge(q, p),
        joined(p, q) == joined(q, p),
{
    law_overlap_symmetric(p, q);
    lemma_lex_total(render(p), render(q));
    if lex_lt(render(p), render(q)) && lex_lt(render(q), render(p)) {
        lemma_lex_transitive(render(p), render(q), render(p));
        lemma_lex_irreflexive(render(p));
    }
    if render(p) == render(q) {
        law_surface_form_identifies(p, q);
    }
}

/// The edges between the subjects of a list in order are those between any two
/// of them.
proof fn lemma_all_pairs(list: Seq<Seq<SegmentView>>, e: EdgeView)
    requires
        strictly_sorted(list, pattern_order()),
        all_well_formed(list),
    ensures
        match_edges(list, list.len()).contains(e) == edge_between(list, list, e),
{
    let all = match_edges(list, list.len());
    if all.contains(e) {
        let k = choose|k: int| 0 <= k < all.len() && all[k] == e;
        let at = lemma_match_found(list, list.len(), k);
        let p = list[at.0];
        let q = list[at.1];
        assert(pattern_order()(p, q));
        lemma_lex_irreflexive(render(p));
        if lex_lt(render(q), render(p)) {
            lemma_lex_transitive(render(p), render(q), render(p));
        }
        assert(list.contains(p) && list.contains(q));
    }
    if edge_between(list, list, e) {
        let (p, q) = choose|p: Seq<SegmentView>, q: Seq<SegmentView>|
            #![trigger list.contains(p), list.contains(q)]
            list.contains(p) && list.contains(q) && joined(p, q) && e == pair_edge(p, q);
        let i = choose|i: int| 0 <= i < list.len() && list[i] == p;
        let j = choose|j: int| 0 <= j < list.len() && list[j] == q;
        lemma_pair_symmetric(p, q);
        if i < j {
            assert(pattern_order()(list[i], list[j]));
            lemma_match_has(list, list.len(), i, j);
            if lex_lt(render(q), render(p)) {
                lemma_lex_transitive(render(p), render(q), render(p));
                lemma_lex_irreflexive(render(p));
            }
        } else {
            assert(pattern_order()(list[j], list[i]));
            lemma_match_has(list, list.len(), j, i);
        }
    }
}

/// Which order edges between subjects are found in, and how often, makes no
/// difference to the list of edges.
proof fn lemma_tails_agree(
    found: Seq<EdgeView>,
    a: Seq<EdgeView>,
    b: Seq<EdgeView>,
    list: Seq<Seq<SegmentView>>,
)
    requires
        all_well_formed(list),
        forall|e: EdgeView| #[trigger] a.contains(e) == edge_between(list, list, e),
        forall|e: EdgeView| #[trigger] b.contains(e) == edge_between(list, list, e),
    ensures
        edge_list(found + a) == edge_list(found + b),
{
    law_edges_in_order(found + a);
    law_edges_in_order(found + b);
    lemma_edge_order();
    assert forall|e: EdgeView| #[trigger]
        edge_list(found + a).contains(e) == edge_list(found + b).contains(e) by {
        if found_last(found + a, e) {
            lemma_tail_replaced(found, a, b, list, e);
        }
        if found_last(found + b, e) {
            lemma_tail_replaced(found, b, a, list, e);
        }
        assert(edge_list(found + b).contains(e) == found_last(found + b, e));
    }
    law_sorted_listing_unique(edge_list(found + a), edge_list(found + b), edge_order());
}

proof fn lemma_tail_replaced(
    found: Seq<EdgeView>,
    a: Seq<EdgeView>,
    b: Seq<EdgeView>,
    list: Seq<Seq<SegmentView>>,
    e: EdgeView,
)
    requires
        all_well_formed(list),
        forall|x: EdgeView| #[trigger] a.contains(x) == edge_between(list, list, x),
        forall|x: EdgeView| #[trigger] b.contains(x) == edge_between(list, list, x),
        found_last(found + a, e),
    ensures
        found_last(found + b, e),
{
    let from = found + a;
    let to = found + b;
    let i = choose|i: int|
        0 <= i < from.len() && #[trigger] from[i] == e && forall|j: int|
            i < j < from.len() ==> !same_key(#[trigger] from[j], e);
    if i < found.len() {
        assert(to[i] == e);
        assert forall|j: int| i < j < to.len() implies !same_key(#[trigger] to[j], e) by {
            if j < found.len() {
                assert(from[j] == to[j]);
            } else {
                assert(b.contains(b[j - found.len()]));
                assert(a.contains(to[j]));
                let k = choose|k: int| 0 <= k < a.len() && a[k] == to[j];
                assert(from[found.len() + k] == to[j]);
            }
        }
    } else {
        assert(a.contains(a[i - found.len()]));
        assert(b.contains(e));
        let k = choose|k: int| 0 <= k < b.len() && b[k] == e;
        assert(to[found.len() + k] == e);
        assert forall|j: int|
            found.len() + k < j < to.len() && same_key(#[trigger] to[j], e) implies to[j] == e by {
            assert(b.contains(b[j - found.len()]));
            lemma_same_key_same_edge(list, to[j], e);
        }
        lemma_last_with_key(to, found.len() + k, e);
    }
}

proof fn lemma_same_key_same_edge(list: Seq<Seq<SegmentView>>, x: EdgeView, y: EdgeView)
    requires
        all_well_formed(list),
        edge_between(list, list, x),
        edge_between(list, list, y),
        same_key(x, y),
    ensures
        x == y,
{
    let (p, q) = choose|p: Seq<SegmentView>, q: Seq<SegmentView>|
        #![trigger list.contains(p), list.contains(q)]
        list.contains(p) && list.contains(q) && joined(p, q) && x == pair_edge(p, q);
    let (s, t) = choose|s: Seq<SegmentView>, t: Seq<SegmentView>|
        #![trigger list.contains(s), list.contains(t)]
        list.contains(s) && list.contains(t) && joined(s, t) && y == pair_edge(s, t);
    assert(well_formed(p) && well_formed(q) && well_formed(s) && well_formed(t));
    law_id_identifies(x.from, y.from);
    law_id_identifies(x.to, y.to);
}

// ---------------------------------------------------------------------
// buckets
// ---------------------------------------------------------------------

/// The literal that a pattern starts with, if it starts with one.
pub open spec fn head_of(p: Seq<SegmentView>) -> Option<Seq<char>> {
    if p.len() == 0 {
        None
    } else {
        match p[0] {
            SegmentView::Literal(t) => Some(t),
            _ => None,
        }
    }
}

/// The subjects that start alike.
struct Bucket {
    head: Option<String>,
    members: Vec<NatsPattern>,
}

/// The model of a bucket.
pub struct BucketView {
    pub head: Option<Seq<char>>,
    pub members: Seq<Seq<SegmentView>>,
}

impl DeepView for Bucket {
    type V = BucketView;

    closed spec fn deep_view(&self) -> BucketView {
        BucketView { head: self.head.deep_view(), members: self.members.deep_view() }
    }
}

/// The buckets hold the subjects of the list, each in the one bucket that has its
/// head.
pub open spec fn bucketed(buckets: Seq<BucketView>, list: Seq<Seq<SegmentView>>) -> bool {
    &&& forall|i: int, j: int|
        #![trigger buckets[i], buckets[j]]
        0 <= i < j < buckets.len() ==> buckets[i].head != buckets[j].head
    &&& forall|i: int, p: Seq<SegmentView>|
        0 <= i < buckets.len() && #[trigger] buckets[i].members.contains(p) ==> head_of(p)
            == buckets[i].head && list.contains(p)
    &&& forall|p: Seq<SegmentView>| #[trigger]
        list.contains(p) ==> exists|i: int|
            0 <= i < buckets.len() && #[trigger] buckets[i].members.contains(p)
}

/// The subjects that start with a wildcard.
pub open spec fn wild_members(buckets: Seq<BucketView>) -> Seq<Seq<SegmentView>>
    decreases buckets.len(),
{
    if buckets.len() == 0 {
        Seq::empty()
    } else if buckets[0].head is None {
        buckets[0].members
    } else {
        wild_members(buckets.drop_first())
    }
}

/// An edge that the first `n` buckets give: inside a bucket with a literal, or
/// between such a bucket and the subjects that start with a wildcard.
pub open spec fn swept(
    buckets: Seq<BucketView>,
    wild: Seq<Seq<SegmentView>>,
    n: int,
    e: EdgeView,
) -> bool {
    exists|i: int|
        0 <= i < n && #[trigger] buckets[i].head is Some && (edge_between(
            buckets[i].members,
            buckets[i].members,
            e,
        ) || edge_between(buckets[i].members, wild, e))
}

proof fn lemma_wild(buckets: Seq<BucketView>, list: Seq<Seq<SegmentView>>, p: Seq<SegmentView>)
    requires
        bucketed(buckets, list),
    ensures
        wild_members(buckets).contains(p) == (list.contains(p) && head_of(p) is None),
{
    let k = lemma_wild_bucket(buckets);
    if wild_members(buckets).contains(p) {
        assert(0 <= k < buckets.len());
        assert(buckets[k].members.contains(p));
    }
    if list.contains(p) && head_of(p) is None {
        let i = choose|i: int| 0 <= i < buckets.len() && #[trigger] buckets[i].members.contains(p);
        assert(buckets[i].head is None);
        if i < k {
            assert(buckets[i].head != buckets[k].head);
        } else if k < i && k < buckets.len() {
            assert(buckets[k].head != buckets[i].head);
        }
    }
}

proof fn lemma_wild_bucket(buckets: Seq<BucketView>) -> (k: int)
    ensures
        0 <= k <= buckets.len(),
        k < buckets.len() ==> buckets[k].head is None && wild_members(buckets)
            == buckets[k].members,
        k == buckets.len() ==> wild_members(buckets).len() == 0 && forall|i: int|
            0 <= i < buckets.len() ==> (#[trigger] buckets[i]).head is Some,
    decreases buckets.len(),
{
    if buckets.len() == 0 {
        0
    } else if buckets[0].head is None {
        0
    } else {
        let rest = buckets.drop_first();
        let k = lemma_wild_bucket(rest);
        assert forall|i: int| 0 <= i < buckets.len() && k == rest.len() implies (
        #[trigger] buckets[i]).head is Some by {
            if i > 0 {
                assert(rest[i - 1] == buckets[i]);
            }
        }
        k + 1
    }
}

/// The buckets give every edge between two subjects of the list, and no other.
pub proof fn law_buckets_miss_no_edge(
    buckets: Seq<BucketView>,
    list: Seq<Seq<SegmentView>>,
    e: EdgeView,
)
    requires
        bucketed(buckets, list),
        all_well_formed(list),
    ensures
        ({
            let wild = wild_members(buckets);
            edge_between(list, list, e) == (swept(buckets, wild, buckets.len() as int, e)
                || edge_between(wild, wild, e))
        }),
{
    let wild = wild_members(buckets);
    assert forall|p: Seq<SegmentView>| #[trigger] wild.contains(p) == (list.contains(p)
        && head_of(p) is None) by {
        lemma_wild(buckets, list, p);
    }
    if edge_between(wild, wild, e) {
        let (p, q) = choose|p: Seq<SegmentView>, q: Seq<SegmentView>|
            #![trigger wild.contains(p), wild.contains(q)]
            wild.contains(p) && wild.contains(q) && joined(p, q) && e == pair_edge(p, q);
        assert(list.contains(p) && list.contains(q));
    }
    if swept(buckets, wild, buckets.len() as int, e) {
        let i = choose|i: int|
            0 <= i < buckets.len() && #[trigger] buckets[i].head is Some && (edge_between(
                buckets[i].members,
                buckets[i].members,
                e,
            ) || edge_between(buckets[i].members, wild, e));
        let left = buckets[i].members;
        let right = if edge_between(left, left, e) {
            left
        } else {
            wild
        };
        let (p, q) = choose|p: Seq<SegmentView>, q: Seq<SegmentView>|
            #![trigger left.contains(p), right.contains(q)]
            left.contains(p) && right.contains(q) && joined(p, q) && e == pair_edge(p, q);
        assert(list.contains(p) && list.contains(q));
    }
    if edge_between(list, list, e) {
        let (p, q) = choose|p: Seq<SegmentView>, q: Seq<SegmentView>|
            #![trigger list.contains(p), list.contains(q)]
            list.contains(p) && list.contains(q) && joined(p, q) && e == pair_edge(p, q);
        assert(well_formed(p) && well_formed(q));
        lemma_pair_symmetric(p, q);
        let i = choose|i: int| 0 <= i < buckets.len() && #[trigger] buckets[i].members.contains(p);
        let j = choose|j: int| 0 <= j < buckets.len() && #[trigger] buckets[j].members.contains(q);
        if head_of(p) is Some && head_of(q) is Some {
            if head_of(p) != head_of(q) {
                law_different_heads_do_not_overlap(p, q);
            }
            if i < j {
                assert(buckets[i].head != buckets[j].head);
            } else if j < i {
                assert(buckets[j].head != buckets[i].head);
            }
            assert(edge_between(buckets[i].members, buckets[i].members, e));
        } else if head_of(p) is Some {
            assert(wild.contains(q));
            assert(edge_between(buckets[i].members, wild, e));
        } else if head_of(q) is Some {
            assert(wild.contains(p));
            assert(edge_between(buckets[j].members, wild, e));
        } else {
            assert(wild.contains(p) && wild.contains(q));
        }
    }
}

fn head_text(p: &NatsPattern) -> (out: Option<String>)
    ensures
        out.deep_view() == head_of(p@),
        well_formed(p@),
{
    let segments = p.segments();
    if segments.len() == 0 {
        return None;
    }
    assert(p@[0] == segments@[0].deep_view());
    match &segments[0] {
        Segment::Literal(t) => Some(t.clone()),
        _ => None,
    }
}

fn same_head(a: &Option<String>, b: &Option<String>) -> (same: bool)
    ensures
        same == (a.deep_view() == b.deep_view()),
{
    match (a, b) {
        (Some(x), Some(y)) => same_text(x.as_str(), y.as_str()),
        (None, None) => true,
        _ => false,
    }
}

fn add_to_bucket(
    buckets: &mut Vec<Bucket>,
    pattern: &NatsPattern,
    Ghost(seen): Ghost<Seq<Seq<SegmentView>>>,
)
    requires
        bucketed(old(buckets).deep_view(), seen),
    ensures
        bucketed(final(buckets).deep_view(), seen.push(pattern@)),
{
    let ghost start = buckets.deep_view();
    let ghost now = seen.push(pattern@);
    let head = head_text(pattern);
    assert(now[seen.len() as int] == pattern@);
    assert forall|p: Seq<SegmentView>| #[trigger] now.contains(p) == (seen.contains(p) || p
        == pattern@) by {
        if seen.contains(p) {
            let k = choose|k: int| 0 <= k < seen.len() && seen[k] == p;
            assert(now[k] == p);
        }
        if now.contains(p) {
            let k = choose|k: int| 0 <= k < now.len() && now[k] == p;
            if k < seen.len() {
                assert(seen[k] == p);
            }
        }
    }
    let mut i: usize = 0;
    while i < buckets.len()
        invariant
            i <= buckets.len(),
            start == buckets.deep_view(),
            start == old(buckets).deep_view(),
            head.deep_view() == head_of(pattern@),
            now == seen.push(pattern@),
            forall|p: Seq<SegmentView>| #[trigger]
                now.contains(p) == (seen.contains(p) || p == pattern@),
            bucketed(start, seen),
            forall|k: int| 0 <= k < i ==> (#[trigger] start[k]).head != head_of(pattern@),
        decreases buckets.len() - i,
    {
        assert(start[i as int] == buckets@[i as int].deep_view());
        if same_head(&buckets[i].head, &head) {
            let mut bucket = buckets.remove(i);
            let ghost before = bucket.members.deep_view();
            bucket.members.push(pattern.clone());
            assert(bucket.members.deep_view() =~= before.push(pattern@));
            buckets.insert(i, bucket);
            let ghost end = buckets.deep_view();
            proof {
                assert(end =~= start.update(
                    i as int,
                    BucketView {
                        head: start[i as int].head,
                        members: start[i as int].members.push(pattern@),
                    },
                ));
                lemma_bucket_grown(start, end, i as int, seen, pattern@);
            }
            return ;
        }
        i += 1;
    }
    let mut members: Vec<NatsPattern> = Vec::new();
    members.push(pattern.clone());
    assert(members.deep_view() =~= seq![pattern@]);
    buckets.push(Bucket { head, members });
    let ghost end = buckets.deep_view();
    proof {
        let last = BucketView { head: head_of(pattern@), members: seq![pattern@] };
        assert(end =~= start.push(last));
        assert forall|k: int, p: Seq<SegmentView>|
            0 <= k < end.len() && #[trigger] end[k].members.contains(p) implies head_of(p)
            == end[k].head && now.contains(p) by {
            if k < start.len() {
                assert(start[k].members.contains(p));
            }
        }
        assert forall|p: Seq<SegmentView>| #[trigger] now.contains(p) implies exists|k: int|
            0 <= k < end.len() && #[trigger] end[k].members.contains(p) by {
            if seen.contains(p) {
                let k = choose|k: int|
                    0 <= k < start.len() && #[trigger] start[k].members.contains(p);
                assert(end[k].members.contains(p));
            } else {
                assert(last.members[0] == p);
                assert(end[start.len() as int].members.contains(p));
            }
        }
    }
}

proof fn lemma_bucket_grown(
    start: Seq<BucketView>,
    end: Seq<BucketView>,
    i: int,
    seen: Seq<Seq<SegmentView>>,
    x: Seq<SegmentView>,
)
    requires
        bucketed(start, seen),
        0 <= i < start.len(),
        start[i].head == head_of(x),
        end == start.update(
            i,
            BucketView { head: start[i].head, members: start[i].members.push(x) },
        ),
    ensures
        bucketed(end, seen.push(x)),
{
    let now = seen.push(x);
    let before = start[i].members;
    assert forall|k: int, p: Seq<SegmentView>|
        0 <= k < end.len() && #[trigger] end[k].members.contains(p) implies head_of(p)
        == end[k].head && now.contains(p) by {
        if k == i {
            let m = choose|m: int| 0 <= m < end[k].members.len() && end[k].members[m] == p;
            if m < before.len() {
                assert(before[m] == p);
                assert(start[k].members.contains(p));
            } else {
                assert(now[seen.len() as int] == p);
            }
        } else {
            assert(start[k].members.contains(p));
        }
        if seen.contains(p) {
            let m = choose|m: int| 0 <= m < seen.len() && seen[m] == p;
            assert(now[m] == p);
        }
    }
    assert forall|p: Seq<SegmentView>| #[trigger] now.contains(p) implies exists|k: int|
        0 <= k < end.len() && #[trigger] end[k].members.contains(p) by {
        let n = choose|n: int| 0 <= n < now.len() && now[n] == p;
        if n < seen.len() {
            assert(seen[n] == p);
            assert(seen.contains(p));
            let k = choose|k: int| 0 <= k < start.len() && #[trigger] start[k].members.contains(p);
            if k == i {
                let m = choose|m: int| 0 <= m < before.len() && before[m] == p;
                assert(end[k].members[m] == p);
            }
            assert(end[k].members.contains(p));
        } else {
            assert(end[i].members[before.len() as int] == p);
            assert(end[i].members.contains(p));
        }
    }
    assert forall|k: int, m: int|
        #![trigger end[k], end[m]]
        0 <= k < m < end.len() implies end[k].head != end[m].head by {
        assert(start[k].head != start[m].head);
    }
}

fn head_buckets(list: &Vec<NatsPattern>) -> (out: Vec<Bucket>)
    ensures
        bucketed(out.deep_view(), list.deep_view()),
{
    let ghost all = list.deep_view();
    let mut out: Vec<Bucket> = Vec::new();
    let mut i: usize = 0;
    assert(out.deep_view() =~= Seq::empty());
    assert(all.take(0) =~= Seq::empty());
    while i < list.len()
        invariant
            i <= list.len(),
            all == list.deep_view(),
            bucketed(out.deep_view(), all.take(i as int)),
        decreases list.len() - i,
    {
        assert(all[i as int] == list@[i as int]@);
        add_to_bucket(&mut out, &list[i], Ghost(all.take(i as int)));
        assert(all.take(i as int).push(all[i as int]) =~= all.take(i + 1));
        i += 1;
    }
    assert(all.take(i as int) =~= all);
    out
}

// ---------------------------------------------------------------------
// the sweep
// ---------------------------------------------------------------------

/// The smaller of two subjects, then the larger.
fn canonical_pair<'a>(a: &'a NatsPattern, b: &'a NatsPattern) -> (out: (
    &'a NatsPattern,
    &'a NatsPattern,
))
    ensures
        match_edge(out.0@, out.1@) == pair_edge(a@, b@),
{
    if text_lt(b.as_str(), a.as_str()) {
        (b, a)
    } else {
        (a, b)
    }
}

fn insert_matches_edge(a: &NatsPattern, b: &NatsPattern, edges: &mut Vec<Edge>)
    ensures
        final(edges).deep_view() == with_edge(old(edges).deep_view(), pair_edge(a@, b@)),
{
    let (lo, hi) = canonical_pair(a, b);
    insert_edge(
        edges,
        Edge {
            from: Node::Subject(lo.clone()),
            to: Node::Subject(hi.clone()),
            kind: EdgeKind::Matches,
            label: None,
        },
    );
}

/// An edge between `a` and one of the subjects from `lo` to `hi`.
pub open spec fn row_edge(
    a: Seq<SegmentView>,
    list: Seq<Seq<SegmentView>>,
    lo: int,
    hi: int,
    e: EdgeView,
) -> bool {
    exists|k: int| lo <= k < hi && joined(a, #[trigger] list[k]) && e == pair_edge(a, list[k])
}

fn emit_row(
    a: &NatsPattern,
    list: &Vec<NatsPattern>,
    start: usize,
    edges: &mut Vec<Edge>,
    Ghost(found): Ghost<Seq<EdgeView>>,
    Ghost(before): Ghost<Seq<EdgeView>>,
) -> (out: Ghost<Seq<EdgeView>>)
    requires
        start <= list.len(),
        old(edges).deep_view() == edge_list(found + before),
    ensures
        final(edges).deep_view() == edge_list(found + out@),
        forall|e: EdgeView| #[trigger]
            out@.contains(e) == (before.contains(e) || row_edge(
                a@,
                list.deep_view(),
                start as int,
                list.deep_view().len() as int,
                e,
            )),
{
    let ghost all = list.deep_view();
    let ghost mut tail = before;
    let mut k: usize = start;
    while k < list.len()
        invariant
            start <= k <= list.len(),
            all == list.deep_view(),
            edges.deep_view() == edge_list(found + tail),
            forall|e: EdgeView| #[trigger]
                tail.contains(e) == (before.contains(e) || row_edge(
                    a@,
                    all,
                    start as int,
                    k as int,
                    e,
                )),
        decreases list.len() - k,
    {
        assert(all[k as int] == list@[k as int]@);
        let ghost x = pair_edge(a@, all[k as int]);
        let ghost old_tail = tail;
        let joins = !a.same_as(&list[k]) && a.overlaps(&list[k]);
        if joins {
            insert_matches_edge(a, &list[k], edges);
            proof {
                lemma_edge_list_push(found + tail, x);
                assert((found + tail).push(x) =~= found + tail.push(x));
                tail = tail.push(x);
            }
        }
        proof {
            assert forall|e: EdgeView| #[trigger] tail.contains(e) == (before.contains(e)
                || row_edge(a@, all, start as int, k + 1, e)) by {
                if joins {
                    lemma_contains_push(old_tail, x, e);
                }
                if row_edge(a@, all, start as int, k + 1, e) {
                    let m = choose|m: int|
                        start <= m < k + 1 && joined(a@, #[trigger] all[m]) && e == pair_edge(
                            a@,
                            all[m],
                        );
                    if m < k {
                        assert(row_edge(a@, all, start as int, k as int, e));
                    }
                }
                if row_edge(a@, all, start as int, k as int, e) {
                    let m = choose|m: int|
                        start <= m < k && joined(a@, #[trigger] all[m]) && e == pair_edge(
                            a@,
                            all[m],
                        );
                    assert(joined(a@, all[m]));
                }
                if joins && e == x {
                    assert(joined(a@, all[k as int]));
                }
            }
        }
        k += 1;
    }
    Ghost(tail)
}

/// An edge between one of the first `n` subjects and a later one.
pub open spec fn within(list: Seq<Seq<SegmentView>>, n: int, e: EdgeView) -> bool {
    exists|i: int| 0 <= i < n && row_edge(#[trigger] list[i], list, i + 1, list.len() as int, e)
}

proof fn lemma_within_all(list: Seq<Seq<SegmentView>>, e: EdgeView)
    requires
        all_well_formed(list),
    ensures
        within(list, list.len() as int, e) == edge_between(list, list, e),
{
    if within(list, list.len() as int, e) {
        let i = choose|i: int|
            0 <= i < list.len() && row_edge(#[trigger] list[i], list, i + 1, list.len() as int, e);
        let k = choose|k: int|
            i + 1 <= k < list.len() && joined(list[i], #[trigger] list[k]) && e == pair_edge(
                list[i],
                list[k],
            );
        assert(list.contains(list[i]) && list.contains(list[k]));
    }
    if edge_between(list, list, e) {
        let (p, q) = choose|p: Seq<SegmentView>, q: Seq<SegmentView>|
            #![trigger list.contains(p), list.contains(q)]
            list.contains(p) && list.contains(q) && joined(p, q) && e == pair_edge(p, q);
        let i = choose|i: int| 0 <= i < list.len() && list[i] == p;
        let j = choose|j: int| 0 <= j < list.len() && list[j] == q;
        lemma_pair_symmetric(p, q);
        if i < j {
            assert(joined(list[i], list[j]));
            assert(row_edge(list[i], list, i + 1, list.len() as int, e));
        } else {
            assert(joined(list[j], list[i]));
            assert(row_edge(list[j], list, j + 1, list.len() as int, e));
        }
    }
}

/// Adds the edges between the subjects of one bucket.
fn emit_within(
    members: &Vec<NatsPattern>,
    edges: &mut Vec<Edge>,
    Ghost(found): Ghost<Seq<EdgeView>>,
    Ghost(before): Ghost<Seq<EdgeView>>,
) -> (out: Ghost<Seq<EdgeView>>)
    requires
        all_well_formed(members.deep_view()),
        old(edges).deep_view() == edge_list(found + before),
    ensures
        final(edges).deep_view() == edge_list(found + out@),
        forall|e: EdgeView| #[trigger]
            out@.contains(e) == (before.contains(e) || edge_between(
                members.deep_view(),
                members.deep_view(),
                e,
            )),
{
    let ghost all = members.deep_view();
    let mut tail: Ghost<Seq<EdgeView>> = Ghost(before);
    let mut i: usize = 0;
    while i < members.len()
        invariant
            i <= members.len(),
            all == members.deep_view(),
            edges.deep_view() == edge_list(found + tail@),
            forall|e: EdgeView| #[trigger]
                tail@.contains(e) == (before.contains(e) || within(all, i as int, e)),
        decreases members.len() - i,
    {
        assert(all[i as int] == members@[i as int]@);
        let ghost last = tail@;
        tail = emit_row(&members[i], members, i + 1, edges, Ghost(found), Ghost(last));
        proof {
            assert forall|e: EdgeView| #[trigger] tail@.contains(e) == (before.contains(e)
                || within(all, i + 1, e)) by {
                assert(last.contains(e) == (before.contains(e) || within(all, i as int, e)));
                if within(all, i + 1, e) {
                    let m = choose|m: int|
                        0 <= m < i + 1 && row_edge(
                            #[trigger] all[m],
                            all,
                            m + 1,
                            all.len() as int,
                            e,
                        );
                    if m < i {
                        assert(within(all, i as int, e));
                    }
                }
                if within(all, i as int, e) {
                    let m = choose|m: int|
                        0 <= m < i && row_edge(
                            #[trigger] all[m],
                            all,
                            m + 1,
                            all.len() as int,
                            e,
                        );
                    assert(row_edge(all[m], all, m + 1, all.len() as int, e));
                }
                if row_edge(all[i as int], all, i + 1, all.len() as int, e) {
                    assert(within(all, i + 1, e));
                }
            }
        }
        i += 1;
    }
    proof {
        assert forall|e: EdgeView| #[trigger] tail@.contains(e) == (before.contains(e)
            || edge_between(all, all, e)) by {
            lemma_within_all(all, e);
        }
    }
    tail
}

/// An edge between one of the first `n` subjects of `left` and one of `right`.
pub open spec fn across(
    left: Seq<Seq<SegmentView>>,
    right: Seq<Seq<SegmentView>>,
    n: int,
    e: EdgeView,
) -> bool {
    exists|i: int| 0 <= i < n && row_edge(#[trigger] left[i], right, 0, right.len() as int, e)
}

proof fn lemma_across_all(
    left: Seq<Seq<SegmentView>>,
    right: Seq<Seq<SegmentView>>,
    e: EdgeView,
)
    ensures
        across(left, right, left.len() as int, e) == edge_between(left, right, e),
{
    if across(left, right, left.len() as int, e) {
        let i = choose|i: int|
            0 <= i < left.len() && row_edge(#[trigger] left[i], right, 0, right.len() as int, e);
        let k = choose|k: int|
            0 <= k < right.len() && joined(left[i], #[trigger] right[k]) && e == pair_edge(
                left[i],
                right[k],
            );
        assert(left.contains(left[i]) && right.contains(right[k]));
    }
    if edge_between(left, right, e) {
        let (p, q) = choose|p: Seq<SegmentView>, q: Seq<SegmentView>|
            #![trigger left.contains(p), right.contains(q)]
            left.contains(p) && right.contains(q) && joined(p, q) && e == pair_edge(p, q);
        let i = choose|i: int| 0 <= i < left.len() && left[i] == p;
        let k = choose|k: int| 0 <= k < right.len() && right[k] == q;
        assert(joined(left[i], right[k]));
        assert(row_edge(left[i], right, 0, right.len() as int, e));
    }
}

/// Adds the edges between the subjects of two buckets.
fn emit_cross(
    left: &Vec<NatsPattern>,
    right: &Vec<NatsPattern>,
    edges: &mut Vec<Edge>,
    Ghost(found): Ghost<Seq<EdgeView>>,
    Ghost(before): Ghost<Seq<EdgeView>>,
) -> (out: Ghost<Seq<EdgeView>>)
    requires
        old(edges).deep_view() == edge_list(found + before),
    ensures
        final(edges).deep_view() == edge_list(found + out@),
        forall|e: EdgeView| #[trigger]
            out@.contains(e) == (before.contains(e) || edge_between(
                left.deep_view(),
                right.deep_view(),
                e,
            )),
{
    let ghost a = left.deep_view();
    let ghost b = right.deep_view();
    let mut tail: Ghost<Seq<EdgeView>> = Ghost(before);
    let mut i: usize = 0;
    while i < left.len()
        invariant
            i <= left.len(),
            a == left.deep_view(),
            b == right.deep_view(),
            edges.deep_view() == edge_list(found + tail@),
            forall|e: EdgeView| #[trigger]
                tail@.contains(e) == (before.contains(e) || across(a, b, i as int, e)),
        decreases left.len() - i,
    {
        assert(a[i as int] == left@[i as int]@);
        let ghost last = tail@;
        tail = emit_row(&left[i], right, 0, edges, Ghost(found), Ghost(last));
        proof {
            assert forall|e: EdgeView| #[trigger] tail@.contains(e) == (before.contains(e)
                || across(a, b, i + 1, e)) by {
                assert(last.contains(e) == (before.contains(e) || across(a, b, i as int, e)));
                if across(a, b, i + 1, e) {
                    let m = choose|m: int|
                        0 <= m < i + 1 && row_edge(#[trigger] a[m], b, 0, b.len() as int, e);
                    if m < i {
                        assert(across(a, b, i as int, e));
                    }
                }
                if across(a, b, i as int, e) {
                    let m = choose|m: int|
                        0 <= m < i && row_edge(#[trigger] a[m], b, 0, b.len() as int, e);
                    assert(row_edge(a[m], b, 0, b.len() as int, e));
                }
                if row_edge(a[i as int], b, 0, b.len() as int, e) {
                    assert(across(a, b, i + 1, e));
                }
            }
        }
        i += 1;
    }
    proof {
        assert forall|e: EdgeView| #[trigger] tail@.contains(e) == (before.contains(e)
            || edge_between(a, b, e)) by {
            lemma_across_all(a, b, e);
        }
    }
    tail
}

/// The bucket of the subjects that start with a wildcard, or none.
fn wild_bucket(buckets: &Vec<Bucket>) -> (out: Vec<NatsPattern>)
    ensures
        out.deep_view() == wild_members(buckets.deep_view()),
{
    let ghost all = buckets.deep_view();
    let mut i: usize = 0;
    assert(all.skip(0) =~= all);
    while i < buckets.len()
        invariant
            i <= buckets.len(),
            all == buckets.deep_view(),
            wild_members(all) == wild_members(all.skip(i as int)),
        decreases buckets.len() - i,
    {
        assert(all.skip(i as int)[0] == buckets@[i as int].deep_view());
        assert(all.skip(i as int).drop_first() =~= all.skip(i + 1));
        if buckets[i].head.is_none() {
            return copy_patterns(&buckets[i].members);
        }
        i += 1;
    }
    let out: Vec<NatsPattern> = Vec::new();
    assert(out.deep_view() =~= Seq::empty());
    out
}

fn copy_patterns(list: &Vec<NatsPattern>) -> (out: Vec<NatsPattern>)
    ensures
        out.deep_view() == list.deep_view(),
{
    let mut out: Vec<NatsPattern> = Vec::new();
    let mut i: usize = 0;
    assert(out.deep_view() =~= list.deep_view().take(0));
    while i < list.len()
        invariant
            i <= list.len(),
            out.deep_view() == list.deep_view().take(i as int),
        decreases list.len() - i,
    {
        let ghost front = out.deep_view();
        out.push(list[i].clone());
        assert(out.deep_view() =~= front.push(list.deep_view()[i as int]));
        assert(list.deep_view().take(i + 1) =~= out.deep_view());
        i += 1;
    }
    assert(list.deep_view().take(i as int) =~= list.deep_view());
    out
}

proof fn lemma_members_well_formed(
    buckets: Seq<BucketView>,
    list: Seq<Seq<SegmentView>>,
    i: int,
)
    requires
        bucketed(buckets, list),
        all_well_formed(list),
        0 <= i < buckets.len(),
    ensures
        all_well_formed(buckets[i].members),
{
    let members = buckets[i].members;
    assert forall|k: int| 0 <= k < members.len() implies well_formed(#[trigger] members[k]) by {
        assert(buckets[i].members.contains(members[k]));
        assert(list.contains(members[k]));
    }
}

/// Adds the edges that the buckets give.
fn sweep_buckets(
    buckets: &Vec<Bucket>,
    edges: &mut Vec<Edge>,
    Ghost(found): Ghost<Seq<EdgeView>>,
    Ghost(list): Ghost<Seq<Seq<SegmentView>>>,
) -> (out: Ghost<Seq<EdgeView>>)
    requires
        bucketed(buckets.deep_view(), list),
        all_well_formed(list),
        old(edges).deep_view() == edge_list(found),
    ensures
        final(edges).deep_view() == edge_list(found + out@),
        forall|e: EdgeView| #[trigger] out@.contains(e) == edge_between(list, list, e),
{
    let ghost all = buckets.deep_view();
    let wild = wild_bucket(buckets);
    let ghost w = wild.deep_view();
    let mut tail: Ghost<Seq<EdgeView>> = Ghost(Seq::empty());
    assert(found + tail@ =~= found);
    let mut i: usize = 0;
    while i < buckets.len()
        invariant
            i <= buckets.len(),
            all == buckets.deep_view(),
            w == wild.deep_view(),
            bucketed(all, list),
            all_well_formed(list),
            edges.deep_view() == edge_list(found + tail@),
            forall|e: EdgeView| #[trigger] tail@.contains(e) == swept(all, w, i as int, e),
        decreases buckets.len() - i,
    {
        let bucket = &buckets[i];
        assert(all[i as int] == bucket.deep_view());
        let ghost last = tail@;
        if bucket.head.is_some() {
            proof {
                lemma_members_well_formed(all, list, i as int);
            }
            tail = emit_within(&bucket.members, edges, Ghost(found), Ghost(last));
            let ghost middle = tail@;
            tail = emit_cross(&bucket.members, &wild, edges, Ghost(found), Ghost(middle));
        }
        proof {
            assert forall|e: EdgeView| #[trigger] tail@.contains(e) == swept(all, w, i + 1, e) by {
                assert(last.contains(e) == swept(all, w, i as int, e));
                lemma_swept_next(all, w, i as int, e);
            }
        }
        i += 1;
    }
    let ghost last = tail@;
    proof {
        let k = lemma_wild_bucket(all);
        if k < all.len() {
            lemma_members_well_formed(all, list, k);
        }
    }
    tail = emit_within(&wild, edges, Ghost(found), Ghost(last));
    proof {
        assert forall|e: EdgeView| #[trigger] tail@.contains(e) == edge_between(list, list, e) by {
            assert(last.contains(e) == swept(all, w, all.len() as int, e));
            law_buckets_miss_no_edge(all, list, e);
        }
    }
    tail
}

proof fn lemma_swept_next(
    buckets: Seq<BucketView>,
    wild: Seq<Seq<SegmentView>>,
    n: int,
    e: EdgeView,
)
    requires
        0 <= n < buckets.len(),
    ensures
        swept(buckets, wild, n + 1, e) == (swept(buckets, wild, n, e) || (buckets[n].head is Some
            && (edge_between(buckets[n].members, buckets[n].members, e) || edge_between(
            buckets[n].members,
            wild,
            e,
        )))),
{
    if swept(buckets, wild, n + 1, e) {
        let i = choose|i: int|
            0 <= i < n + 1 && #[trigger] buckets[i].head is Some && (edge_between(
                buckets[i].members,
                buckets[i].members,
                e,
            ) || edge_between(buckets[i].members, wild, e));
        if i < n {
            assert(swept(buckets, wild, n, e));
        }
    }
    if swept(buckets, wild, n, e) {
        let i = choose|i: int|
            0 <= i < n && #[trigger] buckets[i].head is Some && (edge_between(
                buckets[i].members,
                buckets[i].members,
                e,
            ) || edge_between(buckets[i].members, wild, e));
        assert(buckets[i].head is Some);
    }
}

/// Adds the edges between subjects that overlap.
pub(crate) fn add_matches_edges(
    edges: &mut Vec<Edge>,
    subjects: &Vec<NatsPattern>,
    Ghost(found): Ghost<Seq<EdgeView>>,
)
    requires
        strictly_sorted(subjects.deep_view(), pattern_order()),
        all_well_formed(subjects.deep_view()),
        old(edges).deep_view() == edge_list(found),
    ensures
        final(edges).deep_view() == edge_list(
            found + match_edges(subjects.deep_view(), subjects.deep_view().len()),
        ),
{
    let ghost list = subjects.deep_view();
    let buckets = head_buckets(subjects);
    let tail = sweep_buckets(&buckets, edges, Ghost(found), Ghost(list));
    proof {
        let all = match_edges(list, list.len());
        assert forall|e: EdgeView| #[trigger] all.contains(e) == edge_between(list, list, e) by {
            lemma_all_pairs(list, e);
        }
        lemma_tails_agree(found, tail@, all, list);
    }
}

} // verus!
