//! Which crates are looked at, and as what.

use crate::discover::{
    any_matches, config_error, first_fault, glob_fault, glob_matches, kind_of, law_members_by_name,
    looked_at, name_order, of_kind, patterns_fault, plain_text, CrateKind, CrateView,
    DiscoverErrorView, DiscoverView, PackageView,
};
use crate::order::{lemma_same_elements, stable_sorted};
use crate::text::{join, lex_lt};
use vstd::prelude::*;

verus! {

/// One of the patterns matches the name.
pub open spec fn listed_in(patterns: Seq<Seq<char>>, name: Seq<char>) -> bool {
    exists|i: int| 0 <= i < patterns.len() && glob_matches(#[trigger] patterns[i], name)
}

/// A crate is a library where it is listed as one and not ignored. It is a service
/// where it is neither, and services are not listed or it is among them. All others
/// are ignored.
pub proof fn law_what_a_crate_is(name: Seq<char>, config: DiscoverView)
    ensures
        (kind_of(name, config) == CrateKind::Library) == (!listed_in(config.ignore, name)
            && listed_in(config.libraries, name)),
        (kind_of(name, config) == CrateKind::Service) == (!listed_in(config.ignore, name)
            && !listed_in(config.libraries, name) && (config.services.len() == 0 || listed_in(
            config.services,
            name,
        ))),
{
    assert(any_matches(config.ignore, name) == listed_in(config.ignore, name));
    assert(any_matches(config.libraries, name) == listed_in(config.libraries, name));
    assert(any_matches(config.services, name) == listed_in(config.services, name));
}

proof fn lemma_looked_at(packages: Seq<PackageView>, config: DiscoverView, n: nat)
    requires
        n <= packages.len(),
    ensures
        looked_at(packages, config, n) == packages.take(n as int).filter(
            |p: PackageView| kind_of(p.name, config) != CrateKind::Ignored,
        ).map_values(
            |p: PackageView|
                CrateView {
                    name: p.name,
                    path: p.path,
                    kind: kind_of(p.name, config),
                    source_files: Seq::empty(),
                },
        ),
    decreases n,
{
    reveal(Seq::filter);
    let keep = |p: PackageView| kind_of(p.name, config) != CrateKind::Ignored;
    let f = |p: PackageView|
        CrateView {
            name: p.name,
            path: p.path,
            kind: kind_of(p.name, config),
            source_files: Seq::empty(),
        };
    let part = packages.take(n as int);
    if n > 0 {
        let less = packages.take(n - 1);
        let p = packages[n - 1];
        lemma_looked_at(packages, config, (n - 1) as nat);
        assert(part.drop_last() =~= less);
        assert(part.last() == p);
        if keep(p) {
            assert(less.filter(keep).push(p).map_values(f) =~= less.filter(keep).map_values(
                f,
            ).push(f(p)));
        }
    } else {
        assert(part =~= Seq::empty());
        assert(part.filter(keep).map_values(f) =~= Seq::empty());
    }
}

/// The members that are looked at are all the packages that are not ignored, in
/// their order, each under its name and path and as what it is.
pub proof fn law_all_but_the_ignored_are_looked_at(
    packages: Seq<PackageView>,
    config: DiscoverView,
)
    ensures
        looked_at(packages, config, packages.len()) == packages.filter(
            |p: PackageView| kind_of(p.name, config) != CrateKind::Ignored,
        ).map_values(
            |p: PackageView|
                CrateView {
                    name: p.name,
                    path: p.path,
                    kind: kind_of(p.name, config),
                    source_files: Seq::empty(),
                },
        ),
{
    lemma_looked_at(packages, config, packages.len());
    assert(packages.take(packages.len() as int) =~= packages);
}

/// The members of a kind are all that are of it, in their order.
pub proof fn law_members_of_a_kind(members: Seq<CrateView>, kind: CrateKind)
    ensures
        of_kind(members, kind) == members.filter(|m: CrateView| m.kind == kind),
    decreases members.len(),
{
    reveal(Seq::filter);
    if members.len() > 0 {
        law_members_of_a_kind(members.drop_last(), kind);
    }
}

/// The members of a workspace stand by name.
pub proof fn law_members_stand_by_name(members: Seq<CrateView>, i: int, j: int)
    requires
        0 <= i < j < members.len(),
    ensures
        ({
            let out = stable_sorted(members, name_order());
            &&& out.len() == members.len()
            &&& !lex_lt(out[j].name, out[i].name)
            &&& forall|m: CrateView| #[trigger] out.contains(m) == members.contains(m)
        }),
{
    let out = stable_sorted(members, name_order());
    law_members_by_name(members);
    vstd::seq_lib::to_multiset_len(out);
    vstd::seq_lib::to_multiset_len(members);
    lemma_same_elements(out, members);
    assert(!name_order()(out[j], out[i]));
}

proof fn lemma_first_fault(patterns: Seq<Seq<char>>, i: int, k: int)
    requires
        0 <= i <= k <= patterns.len(),
        forall|j: int| 0 <= j < k ==> glob_fault(#[trigger] patterns[j]) is None,
    ensures
        first_fault(patterns, i) == first_fault(patterns, k),
    decreases k - i,
{
    if i < k {
        assert(glob_fault(patterns[i]) is None);
        lemma_first_fault(patterns, i + 1, k);
    }
}

/// Of a list of patterns the first that is not valid is blamed, with what is wrong
/// with it. Where each is valid, nothing is wrong with the list.
pub proof fn law_first_bad_pattern_is_blamed(patterns: Seq<Seq<char>>, k: int)
    requires
        0 <= k <= patterns.len(),
        forall|j: int| 0 <= j < k ==> glob_fault(#[trigger] patterns[j]) is None,
        k < patterns.len() ==> glob_fault(patterns[k]) is Some,
    ensures
        k < patterns.len() ==> patterns_fault(patterns) == Some(
            DiscoverErrorView::InvalidGlob {
                pattern: patterns[k],
                source: glob_fault(patterns[k])->0,
            },
        ),
        k == patterns.len() ==> patterns_fault(patterns) is None,
{
    lemma_first_fault(patterns, 0, k);
}

/// A bad pattern in the services is blamed before all others, and one in the
/// libraries before one in what is ignored. Where no pattern is bad, an error names
/// all patterns of a list.
pub proof fn law_which_list_is_blamed(config: DiscoverView, e: DiscoverErrorView)
    requires
        config_error(config, e),
    ensures
        patterns_fault(config.services) matches Some(f) ==> e == f,
        patterns_fault(config.services) is None && patterns_fault(config.libraries) is Some ==> (e
            == patterns_fault(config.libraries)->0 || (config.services.len() > 0 && (e matches
            DiscoverErrorView::InvalidGlob { pattern, source } && pattern == join(
            config.services,
            ", "@,
        )))),
        patterns_fault(config.services) is None && patterns_fault(config.libraries) is None
            && patterns_fault(config.ignore) is None ==> (e matches DiscoverErrorView::InvalidGlob {
            pattern,
            source,
        } && (config.services.len() > 0 && pattern == join(config.services, ", "@)
            || config.libraries.len() > 0 && pattern == join(config.libraries, ", "@)
            || config.ignore.len() > 0 && pattern == join(config.ignore, ", "@))),
{
}

/// What is stated of globs is stated of all texts without a backslash.
pub proof fn law_plain_text(s: Seq<char>)
    ensures
        plain_text(s) == !s.contains('\\'),
{
}

} // verus!
