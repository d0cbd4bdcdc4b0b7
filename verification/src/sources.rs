//! The source files of a crate.
//!
//! A file is known by the parts of its path below the directory of the crate.

use crate::order::{
    law_stable_sorted_is_sorted, law_stable_sorted_permutes, placed, sorted_by, stable_sorted,
    weak_order,
};
use crate::text::{
    chars_of, copy_texts, ends_with, has_suffix, lemma_lex_irreflexive, lemma_lex_total,
    lemma_lex_transitive, lex_lt, list_has, same_text, text_lt,
};
use vstd::prelude::*;

verus! {

/// The directories of a crate that are walked for source files.
pub open spec fn source_dir_names(include_test_files: bool) -> Seq<Seq<char>> {
    if include_test_files {
        seq!["src"@, "tests"@, "examples"@, "benches"@]
    } else {
        seq!["src"@]
    }
}

/// The directories of a crate that are walked for source files.
#[must_use]
pub fn source_dirs(include_test_files: bool) -> (out: Vec<String>)
    ensures
        out.deep_view() == source_dir_names(include_test_files),
{
    let mut out: Vec<String> = Vec::new();
    out.push("src".to_owned());
    if include_test_files {
        out.push("tests".to_owned());
        out.push("examples".to_owned());
        out.push("benches".to_owned());
    }
    assert(out.deep_view() =~= source_dir_names(include_test_files));
    out
}

/// Whether a file of that name holds Rust source: its extension is `rs`.
pub open spec fn rust_file_name(name: Seq<char>) -> bool {
    name.len() > 3 && has_suffix(name, ".rs"@)
}

/// Whether a file of that name holds Rust source: its extension is `rs`.
#[must_use]
pub fn is_rust_file(name: &str) -> (yes: bool)
    ensures
        yes == rust_file_name(name@),
{
    let chars = chars_of(name);
    let extension = chars_of(".rs");
    chars.len() > 3 && ends_with(&chars, &extension)
}

/// Whether the file at `path` is a source file of its crate.
pub open spec fn is_source(path: Seq<Seq<char>>, include_test_files: bool) -> bool {
    &&& path.len() > 0
    &&& source_dir_names(include_test_files).contains(path[0])
    &&& rust_file_name(path.last())
}

/// The source files among those found in a crate, in the order found.
pub open spec fn sources_among(
    found: Seq<Seq<Seq<char>>>,
    include_test_files: bool,
) -> Seq<Seq<Seq<char>>>
    decreases found.len(),
{
    if found.len() == 0 {
        found
    } else {
        let front = sources_among(found.drop_last(), include_test_files);
        if is_source(found.last(), include_test_files) {
            front.push(found.last())
        } else {
            front
        }
    }
}

/// Whether the path `a` comes before `b`: part by part, a directory before what
/// is below it.
pub open spec fn path_lt(a: Seq<Seq<char>>, b: Seq<Seq<char>>) -> bool
    decreases a.len(),
{
    if b.len() == 0 {
        false
    } else if a.len() == 0 {
        true
    } else if a[0] == b[0] {
        path_lt(a.drop_first(), b.drop_first())
    } else {
        lex_lt(a[0], b[0])
    }
}

pub open spec fn path_order() -> spec_fn(Seq<Seq<char>>, Seq<Seq<char>>) -> bool {
    |a: Seq<Seq<char>>, b: Seq<Seq<char>>| path_lt(a, b)
}

proof fn lemma_path_irreflexive(a: Seq<Seq<char>>)
    ensures
        !path_lt(a, a),
    decreases a.len(),
{
    if a.len() > 0 {
        lemma_path_irreflexive(a.drop_first());
    }
}

proof fn lemma_path_transitive(a: Seq<Seq<char>>, b: Seq<Seq<char>>, c: Seq<Seq<char>>)
    requires
        path_lt(a, b),
        path_lt(b, c),
    ensures
        path_lt(a, c),
    decreases a.len(),
{
    if a.len() > 0 {
        if a[0] == b[0] && b[0] == c[0] {
            lemma_path_transitive(a.drop_first(), b.drop_first(), c.drop_first());
        } else if a[0] != b[0] && b[0] != c[0] {
            lemma_lex_transitive(a[0], b[0], c[0]);
            lemma_lex_irreflexive(a[0]);
        }
    }
}

proof fn lemma_path_total(a: Seq<Seq<char>>, b: Seq<Seq<char>>)
    ensures
        path_lt(a, b) || a == b || path_lt(b, a),
    decreases a.len(),
{
    if a.len() == 0 {
        if b.len() == 0 {
            assert(a =~= b);
        }
    } else if b.len() > 0 {
        if a[0] == b[0] {
            lemma_path_total(a.drop_first(), b.drop_first());
            if a.drop_first() == b.drop_first() {
                assert(a =~= seq![a[0]] + a.drop_first());
                assert(b =~= seq![b[0]] + b.drop_first());
            }
        } else {
            lemma_lex_total(a[0], b[0]);
        }
    }
}

/// The source files of a crate come out in the order of their paths, each as
/// often as it was found.
pub proof fn law_sources_in_path_order(found: Seq<Seq<Seq<char>>>, include_test_files: bool)
    ensures
        ({
            let kept = sources_among(found, include_test_files);
            &&& sorted_by(stable_sorted(kept, path_order()), path_order())
            &&& stable_sorted(kept, path_order()).to_multiset() == kept.to_multiset()
        }),
{
    let kept = sources_among(found, include_test_files);
    let lt = path_order();
    assert(weak_order(lt)) by {
        assert forall|x: Seq<Seq<char>>| !#[trigger] lt(x, x) by {
            lemma_path_irreflexive(x);
        }
        assert forall|x: Seq<Seq<char>>, y: Seq<Seq<char>>, z: Seq<Seq<char>>| #[trigger]
            lt(x, y) && #[trigger] lt(y, z) implies lt(x, z) by {
            lemma_path_transitive(x, y, z);
        }
        assert forall|x: Seq<Seq<char>>, y: Seq<Seq<char>>, z: Seq<Seq<char>>|
            !#[trigger] lt(x, y) && !#[trigger] lt(y, z) implies !lt(x, z) by {
            if lt(x, z) {
                lemma_path_total(x, y);
                lemma_path_total(y, z);
                if path_lt(y, x) {
                    lemma_path_transitive(y, x, z);
                }
            }
        }
    }
    law_stable_sorted_is_sorted(kept, lt);
    law_stable_sorted_permutes(kept, lt);
}

/// What is below `tests/`, `examples/` and `benches/` counts only where it is
/// asked for; what is below `src/` counts always.
pub proof fn law_test_files_are_opt_in(path: Seq<Seq<char>>)
    ensures
        is_source(path, false) ==> is_source(path, true) && path[0] == "src"@,
        is_source(path, true) && !is_source(path, false) ==> (path[0] == "tests"@ || path[0]
            == "examples"@ || path[0] == "benches"@),
{
    let few = source_dir_names(false);
    let all = source_dir_names(true);
    assert(few[0] == "src"@ && all[0] == "src"@);
    if is_source(path, false) {
        assert(all.contains(all[0]));
    }
    if is_source(path, true) && path[0] == "src"@ {
        assert(few.contains(few[0]));
    }
}

fn path_before(a: &Vec<String>, b: &Vec<String>) -> (before: bool)
    ensures
        before == path_lt(a.deep_view(), b.deep_view()),
{
    let ghost x = a.deep_view();
    let ghost y = b.deep_view();
    let mut i: usize = 0;
    assert(x.skip(0) =~= x);
    assert(y.skip(0) =~= y);
    while i < a.len() && i < b.len() && same_text(a[i].as_str(), b[i].as_str())
        invariant
            i <= a.len(),
            i <= b.len(),
            x == a.deep_view(),
            y == b.deep_view(),
            path_lt(x, y) == path_lt(x.skip(i as int), y.skip(i as int)),
        decreases a.len() - i,
    {
        assert(x[i as int] == a@[i as int]@);
        assert(y[i as int] == b@[i as int]@);
        assert(x.skip(i as int).drop_first() =~= x.skip(i + 1));
        assert(y.skip(i as int).drop_first() =~= y.skip(i + 1));
        i += 1;
    }
    if i >= b.len() {
        false
    } else if i >= a.len() {
        true
    } else {
        assert(x[i as int] == a@[i as int]@);
        assert(y[i as int] == b@[i as int]@);
        text_lt(a[i].as_str(), b[i].as_str())
    }
}

fn place_path(paths: &mut Vec<Vec<String>>, path: Vec<String>)
    ensures
        final(paths).deep_view() == placed(
            old(paths).deep_view(),
            path.deep_view(),
            path_order(),
        ),
{
    let ghost lt = path_order();
    let ghost all = paths.deep_view();
    let ghost x = path.deep_view();
    let mut n: usize = paths.len();
    assert(all.take(n as int) =~= all);
    assert(placed(all.take(n as int), x, lt) + all.skip(n as int) =~= placed(all, x, lt));
    while n > 0 && path_before(&path, &paths[n - 1])
        invariant
            n <= paths.len(),
            all == paths.deep_view(),
            x == path.deep_view(),
            lt == path_order(),
            placed(all.take(n as int), x, lt) + all.skip(n as int) == placed(all, x, lt),
        decreases n,
    {
        let ghost front = all.take(n as int);
        assert(front.last() == paths@[n - 1].deep_view());
        assert(front.drop_last() =~= all.take(n - 1));
        assert(placed(all.take(n - 1), x, lt) + all.skip(n - 1) =~= placed(front, x, lt)
            + all.skip(n as int));
        n -= 1;
    }
    let ghost front = all.take(n as int);
    if n > 0 {
        assert(front.last() == paths@[n - 1].deep_view());
    }
    paths.insert(n, path);
    assert(paths.deep_view() =~= front.push(x) + all.skip(n as int));
}

/// Picks the source files out of the files found in a crate, in the order of
/// their paths.
#[must_use]
pub fn select_sources(found: &[Vec<String>], include_test_files: bool) -> (out: Vec<Vec<String>>)
    ensures
        out.deep_view() == stable_sorted(
            sources_among(found.deep_view(), include_test_files),
            path_order(),
        ),
{
    let ghost all = found.deep_view();
    let dirs = source_dirs(include_test_files);
    let mut out: Vec<Vec<String>> = Vec::new();
    let mut i: usize = 0;
    assert(out.deep_view() =~= Seq::empty());
    assert(all.take(0) =~= Seq::empty());
    while i < found.len()
        invariant
            i <= found.len(),
            all == found.deep_view(),
            dirs.deep_view() == source_dir_names(include_test_files),
            out.deep_view() == stable_sorted(
                sources_among(all.take(i as int), include_test_files),
                path_order(),
            ),
        decreases found.len() - i,
    {
        let path = &found[i];
        assert(all[i as int] == path.deep_view());
        assert(all.take(i + 1).drop_last() =~= all.take(i as int));
        let ghost front = sources_among(all.take(i as int), include_test_files);
        if path.len() > 0 {
            assert(path.deep_view()[0] == path@[0]@);
            assert(path.deep_view().last() == path@[path.len() - 1]@);
        }
        if path.len() > 0 && list_has(dirs.as_slice(), path[0].as_str()) && is_rust_file(
            path[path.len() - 1].as_str(),
        ) {
            place_path(&mut out, copy_texts(path));
            assert(front.push(path.deep_view()).drop_last() =~= front);
        }
        i += 1;
    }
    assert(all.take(i as int) =~= all);
    out
}

} // verus!
