//! Which files of a crate are its source files, and how they come out.

use crate::order::stable_sorted;
use crate::sources::{
    is_source, law_sources_in_path_order, path_lt, path_order, rust_file_name, source_dir_names,
    sources_among,
};
use crate::text::lex_lt;
use vstd::prelude::*;

verus! {

/// A directory that is walked: `src/` always, and the three that hold tests,
/// examples and benchmarks where they are asked for.
pub open spec fn walked_dir(d: Seq<char>, include_test_files: bool) -> bool {
    ||| d == "src"@
    ||| include_test_files && (d == "tests"@ || d == "examples"@ || d == "benches"@)
}

/// A file name with a stem and the extension `rs`.
pub open spec fn dot_rs(name: Seq<char>) -> bool {
    let n = name.len() as int;
    n > 3 && name[n - 3] == '.' && name[n - 2] == 'r' && name[n - 1] == 's'
}

proof fn lemma_dot_rs(name: Seq<char>)
    ensures
        rust_file_name(name) == dot_rs(name),
{
    reveal_strlit(".rs");
    let n = name.len() as int;
    if dot_rs(name) {
        assert(name.skip(n - 3) =~= ".rs"@);
    }
    if rust_file_name(name) {
        let end = name.skip(n - 3);
        assert(end == ".rs"@);
        assert(end[0] == name[n - 3] && end[1] == name[n - 2] && end[2] == name[n - 1]);
    }
}

proof fn lemma_walked_dir(d: Seq<char>, include_test_files: bool)
    ensures
        source_dir_names(include_test_files).contains(d) == walked_dir(d, include_test_files),
{
    let dirs = source_dir_names(include_test_files);
    assert(dirs[0] == "src"@);
    if include_test_files {
        assert(dirs[1] == "tests"@);
        assert(dirs[2] == "examples"@);
        assert(dirs[3] == "benches"@);
    }
    if walked_dir(d, include_test_files) {
        assert(dirs.contains(d)) by {
            if d == "src"@ {
                assert(dirs.contains(dirs[0]));
            } else if d == "tests"@ {
                assert(dirs.contains(dirs[1]));
            } else if d == "examples"@ {
                assert(dirs.contains(dirs[2]));
            } else {
                assert(dirs.contains(dirs[3]));
            }
        }
    }
}

/// A source file is one whose path starts in a directory that is walked and ends
/// in a name with the extension `rs`. How many directories lie between, and what
/// they are called, makes no difference.
pub proof fn law_a_source_is_known_by_its_ends(
    dir: Seq<char>,
    middle: Seq<Seq<char>>,
    name: Seq<char>,
    include_test_files: bool,
)
    ensures
        is_source(seq![dir] + middle + seq![name], include_test_files) == (walked_dir(
            dir,
            include_test_files,
        ) && dot_rs(name)),
        is_source(seq![dir] + middle + seq![name], include_test_files) == is_source(
            seq![dir, name],
            include_test_files,
        ),
{
    lemma_dot_rs(name);
    lemma_walked_dir(dir, include_test_files);
    let long = seq![dir] + middle + seq![name];
    assert(long[0] == dir && long.last() == name);
    assert(seq![dir, name][0] == dir && seq![dir, name].last() == name);
}

/// A file that lies in no directory is no source file.
pub proof fn law_sources_lie_in_directories(name: Seq<char>, include_test_files: bool)
    ensures
        !is_source(seq![name], include_test_files),
        !is_source(Seq::empty(), include_test_files),
{
    lemma_walked_dir(name, include_test_files);
    reveal_strlit("src");
    reveal_strlit("tests");
    reveal_strlit("examples");
    reveal_strlit("benches");
    lemma_dot_rs(name);
}

proof fn lemma_kept(found: Seq<Seq<Seq<char>>>, p: Seq<Seq<char>>, include_test_files: bool)
    ensures
        sources_among(found, include_test_files).to_multiset().count(p) == (if is_source(
            p,
            include_test_files,
        ) {
            found.to_multiset().count(p)
        } else {
            0
        }),
    decreases found.len(),
{
    broadcast use vstd::seq_lib::group_to_multiset_ensures;

    if found.len() > 0 {
        lemma_kept(found.drop_last(), p, include_test_files);
        assert(found =~= found.drop_last().push(found.last()));
    }
}

/// A file is selected where it was found and is a source file, each as often as it
/// was found, and no file comes before one that precedes it.
pub proof fn law_selected_are_the_sources_found(
    found: Seq<Seq<Seq<char>>>,
    p: Seq<Seq<char>>,
    include_test_files: bool,
)
    ensures
        ({
            let out = stable_sorted(sources_among(found, include_test_files), path_order());
            &&& out.contains(p) == (found.contains(p) && is_source(p, include_test_files))
            &&& out.to_multiset().count(p) == (if is_source(p, include_test_files) {
                found.to_multiset().count(p)
            } else {
                0
            })
            &&& forall|i: int, j: int|
                0 <= i < j < out.len() ==> !path_lt(#[trigger] out[j], #[trigger] out[i])
        }),
{
    broadcast use vstd::seq_lib::group_to_multiset_ensures;

    let kept = sources_among(found, include_test_files);
    let lt = path_order();
    let out = stable_sorted(kept, lt);
    law_sources_in_path_order(found, include_test_files);
    lemma_kept(found, p, include_test_files);
    assert(out.contains(p) == (out.to_multiset().count(p) > 0));
    assert(found.contains(p) == (found.to_multiset().count(p) > 0));
    assert forall|i: int, j: int| 0 <= i < j < out.len() implies !path_lt(
        #[trigger] out[j],
        #[trigger] out[i],
    ) by {
        assert(!lt(out[j], out[i]));
    }
}

/// Paths are ordered by the first part in which they differ, and a directory comes
/// before what is below it.
pub proof fn law_path_order(
    p: Seq<Seq<char>>,
    x: Seq<char>,
    y: Seq<char>,
    a: Seq<Seq<char>>,
    b: Seq<Seq<char>>,
)
    ensures
        path_lt(p + seq![x] + a, p + seq![y] + b) == (if x == y {
            path_lt(a, b)
        } else {
            lex_lt(x, y)
        }),
        path_lt(p, p + seq![x] + a),
        !path_lt(p + a, p),
    decreases p.len(),
{
    let l = p + seq![x] + a;
    let r = p + seq![y] + b;
    if p.len() > 0 {
        law_path_order(p.drop_first(), x, y, a, b);
        assert(l.drop_first() =~= p.drop_first() + seq![x] + a);
        assert(r.drop_first() =~= p.drop_first() + seq![y] + b);
        assert((p + a).drop_first() =~= p.drop_first() + a);
        assert(l[0] == p[0] && r[0] == p[0] && (p + a)[0] == p[0]);
    } else {
        assert(l.drop_first() =~= a);
        assert(r.drop_first() =~= b);
        assert(l[0] == x && r[0] == y);
    }
}

} // verus!
