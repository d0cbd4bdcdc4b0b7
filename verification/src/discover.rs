//! Workspace discovery: which members of a Cargo workspace are looked at, and as
//! what.
//!
//! Services hold publish and subscribe calls, libraries hold what subjects are
//! built from, and the rest is ignored. Glob patterns over crate names decide;
//! matching is the work of `globset`. Asking Cargo for the members and walking
//! their directories is left to the program around the library.

use crate::order::{
    law_stable_sorted_is_sorted, law_stable_sorted_permutes, placed, sorted_by, stable_sorted,
};
use crate::text::{
    concat, copy_texts, debug_quoted, debug_text, join, join_with, lemma_lex_irreflexive,
    lemma_lex_total, lemma_lex_transitive, lex_lt, text_lt,
};
use vstd::prelude::*;

verus! {

// ---------------------------------------------------------------------
// types
// ---------------------------------------------------------------------

/// Why discovery failed.
#[derive(Debug)]
pub enum DiscoverError {
    /// Cargo could not describe the workspace.
    Metadata(String),
    /// A glob pattern is not valid.
    InvalidGlob {
        /// The pattern, or all of them when they do not go together.
        pattern: String,
        /// What is wrong.
        source: String,
    },
    /// Walking source files failed.
    Io {
        /// Directory that was walked.
        path: String,
        /// What went wrong.
        source: String,
    },
}

/// The model of a [`DiscoverError`].
pub enum DiscoverErrorView {
    Metadata(Seq<char>),
    InvalidGlob { pattern: Seq<char>, source: Seq<char> },
    Io { path: Seq<char>, source: Seq<char> },
}

impl DeepView for DiscoverError {
    type V = DiscoverErrorView;

    open spec fn deep_view(&self) -> DiscoverErrorView {
        match self {
            DiscoverError::Metadata(m) => DiscoverErrorView::Metadata(m@),
            DiscoverError::InvalidGlob { pattern, source } => DiscoverErrorView::InvalidGlob {
                pattern: pattern@,
                source: source@,
            },
            DiscoverError::Io { path, source } => DiscoverErrorView::Io {
                path: path@,
                source: source@,
            },
        }
    }
}

/// The message of a discovery error.
pub open spec fn discover_error_text(e: DiscoverErrorView) -> Seq<char> {
    match e {
        DiscoverErrorView::Metadata(m) => "cargo metadata failed: "@ + m,
        DiscoverErrorView::InvalidGlob { pattern, source } => "invalid glob pattern "@
            + debug_quoted(pattern) + ": "@ + source,
        DiscoverErrorView::Io { path, source } => "I/O error walking "@ + path + ": "@ + source,
    }
}

impl DiscoverError {
    /// The message of this error.
    #[must_use]
    pub fn to_string(&self) -> (out: String)
        ensures
            out@ == discover_error_text(self.deep_view()),
    {
        match self {
            DiscoverError::Metadata(m) => concat("cargo metadata failed: ", m.as_str()),
            DiscoverError::InvalidGlob { pattern, source } => {
                let mut out = concat(
                    "invalid glob pattern ",
                    debug_text(pattern.as_str()).as_str(),
                );
                out.append(": ");
                out.append(source.as_str());
                out
            },
            DiscoverError::Io { path, source } => {
                let mut out = concat("I/O error walking ", path.as_str());
                out.append(": ");
                out.append(source.as_str());
                out
            },
        }
    }
}

/// What a workspace member is looked at as.
#[derive(Debug, Clone, Copy, PartialEq, Eq, Structural)]
pub enum CrateKind {
    /// Holds publish and subscribe calls.
    Service,
    /// Holds what subjects are built from.
    Library,
    /// Not looked at.
    Ignored,
}

/// A workspace member.
#[derive(Debug)]
pub struct CrateInfo {
    /// Name of the crate.
    pub name: String,
    /// Directory of the crate.
    pub path: String,
    /// What it is looked at as.
    pub kind: CrateKind,
    /// Its source files.
    pub source_files: Vec<String>,
}

/// The model of a [`CrateInfo`].
pub struct CrateView {
    pub name: Seq<char>,
    pub path: Seq<char>,
    pub kind: CrateKind,
    pub source_files: Seq<Seq<char>>,
}

impl DeepView for CrateInfo {
    type V = CrateView;

    open spec fn deep_view(&self) -> CrateView {
        CrateView {
            name: self.name@,
            path: self.path@,
            kind: self.kind,
            source_files: self.source_files.deep_view(),
        }
    }
}

impl Clone for CrateInfo {
    fn clone(&self) -> (out: Self)
        ensures
            out.deep_view() == self.deep_view(),
    {
        CrateInfo {
            name: self.name.clone(),
            path: self.path.clone(),
            kind: self.kind,
            source_files: copy_texts(&self.source_files),
        }
    }
}

/// A package that Cargo names as a member of the workspace.
#[derive(Debug)]
pub struct Package {
    /// Name of the package.
    pub name: String,
    /// Directory of its manifest.
    pub path: String,
}

/// The model of a [`Package`].
pub struct PackageView {
    pub name: Seq<char>,
    pub path: Seq<char>,
}

impl DeepView for Package {
    type V = PackageView;

    open spec fn deep_view(&self) -> PackageView {
        PackageView { name: self.name@, path: self.path@ }
    }
}

/// Which members are looked at.
#[derive(Debug)]
pub struct DiscoverConfig {
    /// Globs for service crates. With none, every member is a service.
    pub services: Vec<String>,
    /// Globs for library crates.
    pub libraries: Vec<String>,
    /// Globs for crates that are not looked at.
    pub ignore: Vec<String>,
    /// Whether `tests/`, `examples/` and `benches/` are walked too.
    pub include_test_files: bool,
}

/// The model of a [`DiscoverConfig`].
pub struct DiscoverView {
    pub services: Seq<Seq<char>>,
    pub libraries: Seq<Seq<char>>,
    pub ignore: Seq<Seq<char>>,
    pub include_test_files: bool,
}

impl DeepView for DiscoverConfig {
    type V = DiscoverView;

    open spec fn deep_view(&self) -> DiscoverView {
        DiscoverView {
            services: self.services.deep_view(),
            libraries: self.libraries.deep_view(),
            ignore: self.ignore.deep_view(),
            include_test_files: self.include_test_files,
        }
    }
}

impl Clone for DiscoverConfig {
    fn clone(&self) -> (out: Self)
        ensures
            out.deep_view() == self.deep_view(),
    {
        DiscoverConfig {
            services: copy_texts(&self.services),
            libraries: copy_texts(&self.libraries),
            ignore: copy_texts(&self.ignore),
            include_test_files: self.include_test_files,
        }
    }
}

impl Default for DiscoverConfig {
    fn default() -> (out: Self)
        ensures
            out.deep_view() == (DiscoverView {
                services: Seq::empty(),
                libraries: Seq::empty(),
                ignore: Seq::empty(),
                include_test_files: false,
            }),
    {
        let out = DiscoverConfig {
            services: Vec::new(),
            libraries: Vec::new(),
            ignore: Vec::new(),
            include_test_files: false,
        };
        assert(out.services.deep_view() =~= Seq::empty());
        assert(out.libraries.deep_view() =~= Seq::empty());
        assert(out.ignore.deep_view() =~= Seq::empty());
        out
    }
}

// ---------------------------------------------------------------------
// the manifest
// ---------------------------------------------------------------------

/// Which directory's manifest is taken. The directories are a starting point, its
/// parent and so on upwards; `present` says of each whether it holds a manifest.
/// The nearest that does is taken.
#[must_use]
pub fn nearest_manifest(present: &[bool]) -> (out: Option<usize>)
    ensures
        match out {
            Some(i) => i < present.len() && present[i as int] && forall|j: int|
                0 <= j < i ==> !#[trigger] present[j],
            None => forall|j: int| 0 <= j < present.len() ==> !#[trigger] present[j],
        },
{
    let mut i: usize = 0;
    while i < present.len()
        invariant
            i <= present.len(),
            forall|j: int| 0 <= j < i ==> !#[trigger] present[j],
        decreases present.len() - i,
    {
        if present[i] {
            return Some(i);
        }
        i += 1;
    }
    None
}

// ---------------------------------------------------------------------
// globs
// ---------------------------------------------------------------------

#[verifier::external_type_specification]
#[verifier::external_body]
pub struct ExGlob(globset::Glob);

#[verifier::external_type_specification]
#[verifier::external_body]
pub struct ExGlobSetBuilder(globset::GlobSetBuilder);

#[verifier::external_type_specification]
#[verifier::external_body]
pub struct ExGlobSet(globset::GlobSet);

/// What `globset::Glob::new` finds wrong with a pattern, if anything.
pub uninterp spec fn glob_fault(pattern: Seq<char>) -> Option<Seq<char>>;

/// Whether the pattern matches the name, as `globset` goes.
pub uninterp spec fn glob_matches(pattern: Seq<char>, name: Seq<char>) -> bool;

/// The pattern that a glob was made from.
pub uninterp spec fn glob_pattern(glob: globset::Glob) -> Seq<char>;

/// The patterns in a builder, in order.
pub uninterp spec fn builder_patterns(builder: globset::GlobSetBuilder) -> Seq<Seq<char>>;

/// The patterns in a set, in order.
pub uninterp spec fn set_patterns(set: globset::GlobSet) -> Seq<Seq<char>>;

/// No backslash. What a backslash means in a glob depends on the path separator
/// of the platform.
pub open spec fn plain_text(s: Seq<char>) -> bool {
    !s.contains('\\')
}

pub open spec fn plain_texts(list: Seq<Seq<char>>) -> bool {
    forall|i: int| 0 <= i < list.len() ==> plain_text(#[trigger] list[i])
}

/// `globset::Glob::new`. For a pattern without a backslash, whether it is valid
/// and what the error says depend on the pattern alone.
#[verifier::external_body]
fn new_glob(pattern: &str) -> (out: Result<globset::Glob, String>)
    ensures
        match out {
            Ok(g) => glob_pattern(g) == pattern@ && (plain_text(pattern@) ==> glob_fault(pattern@)
                is None),
            Err(m) => plain_text(pattern@) ==> glob_fault(pattern@) == Some(m@),
        },
{
    globset::Glob::new(pattern).map_err(|err| err.to_string())
}

/// `globset::GlobSetBuilder::new`: a builder without patterns.
#[verifier::external_body]
fn new_builder() -> (out: globset::GlobSetBuilder)
    ensures
        builder_patterns(out) == Seq::<Seq<char>>::empty(),
{
    globset::GlobSetBuilder::new()
}

/// `globset::GlobSetBuilder::add`: the pattern of the glob goes to the end.
#[verifier::external_body]
fn add_glob(builder: &mut globset::GlobSetBuilder, glob: globset::Glob)
    ensures
        builder_patterns(*final(builder)) == builder_patterns(*old(builder)).push(
            glob_pattern(glob),
        ),
{
    builder.add(glob);
}

/// `globset::GlobSetBuilder::build`: a set of the patterns in the builder.
/// Without patterns it is always built. Whether many or long patterns are too
/// much for it depends on the machine, so of failure nothing is said.
#[verifier::external_body]
fn build_set(builder: &globset::GlobSetBuilder) -> (out: Result<globset::GlobSet, String>)
    ensures
        out matches Ok(s) ==> set_patterns(s) == builder_patterns(*builder),
        builder_patterns(*builder).len() == 0 ==> out is Ok,
{
    builder.build().map_err(|err| err.to_string())
}

/// Whether one of the patterns matches the name.
pub open spec fn any_matches(patterns: Seq<Seq<char>>, name: Seq<char>) -> bool {
    exists|i: int| 0 <= i < patterns.len() && glob_matches(#[trigger] patterns[i], name)
}

/// `globset::GlobSet::is_match`: whether any glob in the set matches. Stated for
/// patterns and names without a backslash, for which it depends on them alone.
#[verifier::external_body]
fn set_matches(set: &globset::GlobSet, name: &str) -> (yes: bool)
    ensures
        (plain_texts(set_patterns(*set)) && plain_text(name@) ==> (yes == (exists|i: int|
            0 <= i < set_patterns(*set).len() && glob_matches(
                #[trigger] set_patterns(*set)[i],
                name@,
            )))),
{
    set.is_match(name)
}

/// What is wrong with a list of patterns: the first that is not valid.
pub open spec fn patterns_fault(patterns: Seq<Seq<char>>) -> Option<DiscoverErrorView> {
    match first_fault(patterns, 0) {
        Some(i) => Some(
            DiscoverErrorView::InvalidGlob {
                pattern: patterns[i],
                source: glob_fault(patterns[i])->0,
            },
        ),
        None => None,
    }
}

/// Whether `e` is an error that a list of patterns can give: what is wrong with
/// one of them, or else that they do not go together, which names them all.
pub open spec fn list_error(patterns: Seq<Seq<char>>, e: DiscoverErrorView) -> bool {
    match patterns_fault(patterns) {
        Some(fault) => e == fault,
        None => patterns.len() > 0 && (e matches DiscoverErrorView::InvalidGlob { pattern, source }
            && pattern == join(patterns, ", "@)),
    }
}

/// No pattern without a backslash is wrong by itself.
pub open spec fn plain_valid(patterns: Seq<Seq<char>>) -> bool {
    forall|i: int|
        0 <= i < patterns.len() && plain_text(#[trigger] patterns[i]) ==> glob_fault(patterns[i])
            is None
}

/// Whether `e` blames one of the patterns or all of them.
pub open spec fn blames(patterns: Seq<Seq<char>>, e: DiscoverErrorView) -> bool {
    patterns.len() > 0 && (e matches DiscoverErrorView::InvalidGlob { pattern, source } && (
    patterns.contains(pattern) || pattern == join(patterns, ", "@)))
}

/// The first pattern at or after the `i`-th that is not valid.
pub open spec fn first_fault(patterns: Seq<Seq<char>>, i: int) -> Option<int>
    decreases patterns.len() - i,
{
    if i < 0 || i >= patterns.len() {
        None
    } else if glob_fault(patterns[i]) is Some {
        Some(i)
    } else {
        first_fault(patterns, i + 1)
    }
}

fn build_glob_set(patterns: &Vec<String>) -> (out: Result<globset::GlobSet, DiscoverError>)
    ensures
        match out {
            Ok(s) => set_patterns(s) == patterns.deep_view() && plain_valid(patterns.deep_view())
                && (plain_texts(patterns.deep_view()) ==> patterns_fault(patterns.deep_view())
                is None),
            Err(e) => blames(patterns.deep_view(), e.deep_view()) && (plain_texts(
                patterns.deep_view(),
            ) ==> list_error(patterns.deep_view(), e.deep_view())),
        },
        patterns.deep_view().len() == 0 ==> out is Ok,
{
    let ghost all = patterns.deep_view();
    let mut builder = new_builder();
    let mut i: usize = 0;
    assert(all.take(0) =~= Seq::empty());
    while i < patterns.len()
        invariant
            i <= patterns.len(),
            all == patterns.deep_view(),
            builder_patterns(builder) == all.take(i as int),
            plain_texts(all) ==> first_fault(all, 0) == first_fault(all, i as int),
            forall|k: int|
                0 <= k < i && plain_text(#[trigger] all[k]) ==> glob_fault(all[k]) is None,
        decreases patterns.len() - i,
    {
        assert(all[i as int] == patterns@[i as int]@);
        match new_glob(patterns[i].as_str()) {
            Ok(glob) => {
                add_glob(&mut builder, glob);
                assert(all.take(i + 1) =~= all.take(i as int).push(all[i as int]));
            },
            Err(source) => {
                return Err(DiscoverError::InvalidGlob { pattern: patterns[i].clone(), source });
            },
        }
        i += 1;
    }
    assert(all.take(i as int) =~= all);
    match build_set(&builder) {
        Ok(set) => Ok(set),
        Err(source) => {
            let slice = patterns.as_slice();
            assert(slice.deep_view() =~= all);
            Err(DiscoverError::InvalidGlob { pattern: join_with(slice, ", "), source })
        },
    }
}

// ---------------------------------------------------------------------
// classification
// ---------------------------------------------------------------------

/// What a crate is looked at as. To be ignored comes first, to be a library
/// second; services that are listed leave out all others.
pub open spec fn kind_of(name: Seq<char>, config: DiscoverView) -> CrateKind {
    if any_matches(config.ignore, name) {
        CrateKind::Ignored
    } else if any_matches(config.libraries, name) {
        CrateKind::Library
    } else if config.services.len() == 0 || any_matches(config.services, name) {
        CrateKind::Service
    } else {
        CrateKind::Ignored
    }
}

/// What a package is looked at as, given what the three lists of patterns say of
/// its name.
#[must_use]
pub fn kind_from_matches(
    services_listed: bool,
    service: bool,
    library: bool,
    ignored: bool,
) -> (out: CrateKind)
    ensures
        out == (if ignored {
            CrateKind::Ignored
        } else if library {
            CrateKind::Library
        } else if !services_listed || service {
            CrateKind::Service
        } else {
            CrateKind::Ignored
        }),
{
    if ignored {
        CrateKind::Ignored
    } else if library {
        CrateKind::Library
    } else if !services_listed || service {
        CrateKind::Service
    } else {
        CrateKind::Ignored
    }
}

pub open spec fn plain_config(config: DiscoverView) -> bool {
    plain_texts(config.services) && plain_texts(config.libraries) && plain_texts(config.ignore)
}

/// The kinds that a crate can have whatever its name: it is ignored only where
/// crates to ignore or services are listed, and a library only where libraries
/// are.
pub open spec fn possible_kind(config: DiscoverView, kind: CrateKind) -> bool {
    match kind {
        CrateKind::Ignored => config.ignore.len() > 0 || config.services.len() > 0,
        CrateKind::Library => config.libraries.len() > 0,
        CrateKind::Service => true,
    }
}

fn classify(
    name: &str,
    config: &DiscoverConfig,
    services_set: &globset::GlobSet,
    libraries_set: &globset::GlobSet,
    ignore_set: &globset::GlobSet,
) -> (out: CrateKind)
    requires
        set_patterns(*services_set) == config.deep_view().services,
        set_patterns(*libraries_set) == config.deep_view().libraries,
        set_patterns(*ignore_set) == config.deep_view().ignore,
    ensures
        plain_config(config.deep_view()) && plain_text(name@) ==> out == kind_of(
            name@,
            config.deep_view(),
        ),
        possible_kind(config.deep_view(), out),
{
    let ignored = config.ignore.len() > 0 && set_matches(ignore_set, name);
    let library = config.libraries.len() > 0 && set_matches(libraries_set, name);
    let service = config.services.len() > 0 && set_matches(services_set, name);
    kind_from_matches(config.services.len() > 0, service, library, ignored)
}

/// The members among the first `n` packages that are looked at, in order.
pub open spec fn looked_at(
    packages: Seq<PackageView>,
    config: DiscoverView,
    n: nat,
) -> Seq<CrateView>
    decreases n,
{
    if n == 0 {
        Seq::empty()
    } else {
        let front = looked_at(packages, config, (n - 1) as nat);
        let p = packages[n - 1];
        let kind = kind_of(p.name, config);
        if kind == CrateKind::Ignored {
            front
        } else {
            front.push(
                CrateView { name: p.name, path: p.path, kind, source_files: Seq::empty() },
            )
        }
    }
}

/// No pattern of a configuration is wrong by itself.
pub open spec fn config_valid(config: DiscoverView) -> bool {
    patterns_fault(config.services) is None && patterns_fault(config.libraries) is None
        && patterns_fault(config.ignore) is None
}

/// Whether `e` is an error that the patterns of a configuration can give:
/// services are tried first, then libraries, then what is ignored.
pub open spec fn config_error(config: DiscoverView, e: DiscoverErrorView) -> bool {
    ||| list_error(config.services, e)
    ||| patterns_fault(config.services) is None && list_error(config.libraries, e)
    ||| patterns_fault(config.services) is None && patterns_fault(config.libraries) is None
        && list_error(config.ignore, e)
}

pub open spec fn plain_packages(packages: Seq<PackageView>) -> bool {
    forall|i: int| 0 <= i < packages.len() ==> plain_text((#[trigger] packages[i]).name)
}

/// Whether a member is the package, without source files yet.
pub open spec fn member_of(m: CrateView, p: PackageView) -> bool {
    m.name == p.name && m.path == p.path && m.source_files == Seq::<Seq<char>>::empty()
}

/// Whether the members are the packages at the places `at`, in the order of the
/// packages.
pub open spec fn drawn_from(
    members: Seq<CrateView>,
    packages: Seq<PackageView>,
    at: Seq<int>,
) -> bool {
    &&& at.len() == members.len()
    &&& forall|i: int|
        0 <= i < at.len() ==> 0 <= #[trigger] at[i] < packages.len() && member_of(
            members[i],
            packages[at[i]],
        )
    &&& forall|i: int, j: int| 0 <= i < j < at.len() ==> #[trigger] at[i] < #[trigger] at[j]
}

/// What holds of the members whatever the patterns mean: they are packages in
/// their order, each of a kind that it can have; and where nothing can be left
/// out, nothing is.
pub open spec fn members_from(
    members: Seq<CrateView>,
    packages: Seq<PackageView>,
    config: DiscoverView,
) -> bool {
    &&& exists|at: Seq<int>| #[trigger] drawn_from(members, packages, at)
    &&& forall|i: int|
        0 <= i < members.len() ==> (#[trigger] members[i]).kind != CrateKind::Ignored
            && possible_kind(config, members[i].kind)
    &&& config.ignore.len() == 0 && config.services.len() == 0 ==> members.len() == packages.len()
}

/// The members among the packages, given the sets of the three lists of patterns.
fn members_with(
    packages: &[Package],
    config: &DiscoverConfig,
    services_set: &globset::GlobSet,
    libraries_set: &globset::GlobSet,
    ignore_set: &globset::GlobSet,
) -> (out: Vec<CrateInfo>)
    requires
        set_patterns(*services_set) == config.deep_view().services,
        set_patterns(*libraries_set) == config.deep_view().libraries,
        set_patterns(*ignore_set) == config.deep_view().ignore,
    ensures
        plain_config(config.deep_view()) && plain_packages(packages.deep_view())
            ==> out.deep_view() == looked_at(
            packages.deep_view(),
            config.deep_view(),
            packages.deep_view().len(),
        ),
        members_from(out.deep_view(), packages.deep_view(), config.deep_view()),
{
    let ghost c = config.deep_view();
    let ghost all = packages.deep_view();
    let ghost mut at: Seq<int> = Seq::empty();
    let mut members: Vec<CrateInfo> = Vec::new();
    let mut i: usize = 0;
    assert(members.deep_view() =~= Seq::empty());
    while i < packages.len()
        invariant
            i <= packages.len(),
            all == packages.deep_view(),
            c == config.deep_view(),
            set_patterns(*services_set) == c.services,
            set_patterns(*libraries_set) == c.libraries,
            set_patterns(*ignore_set) == c.ignore,
            plain_config(c) && plain_packages(all) ==> members.deep_view() == looked_at(
                all,
                c,
                i as nat,
            ),
            drawn_from(members.deep_view(), all, at),
            forall|k: int| 0 <= k < at.len() ==> #[trigger] at[k] < i,
            forall|k: int|
                0 <= k < members.deep_view().len() ==> (#[trigger] members.deep_view()[k]).kind
                    != CrateKind::Ignored && possible_kind(c, members.deep_view()[k].kind),
            c.ignore.len() == 0 && c.services.len() == 0 ==> members.deep_view().len() == i,
        decreases packages.len() - i,
    {
        let package = &packages[i];
        assert(all[i as int] == package.deep_view());
        let kind = classify(package.name.as_str(), config, services_set, libraries_set, ignore_set);
        if kind != CrateKind::Ignored {
            let ghost front = members.deep_view();
            let source_files: Vec<String> = Vec::new();
            assert(source_files.deep_view() =~= Seq::empty());
            let member = CrateInfo {
                name: package.name.clone(),
                path: package.path.clone(),
                kind,
                source_files,
            };
            let ghost m = member.deep_view();
            members.push(member);
            assert(members.deep_view() =~= front.push(m));
            proof {
                at = at.push(i as int);
            }
        }
        i += 1;
    }
    assert(i == all.len());
    members
}

/// Classifies the packages of a workspace and drops those that are ignored. The
/// members come without source files, in the order of the packages. Which are
/// dropped is stated for patterns and names without a backslash, whose meaning in
/// globs depends on the platform. Patterns that are each valid can still be too
/// much for one set; then the error names the whole list.
pub fn classify_members(packages: &[Package], config: &DiscoverConfig) -> (out: Result<
    Vec<CrateInfo>,
    DiscoverError,
>)
    ensures
        plain_config(config.deep_view()) ==> match out {
            Ok(members) => config_valid(config.deep_view()) && (plain_packages(
                packages.deep_view(),
            ) ==> members.deep_view() == looked_at(
                packages.deep_view(),
                config.deep_view(),
                packages.deep_view().len(),
            )),
            Err(e) => config_error(config.deep_view(), e.deep_view()),
        },
        config.deep_view().services.len() == 0 && config.deep_view().libraries.len() == 0
            && config.deep_view().ignore.len() == 0 ==> out is Ok,
        match out {
            Ok(members) => members_from(
                members.deep_view(),
                packages.deep_view(),
                config.deep_view(),
            ) && plain_valid(config.deep_view().services) && plain_valid(
                config.deep_view().libraries,
            ) && plain_valid(config.deep_view().ignore),
            Err(e) => blames(config.deep_view().services, e.deep_view()) || blames(
                config.deep_view().libraries,
                e.deep_view(),
            ) || blames(config.deep_view().ignore, e.deep_view()),
        },
{
    let services_set = match build_glob_set(&config.services) {
        Ok(s) => s,
        Err(e) => {
            return Err(e);
        },
    };
    let libraries_set = match build_glob_set(&config.libraries) {
        Ok(s) => s,
        Err(e) => {
            return Err(e);
        },
    };
    let ignore_set = match build_glob_set(&config.ignore) {
        Ok(s) => s,
        Err(e) => {
            return Err(e);
        },
    };
    Ok(members_with(packages, config, &services_set, &libraries_set, &ignore_set))
}

// ---------------------------------------------------------------------
// workspaces
// ---------------------------------------------------------------------

/// A discovered workspace.
#[derive(Debug)]
pub struct Workspace {
    /// Directory of the workspace.
    pub root: String,
    /// The members that are looked at, by name.
    pub members: Vec<CrateInfo>,
}

/// The model of a [`Workspace`].
pub struct WorkspaceView {
    pub root: Seq<char>,
    pub members: Seq<CrateView>,
}

impl DeepView for Workspace {
    type V = WorkspaceView;

    open spec fn deep_view(&self) -> WorkspaceView {
        WorkspaceView { root: self.root@, members: self.members.deep_view() }
    }
}

impl Clone for Workspace {
    fn clone(&self) -> (out: Self)
        ensures
            out.deep_view() == self.deep_view(),
    {
        let ghost all = self.members.deep_view();
        let mut members: Vec<CrateInfo> = Vec::new();
        let mut i: usize = 0;
        assert(members.deep_view() =~= all.take(0));
        while i < self.members.len()
            invariant
                i <= self.members.len(),
                all == self.members.deep_view(),
                members.deep_view() == all.take(i as int),
            decreases self.members.len() - i,
        {
            let ghost front = members.deep_view();
            members.push(self.members[i].clone());
            assert(members.deep_view() =~= front.push(all[i as int]));
            assert(all.take(i + 1) =~= members.deep_view());
            i += 1;
        }
        assert(all.take(i as int) =~= all);
        Workspace { root: self.root.clone(), members }
    }
}

/// The order of members: by name.
pub open spec fn name_order() -> spec_fn(CrateView, CrateView) -> bool {
    |a: CrateView, b: CrateView| lex_lt(a.name, b.name)
}

/// The members of one kind, in order.
pub open spec fn of_kind(members: Seq<CrateView>, kind: CrateKind) -> Seq<CrateView>
    decreases members.len(),
{
    if members.len() == 0 {
        members
    } else {
        let front = of_kind(members.drop_last(), kind);
        if members.last().kind == kind {
            front.push(members.last())
        } else {
            front
        }
    }
}

/// Members come out by name, each as often as it went in.
pub proof fn law_members_by_name(members: Seq<CrateView>)
    ensures
        sorted_by(stable_sorted(members, name_order()), name_order()),
        stable_sorted(members, name_order()).to_multiset() == members.to_multiset(),
{
    let lt = name_order();
    assert forall|x: CrateView| !#[trigger] lt(x, x) by {
        lemma_lex_irreflexive(x.name);
    }
    assert forall|x: CrateView, y: CrateView, z: CrateView| #[trigger]
        lt(x, y) && #[trigger] lt(y, z) implies lt(x, z) by {
        lemma_lex_transitive(x.name, y.name, z.name);
    }
    assert forall|x: CrateView, y: CrateView, z: CrateView|
        !#[trigger] lt(x, y) && !#[trigger] lt(y, z) implies !lt(x, z) by {
        if lt(x, z) {
            lemma_lex_total(x.name, y.name);
            lemma_lex_total(y.name, z.name);
            if lex_lt(y.name, x.name) && x.name != y.name {
                lemma_lex_transitive(y.name, x.name, z.name);
            }
        }
    }
    law_stable_sorted_is_sorted(members, lt);
    law_stable_sorted_permutes(members, lt);
}

/// What is ignored is never looked at, whatever else the configuration says of
/// it.
pub proof fn law_ignore_wins(name: Seq<char>, config: DiscoverView)
    requires
        any_matches(config.ignore, name),
    ensures
        kind_of(name, config) == CrateKind::Ignored,
{
}

/// Without a configuration every member is a service.
pub proof fn law_default_is_service(name: Seq<char>, include_test_files: bool)
    ensures
        kind_of(
            name,
            DiscoverView {
                services: Seq::empty(),
                libraries: Seq::empty(),
                ignore: Seq::empty(),
                include_test_files,
            },
        ) == CrateKind::Service,
{
}

fn place_member(members: &mut Vec<CrateInfo>, member: CrateInfo)
    ensures
        final(members).deep_view() == placed(
            old(members).deep_view(),
            member.deep_view(),
            name_order(),
        ),
{
    let ghost lt = name_order();
    let ghost all = members.deep_view();
    let ghost x = member.deep_view();
    let mut n: usize = members.len();
    assert(all.take(n as int) =~= all);
    assert(placed(all.take(n as int), x, lt) + all.skip(n as int) =~= placed(all, x, lt));
    while n > 0 && text_lt(member.name.as_str(), members[n - 1].name.as_str())
        invariant
            n <= members.len(),
            all == members.deep_view(),
            x == member.deep_view(),
            lt == name_order(),
            placed(all.take(n as int), x, lt) + all.skip(n as int) == placed(all, x, lt),
        decreases n,
    {
        let ghost front = all.take(n as int);
        assert(front.last() == members@[n - 1].deep_view());
        assert(front.drop_last() =~= all.take(n - 1));
        assert(placed(all.take(n - 1), x, lt) + all.skip(n - 1) =~= placed(front, x, lt)
            + all.skip(n as int));
        n -= 1;
    }
    let ghost front = all.take(n as int);
    if n > 0 {
        assert(front.last() == members@[n - 1].deep_view());
    }
    members.insert(n, member);
    assert(members.deep_view() =~= front.push(x) + all.skip(n as int));
}

impl Workspace {
    /// A workspace of members, which come out by name.
    #[must_use]
    pub fn from_members(root: String, members: Vec<CrateInfo>) -> (out: Self)
        ensures
            out.deep_view() == (WorkspaceView {
                root: root@,
                members: stable_sorted(members.deep_view(), name_order()),
            }),
    {
        let ghost all = members.deep_view();
        let mut sorted: Vec<CrateInfo> = Vec::new();
        let mut i: usize = 0;
        assert(sorted.deep_view() =~= Seq::empty());
        assert(all.take(0) =~= Seq::empty());
        while i < members.len()
            invariant
                i <= members.len(),
                all == members.deep_view(),
                sorted.deep_view() == stable_sorted(all.take(i as int), name_order()),
            decreases members.len() - i,
        {
            assert(all[i as int] == members@[i as int].deep_view());
            assert(all.take(i + 1).drop_last() =~= all.take(i as int));
            place_member(&mut sorted, members[i].clone());
            i += 1;
        }
        assert(all.take(i as int) =~= all);
        Workspace { root, members: sorted }
    }

    fn members_of(&self, kind: CrateKind) -> (out: Vec<&CrateInfo>)
        ensures
            out.deep_view() == of_kind(self.deep_view().members, kind),
    {
        let ghost all = self.members.deep_view();
        let mut out: Vec<&CrateInfo> = Vec::new();
        let mut i: usize = 0;
        assert(out.deep_view() =~= Seq::empty());
        assert(all.take(0) =~= Seq::empty());
        while i < self.members.len()
            invariant
                i <= self.members.len(),
                all == self.members.deep_view(),
                out.deep_view() == of_kind(all.take(i as int), kind),
            decreases self.members.len() - i,
        {
            let member = &self.members[i];
            assert(all[i as int] == member.deep_view());
            assert(all.take(i + 1).drop_last() =~= all.take(i as int));
            if member.kind == kind {
                let ghost front = out.deep_view();
                out.push(member);
                assert(out.deep_view() =~= front.push(member.deep_view()));
            }
            i += 1;
        }
        assert(all.take(i as int) =~= all);
        out
    }

    /// The services.
    #[must_use]
    pub fn services(&self) -> (out: Vec<&CrateInfo>)
        ensures
            out.deep_view() == of_kind(self.deep_view().members, CrateKind::Service),
    {
        self.members_of(CrateKind::Service)
    }

    /// The libraries.
    #[must_use]
    pub fn libraries(&self) -> (out: Vec<&CrateInfo>)
        ensures
            out.deep_view() == of_kind(self.deep_view().members, CrateKind::Library),
    {
        self.members_of(CrateKind::Library)
    }
}

} // verus!
