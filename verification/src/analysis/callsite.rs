//! Call-site extraction.
//!
//! Goes over what a walk of a source file met and picks out every publish and
//! subscribe call that matches a configured [`PublisherSpec`] or
//! [`ConsumerSpec`], together with the constants, methods and functions of the
//! file, for the symbol index.
//!
//! A method name alone says little, so unless names are to count by themselves a
//! call needs a hint: the trait or type must be imported in the file, or written
//! out in the call. In any case the subject argument must look like a string.
//! Subjects come out as text; the resolver takes them from there.

use super::symbol_index::{
    ExprSnippet, FqPath, PerFileSymbols, PerFileSymbolsView, SnippetView, Span, SpanView, Symbol,
    SymbolView,
};
use crate::order::{
    law_stable_sorted_is_sorted, law_stable_sorted_keeps_ties, law_stable_sorted_permutes, placed,
    sorted_by, stable_sorted, weak_order,
};
use crate::syntax::{
    walk_source, walked_source, ArgNode, ArgView, EventView, ExprNode, ExprView, ImplItemView,
    ImplNode, SourceEvent, SourceFile, SourceView, UseNode, UseView,
};
use crate::text::{
    chars_of, concat, digit, ends_with, find, has_path_sep, has_suffix, is_digit, is_lower, is_space,
    is_upper, join, join_with, last_path_segment, last_segment, list_has, lower, path_sep_in,
    same_chars, same_text, space, string_of, underscore, underscored, upper, upto,
};
use vstd::prelude::*;

verus! {

// ---------------------------------------------------------------------
// configuration
// ---------------------------------------------------------------------

/// How loosely calls are matched.
#[derive(Debug, Clone, Copy, PartialEq, Eq, Structural)]
pub enum MethodMatch {
    /// By name only: a method call by the name of the method, a call of an
    /// associated function also by the end of its type.
    Name,
    /// By name, with a matching `use` item in the file.
    NameTraitPathHint,
}

impl Default for MethodMatch {
    fn default() -> (out: Self)
        ensures
            out == MethodMatch::NameTraitPathHint,
    {
        MethodMatch::NameTraitPathHint
    }
}

/// Whether a method belongs to a trait or to a type.
#[derive(Debug, Clone, Copy, PartialEq, Eq, Structural)]
pub enum PublisherKind {
    /// A trait method, matched by the import of the trait.
    Trait,
    /// An inherent method, matched by the type.
    Inherent,
}

/// The subject argument of a specification that does not say which it is.
pub fn default_subject_arg_index() -> (out: usize)
    ensures
        out == 0,
{
    0
}

/// The shape of a publish call.
#[derive(Debug)]
pub struct PublisherSpec {
    /// Trait or inherent method.
    pub kind: PublisherKind,
    /// Path of the trait, for a trait method.
    pub path: Option<String>,
    /// Path of the type, for an inherent method.
    pub type_path: Option<String>,
    /// Name of the method.
    pub method: String,
    /// 0-based index of the subject among the arguments in parentheses.
    pub subject_arg_index: usize,
}

/// The model of a [`PublisherSpec`].
pub struct PublisherView {
    pub kind: PublisherKind,
    pub path: Option<Seq<char>>,
    pub type_path: Option<Seq<char>>,
    pub method: Seq<char>,
    pub subject_arg_index: int,
}

impl DeepView for PublisherSpec {
    type V = PublisherView;

    open spec fn deep_view(&self) -> PublisherView {
        PublisherView {
            kind: self.kind,
            path: self.path.deep_view(),
            type_path: self.type_path.deep_view(),
            method: self.method@,
            subject_arg_index: self.subject_arg_index as int,
        }
    }
}

fn copy_text(t: &Option<String>) -> (out: Option<String>)
    ensures
        out.deep_view() == t.deep_view(),
{
    match t {
        Some(s) => Some(s.clone()),
        None => None,
    }
}

impl Clone for PublisherSpec {
    fn clone(&self) -> (out: Self)
        ensures
            out.deep_view() == self.deep_view(),
    {
        PublisherSpec {
            kind: self.kind,
            path: copy_text(&self.path),
            type_path: copy_text(&self.type_path),
            method: self.method.clone(),
            subject_arg_index: self.subject_arg_index,
        }
    }
}

/// The shape of a subscribe call.
#[derive(Debug)]
pub struct ConsumerSpec {
    /// Trait or inherent method.
    pub kind: PublisherKind,
    /// Path of the trait, for a trait method.
    pub path: Option<String>,
    /// Path of the type, for an inherent method.
    pub type_path: Option<String>,
    /// Name of the method.
    pub method: String,
    /// 0-based index of the subject among the arguments in parentheses.
    pub subject_arg_index: usize,
    /// 0-based index of the consumer name, if it is an argument.
    pub consumer_name_arg_index: Option<usize>,
}

/// The model of a [`ConsumerSpec`].
pub struct ConsumerView {
    pub kind: PublisherKind,
    pub path: Option<Seq<char>>,
    pub type_path: Option<Seq<char>>,
    pub method: Seq<char>,
    pub subject_arg_index: int,
    pub consumer_name_arg_index: Option<int>,
}

impl DeepView for ConsumerSpec {
    type V = ConsumerView;

    open spec fn deep_view(&self) -> ConsumerView {
        ConsumerView {
            kind: self.kind,
            path: self.path.deep_view(),
            type_path: self.type_path.deep_view(),
            method: self.method@,
            subject_arg_index: self.subject_arg_index as int,
            consumer_name_arg_index: match self.consumer_name_arg_index {
                Some(i) => Some(i as int),
                None => None,
            },
        }
    }
}

impl Clone for ConsumerSpec {
    fn clone(&self) -> (out: Self)
        ensures
            out.deep_view() == self.deep_view(),
    {
        ConsumerSpec {
            kind: self.kind,
            path: copy_text(&self.path),
            type_path: copy_text(&self.type_path),
            method: self.method.clone(),
            subject_arg_index: self.subject_arg_index,
            consumer_name_arg_index: self.consumer_name_arg_index,
        }
    }
}

/// What the extractor looks for.
#[derive(Debug)]
pub struct CallSiteConfig {
    /// Whether a call needs a hint besides its name.
    pub method_match: MethodMatch,
    /// Publish calls.
    pub publishers: Vec<PublisherSpec>,
    /// Subscribe calls.
    pub consumers: Vec<ConsumerSpec>,
}

/// The model of a [`CallSiteConfig`].
pub struct ConfigView {
    pub method_match: MethodMatch,
    pub publishers: Seq<PublisherView>,
    pub consumers: Seq<ConsumerView>,
}

impl DeepView for CallSiteConfig {
    type V = ConfigView;

    open spec fn deep_view(&self) -> ConfigView {
        ConfigView {
            method_match: self.method_match,
            publishers: self.publishers.deep_view(),
            consumers: self.consumers.deep_view(),
        }
    }
}

impl Default for CallSiteConfig {
    fn default() -> (out: Self)
        ensures
            out.deep_view() == (ConfigView {
                method_match: MethodMatch::NameTraitPathHint,
                publishers: Seq::empty(),
                consumers: Seq::empty(),
            }),
    {
        let publishers: Vec<PublisherSpec> = Vec::new();
        let consumers: Vec<ConsumerSpec> = Vec::new();
        assert(publishers.deep_view() =~= Seq::empty());
        assert(consumers.deep_view() =~= Seq::empty());
        CallSiteConfig { method_match: MethodMatch::default(), publishers, consumers }
    }
}

impl Clone for CallSiteConfig {
    fn clone(&self) -> (out: Self)
        ensures
            out.deep_view() == self.deep_view(),
    {
        let mut publishers: Vec<PublisherSpec> = Vec::new();
        let mut i: usize = 0;
        while i < self.publishers.len()
            invariant
                i <= self.publishers.len(),
                publishers.deep_view() == self.publishers.deep_view().take(i as int),
            decreases self.publishers.len() - i,
        {
            let ghost front = publishers.deep_view();
            let next = self.publishers[i].clone();
            publishers.push(next);
            assert(publishers.deep_view() =~= front.push(self.publishers.deep_view()[i as int]));
            assert(self.publishers.deep_view().take(i + 1) =~= publishers.deep_view());
            i += 1;
        }
        assert(self.publishers.deep_view().take(i as int) =~= self.publishers.deep_view());
        let mut consumers: Vec<ConsumerSpec> = Vec::new();
        let mut j: usize = 0;
        while j < self.consumers.len()
            invariant
                j <= self.consumers.len(),
                consumers.deep_view() == self.consumers.deep_view().take(j as int),
            decreases self.consumers.len() - j,
        {
            let ghost front = consumers.deep_view();
            let next = self.consumers[j].clone();
            consumers.push(next);
            assert(consumers.deep_view() =~= front.push(self.consumers.deep_view()[j as int]));
            assert(self.consumers.deep_view().take(j + 1) =~= consumers.deep_view());
            j += 1;
        }
        assert(self.consumers.deep_view().take(j as int) =~= self.consumers.deep_view());
        CallSiteConfig { method_match: self.method_match, publishers, consumers }
    }
}

// ---------------------------------------------------------------------
// call sites
// ---------------------------------------------------------------------

/// Publish or subscribe.
#[derive(Debug, Clone, Copy, PartialEq, Eq, Structural)]
pub enum CallKind {
    /// One of the [`PublisherSpec`]s matched.
    Publish,
    /// One of the [`ConsumerSpec`]s matched.
    Subscribe,
}

/// One call site, with its subject as text.
#[derive(Debug)]
pub struct RawCallSite {
    /// Publish or subscribe.
    pub kind: CallKind,
    /// Path of the source file.
    pub file: String,
    /// 1-based line on which the call starts.
    pub line: usize,
    /// 1-based column in which the call starts.
    pub column: usize,
    /// Text of the subject argument.
    pub subject_expr: String,
    /// Text of the consumer name, if the specification says where it stands.
    pub consumer_name_expr: Option<String>,
    /// The configured method that matched.
    pub matched_method: String,
    /// Text of the body of the enclosing function, if there is one.
    pub enclosing_fn_body: Option<String>,
}

/// The model of a [`RawCallSite`].
pub struct SiteView {
    pub kind: CallKind,
    pub file: Seq<char>,
    pub line: int,
    pub column: int,
    pub subject_expr: Seq<char>,
    pub consumer_name_expr: Option<Seq<char>>,
    pub matched_method: Seq<char>,
    pub enclosing_fn_body: Option<Seq<char>>,
}

impl DeepView for RawCallSite {
    type V = SiteView;

    open spec fn deep_view(&self) -> SiteView {
        SiteView {
            kind: self.kind,
            file: self.file@,
            line: self.line as int,
            column: self.column as int,
            subject_expr: self.subject_expr@,
            consumer_name_expr: self.consumer_name_expr.deep_view(),
            matched_method: self.matched_method@,
            enclosing_fn_body: self.enclosing_fn_body.deep_view(),
        }
    }
}

impl Clone for RawCallSite {
    fn clone(&self) -> (out: Self)
        ensures
            out.deep_view() == self.deep_view(),
    {
        RawCallSite {
            kind: self.kind,
            file: self.file.clone(),
            line: self.line,
            column: self.column,
            subject_expr: self.subject_expr.clone(),
            consumer_name_expr: copy_text(&self.consumer_name_expr),
            matched_method: self.matched_method.clone(),
            enclosing_fn_body: copy_text(&self.enclosing_fn_body),
        }
    }
}

/// What was extracted from one file.
#[derive(Debug)]
pub struct PerFileCallSites {
    /// Call sites, by line and column.
    pub sites: Vec<RawCallSite>,
    /// Symbols, for the index.
    pub symbols: PerFileSymbols,
}

/// The model of [`PerFileCallSites`].
pub struct ExtractView {
    pub sites: Seq<SiteView>,
    pub symbols: PerFileSymbolsView,
}

impl DeepView for PerFileCallSites {
    type V = ExtractView;

    open spec fn deep_view(&self) -> ExtractView {
        ExtractView { sites: self.sites.deep_view(), symbols: self.symbols.deep_view() }
    }
}

impl Default for PerFileCallSites {
    fn default() -> (out: Self)
        ensures
            out.deep_view() == (ExtractView {
                sites: Seq::empty(),
                symbols: PerFileSymbolsView { crate_name: Seq::empty(), symbols: Seq::empty() },
            }),
    {
        let sites: Vec<RawCallSite> = Vec::new();
        assert(sites.deep_view() =~= Seq::empty());
        PerFileCallSites { sites, symbols: PerFileSymbols::default() }
    }
}

impl Clone for PerFileCallSites {
    fn clone(&self) -> (out: Self)
        ensures
            out.deep_view() == self.deep_view(),
    {
        let mut sites: Vec<RawCallSite> = Vec::new();
        let mut i: usize = 0;
        while i < self.sites.len()
            invariant
                i <= self.sites.len(),
                sites.deep_view() == self.sites.deep_view().take(i as int),
            decreases self.sites.len() - i,
        {
            let ghost front = sites.deep_view();
            let next = self.sites[i].clone();
            sites.push(next);
            assert(sites.deep_view() =~= front.push(self.sites.deep_view()[i as int]));
            assert(self.sites.deep_view().take(i + 1) =~= sites.deep_view());
            i += 1;
        }
        assert(self.sites.deep_view().take(i as int) =~= self.sites.deep_view());
        PerFileCallSites { sites, symbols: self.symbols.clone() }
    }
}

/// Why a file yields nothing.
#[derive(Debug)]
pub enum ParseError {
    /// The file does not parse.
    Syn {
        /// The file.
        file: String,
        /// What the parser said.
        message: String,
    },
}

impl ParseError {
    /// The message of this error.
    #[must_use]
    pub fn to_string(&self) -> (out: String)
        ensures
            self matches ParseError::Syn { file, message } && out@ == "syn parse error in "@
                + file@ + ": "@ + message@,
    {
        match self {
            ParseError::Syn { file, message } => {
                let mut out = concat("syn parse error in ", file.as_str());
                out.append(": ");
                out.append(message.as_str());
                out
            },
        }
    }
}

// ---------------------------------------------------------------------
// imports
// ---------------------------------------------------------------------

/// A path with one more segment.
pub open spec fn joined(prefix: Seq<char>, ident: Seq<char>) -> Seq<char> {
    if prefix.len() == 0 {
        ident
    } else {
        prefix + "::"@ + ident
    }
}

/// The paths that a `use` tree under `prefix` imports. A renamed item counts by
/// the name it had.
pub open spec fn use_paths(tree: UseView, prefix: Seq<char>) -> Seq<Seq<char>>
    decreases tree, 0nat,
{
    match tree {
        UseView::Path { ident, tree } => use_paths(*tree, joined(prefix, ident)),
        UseView::Name(ident) => seq![joined(prefix, ident)],
        UseView::Rename(ident) => seq![joined(prefix, ident)],
        UseView::Glob => seq![prefix + "::*"@],
        UseView::Group(items) => group_paths(items, items.len(), prefix),
    }
}

/// The paths that the first `n` trees of a group import.
pub open spec fn group_paths(items: Seq<UseView>, n: nat, prefix: Seq<char>) -> Seq<Seq<char>>
    decreases items, n,
{
    if n == 0 || n > items.len() {
        Seq::empty()
    } else {
        group_paths(items, (n - 1) as nat, prefix) + use_paths(items[n - 1], prefix)
    }
}

/// The paths that the `use` items of a file import, wherever they stand.
pub open spec fn imported_paths(events: Seq<EventView>) -> Seq<Seq<char>>
    decreases events.len(),
{
    if events.len() == 0 {
        Seq::empty()
    } else {
        let front = imported_paths(events.drop_last());
        match events.last() {
            EventView::Use(tree) => front + use_paths(tree, Seq::empty()),
            _ => front,
        }
    }
}

fn join_path(prefix: &str, ident: &str) -> (out: String)
    ensures
        out@ == joined(prefix@, ident@),
{
    if chars_of(prefix).len() == 0 {
        ident.to_owned()
    } else {
        let mut out = concat(prefix, "::");
        out.append(ident);
        out
    }
}

fn walk_use_tree(tree: &UseNode, prefix: &str, out: &mut Vec<String>)
    ensures
        final(out).deep_view() == old(out).deep_view() + use_paths(tree.deep_view(), prefix@),
    decreases tree,
{
    let ghost front = out.deep_view();
    match tree {
        UseNode::Path { ident, tree } => {
            let longer = join_path(prefix, ident.as_str());
            walk_use_tree(tree, longer.as_str(), out);
        },
        UseNode::Name(ident) => {
            out.push(join_path(prefix, ident.as_str()));
            assert(out.deep_view() =~= front + seq![joined(prefix@, ident@)]);
        },
        UseNode::Rename(ident) => {
            out.push(join_path(prefix, ident.as_str()));
            assert(out.deep_view() =~= front + seq![joined(prefix@, ident@)]);
        },
        UseNode::Glob => {
            out.push(concat(prefix, "::*"));
            assert(out.deep_view() =~= front + seq![prefix@ + "::*"@]);
        },
        UseNode::Group(items) => {
            let ghost model = tree.deep_view()->Group_0;
            let mut i: usize = 0;
            assert(out.deep_view() =~= front + group_paths(model, 0, prefix@));
            while i < items.len()
                invariant
                    i <= items.len(),
                    tree matches UseNode::Group(list) && list == items,
                    model == tree.deep_view()->Group_0,
                    model.len() == items.len(),
                    out.deep_view() == front + group_paths(model, i as nat, prefix@),
                decreases items.len() - i,
            {
                assert(model[i as int] == items@[i as int].deep_view());
                assert(decreases_to!(tree => items@[i as int]));
                walk_use_tree(&items[i], prefix, out);
                assert(out.deep_view() =~= front + group_paths(model, (i + 1) as nat, prefix@));
                i += 1;
            }
        },
    }
}

fn collect_imports(events: &[SourceEvent]) -> (out: Vec<String>)
    ensures
        out.deep_view() == imported_paths(events.deep_view()),
{
    let ghost all = events.deep_view();
    let mut out: Vec<String> = Vec::new();
    let mut i: usize = 0;
    assert(out.deep_view() =~= Seq::empty());
    assert(all.take(0) =~= Seq::empty());
    while i < events.len()
        invariant
            i <= events.len(),
            all == events.deep_view(),
            out.deep_view() == imported_paths(all.take(i as int)),
        decreases events.len() - i,
    {
        assert(all.take(i + 1).drop_last() =~= all.take(i as int));
        assert(all[i as int] == events@[i as int].deep_view());
        match &events[i] {
            SourceEvent::Use(tree) => {
                proof {
                    reveal_strlit("");
                }
                assert(""@ =~= Seq::<char>::empty());
                walk_use_tree(tree, "", &mut out);
            },
            _ => {},
        }
        i += 1;
    }
    assert(all.take(i as int) =~= all);
    out
}

// ---------------------------------------------------------------------
// matching
// ---------------------------------------------------------------------

/// Both paths end in the same segment, and one of them has more than that.
pub open spec fn same_last_segment(import: Seq<char>, path: Seq<char>) -> bool {
    last_path_segment(import) == last_path_segment(path) && (has_path_sep(import) || has_path_sep(
        path,
    ))
}

/// Whether an import brings in the trait or type at `path`.
pub open spec fn import_matches(import: Seq<char>, path: Seq<char>) -> bool {
    import == path || has_suffix(import, "::"@ + path) || same_last_segment(import, path)
}

/// Whether one of the imports brings in the trait or type at `path`.
pub open spec fn imported(path: Option<Seq<char>>, imports: Seq<Seq<char>>) -> bool {
    match path {
        Some(p) => exists|i: int|
            0 <= i < imports.len() && import_matches(#[trigger] imports[i], p),
        None => false,
    }
}

/// Whether the module that `receiver` starts with is imported, where `receiver`
/// is the end of the path `x`: for `a::b::T` and `b::T` that is `a::b`.
pub open spec fn start_imported(
    x: Seq<char>,
    receiver: Seq<char>,
    imports: Seq<Seq<char>>,
) -> bool {
    has_suffix(x, "::"@ + receiver) && imports.contains(
        x.take(x.len() - (receiver.len() - upto(receiver, ':').len())),
    )
}

/// Whether `receiver`, written before the function name in a call, is the type
/// at `expected`: written out in full, or by its end with a hint.
pub open spec fn type_matches(
    expected: Option<Seq<char>>,
    receiver: Seq<char>,
    imports: Seq<Seq<char>>,
    method_match: MethodMatch,
) -> bool {
    match expected {
        Some(x) => receiver == x || ((receiver == last_path_segment(x) || has_suffix(
            x,
            "::"@ + receiver,
        )) && (method_match is Name || imported(expected, imports) || start_imported(
            x,
            receiver,
            imports,
        ))),
        None => false,
    }
}

/// The type and the function in a call of an associated function.
pub open spec fn associated_fn(func: ExprView) -> Option<(Seq<char>, Seq<char>)> {
    match func {
        ExprView::Path(p) => if p.len() < 2 {
            None
        } else {
            Some((join(p.drop_last(), "::"@), p.last()))
        },
        _ => None,
    }
}

/// A name in capitals, or one in small letters, with digits and underscores
/// after the first letter.
pub open spec fn constant_or_local(ident: Seq<char>) -> bool {
    &&& ident.len() > 0
    &&& {
        ||| is_upper(ident[0]) && forall|i: int|
            0 <= i < ident.len() ==> is_upper(#[trigger] ident[i]) || ident[i] == '_' || is_digit(
                ident[i],
            )
        ||| is_lower(ident[0]) && forall|i: int|
            0 <= i < ident.len() ==> is_lower(#[trigger] ident[i]) || ident[i] == '_' || is_digit(
                ident[i],
            )
    }
}

/// A method whose result is taken for a string.
pub open spec fn gives_string(method: Seq<char>) -> bool {
    ||| method == "to_owned"@
    ||| method == "to_string"@
    ||| method == "into"@
    ||| method == "clone"@
    ||| method == "as_str"@
    ||| method == "as_ref"@
}

/// Whether an argument looks like a subject: a string literal; `format!`,
/// `concat!` or `include_str!`; a path that ends in the name of a constant or a
/// local; a conversion to a string; the call of a function by its path; and a
/// reference to or parentheses around one of these. Enum variants, numbers and
/// structs do not.
pub open spec fn string_shaped(e: ExprView) -> bool
    decreases e,
{
    match e {
        ExprView::Str(_) => true,
        ExprView::ByteStr(_) => true,
        ExprView::Macro { path, tokens } => path.len() > 0 && (path.last() == "format"@
            || path.last() == "concat"@ || path.last() == "include_str"@),
        ExprView::Path(p) => p.len() > 0 && constant_or_local(p.last()),
        ExprView::Reference(x) => string_shaped(*x),
        ExprView::MethodCall { receiver, method } => gives_string(method),
        ExprView::Call { func } => *func is Path,
        ExprView::Paren(x) => string_shaped(*x),
        ExprView::Group(x) => string_shaped(*x),
        _ => false,
    }
}

fn trait_segment_matches(import: &[char], path: &[char]) -> (yes: bool)
    ensures
        yes == same_last_segment(import@, path@),
{
    same_chars(last_segment(import), last_segment(path)) && (path_sep_in(import) || path_sep_in(
        path,
    ))
}

fn ends_in_path(s: &[char], path: &str) -> (yes: bool)
    ensures
        yes == has_suffix(s@, "::"@ + path@),
{
    let suffix = chars_of(concat("::", path).as_str());
    ends_with(s, &suffix)
}

fn matches_trait_import(path: &Option<String>, imports: &[String]) -> (yes: bool)
    ensures
        yes == imported(path.deep_view(), imports.deep_view()),
{
    match path {
        Some(p) => {
            let chars = chars_of(p.as_str());
            let mut i: usize = 0;
            while i < imports.len()
                invariant
                    i <= imports.len(),
                    chars@ == p@,
                    path.deep_view() == Some(p@),
                    forall|j: int|
                        0 <= j < i ==> !import_matches(
                            #[trigger] imports.deep_view()[j],
                            p@,
                        ),
                decreases imports.len() - i,
            {
                let import = chars_of(imports[i].as_str());
                assert(imports.deep_view()[i as int] == import@);
                if same_chars(&import, &chars) || ends_in_path(&import, p.as_str())
                    || trait_segment_matches(&import, &chars) {
                    return true;
                }
                i += 1;
            }
            false
        },
        None => false,
    }
}

fn matches_start_import(full: &[char], receiver: &[char], imports: &[String]) -> (yes: bool)
    requires
        has_suffix(full@, "::"@ + receiver@),
    ensures
        yes == start_imported(full@, receiver@, imports.deep_view()),
{
    let head = find(receiver, ':');
    let n = full.len() - (receiver.len() - head);
    let start = vstd::slice::slice_subrange(full, 0, n);
    assert(start@ =~= full@.take(n as int));
    list_has(imports, string_of(start).as_str())
}

fn matches_type_path(
    expected: &Option<String>,
    receiver: &str,
    imports: &[String],
    method_match: MethodMatch,
) -> (yes: bool)
    ensures
        yes == type_matches(
            expected.deep_view(),
            receiver@,
            imports.deep_view(),
            method_match,
        ),
{
    match expected {
        Some(x) => {
            let full = chars_of(x.as_str());
            let given = chars_of(receiver);
            if same_chars(&given, &full) {
                return true;
            }
            let at_end = ends_in_path(&full, receiver);
            if same_chars(&given, last_segment(&full)) || at_end {
                match method_match {
                    MethodMatch::Name => true,
                    MethodMatch::NameTraitPathHint => matches_trait_import(expected, imports) || (
                    at_end && matches_start_import(&full, &given, imports)),
                }
            } else {
                false
            }
        },
        None => false,
    }
}

fn associated_fn_segments(func: &ExprNode) -> (out: Option<(String, String)>)
    ensures
        out.deep_view() == associated_fn(func.deep_view()),
{
    match func {
        ExprNode::Path(p) => {
            if p.len() < 2 {
                None
            } else {
                let n = p.len() - 1;
                let front = vstd::slice::slice_subrange(p.as_slice(), 0, n);
                assert(front.deep_view() =~= p.deep_view().drop_last());
                Some((join_with(front, "::"), p[n].clone()))
            }
        },
        _ => None,
    }
}

fn all_screaming(chars: &[char]) -> (yes: bool)
    ensures
        yes == forall|i: int|
            0 <= i < chars@.len() ==> is_upper(#[trigger] chars@[i]) || chars@[i] == '_'
                || is_digit(chars@[i]),
{
    let mut i: usize = 0;
    while i < chars.len()
        invariant
            i <= chars.len(),
            forall|j: int|
                0 <= j < i ==> is_upper(#[trigger] chars@[j]) || chars@[j] == '_' || is_digit(
                    chars@[j],
                ),
        decreases chars.len() - i,
    {
        if !(upper(chars[i]) || chars[i] == '_' || digit(chars[i])) {
            return false;
        }
        i += 1;
    }
    true
}

fn all_snake(chars: &[char]) -> (yes: bool)
    ensures
        yes == forall|i: int|
            0 <= i < chars@.len() ==> is_lower(#[trigger] chars@[i]) || chars@[i] == '_'
                || is_digit(chars@[i]),
{
    let mut i: usize = 0;
    while i < chars.len()
        invariant
            i <= chars.len(),
            forall|j: int|
                0 <= j < i ==> is_lower(#[trigger] chars@[j]) || chars@[j] == '_' || is_digit(
                    chars@[j],
                ),
        decreases chars.len() - i,
    {
        if !(lower(chars[i]) || chars[i] == '_' || digit(chars[i])) {
            return false;
        }
        i += 1;
    }
    true
}

fn is_string_shaped_path(ident: &str) -> (yes: bool)
    ensures
        yes == constant_or_local(ident@),
{
    let chars = chars_of(ident);
    if chars.len() == 0 {
        return false;
    }
    (upper(chars[0]) && all_screaming(&chars)) || (lower(chars[0]) && all_snake(&chars))
}

/// Whether an argument looks like a subject.
#[must_use]
pub fn is_string_shaped(expr: &ExprNode) -> (yes: bool)
    ensures
        yes == string_shaped(expr.deep_view()),
    decreases expr,
{
    match expr {
        ExprNode::Str(_) => true,
        ExprNode::ByteStr(_) => true,
        ExprNode::Macro { path, tokens: _ } => {
            if path.len() == 0 {
                return false;
            }
            let last = path[path.len() - 1].as_str();
            assert(path.deep_view().last() == last@);
            same_text(last, "format") || same_text(last, "concat") || same_text(
                last,
                "include_str",
            )
        },
        ExprNode::Path(p) => {
            if p.len() == 0 {
                return false;
            }
            let last = p[p.len() - 1].as_str();
            assert(p.deep_view().last() == last@);
            is_string_shaped_path(last)
        },
        ExprNode::Reference(e) => is_string_shaped(e),
        ExprNode::MethodCall { receiver: _, method } => {
            let m = method.as_str();
            same_text(m, "to_owned") || same_text(m, "to_string") || same_text(m, "into")
                || same_text(m, "clone") || same_text(m, "as_str") || same_text(m, "as_ref")
        },
        ExprNode::Call { func } => match &**func {
            ExprNode::Path(p) => {
                assert(func.deep_view() == ExprView::Path(p.deep_view()));
                true
            },
            _ => {
                assert(!(func.deep_view() is Path));
                false
            },
        },
        ExprNode::Paren(e) => is_string_shaped(e),
        ExprNode::Group(e) => is_string_shaped(e),
        _ => false,
    }
}

// ---------------------------------------------------------------------
// building call sites
// ---------------------------------------------------------------------

/// A 0-based column as a 1-based one.
pub open spec fn one_based(column: int) -> int {
    if column < usize::MAX {
        column + 1
    } else {
        column
    }
}

/// A call without its arguments: `_.name(..)` or `receiver::name(..)`, and where
/// it starts.
pub struct CallView {
    pub receiver: Option<Seq<char>>,
    pub name: Seq<char>,
    pub line: int,
    pub column: int,
}

/// The call site of a publish call that matched, unless its subject argument is
/// missing or does not look like one.
pub open spec fn publish_site(
    spec: PublisherView,
    call: CallView,
    args: Seq<ArgView>,
    file: Seq<char>,
    body: Option<Seq<char>>,
) -> Option<SiteView> {
    let k = spec.subject_arg_index;
    if 0 <= k < args.len() && string_shaped(args[k].tree) {
        Some(
            SiteView {
                kind: CallKind::Publish,
                file,
                line: call.line,
                column: one_based(call.column),
                subject_expr: args[k].source,
                consumer_name_expr: None,
                matched_method: spec.method,
                enclosing_fn_body: body,
            },
        )
    } else {
        None
    }
}

/// The call site of a subscribe call that matched, unless its subject argument
/// is missing or does not look like one.
pub open spec fn subscribe_site(
    spec: ConsumerView,
    call: CallView,
    args: Seq<ArgView>,
    file: Seq<char>,
    body: Option<Seq<char>>,
) -> Option<SiteView> {
    let k = spec.subject_arg_index;
    if 0 <= k < args.len() && string_shaped(args[k].tree) {
        Some(
            SiteView {
                kind: CallKind::Subscribe,
                file,
                line: call.line,
                column: one_based(call.column),
                subject_expr: args[k].source,
                consumer_name_expr: match spec.consumer_name_arg_index {
                    Some(n) => if 0 <= n < args.len() {
                        Some(args[n].source)
                    } else {
                        None
                    },
                    None => None,
                },
                matched_method: spec.method,
                enclosing_fn_body: body,
            },
        )
    } else {
        None
    }
}

/// Whether a specification matches the call as a trait method, or as an inherent
/// one. A method call has no type to go by: the import of the trait or the type
/// decides, unless names alone are to count.
pub open spec fn spec_matches(
    kind: PublisherKind,
    path: Option<Seq<char>>,
    type_path: Option<Seq<char>>,
    method: Seq<char>,
    wanted: PublisherKind,
    call: CallView,
    imports: Seq<Seq<char>>,
    method_match: MethodMatch,
) -> bool {
    &&& kind == wanted
    &&& method == call.name
    &&& match (wanted, call.receiver) {
        (PublisherKind::Trait, None) => method_match is Name || imported(path, imports),
        (PublisherKind::Trait, Some(_)) => false,
        (PublisherKind::Inherent, None) => method_match is Name || imported(type_path, imports),
        (PublisherKind::Inherent, Some(t)) => type_matches(type_path, t, imports, method_match),
    }
}

/// The site of the first publisher of the wanted kind that matches and gives one.
pub open spec fn first_publish_site(
    specs: Seq<PublisherView>,
    wanted: PublisherKind,
    call: CallView,
    imports: Seq<Seq<char>>,
    method_match: MethodMatch,
    args: Seq<ArgView>,
    file: Seq<char>,
    body: Option<Seq<char>>,
) -> Option<SiteView>
    decreases specs.len(),
{
    if specs.len() == 0 {
        None
    } else {
        let s = specs[0];
        let site = publish_site(s, call, args, file, body);
        if spec_matches(
            s.kind,
            s.path,
            s.type_path,
            s.method,
            wanted,
            call,
            imports,
            method_match,
        ) && site is Some {
            site
        } else {
            first_publish_site(
                specs.drop_first(),
                wanted,
                call,
                imports,
                method_match,
                args,
                file,
                body,
            )
        }
    }
}

/// The site of the first consumer of the wanted kind that matches and gives one.
pub open spec fn first_subscribe_site(
    specs: Seq<ConsumerView>,
    wanted: PublisherKind,
    call: CallView,
    imports: Seq<Seq<char>>,
    method_match: MethodMatch,
    args: Seq<ArgView>,
    file: Seq<char>,
    body: Option<Seq<char>>,
) -> Option<SiteView>
    decreases specs.len(),
{
    if specs.len() == 0 {
        None
    } else {
        let s = specs[0];
        let site = subscribe_site(s, call, args, file, body);
        if spec_matches(
            s.kind,
            s.path,
            s.type_path,
            s.method,
            wanted,
            call,
            imports,
            method_match,
        ) && site is Some {
            site
        } else {
            first_subscribe_site(
                specs.drop_first(),
                wanted,
                call,
                imports,
                method_match,
                args,
                file,
                body,
            )
        }
    }
}

/// The site of a call for specifications of one kind: publishers come before
/// consumers.
pub open spec fn site_of_kind(
    config: ConfigView,
    wanted: PublisherKind,
    call: CallView,
    imports: Seq<Seq<char>>,
    args: Seq<ArgView>,
    file: Seq<char>,
    body: Option<Seq<char>>,
) -> Option<SiteView> {
    let published = first_publish_site(
        config.publishers,
        wanted,
        call,
        imports,
        config.method_match,
        args,
        file,
        body,
    );
    if published is Some {
        published
    } else {
        first_subscribe_site(
            config.consumers,
            wanted,
            call,
            imports,
            config.method_match,
            args,
            file,
            body,
        )
    }
}

/// The call site that a method call is, if it is one: trait methods come before
/// inherent ones.
pub open spec fn method_call_site(
    config: ConfigView,
    imports: Seq<Seq<char>>,
    call: CallView,
    args: Seq<ArgView>,
    file: Seq<char>,
    body: Option<Seq<char>>,
) -> Option<SiteView> {
    let by_trait = site_of_kind(config, PublisherKind::Trait, call, imports, args, file, body);
    if by_trait is Some {
        by_trait
    } else {
        site_of_kind(config, PublisherKind::Inherent, call, imports, args, file, body)
    }
}

/// The call site that a function call is, if it is one.
pub open spec fn function_call_site(
    config: ConfigView,
    imports: Seq<Seq<char>>,
    func: ExprView,
    line: int,
    column: int,
    args: Seq<ArgView>,
    file: Seq<char>,
    body: Option<Seq<char>>,
) -> Option<SiteView> {
    match associated_fn(func) {
        Some(f) => site_of_kind(
            config,
            PublisherKind::Inherent,
            CallView { receiver: Some(f.0), name: f.1, line, column },
            imports,
            args,
            file,
            body,
        ),
        None => None,
    }
}

// ---------------------------------------------------------------------
// the walk
// ---------------------------------------------------------------------

/// What encloses the place where a walk is.
#[derive(Debug)]
enum Frame {
    Module(String),
    Impl,
    Method(String),
    TraitMethod(Option<String>),
    Function(String),
}

/// The model of a frame: a module by its name, methods and functions by the text
/// of their bodies.
pub enum FrameView {
    Module(Seq<char>),
    Impl,
    Method(Seq<char>),
    TraitMethod(Option<Seq<char>>),
    Function(Seq<char>),
}

impl DeepView for Frame {
    type V = FrameView;

    closed spec fn deep_view(&self) -> FrameView {
        match self {
            Frame::Module(n) => FrameView::Module(n@),
            Frame::Impl => FrameView::Impl,
            Frame::Method(b) => FrameView::Method(b@),
            Frame::TraitMethod(b) => FrameView::TraitMethod(b.deep_view()),
            Frame::Function(b) => FrameView::Function(b@),
        }
    }
}

/// Of an `impl` block only the methods count: a place is looked at when every
/// `impl` around it has a method of its own directly inside.
pub open spec fn looked_at(frames: Seq<FrameView>) -> bool {
    forall|i: int|
        0 <= i < frames.len() && #[trigger] frames[i] is Impl ==> i + 1 < frames.len()
            && frames[i + 1] is Method
}

/// The path of the module around a place.
pub open spec fn path_of_module(crate_name: Seq<char>, frames: Seq<FrameView>) -> Seq<char>
    decreases frames.len(),
{
    if frames.len() == 0 {
        underscored(crate_name)
    } else {
        let outer = path_of_module(crate_name, frames.drop_last());
        match frames.last() {
            FrameView::Module(name) => outer + "::"@ + name,
            _ => outer,
        }
    }
}

/// The body of the innermost method or function around a place.
pub open spec fn enclosing_body(frames: Seq<FrameView>) -> Option<Seq<char>>
    decreases frames.len(),
{
    if frames.len() == 0 {
        None
    } else {
        match frames.last() {
            FrameView::Method(b) => Some(b),
            FrameView::TraitMethod(Some(b)) => Some(b),
            FrameView::Function(b) => Some(b),
            _ => enclosing_body(frames.drop_last()),
        }
    }
}

/// The path of an item in the module around a place.
pub open spec fn item_path(
    crate_name: Seq<char>,
    frames: Seq<FrameView>,
    name: Seq<char>,
) -> Seq<char> {
    path_of_module(crate_name, frames) + "::"@ + name
}

/// A text without white space.
pub open spec fn without_space(s: Seq<char>) -> Seq<char>
    decreases s.len(),
{
    if s.len() == 0 {
        s
    } else if is_space(s.last()) {
        without_space(s.drop_last())
    } else {
        without_space(s.drop_last()).push(s.last())
    }
}

pub open spec fn snippet_at(
    source: Seq<char>,
    file: Seq<char>,
    line: int,
    column: int,
) -> SnippetView {
    SnippetView { source, span: SpanView { file, line, column: one_based(column) } }
}

/// The methods among the items of an `impl` block for the type, as symbols.
pub open spec fn method_symbols(
    type_path: Seq<char>,
    items: Seq<ImplItemView>,
    file: Seq<char>,
) -> Seq<(Seq<char>, SymbolView)>
    decreases items.len(),
{
    if items.len() == 0 {
        Seq::empty()
    } else {
        let front = method_symbols(type_path, items.drop_last(), file);
        match items.last() {
            ImplItemView::Fn { name, line, column, body } => front.push(
                (
                    type_path + "::"@ + name,
                    SymbolView::Method {
                        type_path,
                        body: snippet_at(body, file, line, column),
                    },
                ),
            ),
            ImplItemView::Other => front,
        }
    }
}

/// Where a walk is, and what it has found so far.
pub struct WalkView {
    pub frames: Seq<FrameView>,
    pub sites: Seq<SiteView>,
    pub symbols: Seq<(Seq<char>, SymbolView)>,
}

/// What stays the same during a walk.
pub struct SettingView {
    pub file: Seq<char>,
    pub crate_name: Seq<char>,
    pub config: ConfigView,
    pub imports: Seq<Seq<char>>,
}

pub open spec fn entered(w: WalkView, frame: FrameView) -> WalkView {
    WalkView { frames: w.frames.push(frame), sites: w.sites, symbols: w.symbols }
}

pub open spec fn left(w: WalkView) -> WalkView {
    WalkView {
        frames: if w.frames.len() == 0 {
            w.frames
        } else {
            w.frames.drop_last()
        },
        sites: w.sites,
        symbols: w.symbols,
    }
}

pub open spec fn with_site(w: WalkView, site: Option<SiteView>) -> WalkView {
    match site {
        Some(s) => WalkView { frames: w.frames, sites: w.sites.push(s), symbols: w.symbols },
        None => w,
    }
}

pub open spec fn with_symbols(w: WalkView, found: Seq<(Seq<char>, SymbolView)>) -> WalkView {
    WalkView { frames: w.frames, sites: w.sites, symbols: w.symbols + found }
}

/// The walk after one more event.
pub open spec fn stepped(w: WalkView, event: EventView, setting: SettingView) -> WalkView {
    let live = looked_at(w.frames);
    match event {
        EventView::EnterMod { name } => entered(w, FrameView::Module(name)),
        EventView::EnterImpl { self_type, items } => entered(
            if live {
                with_symbols(
                    w,
                    method_symbols(without_space(self_type), items, setting.file),
                )
            } else {
                w
            },
            FrameView::Impl,
        ),
        EventView::Use(_) => w,
        EventView::EnterMethod { body } => entered(w, FrameView::Method(body)),
        EventView::EnterTraitMethod { default } => entered(w, FrameView::TraitMethod(default)),
        EventView::Const { name, line, column, value } => if live {
            with_symbols(
                w,
                seq![
                    (
                        item_path(setting.crate_name, w.frames, name),
                        SymbolView::Const(snippet_at(value, setting.file, line, column)),
                    ),
                ],
            )
        } else {
            w
        },
        EventView::EnterFn { name, line, column, body } => entered(
            if live {
                with_symbols(
                    w,
                    seq![
                        (
                            item_path(setting.crate_name, w.frames, name),
                            SymbolView::Function(snippet_at(body, setting.file, line, column)),
                        ),
                    ],
                )
            } else {
                w
            },
            FrameView::Function(body),
        ),
        EventView::MethodCall { method, line, column, args } => if live {
            with_site(
                w,
                method_call_site(
                    setting.config,
                    setting.imports,
                    CallView { receiver: None, name: method, line, column },
                    args,
                    setting.file,
                    enclosing_body(w.frames),
                ),
            )
        } else {
            w
        },
        EventView::Call { func, line, column, args } => if live {
            with_site(
                w,
                function_call_site(
                    setting.config,
                    setting.imports,
                    func,
                    line,
                    column,
                    args,
                    setting.file,
                    enclosing_body(w.frames),
                ),
            )
        } else {
            w
        },
        EventView::LeaveMod => left(w),
        EventView::LeaveImpl => left(w),
        EventView::LeaveMethod => left(w),
        EventView::LeaveTraitMethod => left(w),
        EventView::LeaveFn => left(w),
    }
}

/// The walk after all the events.
pub open spec fn walked(events: Seq<EventView>, setting: SettingView) -> WalkView
    decreases events.len(),
{
    if events.len() == 0 {
        WalkView { frames: Seq::empty(), sites: Seq::empty(), symbols: Seq::empty() }
    } else {
        stepped(walked(events.drop_last(), setting), events.last(), setting)
    }
}

/// The order of call sites: by line, then by column.
pub open spec fn site_lt(a: SiteView, b: SiteView) -> bool {
    a.line < b.line || (a.line == b.line && a.column < b.column)
}

/// What is extracted from a parsed file.
pub open spec fn extracted(
    source: SourceView,
    file: Seq<char>,
    crate_name: Seq<char>,
    config: ConfigView,
) -> ExtractView {
    let w = walked(
        source.events,
        SettingView { file, crate_name, config, imports: imported_paths(source.events) },
    );
    ExtractView {
        sites: stable_sorted(w.sites, |a: SiteView, b: SiteView| site_lt(a, b)),
        symbols: PerFileSymbolsView { crate_name, symbols: w.symbols },
    }
}

// ---------------------------------------------------------------------
// laws
// ---------------------------------------------------------------------

proof fn lemma_site_order()
    ensures
        weak_order(|a: SiteView, b: SiteView| site_lt(a, b)),
{
}

/// Call sites come out by line and column, each as often as it was found, and
/// sites at the same place in the order in which they were found.
pub proof fn law_sites_in_source_order(
    source: SourceView,
    file: Seq<char>,
    crate_name: Seq<char>,
    config: ConfigView,
    line: int,
    column: int,
)
    ensures
        ({
            let found = walked(
                source.events,
                SettingView { file, crate_name, config, imports: imported_paths(source.events) },
            ).sites;
            let out = extracted(source, file, crate_name, config).sites;
            let here = |s: SiteView| s.line == line && s.column == column;
            &&& sorted_by(out, |a: SiteView, b: SiteView| site_lt(a, b))
            &&& out.to_multiset() == found.to_multiset()
            &&& out.filter(here) == found.filter(here)
        }),
{
    let found = walked(
        source.events,
        SettingView { file, crate_name, config, imports: imported_paths(source.events) },
    ).sites;
    let lt = |a: SiteView, b: SiteView| site_lt(a, b);
    let here = |s: SiteView| s.line == line && s.column == column;
    lemma_site_order();
    law_stable_sorted_is_sorted(found, lt);
    law_stable_sorted_permutes(found, lt);
    law_stable_sorted_keeps_ties(found, lt, here);
}

proof fn lemma_no_publish_without_import(
    specs: Seq<PublisherView>,
    wanted: PublisherKind,
    call: CallView,
    args: Seq<ArgView>,
    file: Seq<char>,
    body: Option<Seq<char>>,
)
    requires
        call.receiver is None,
    ensures
        first_publish_site(
            specs,
            wanted,
            call,
            Seq::empty(),
            MethodMatch::NameTraitPathHint,
            args,
            file,
            body,
        ) is None,
    decreases specs.len(),
{
    if specs.len() > 0 {
        lemma_no_publish_without_import(
            specs.drop_first(),
            wanted,
            call,
            args,
            file,
            body,
        );
    }
}

proof fn lemma_no_subscribe_without_import(
    specs: Seq<ConsumerView>,
    wanted: PublisherKind,
    call: CallView,
    args: Seq<ArgView>,
    file: Seq<char>,
    body: Option<Seq<char>>,
)
    requires
        call.receiver is None,
    ensures
        first_subscribe_site(
            specs,
            wanted,
            call,
            Seq::empty(),
            MethodMatch::NameTraitPathHint,
            args,
            file,
            body,
        ) is None,
    decreases specs.len(),
{
    if specs.len() > 0 {
        lemma_no_subscribe_without_import(
            specs.drop_first(),
            wanted,
            call,
            args,
            file,
            body,
        );
    }
}

/// In a file that imports nothing no method call is a call site, whatever its
/// name, unless names alone are to count.
pub proof fn law_method_calls_need_an_import(
    config: ConfigView,
    call: CallView,
    args: Seq<ArgView>,
    file: Seq<char>,
    body: Option<Seq<char>>,
)
    requires
        config.method_match is NameTraitPathHint,
        call.receiver is None,
    ensures
        method_call_site(config, Seq::empty(), call, args, file, body) is None,
{
    let t = PublisherKind::Trait;
    let i = PublisherKind::Inherent;
    lemma_no_publish_without_import(config.publishers, t, call, args, file, body);
    lemma_no_publish_without_import(config.publishers, i, call, args, file, body);
    lemma_no_subscribe_without_import(config.consumers, t, call, args, file, body);
    lemma_no_subscribe_without_import(config.consumers, i, call, args, file, body);
}

proof fn lemma_publish_by_name(
    specs: Seq<PublisherView>,
    wanted: PublisherKind,
    call: CallView,
    imports: Seq<Seq<char>>,
    args: Seq<ArgView>,
    file: Seq<char>,
    body: Option<Seq<char>>,
)
    requires
        call.receiver is None,
    ensures
        first_publish_site(
            specs,
            wanted,
            call,
            imports,
            MethodMatch::Name,
            args,
            file,
            body,
        ) == first_publish_site(
            specs,
            wanted,
            call,
            Seq::empty(),
            MethodMatch::Name,
            args,
            file,
            body,
        ),
    decreases specs.len(),
{
    if specs.len() > 0 {
        lemma_publish_by_name(specs.drop_first(), wanted, call, imports, args, file, body);
    }
}

proof fn lemma_subscribe_by_name(
    specs: Seq<ConsumerView>,
    wanted: PublisherKind,
    call: CallView,
    imports: Seq<Seq<char>>,
    args: Seq<ArgView>,
    file: Seq<char>,
    body: Option<Seq<char>>,
)
    requires
        call.receiver is None,
    ensures
        first_subscribe_site(
            specs,
            wanted,
            call,
            imports,
            MethodMatch::Name,
            args,
            file,
            body,
        ) == first_subscribe_site(
            specs,
            wanted,
            call,
            Seq::empty(),
            MethodMatch::Name,
            args,
            file,
            body,
        ),
    decreases specs.len(),
{
    if specs.len() > 0 {
        lemma_subscribe_by_name(specs.drop_first(), wanted, call, imports, args, file, body);
    }
}

/// Where names alone count, the imports of a file make no difference to its
/// method calls.
pub proof fn law_names_alone_ignore_imports(
    config: ConfigView,
    imports: Seq<Seq<char>>,
    call: CallView,
    args: Seq<ArgView>,
    file: Seq<char>,
    body: Option<Seq<char>>,
)
    requires
        config.method_match is Name,
        call.receiver is None,
    ensures
        method_call_site(config, imports, call, args, file, body) == method_call_site(
            config,
            Seq::empty(),
            call,
            args,
            file,
            body,
        ),
{
    let t = PublisherKind::Trait;
    let i = PublisherKind::Inherent;
    lemma_publish_by_name(config.publishers, t, call, imports, args, file, body);
    lemma_publish_by_name(config.publishers, i, call, imports, args, file, body);
    lemma_subscribe_by_name(config.consumers, t, call, imports, args, file, body);
    lemma_subscribe_by_name(config.consumers, i, call, imports, args, file, body);
}

/// The specification that a call site came from is one of the configured ones.
pub open spec fn configured(site: SiteView, config: ConfigView) -> bool {
    match site.kind {
        CallKind::Publish => exists|i: int|
            0 <= i < config.publishers.len() && (#[trigger] config.publishers[i]).method
                == site.matched_method,
        CallKind::Subscribe => exists|i: int|
            0 <= i < config.consumers.len() && (#[trigger] config.consumers[i]).method
                == site.matched_method,
    }
}

proof fn lemma_publish_configured(
    config: ConfigView,
    k: int,
    wanted: PublisherKind,
    call: CallView,
    imports: Seq<Seq<char>>,
    args: Seq<ArgView>,
    file: Seq<char>,
    body: Option<Seq<char>>,
)
    requires
        0 <= k <= config.publishers.len(),
    ensures
        first_publish_site(
            config.publishers.skip(k),
            wanted,
            call,
            imports,
            config.method_match,
            args,
            file,
            body,
        ) matches Some(s) ==> configured(s, config) && s.file == file,
    decreases config.publishers.len() - k,
{
    if k < config.publishers.len() {
        let specs = config.publishers.skip(k);
        assert(specs[0] == config.publishers[k]);
        assert(specs.drop_first() =~= config.publishers.skip(k + 1));
        lemma_publish_configured(config, k + 1, wanted, call, imports, args, file, body);
    }
}

proof fn lemma_subscribe_configured(
    config: ConfigView,
    k: int,
    wanted: PublisherKind,
    call: CallView,
    imports: Seq<Seq<char>>,
    args: Seq<ArgView>,
    file: Seq<char>,
    body: Option<Seq<char>>,
)
    requires
        0 <= k <= config.consumers.len(),
    ensures
        first_subscribe_site(
            config.consumers.skip(k),
            wanted,
            call,
            imports,
            config.method_match,
            args,
            file,
            body,
        ) matches Some(s) ==> configured(s, config) && s.file == file,
    decreases config.consumers.len() - k,
{
    if k < config.consumers.len() {
        let specs = config.consumers.skip(k);
        assert(specs[0] == config.consumers[k]);
        assert(specs.drop_first() =~= config.consumers.skip(k + 1));
        lemma_subscribe_configured(config, k + 1, wanted, call, imports, args, file, body);
    }
}

proof fn lemma_site_configured(
    config: ConfigView,
    wanted: PublisherKind,
    call: CallView,
    imports: Seq<Seq<char>>,
    args: Seq<ArgView>,
    file: Seq<char>,
    body: Option<Seq<char>>,
)
    ensures
        site_of_kind(config, wanted, call, imports, args, file, body) matches Some(s)
            ==> configured(s, config) && s.file == file,
{
    assert(config.publishers.skip(0) =~= config.publishers);
    assert(config.consumers.skip(0) =~= config.consumers);
    lemma_publish_configured(config, 0, wanted, call, imports, args, file, body);
    lemma_subscribe_configured(config, 0, wanted, call, imports, args, file, body);
}

/// Every call site that a walk finds came from a configured specification, and
/// stands in the file that was walked. With nothing configured there are none.
pub proof fn law_every_site_is_configured(events: Seq<EventView>, setting: SettingView)
    ensures
        forall|i: int|
            0 <= i < walked(events, setting).sites.len() ==> configured(
                #[trigger] walked(events, setting).sites[i],
                setting.config,
            ) && walked(events, setting).sites[i].file == setting.file,
    decreases events.len(),
{
    if events.len() > 0 {
        let before = walked(events.drop_last(), setting);
        law_every_site_is_configured(events.drop_last(), setting);
        let body = enclosing_body(before.frames);
        let after = walked(events, setting);
        match events.last() {
            EventView::MethodCall { method, line, column, args } => {
                let call = CallView { receiver: None, name: method, line, column };
                lemma_site_configured(
                    setting.config,
                    PublisherKind::Trait,
                    call,
                    setting.imports,
                    args,
                    setting.file,
                    body,
                );
                lemma_site_configured(
                    setting.config,
                    PublisherKind::Inherent,
                    call,
                    setting.imports,
                    args,
                    setting.file,
                    body,
                );
            },
            EventView::Call { func, line, column, args } => {
                if let Some(f) = associated_fn(func) {
                    lemma_site_configured(
                        setting.config,
                        PublisherKind::Inherent,
                        CallView { receiver: Some(f.0), name: f.1, line, column },
                        setting.imports,
                        args,
                        setting.file,
                        body,
                    );
                }
            },
            _ => {},
        }
        assert forall|i: int| 0 <= i < after.sites.len() implies configured(
            #[trigger] after.sites[i],
            setting.config,
        ) && after.sites[i].file == setting.file by {
            if i < before.sites.len() {
                assert(after.sites[i] == before.sites[i]);
            }
        }
    }
}

// ---------------------------------------------------------------------
// extraction
// ---------------------------------------------------------------------

/// What stays the same during a walk.
struct Setting<'a> {
    file: &'a str,
    crate_name: &'a str,
    config: &'a CallSiteConfig,
    imports: &'a [String],
}

impl<'a> DeepView for Setting<'a> {
    type V = SettingView;

    closed spec fn deep_view(&self) -> SettingView {
        SettingView {
            file: self.file@,
            crate_name: self.crate_name@,
            config: self.config.deep_view(),
            imports: self.imports.deep_view(),
        }
    }
}

/// A call without its arguments.
struct Call<'a> {
    receiver: Option<&'a str>,
    name: &'a str,
    line: usize,
    column: usize,
}

impl<'a> DeepView for Call<'a> {
    type V = CallView;

    closed spec fn deep_view(&self) -> CallView {
        CallView {
            receiver: self.receiver.deep_view(),
            name: self.name@,
            line: self.line as int,
            column: self.column as int,
        }
    }
}

/// Where a walk is, and what it has found so far.
struct Visitor {
    frames: Vec<Frame>,
    sites: Vec<RawCallSite>,
    symbols: Vec<(FqPath, Symbol)>,
}

impl View for Visitor {
    type V = WalkView;

    closed spec fn view(&self) -> WalkView {
        WalkView {
            frames: self.frames.deep_view(),
            sites: self.sites.deep_view(),
            symbols: self.symbols.deep_view(),
        }
    }
}

fn shift_column(column: usize) -> (out: usize)
    ensures
        out == one_based(column as int),
{
    if column < usize::MAX {
        column + 1
    } else {
        column
    }
}

fn build_publish_site(
    spec: &PublisherSpec,
    call: &Call<'_>,
    args: &[ArgNode],
    file: &str,
    body: &Option<String>,
) -> (out: Option<RawCallSite>)
    ensures
        out.deep_view() == publish_site(
            spec.deep_view(),
            call.deep_view(),
            args.deep_view(),
            file@,
            body.deep_view(),
        ),
{
    let k = spec.subject_arg_index;
    if k >= args.len() {
        return None;
    }
    let subject = &args[k];
    assert(args.deep_view()[k as int] == subject.deep_view());
    if !is_string_shaped(&subject.tree) {
        return None;
    }
    Some(
        RawCallSite {
            kind: CallKind::Publish,
            file: file.to_owned(),
            line: call.line,
            column: shift_column(call.column),
            subject_expr: subject.source.clone(),
            consumer_name_expr: None,
            matched_method: spec.method.clone(),
            enclosing_fn_body: copy_text(body),
        },
    )
}

fn build_subscribe_site(
    spec: &ConsumerSpec,
    call: &Call<'_>,
    args: &[ArgNode],
    file: &str,
    body: &Option<String>,
) -> (out: Option<RawCallSite>)
    ensures
        out.deep_view() == subscribe_site(
            spec.deep_view(),
            call.deep_view(),
            args.deep_view(),
            file@,
            body.deep_view(),
        ),
{
    let k = spec.subject_arg_index;
    if k >= args.len() {
        return None;
    }
    let subject = &args[k];
    assert(args.deep_view()[k as int] == subject.deep_view());
    if !is_string_shaped(&subject.tree) {
        return None;
    }
    let consumer_name_expr = match spec.consumer_name_arg_index {
        Some(n) => {
            if n < args.len() {
                assert(args.deep_view()[n as int] == args@[n as int].deep_view());
                Some(args[n].source.clone())
            } else {
                None
            }
        },
        None => None,
    };
    Some(
        RawCallSite {
            kind: CallKind::Subscribe,
            file: file.to_owned(),
            line: call.line,
            column: shift_column(call.column),
            subject_expr: subject.source.clone(),
            consumer_name_expr,
            matched_method: spec.method.clone(),
            enclosing_fn_body: copy_text(body),
        },
    )
}

fn call_matches(
    kind: PublisherKind,
    path: &Option<String>,
    type_path: &Option<String>,
    method: &str,
    wanted: PublisherKind,
    call: &Call<'_>,
    setting: &Setting<'_>,
) -> (yes: bool)
    ensures
        yes == spec_matches(
            kind,
            path.deep_view(),
            type_path.deep_view(),
            method@,
            wanted,
            call.deep_view(),
            setting.deep_view().imports,
            setting.deep_view().config.method_match,
        ),
{
    if kind != wanted || !same_text(method, call.name) {
        return false;
    }
    let by_name = match setting.config.method_match {
        MethodMatch::Name => true,
        MethodMatch::NameTraitPathHint => false,
    };
    match (wanted, call.receiver) {
        (PublisherKind::Trait, None) => by_name || matches_trait_import(path, setting.imports),
        (PublisherKind::Trait, Some(_)) => false,
        (PublisherKind::Inherent, None) => by_name || matches_trait_import(
            type_path,
            setting.imports,
        ),
        (PublisherKind::Inherent, Some(t)) => matches_type_path(
            type_path,
            t,
            setting.imports,
            setting.config.method_match,
        ),
    }
}

fn find_publish_site(
    wanted: PublisherKind,
    call: &Call<'_>,
    args: &[ArgNode],
    body: &Option<String>,
    setting: &Setting<'_>,
) -> (out: Option<RawCallSite>)
    ensures
        out.deep_view() == first_publish_site(
            setting.deep_view().config.publishers,
            wanted,
            call.deep_view(),
            setting.deep_view().imports,
            setting.deep_view().config.method_match,
            args.deep_view(),
            setting.deep_view().file,
            body.deep_view(),
        ),
{
    let specs = &setting.config.publishers;
    let ghost all = specs.deep_view();
    let ghost s = setting.deep_view();
    let mut i: usize = 0;
    assert(all.skip(0) =~= all);
    while i < specs.len()
        invariant
            i <= specs.len(),
            all == specs.deep_view(),
            s == setting.deep_view(),
            all == s.config.publishers,
            first_publish_site(
                all,
                wanted,
                call.deep_view(),
                s.imports,
                s.config.method_match,
                args.deep_view(),
                s.file,
                body.deep_view(),
            ) == first_publish_site(
                all.skip(i as int),
                wanted,
                call.deep_view(),
                s.imports,
                s.config.method_match,
                args.deep_view(),
                s.file,
                body.deep_view(),
            ),
        decreases specs.len() - i,
    {
        let spec = &specs[i];
        assert(all.skip(i as int)[0] == spec.deep_view());
        assert(all.skip(i as int).drop_first() =~= all.skip(i + 1));
        if call_matches(
            spec.kind,
            &spec.path,
            &spec.type_path,
            spec.method.as_str(),
            wanted,
            call,
            setting,
        ) {
            let site = build_publish_site(spec, call, args, setting.file, body);
            if site.is_some() {
                return site;
            }
        }
        i += 1;
    }
    None
}

fn find_subscribe_site(
    wanted: PublisherKind,
    call: &Call<'_>,
    args: &[ArgNode],
    body: &Option<String>,
    setting: &Setting<'_>,
) -> (out: Option<RawCallSite>)
    ensures
        out.deep_view() == first_subscribe_site(
            setting.deep_view().config.consumers,
            wanted,
            call.deep_view(),
            setting.deep_view().imports,
            setting.deep_view().config.method_match,
            args.deep_view(),
            setting.deep_view().file,
            body.deep_view(),
        ),
{
    let specs = &setting.config.consumers;
    let ghost all = specs.deep_view();
    let ghost s = setting.deep_view();
    let mut i: usize = 0;
    assert(all.skip(0) =~= all);
    while i < specs.len()
        invariant
            i <= specs.len(),
            all == specs.deep_view(),
            s == setting.deep_view(),
            all == s.config.consumers,
            first_subscribe_site(
                all,
                wanted,
                call.deep_view(),
                s.imports,
                s.config.method_match,
                args.deep_view(),
                s.file,
                body.deep_view(),
            ) == first_subscribe_site(
                all.skip(i as int),
                wanted,
                call.deep_view(),
                s.imports,
                s.config.method_match,
                args.deep_view(),
                s.file,
                body.deep_view(),
            ),
        decreases specs.len() - i,
    {
        let spec = &specs[i];
        assert(all.skip(i as int)[0] == spec.deep_view());
        assert(all.skip(i as int).drop_first() =~= all.skip(i + 1));
        if call_matches(
            spec.kind,
            &spec.path,
            &spec.type_path,
            spec.method.as_str(),
            wanted,
            call,
            setting,
        ) {
            let site = build_subscribe_site(spec, call, args, setting.file, body);
            if site.is_some() {
                return site;
            }
        }
        i += 1;
    }
    None
}

fn find_site(
    wanted: PublisherKind,
    call: &Call<'_>,
    args: &[ArgNode],
    body: &Option<String>,
    setting: &Setting<'_>,
) -> (out: Option<RawCallSite>)
    ensures
        out.deep_view() == site_of_kind(
            setting.deep_view().config,
            wanted,
            call.deep_view(),
            setting.deep_view().imports,
            args.deep_view(),
            setting.deep_view().file,
            body.deep_view(),
        ),
{
    let published = find_publish_site(wanted, call, args, body, setting);
    if published.is_some() {
        published
    } else {
        find_subscribe_site(wanted, call, args, body, setting)
    }
}

/// Matches a method call.
fn try_match_method_call(
    call: &Call<'_>,
    args: &[ArgNode],
    body: &Option<String>,
    setting: &Setting<'_>,
) -> (out: Option<RawCallSite>)
    ensures
        out.deep_view() == method_call_site(
            setting.deep_view().config,
            setting.deep_view().imports,
            call.deep_view(),
            args.deep_view(),
            setting.deep_view().file,
            body.deep_view(),
        ),
{
    let by_trait = find_site(PublisherKind::Trait, call, args, body, setting);
    if by_trait.is_some() {
        by_trait
    } else {
        find_site(PublisherKind::Inherent, call, args, body, setting)
    }
}

/// Matches a call of an associated function.
fn try_match_call(
    func: &ExprNode,
    line: usize,
    column: usize,
    args: &[ArgNode],
    body: &Option<String>,
    setting: &Setting<'_>,
) -> (out: Option<RawCallSite>)
    ensures
        out.deep_view() == function_call_site(
            setting.deep_view().config,
            setting.deep_view().imports,
            func.deep_view(),
            line as int,
            column as int,
            args.deep_view(),
            setting.deep_view().file,
            body.deep_view(),
        ),
{
    match associated_fn_segments(func) {
        Some(f) => {
            let call = Call {
                receiver: Some(f.0.as_str()),
                name: f.1.as_str(),
                line,
                column,
            };
            find_site(PublisherKind::Inherent, &call, args, body, setting)
        },
        None => None,
    }
}

fn is_looked_at(frames: &Vec<Frame>) -> (yes: bool)
    ensures
        yes == looked_at(frames.deep_view()),
{
    let ghost model = frames.deep_view();
    let mut i: usize = 0;
    while i < frames.len()
        invariant
            i <= frames.len(),
            model == frames.deep_view(),
            forall|j: int|
                0 <= j < i && #[trigger] model[j] is Impl ==> j + 1 < model.len() && model[j + 1]
                    is Method,
        decreases frames.len() - i,
    {
        assert(model[i as int] == frames@[i as int].deep_view());
        if let Frame::Impl = &frames[i] {
            if i + 1 >= frames.len() {
                return false;
            }
            assert(model[i + 1] == frames@[i + 1].deep_view());
            match &frames[i + 1] {
                Frame::Method(_) => {},
                _ => {
                    return false;
                },
            }
        }
        i += 1;
    }
    true
}

fn current_module_path(crate_name: &str, frames: &Vec<Frame>) -> (out: String)
    ensures
        out@ == path_of_module(crate_name@, frames.deep_view()),
{
    let ghost model = frames.deep_view();
    let mut out = underscore(crate_name);
    let mut i: usize = 0;
    assert(model.take(0) =~= Seq::empty());
    while i < frames.len()
        invariant
            i <= frames.len(),
            model == frames.deep_view(),
            out@ == path_of_module(crate_name@, model.take(i as int)),
        decreases frames.len() - i,
    {
        assert(model[i as int] == frames@[i as int].deep_view());
        assert(model.take(i + 1).drop_last() =~= model.take(i as int));
        if let Frame::Module(name) = &frames[i] {
            out.append("::");
            out.append(name.as_str());
        }
        i += 1;
    }
    assert(model.take(i as int) =~= model);
    out
}

fn fq_for(crate_name: &str, frames: &Vec<Frame>, name: &str) -> (out: FqPath)
    ensures
        out@ == item_path(crate_name@, frames.deep_view(), name@),
{
    let mut out = current_module_path(crate_name, frames);
    out.append("::");
    out.append(name);
    out
}

fn innermost_body(frames: &Vec<Frame>) -> (out: Option<String>)
    ensures
        out.deep_view() == enclosing_body(frames.deep_view()),
{
    let ghost model = frames.deep_view();
    let mut n: usize = frames.len();
    assert(model.take(n as int) =~= model);
    while n > 0
        invariant
            n <= frames.len(),
            model == frames.deep_view(),
            enclosing_body(model) == enclosing_body(model.take(n as int)),
        decreases n,
    {
        assert(model.take(n as int).last() == frames@[n - 1].deep_view());
        assert(model.take(n as int).drop_last() =~= model.take(n - 1));
        match &frames[n - 1] {
            Frame::Method(b) => {
                return Some(b.clone());
            },
            Frame::TraitMethod(Some(b)) => {
                return Some(b.clone());
            },
            Frame::Function(b) => {
                return Some(b.clone());
            },
            _ => {},
        }
        n -= 1;
    }
    None
}

fn strip_space(s: &str) -> (out: String)
    ensures
        out@ == without_space(s@),
{
    let chars = chars_of(s);
    let mut out = String::new();
    let mut i: usize = 0;
    assert(chars@.take(0) =~= Seq::empty());
    assert(out@ =~= Seq::empty());
    while i < chars.len()
        invariant
            i <= chars.len(),
            chars@ == s@,
            out@ == without_space(chars@.take(i as int)),
        decreases chars.len() - i,
    {
        assert(chars@.take(i + 1).drop_last() =~= chars@.take(i as int));
        if !space(chars[i]) {
            out.push(chars[i]);
        }
        i += 1;
    }
    assert(chars@.take(i as int) =~= chars@);
    out
}

fn snippet(source: &str, file: &str, line: usize, column: usize) -> (out: ExprSnippet)
    ensures
        out.deep_view() == snippet_at(source@, file@, line as int, column as int),
{
    ExprSnippet {
        source: source.to_owned(),
        span: Span { file: file.to_owned(), line, column: shift_column(column) },
    }
}

fn push_methods(
    type_path: &str,
    items: &[ImplNode],
    file: &str,
    symbols: &mut Vec<(FqPath, Symbol)>,
)
    ensures
        final(symbols).deep_view() == old(symbols).deep_view() + method_symbols(
            type_path@,
            items.deep_view(),
            file@,
        ),
{
    let ghost all = items.deep_view();
    let ghost start = symbols.deep_view();
    let mut i: usize = 0;
    assert(all.take(0) =~= Seq::empty());
    assert(start =~= start + method_symbols(type_path@, all.take(0), file@));
    while i < items.len()
        invariant
            i <= items.len(),
            all == items.deep_view(),
            symbols.deep_view() == start + method_symbols(
                type_path@,
                all.take(i as int),
                file@,
            ),
        decreases items.len() - i,
    {
        let ghost front = symbols.deep_view();
        assert(all[i as int] == items@[i as int].deep_view());
        assert(all.take(i + 1).drop_last() =~= all.take(i as int));
        match &items[i] {
            ImplNode::Fn { name, line, column, body } => {
                let mut path = concat(type_path, "::");
                path.append(name.as_str());
                let symbol = Symbol::Method {
                    type_path: type_path.to_owned(),
                    body: snippet(body.as_str(), file, *line, *column),
                };
                let ghost added = (path@, symbol.deep_view());
                symbols.push((path, symbol));
                assert(symbols.deep_view() =~= front.push(added));
            },
            ImplNode::Other => {},
        }
        assert(symbols.deep_view() =~= start + method_symbols(
            type_path@,
            all.take(i + 1),
            file@,
        ));
        i += 1;
    }
    assert(all.take(i as int) =~= all);
}

impl Visitor {
    fn enter(&mut self, frame: Frame)
        ensures
            final(self)@ == entered(old(self)@, frame.deep_view()),
    {
        let ghost front = self.frames.deep_view();
        self.frames.push(frame);
        assert(self.frames.deep_view() =~= front.push(frame.deep_view()));
    }

    fn leave(&mut self)
        ensures
            final(self)@ == left(old(self)@),
    {
        let ghost front = self.frames.deep_view();
        let _ = self.frames.pop();
        proof {
            if front.len() > 0 {
                assert(self.frames.deep_view() =~= front.drop_last());
            } else {
                assert(self.frames.deep_view() =~= front);
            }
        }
    }

    fn push_site(&mut self, site: Option<RawCallSite>)
        ensures
            final(self)@ == with_site(old(self)@, site.deep_view()),
    {
        let ghost front = self.sites.deep_view();
        if let Some(s) = site {
            self.sites.push(s);
            assert(self.sites.deep_view() =~= front.push(s.deep_view()));
        }
    }

    fn push_symbol(&mut self, path: FqPath, symbol: Symbol)
        ensures
            final(self)@ == with_symbols(old(self)@, seq![(path@, symbol.deep_view())]),
    {
        let ghost front = self.symbols.deep_view();
        let ghost added = (path@, symbol.deep_view());
        self.symbols.push((path, symbol));
        assert(self.symbols.deep_view() =~= front + seq![added]);
    }

    /// Takes in one event.
    fn visit(&mut self, event: &SourceEvent, setting: &Setting<'_>)
        ensures
            final(self)@ == stepped(old(self)@, event.deep_view(), setting.deep_view()),
    {
        let live = is_looked_at(&self.frames);
        match event {
            SourceEvent::EnterMod { name } => {
                self.enter(Frame::Module(name.clone()));
            },
            SourceEvent::EnterImpl { self_type, items } => {
                if live {
                    let type_path = strip_space(self_type.as_str());
                    push_methods(
                        type_path.as_str(),
                        items.as_slice(),
                        setting.file,
                        &mut self.symbols,
                    );
                }
                self.enter(Frame::Impl);
            },
            SourceEvent::Use(_) => {},
            SourceEvent::EnterTraitMethod { default } => {
                self.enter(Frame::TraitMethod(copy_text(default)));
            },
            SourceEvent::EnterMethod { body } => {
                self.enter(Frame::Method(body.clone()));
            },
            SourceEvent::Const { name, line, column, value } => {
                if live {
                    let path = fq_for(setting.crate_name, &self.frames, name.as_str());
                    let found = snippet(value.as_str(), setting.file, *line, *column);
                    self.push_symbol(path, Symbol::Const(found));
                }
            },
            SourceEvent::EnterFn { name, line, column, body } => {
                if live {
                    let path = fq_for(setting.crate_name, &self.frames, name.as_str());
                    let found = snippet(body.as_str(), setting.file, *line, *column);
                    self.push_symbol(path, Symbol::Function(found));
                }
                self.enter(Frame::Function(body.clone()));
            },
            SourceEvent::MethodCall { method, line, column, args } => {
                if live {
                    let body = innermost_body(&self.frames);
                    let call = Call {
                        receiver: None,
                        name: method.as_str(),
                        line: *line,
                        column: *column,
                    };
                    let site = try_match_method_call(&call, args.as_slice(), &body, setting);
                    self.push_site(site);
                }
            },
            SourceEvent::Call { func, line, column, args } => {
                if live {
                    let body = innermost_body(&self.frames);
                    let site = try_match_call(
                        func,
                        *line,
                        *column,
                        args.as_slice(),
                        &body,
                        setting,
                    );
                    self.push_site(site);
                }
            },
            SourceEvent::LeaveMod => {
                self.leave();
            },
            SourceEvent::LeaveImpl => {
                self.leave();
            },
            SourceEvent::LeaveMethod => {
                self.leave();
            },
            SourceEvent::LeaveTraitMethod => {
                self.leave();
            },
            SourceEvent::LeaveFn => {
                self.leave();
            },
        }
    }
}

fn place_site(sites: &mut Vec<RawCallSite>, site: RawCallSite)
    ensures
        final(sites).deep_view() == placed(
            old(sites).deep_view(),
            site.deep_view(),
            |a: SiteView, b: SiteView| site_lt(a, b),
        ),
{
    let ghost lt = |a: SiteView, b: SiteView| site_lt(a, b);
    let ghost all = sites.deep_view();
    let ghost x = site.deep_view();
    let mut n: usize = sites.len();
    assert(all.take(n as int) =~= all);
    assert(placed(all.take(n as int), x, lt) + all.skip(n as int) =~= placed(all, x, lt));
    while n > 0 && (site.line < sites[n - 1].line || (site.line == sites[n - 1].line && site.column
        < sites[n - 1].column))
        invariant
            n <= sites.len(),
            all == sites.deep_view(),
            x == site.deep_view(),
            lt == (|a: SiteView, b: SiteView| site_lt(a, b)),
            placed(all.take(n as int), x, lt) + all.skip(n as int) == placed(all, x, lt),
        decreases n,
    {
        let ghost front = all.take(n as int);
        assert(front.last() == sites@[n - 1].deep_view());
        assert(front.drop_last() =~= all.take(n - 1));
        assert(placed(all.take(n - 1), x, lt) + all.skip(n - 1) =~= placed(front, x, lt)
            + all.skip(n as int));
        n -= 1;
    }
    let ghost front = all.take(n as int);
    if n > 0 {
        assert(front.last() == sites@[n - 1].deep_view());
    }
    sites.insert(n, site);
    assert(sites.deep_view() =~= front.push(x) + all.skip(n as int));
}

/// Extracts call sites and symbols from a parsed file.
#[must_use]
pub fn extract_parsed(
    parsed: &SourceFile,
    file: &str,
    crate_name: &str,
    config: &CallSiteConfig,
) -> (out: PerFileCallSites)
    ensures
        out.deep_view() == extracted(
            parsed.deep_view(),
            file@,
            crate_name@,
            config.deep_view(),
        ),
{
    let imports = collect_imports(parsed.events.as_slice());
    let setting = Setting { file, crate_name, config, imports: imports.as_slice() };
    let ghost s = setting.deep_view();
    let ghost events = parsed.events.deep_view();
    let mut visitor = Visitor { frames: Vec::new(), sites: Vec::new(), symbols: Vec::new() };
    let mut i: usize = 0;
    assert(visitor@.frames =~= Seq::empty());
    assert(visitor@.sites =~= Seq::empty());
    assert(visitor@.symbols =~= Seq::empty());
    assert(events.take(0) =~= Seq::empty());
    while i < parsed.events.len()
        invariant
            i <= parsed.events.len(),
            events == parsed.events.deep_view(),
            s == setting.deep_view(),
            visitor@ == walked(events.take(i as int), s),
        decreases parsed.events.len() - i,
    {
        assert(events[i as int] == parsed.events@[i as int].deep_view());
        assert(events.take(i + 1).drop_last() =~= events.take(i as int));
        visitor.visit(&parsed.events[i], &setting);
        i += 1;
    }
    assert(events.take(i as int) =~= events);
    let ghost lt = |a: SiteView, b: SiteView| site_lt(a, b);
    let ghost found = visitor@.sites;
    let mut sites: Vec<RawCallSite> = Vec::new();
    let mut k: usize = 0;
    assert(sites.deep_view() =~= Seq::empty());
    assert(found.take(0) =~= Seq::empty());
    while k < visitor.sites.len()
        invariant
            k <= visitor.sites.len(),
            found == visitor.sites.deep_view(),
            lt == (|a: SiteView, b: SiteView| site_lt(a, b)),
            sites.deep_view() == stable_sorted(found.take(k as int), lt),
        decreases visitor.sites.len() - k,
    {
        assert(found[k as int] == visitor.sites@[k as int].deep_view());
        assert(found.take(k + 1).drop_last() =~= found.take(k as int));
        place_site(&mut sites, visitor.sites[k].clone());
        k += 1;
    }
    assert(found.take(k as int) =~= found);
    PerFileCallSites {
        sites,
        symbols: PerFileSymbols { crate_name: crate_name.to_owned(), symbols: visitor.symbols },
    }
}

/// Parses the source text of a file and extracts its call sites and symbols.
pub fn extract(file: &str, source: &str, crate_name: &str, config: &CallSiteConfig) -> (out: Result<
    PerFileCallSites,
    ParseError,
>)
    ensures
        match walked_source(source@) {
            Ok(parsed) => out matches Ok(x) && x.deep_view() == extracted(
                parsed,
                file@,
                crate_name@,
                config.deep_view(),
            ),
            Err(reason) => out matches Err(ParseError::Syn { file: f, message: m }) && f@ == file@
                && m@ == reason,
        },
{
    match walk_source(source) {
        Ok(parsed) => Ok(extract_parsed(&parsed, file, crate_name, config)),
        Err(message) => Err(ParseError::Syn { file: file.to_owned(), message }),
    }
}

} // verus!
