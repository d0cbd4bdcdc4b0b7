//! Subject resolution: turns the expression of a subject argument into a
//! subject pattern.
//!
//! The resolver works on texts. It parses an expression, strips adapters that
//! do not change the value (`&`, parentheses, `.to_owned()` and the like) and
//! goes by the shape of what is left: a literal is its value; a path is looked
//! up as a local binding, then as a constant of the crate, then as a constant of
//! a helper crate; a builder call is the first `format!` among the statements of
//! the builder, or else the first string literal there that looks like a subject,
//! or else the last expression; a `format!` is its template with the holes filled.
//!
//! Each lookup takes one step off a budget, and what is being looked up is kept
//! in a set, so that definitions that refer to each other do not loop.

use super::symbol_index::{lookup, EntryView, Symbol, SymbolIndex, SymbolView};
use super::template::{
    find_hole_source, find_let_binding, format_tokens, hole_source, lemma_count_hole_source,
    lemma_count_trim, let_binding, pieces_from, quoted_chars, read_format, read_quoted,
    read_template, template_pieces, Piece, PieceView,
};
use crate::model::pattern::{parsed, NatsPattern};
use crate::syntax::{
    head_bangs, parse_block, parse_expr, parsed_block, parsed_expr, ExprNode, ExprView, StmtNode,
    StmtView,
};
use crate::text::{
    chars_of, concat, count_of, ends_with, find, has_suffix, join, join_with, list_has, lossy_text,
    same_text, string_of, trim, trim_of, underscore, underscored, upto, utf8_lossy,
};
use vstd::hash_set::StringHashSet;
use vstd::prelude::*;

verus! {

/// A resolved subject: dynamic segments render as `*`.
pub type SubjectPattern = String;

/// Outcome of resolving one expression.
#[derive(Debug, PartialEq, Eq)]
pub enum ResolveOutcome {
    /// The subject was recovered in full.
    Resolved(SubjectPattern),
    /// At least one segment is dynamic and renders as `*`.
    PartiallyResolved(SubjectPattern),
    /// The resolver gave up.
    Unresolved(UnresolvedReason),
}

/// Why resolving failed.
#[derive(Debug, PartialEq, Eq)]
pub enum UnresolvedReason {
    /// The lookup budget was used up.
    DepthExhausted,
    /// The name was found neither in the crate nor in the helper crates.
    SymbolNotFound {
        /// Name that was looked up.
        path: String,
    },
    /// The expression has a shape that the resolver does not follow.
    UnsupportedShape {
        /// What shape it is.
        kind: &'static str,
    },
    /// The text did not parse.
    ParseError {
        /// The text.
        snippet: String,
        /// What the parser said.
        message: String,
    },
}

/// The model of a [`ResolveOutcome`].
pub enum OutcomeView {
    Resolved(Seq<char>),
    PartiallyResolved(Seq<char>),
    Unresolved(ReasonView),
}

/// The model of an [`UnresolvedReason`].
pub enum ReasonView {
    DepthExhausted,
    SymbolNotFound { path: Seq<char> },
    UnsupportedShape { kind: Seq<char> },
    ParseError { snippet: Seq<char>, message: Seq<char> },
}

impl DeepView for UnresolvedReason {
    type V = ReasonView;

    open spec fn deep_view(&self) -> ReasonView {
        match self {
            UnresolvedReason::DepthExhausted => ReasonView::DepthExhausted,
            UnresolvedReason::SymbolNotFound { path } => ReasonView::SymbolNotFound {
                path: path@,
            },
            UnresolvedReason::UnsupportedShape { kind } => ReasonView::UnsupportedShape {
                kind: kind@,
            },
            UnresolvedReason::ParseError { snippet, message } => ReasonView::ParseError {
                snippet: snippet@,
                message: message@,
            },
        }
    }
}

impl DeepView for ResolveOutcome {
    type V = OutcomeView;

    open spec fn deep_view(&self) -> OutcomeView {
        match self {
            ResolveOutcome::Resolved(s) => OutcomeView::Resolved(s@),
            ResolveOutcome::PartiallyResolved(s) => OutcomeView::PartiallyResolved(s@),
            ResolveOutcome::Unresolved(r) => OutcomeView::Unresolved(r.deep_view()),
        }
    }
}

impl Clone for UnresolvedReason {
    fn clone(&self) -> (out: Self)
        ensures
            out.deep_view() == self.deep_view(),
    {
        match self {
            UnresolvedReason::DepthExhausted => UnresolvedReason::DepthExhausted,
            UnresolvedReason::SymbolNotFound { path } => UnresolvedReason::SymbolNotFound {
                path: path.clone(),
            },
            UnresolvedReason::UnsupportedShape { kind } => UnresolvedReason::UnsupportedShape {
                kind: *kind,
            },
            UnresolvedReason::ParseError { snippet, message } => UnresolvedReason::ParseError {
                snippet: snippet.clone(),
                message: message.clone(),
            },
        }
    }
}

impl Clone for ResolveOutcome {
    fn clone(&self) -> (out: Self)
        ensures
            out.deep_view() == self.deep_view(),
    {
        match self {
            ResolveOutcome::Resolved(s) => ResolveOutcome::Resolved(s.clone()),
            ResolveOutcome::PartiallyResolved(s) => ResolveOutcome::PartiallyResolved(s.clone()),
            ResolveOutcome::Unresolved(r) => ResolveOutcome::Unresolved(r.clone()),
        }
    }
}

/// Where an expression stands, and what counts as a subject builder.
#[derive(Debug, Clone, Copy)]
pub struct Scope<'a> {
    /// Crate of the call site, which is searched first.
    pub current_crate: &'a str,
    /// Crates that are searched after it, in order.
    pub helper_crates: &'a [String],
    /// Names of methods that build subjects (`nats_subject`).
    pub subject_builder_methods: &'a [String],
    /// Names of free functions that build subjects.
    pub subject_builder_functions: &'a [String],
    /// Text of the body of the enclosing function, in which local bindings are
    /// looked up. `None` turns that off.
    pub fn_body_source: Option<&'a str>,
}

/// The model of a [`Scope`].
pub struct ScopeView {
    pub current_crate: Seq<char>,
    pub helper_crates: Seq<Seq<char>>,
    pub subject_builder_methods: Seq<Seq<char>>,
    pub subject_builder_functions: Seq<Seq<char>>,
    pub fn_body_source: Option<Seq<char>>,
}

impl<'a> DeepView for Scope<'a> {
    type V = ScopeView;

    open spec fn deep_view(&self) -> ScopeView {
        ScopeView {
            current_crate: self.current_crate@,
            helper_crates: self.helper_crates.deep_view(),
            subject_builder_methods: self.subject_builder_methods.deep_view(),
            subject_builder_functions: self.subject_builder_functions.deep_view(),
            fn_body_source: match self.fn_body_source {
                Some(b) => Some(b@),
                None => None,
            },
        }
    }
}

impl<'a> Scope<'a> {
    /// A scope without a function body.
    #[must_use]
    pub fn new(
        current_crate: &'a str,
        helper_crates: &'a [String],
        builder_methods: &'a [String],
        builder_functions: &'a [String],
    ) -> (out: Self)
        ensures
            out.deep_view() == (ScopeView {
                current_crate: current_crate@,
                helper_crates: helper_crates.deep_view(),
                subject_builder_methods: builder_methods.deep_view(),
                subject_builder_functions: builder_functions.deep_view(),
                fn_body_source: None,
            }),
    {
        Scope {
            current_crate,
            helper_crates,
            subject_builder_methods: builder_methods,
            subject_builder_functions: builder_functions,
            fn_body_source: None,
        }
    }
}

/// The lookup budget of [`resolve`]. A typical chain takes five steps: call
/// site, local binding, builder, argument of a `format!`, constant.
pub const DEFAULT_DEPTH: u8 = 6;

// ---------------------------------------------------------------------
// what is looked up
// ---------------------------------------------------------------------

/// An expression without the adapters around it that keep its value.
pub open spec fn stripped(e: ExprView) -> ExprView
    decreases e,
{
    match e {
        ExprView::Reference(x) => stripped(*x),
        ExprView::Paren(x) => stripped(*x),
        ExprView::Group(x) => stripped(*x),
        ExprView::MethodCall { receiver, method } => if is_adapter(method) {
            stripped(*receiver)
        } else {
            e
        },
        _ => e,
    }
}

/// A method whose result is its receiver, as far as subjects go.
pub open spec fn is_adapter(method: Seq<char>) -> bool {
    ||| method == "to_owned"@
    ||| method == "to_string"@
    ||| method == "clone"@
    ||| method == "into"@
    ||| method == "as_str"@
    ||| method == "as_ref"@
}

/// The last segment of a path, or the empty text.
pub open spec fn last_ident(path: Seq<Seq<char>>) -> Seq<char> {
    if path.len() == 0 {
        Seq::empty()
    } else {
        path.last()
    }
}

/// Whether `path` ends in `::name`.
pub open spec fn names_item(path: Seq<char>, name: Seq<char>) -> bool {
    has_suffix(path, "::"@ + name)
}

/// The bodies of the methods of that name, in the order of the index.
pub open spec fn method_bodies(entries: Seq<EntryView>, name: Seq<char>) -> Seq<Seq<char>>
    decreases entries.len(),
{
    if entries.len() == 0 {
        Seq::empty()
    } else {
        let front = method_bodies(entries.drop_last(), name);
        match entries.last().symbol {
            SymbolView::Method { type_path, body } => if names_item(entries.last().path, name) {
                front.push(body.source)
            } else {
                front
            },
            _ => front,
        }
    }
}

/// The bodies of the free functions of that name, in the order of the index.
pub open spec fn function_bodies(entries: Seq<EntryView>, name: Seq<char>) -> Seq<Seq<char>>
    decreases entries.len(),
{
    if entries.len() == 0 {
        Seq::empty()
    } else {
        let front = function_bodies(entries.drop_last(), name);
        match entries.last().symbol {
            SymbolView::Function(body) => if names_item(entries.last().path, name) {
                front.push(body.source)
            } else {
                front
            },
            _ => front,
        }
    }
}

/// The text of a constant.
pub open spec fn const_text(s: Option<SymbolView>) -> Option<Seq<char>> {
    match s {
        Some(SymbolView::Const(x)) => Some(x.source),
        _ => None,
    }
}

/// What the crate has under the path of the first of the constants `rest` that
/// ends in `::ident` and whose path the crate knows.
pub open spec fn symbol_by_ident(
    rest: Seq<EntryView>,
    entries: Seq<EntryView>,
    crate_name: Seq<char>,
    ident: Seq<char>,
) -> Option<SymbolView>
    decreases rest.len(),
{
    if rest.len() == 0 {
        None
    } else if rest[0].symbol is Const && names_item(rest[0].path, ident) && lookup(
        entries,
        crate_name,
        rest[0].path,
    ) is Some {
        lookup(entries, crate_name, rest[0].path)
    } else {
        symbol_by_ident(rest.drop_first(), entries, crate_name, ident)
    }
}

/// The path of an item at the root of the crate.
pub open spec fn crate_path(crate_name: Seq<char>, path: Seq<char>) -> Seq<char> {
    underscored(crate_name) + "::"@ + path
}

/// The text of the constant that `path` names in the crate: at its root, as it
/// is written, or by its last segment in any module.
pub open spec fn crate_const(
    entries: Seq<EntryView>,
    crate_name: Seq<char>,
    path: Seq<char>,
    ident: Seq<char>,
) -> Option<Seq<char>> {
    let at_root = const_text(lookup(entries, crate_name, crate_path(crate_name, path)));
    let as_written = const_text(lookup(entries, crate_name, path));
    if at_root is Some {
        at_root
    } else if as_written is Some {
        as_written
    } else {
        const_text(symbol_by_ident(entries, entries, crate_name, ident))
    }
}

pub open spec fn binding_key(ident: Seq<char>) -> Seq<char> {
    "binding:"@ + ident
}

pub open spec fn const_key(path: Seq<char>) -> Seq<char> {
    "const:"@ + path
}

pub open spec fn helper_key(helper: Seq<char>, path: Seq<char>) -> Seq<char> {
    "helperconst:"@ + helper + "::"@ + path
}

/// The first helper constant that `path` names and that is not being looked up
/// already, with the key under which it will be. In each crate the path as it is
/// written comes before its last segment.
pub open spec fn helper_const(
    entries: Seq<EntryView>,
    helpers: Seq<Seq<char>>,
    path: Seq<char>,
    ident: Seq<char>,
    visited: Set<Seq<char>>,
) -> Option<(Seq<char>, Seq<char>)>
    decreases helpers.len(),
{
    if helpers.len() == 0 {
        None
    } else {
        let helper = helpers[0];
        let as_written = const_text(lookup(entries, helper, path));
        let by_ident = const_text(symbol_by_ident(entries, entries, helper, ident));
        if as_written is Some && !visited.contains(helper_key(helper, path)) {
            Some((helper_key(helper, path), as_written->0))
        } else if by_ident is Some && !visited.contains(helper_key(helper, ident)) {
            Some((helper_key(helper, ident), by_ident->0))
        } else {
            helper_const(entries, helpers.drop_first(), path, ident, visited)
        }
    }
}

// ---------------------------------------------------------------------
// resolution
// ---------------------------------------------------------------------

/// The outcome of a resolution, and the set of what is being looked up
/// afterwards.
pub struct Resolution {
    pub outcome: OutcomeView,
    pub visited: Set<Seq<char>>,
}

pub open spec fn unsupported(kind: Seq<char>) -> OutcomeView {
    OutcomeView::Unresolved(ReasonView::UnsupportedShape { kind })
}

pub open spec fn not_found(path: Seq<char>) -> OutcomeView {
    OutcomeView::Unresolved(ReasonView::SymbolNotFound { path })
}

pub open spec fn exhausted() -> OutcomeView {
    OutcomeView::Unresolved(ReasonView::DepthExhausted)
}

/// Resolves a text. The parser gives no expression with more `!` at its head
/// than the text has, so the last case does not arise; it bounds the recursion
/// through the arguments of nested `format!`.
pub open spec fn resolve_text(
    text: Seq<char>,
    entries: Seq<EntryView>,
    scope: ScopeView,
    depth: nat,
    visited: Set<Seq<char>>,
) -> Resolution
    decreases depth, count_of(text, '!'), 3nat, 0nat,
{
    if depth == 0 {
        Resolution { outcome: exhausted(), visited }
    } else {
        match parsed_expr(text) {
            Err(message) => Resolution {
                outcome: OutcomeView::Unresolved(
                    ReasonView::ParseError { snippet: text, message },
                ),
                visited,
            },
            Ok(e) => if head_bangs(e) <= count_of(text, '!') {
                resolve_node(e, entries, scope, depth, visited)
            } else {
                Resolution { outcome: exhausted(), visited }
            },
        }
    }
}

/// Resolves an expression by its shape.
pub open spec fn resolve_node(
    e: ExprView,
    entries: Seq<EntryView>,
    scope: ScopeView,
    depth: nat,
    visited: Set<Seq<char>>,
) -> Resolution
    decreases depth, head_bangs(e), 2nat, 0nat,
{
    proof {
        lemma_stripped_bangs(e);
    }
    match stripped(e) {
        ExprView::Str(s) => Resolution { outcome: OutcomeView::Resolved(s), visited },
        ExprView::ByteStr(b) => Resolution {
            outcome: OutcomeView::Resolved(utf8_lossy(b)),
            visited,
        },
        ExprView::OtherLit => Resolution { outcome: unsupported("non-string literal"@), visited },
        ExprView::Path(p) => resolve_path(p, entries, scope, depth, visited),
        ExprView::Macro { path, tokens } => if last_ident(path) == "format"@ {
            resolve_format(tokens, entries, scope, depth, visited)
        } else if last_ident(path) == "concat"@ {
            Resolution { outcome: concat_outcome(tokens), visited }
        } else {
            Resolution { outcome: unsupported("non-format macro"@), visited }
        },
        ExprView::MethodCall { receiver, method } => if scope.subject_builder_methods.contains(
            method,
        ) {
            resolve_builder(
                method_bodies(entries, method),
                0,
                "method:"@ + method,
                method,
                entries,
                scope,
                depth,
                visited,
            )
        } else {
            Resolution { outcome: unsupported("non-builder method call"@), visited }
        },
        ExprView::Call { func } => match *func {
            ExprView::Path(p) => resolve_builder(
                function_bodies(entries, last_ident(p)),
                0,
                "fn:"@ + last_ident(p),
                last_ident(p),
                entries,
                scope,
                depth,
                visited,
            ),
            _ => Resolution { outcome: unsupported("non-path function call"@), visited },
        },
        ExprView::Field => Resolution {
            outcome: OutcomeView::PartiallyResolved("*"@),
            visited,
        },
        _ => Resolution { outcome: unsupported("other expression shape"@), visited },
    }
}

/// Resolves a text that a lookup found, with `key` marked meanwhile. Takes one
/// step off the budget; none is left at 0.
pub open spec fn resolve_found(
    key: Seq<char>,
    text: Seq<char>,
    entries: Seq<EntryView>,
    scope: ScopeView,
    depth: nat,
    visited: Set<Seq<char>>,
) -> Resolution
    decreases depth, 0nat, 0nat, 0nat,
{
    let r = if depth == 0 {
        Resolution { outcome: exhausted(), visited: visited.insert(key) }
    } else {
        resolve_text(text, entries, scope, (depth - 1) as nat, visited.insert(key))
    };
    Resolution { outcome: r.outcome, visited: r.visited.remove(key) }
}

/// Resolves a path: as a local binding, unless the binding refers to something
/// that is not found; as a constant of the crate; as a constant of a helper
/// crate.
pub open spec fn resolve_path(
    path: Seq<Seq<char>>,
    entries: Seq<EntryView>,
    scope: ScopeView,
    depth: nat,
    visited: Set<Seq<char>>,
) -> Resolution
    decreases depth, 0nat, 1nat, 0nat,
{
    let ident = last_ident(path);
    let key = binding_key(ident);
    match scope_binding(scope, ident) {
        Some(rhs) => if visited.contains(key) {
            resolve_const(path, entries, scope, depth, visited.remove(key))
        } else {
            let r = resolve_found(key, rhs, entries, scope, depth, visited);
            if is_not_found(r.outcome) {
                resolve_const(path, entries, scope, depth, r.visited)
            } else {
                r
            }
        },
        None => resolve_const(path, entries, scope, depth, visited),
    }
}

pub open spec fn is_not_found(o: OutcomeView) -> bool {
    o matches OutcomeView::Unresolved(ReasonView::SymbolNotFound { path })
}

/// The right-hand side that the enclosing function binds `ident` to.
pub open spec fn scope_binding(scope: ScopeView, ident: Seq<char>) -> Option<Seq<char>> {
    match scope.fn_body_source {
        Some(body) => let_binding(body, ident),
        None => None,
    }
}

/// Resolves a path as a constant.
pub open spec fn resolve_const(
    path: Seq<Seq<char>>,
    entries: Seq<EntryView>,
    scope: ScopeView,
    depth: nat,
    visited: Set<Seq<char>>,
) -> Resolution
    decreases depth, 0nat, 0nat, 2nat,
{
    let ident = last_ident(path);
    let written = join(path, "::"@);
    let key = const_key(crate_path(scope.current_crate, written));
    match crate_const(entries, scope.current_crate, written, ident) {
        Some(text) => if visited.contains(key) {
            resolve_helper(path, entries, scope, depth, visited.remove(key))
        } else {
            resolve_found(key, text, entries, scope, depth, visited)
        },
        None => resolve_helper(path, entries, scope, depth, visited.remove(key)),
    }
}

/// Resolves a path as a constant of a helper crate.
pub open spec fn resolve_helper(
    path: Seq<Seq<char>>,
    entries: Seq<EntryView>,
    scope: ScopeView,
    depth: nat,
    visited: Set<Seq<char>>,
) -> Resolution
    decreases depth, 0nat, 0nat, 1nat,
{
    let written = join(path, "::"@);
    match helper_const(entries, scope.helper_crates, written, last_ident(path), visited) {
        Some(found) => resolve_found(found.0, found.1, entries, scope, depth, visited),
        None => Resolution { outcome: not_found(written), visited },
    }
}

/// Resolves a builder call: the first of the bodies from the `i`-th on that
/// resolves, with `key` marked meanwhile.
pub open spec fn resolve_builder(
    bodies: Seq<Seq<char>>,
    i: nat,
    key: Seq<char>,
    name: Seq<char>,
    entries: Seq<EntryView>,
    scope: ScopeView,
    depth: nat,
    visited: Set<Seq<char>>,
) -> Resolution
    decreases depth, 0nat, 1nat, bodies.len() - i,
{
    if i >= bodies.len() {
        Resolution { outcome: not_found(name), visited }
    } else if visited.contains(key) {
        resolve_builder(bodies, i + 1, key, name, entries, scope, depth, visited)
    } else {
        let r = if depth == 0 {
            Resolution { outcome: exhausted(), visited: visited.insert(key) }
        } else {
            resolve_body(
                bodies[i as int],
                entries,
                scope,
                (depth - 1) as nat,
                visited.insert(key),
            )
        };
        if r.outcome is Unresolved {
            resolve_builder(
                bodies,
                i + 1,
                key,
                name,
                entries,
                scope,
                depth,
                r.visited.remove(key),
            )
        } else {
            Resolution { outcome: r.outcome, visited: r.visited.remove(key) }
        }
    }
}

/// The expression that a statement is or holds.
pub open spec fn held(s: StmtView) -> Option<ExprView> {
    match s {
        StmtView::Expr(e) => Some(e),
        StmtView::Return(e) => e,
        StmtView::Let(e) => e,
        StmtView::Macro(e) => Some(e),
        StmtView::Other => None,
    }
}

/// Whether an expression is a `format!`, but for adapters.
pub open spec fn is_format(e: ExprView) -> bool {
    stripped(e) matches ExprView::Macro { path, tokens } && last_ident(path) == "format"@
}

/// Whether an expression is a string literal that looks like a subject, but for
/// adapters: its text is a pattern.
pub open spec fn is_subject_literal(e: ExprView) -> bool {
    stripped(e) matches ExprView::Str(text) && parsed(text) is Ok
}

/// Whether a statement is or holds a `format!`.
pub open spec fn gives_format(s: StmtView) -> bool {
    held(s) matches Some(e) && is_format(e)
}

/// Whether a statement is or holds a string literal that looks like a subject.
pub open spec fn gives_literal(s: StmtView) -> bool {
    held(s) matches Some(e) && is_subject_literal(e)
}

/// The first `format!` among the statements from the `i`-th on.
pub open spec fn first_format(stmts: Seq<StmtView>, i: int) -> Option<ExprView>
    decreases stmts.len() - i,
{
    if i < 0 || i >= stmts.len() {
        None
    } else if gives_format(stmts[i]) {
        held(stmts[i])
    } else {
        first_format(stmts, i + 1)
    }
}

/// The first string literal that looks like a subject among the statements from
/// the `i`-th on.
pub open spec fn first_literal(stmts: Seq<StmtView>, i: int) -> Option<ExprView>
    decreases stmts.len() - i,
{
    if i < 0 || i >= stmts.len() {
        None
    } else if gives_literal(stmts[i]) {
        held(stmts[i])
    } else {
        first_literal(stmts, i + 1)
    }
}

/// The template of a body: its first `format!`, and without one its first string
/// literal that looks like a subject.
pub open spec fn body_template(stmts: Seq<StmtView>) -> Option<ExprView> {
    match first_format(stmts, 0) {
        Some(e) => Some(e),
        None => first_literal(stmts, 0),
    }
}

/// The most `!` that the head of one of the statements takes up.
pub open spec fn most_bangs(stmts: Seq<StmtView>) -> nat
    decreases stmts.len(),
{
    if stmts.len() == 0 {
        0
    } else {
        let front = most_bangs(stmts.drop_last());
        let last = match held(stmts.last()) {
            Some(e) => head_bangs(e),
            None => 0,
        };
        if front < last {
            last
        } else {
            front
        }
    }
}

/// No statement takes up more than the most.
pub proof fn lemma_most_bangs(stmts: Seq<StmtView>, i: int)
    requires
        0 <= i < stmts.len(),
    ensures
        held(stmts[i]) matches Some(e) ==> head_bangs(e) <= most_bangs(stmts),
    decreases stmts.len(),
{
    if i < stmts.len() - 1 {
        lemma_most_bangs(stmts.drop_last(), i);
        assert(stmts.drop_last()[i] == stmts[i]);
    }
}

proof fn lemma_first_bangs(stmts: Seq<StmtView>, i: int)
    ensures
        first_format(stmts, i) matches Some(e) ==> head_bangs(e) <= most_bangs(stmts),
        first_literal(stmts, i) matches Some(e) ==> head_bangs(e) <= most_bangs(stmts),
    decreases stmts.len() - i,
{
    if 0 <= i < stmts.len() {
        lemma_most_bangs(stmts, i);
        lemma_first_bangs(stmts, i + 1);
    }
}

/// The template takes up no more than the most.
pub proof fn lemma_template_bangs(stmts: Seq<StmtView>)
    ensures
        body_template(stmts) matches Some(e) ==> head_bangs(e) <= most_bangs(stmts),
{
    lemma_first_bangs(stmts, 0);
}

pub open spec fn body_bangs(body: Seq<char>) -> nat {
    match parsed_block(body) {
        Ok(stmts) => most_bangs(stmts),
        Err(_) => 0,
    }
}

/// Resolves the body of a builder.
pub open spec fn resolve_body(
    body: Seq<char>,
    entries: Seq<EntryView>,
    scope: ScopeView,
    depth: nat,
    visited: Set<Seq<char>>,
) -> Resolution
    decreases depth, body_bangs(body), 4nat, 0nat,
{
    match parsed_block(body) {
        Err(_) => Resolution {
            outcome: OutcomeView::Unresolved(
                ReasonView::ParseError { snippet: body, message: "body not a Block"@ },
            ),
            visited,
        },
        Ok(stmts) => resolve_stmts(stmts, entries, scope, depth, visited),
    }
}

/// Resolves the statements of a builder: their template is the value, and without
/// one the last expression.
pub open spec fn resolve_stmts(
    stmts: Seq<StmtView>,
    entries: Seq<EntryView>,
    scope: ScopeView,
    depth: nat,
    visited: Set<Seq<char>>,
) -> Resolution
    decreases depth, most_bangs(stmts), 3nat, stmts.len() + 1,
{
    match body_template(stmts) {
        Some(e) => {
            proof {
                lemma_template_bangs(stmts);
            }
            resolve_node(e, entries, scope, depth, visited)
        },
        None => resolve_values(stmts, entries, scope, depth, visited),
    }
}

/// Resolves every expression among the statements in order; the last one is the
/// value.
pub open spec fn resolve_values(
    stmts: Seq<StmtView>,
    entries: Seq<EntryView>,
    scope: ScopeView,
    depth: nat,
    visited: Set<Seq<char>>,
) -> Resolution
    decreases depth, most_bangs(stmts), 3nat, stmts.len(),
{
    if stmts.len() == 0 {
        Resolution { outcome: unsupported("body without return expression"@), visited }
    } else {
        let front = resolve_values(stmts.drop_last(), entries, scope, depth, visited);
        match stmts.last() {
            StmtView::Expr(e) => resolve_node(e, entries, scope, depth, front.visited),
            StmtView::Return(_) => Resolution {
                outcome: unsupported("other expression shape"@),
                visited: front.visited,
            },
            _ => front,
        }
    }
}

/// The outcome of a `concat!`: the characters of its literals.
pub open spec fn concat_outcome(tokens: Seq<char>) -> OutcomeView {
    let text = quoted_chars(tokens, 0, false);
    if text.len() == 0 {
        unsupported("concat! with non-literal args"@)
    } else {
        OutcomeView::Resolved(text)
    }
}

/// A `format!` whose first pieces have been filled in: the text so far, whether
/// part of it is dynamic, and how many holes without a name there were.
pub struct Filling {
    pub text: Seq<char>,
    pub dynamic: bool,
    pub next: int,
    pub visited: Set<Seq<char>>,
}

/// A filling after one more hole.
pub open spec fn with_hole(f: Filling, name: Seq<char>, filled: Option<Resolution>) -> Filling {
    let next = if name.len() == 0 {
        f.next + 1
    } else {
        f.next
    };
    match filled {
        None => Filling { text: f.text + "*"@, dynamic: true, next, visited: f.visited },
        Some(r) => match r.outcome {
            OutcomeView::Resolved(s) => Filling {
                text: f.text + s,
                dynamic: f.dynamic,
                next,
                visited: r.visited,
            },
            OutcomeView::PartiallyResolved(s) => Filling {
                text: f.text + s,
                dynamic: true,
                next,
                visited: r.visited,
            },
            OutcomeView::Unresolved(_) => Filling {
                text: f.text + "*"@,
                dynamic: true,
                next,
                visited: r.visited,
            },
        },
    }
}

/// Resolves a `format!`: its template with each hole filled by what its
/// expression resolves to, or by `*`.
pub open spec fn resolve_format(
    tokens: Seq<char>,
    entries: Seq<EntryView>,
    scope: ScopeView,
    depth: nat,
    visited: Set<Seq<char>>,
) -> Resolution
    decreases depth, count_of(tokens, '!'), 6nat, 0nat,
{
    match format_tokens(tokens) {
        Err(kind) => Resolution { outcome: unsupported(kind), visited },
        Ok(f) => {
            let n = template_pieces(f.template).len();
            let done = fill_pieces(tokens, n, entries, scope, depth, visited);
            Resolution {
                outcome: if done.dynamic {
                    OutcomeView::PartiallyResolved(done.text)
                } else {
                    OutcomeView::Resolved(done.text)
                },
                visited: done.visited,
            }
        },
    }
}

/// Fills in the first `n` pieces of the template of a `format!`.
pub open spec fn fill_pieces(
    tokens: Seq<char>,
    n: nat,
    entries: Seq<EntryView>,
    scope: ScopeView,
    depth: nat,
    visited: Set<Seq<char>>,
) -> Filling
    decreases depth, count_of(tokens, '!'), 5nat, n,
{
    let f = format_tokens(tokens)->Ok_0;
    if n == 0 || format_tokens(tokens) is Err || n > template_pieces(f.template).len() {
        Filling { text: Seq::empty(), dynamic: false, next: 0, visited }
    } else {
        let front = fill_pieces(tokens, (n - 1) as nat, entries, scope, depth, visited);
        match template_pieces(f.template)[n - 1] {
            PieceView::Text(s) => Filling {
                text: front.text + s,
                dynamic: front.dynamic,
                next: front.next,
                visited: front.visited,
            },
            PieceView::Hole(h) => {
                let name = upto(h, ':');
                match hole_source(f.args, name, front.next) {
                    None => with_hole(front, name, None),
                    Some(text) => {
                        proof {
                            lemma_count_hole_source(tokens, n - 1, front.next, '!');
                        }
                        with_hole(
                            front,
                            name,
                            Some(resolve_argument(text, entries, scope, depth, front.visited)),
                        )
                    },
                }
            },
        }
    }
}

/// Resolves the expression of a hole. It costs no step of the budget.
pub open spec fn resolve_argument(
    text: Seq<char>,
    entries: Seq<EntryView>,
    scope: ScopeView,
    depth: nat,
    visited: Set<Seq<char>>,
) -> Resolution
    decreases depth, count_of(text, '!'), 4nat, 0nat,
{
    proof {
        lemma_count_trim(text, '!');
    }
    if trim_of(text).len() == 0 {
        Resolution { outcome: OutcomeView::PartiallyResolved("*"@), visited }
    } else {
        resolve_text(trim_of(text), entries, scope, depth, visited)
    }
}

/// Stripping adapters keeps the macro invocation at the head.
pub proof fn lemma_stripped_bangs(e: ExprView)
    ensures
        head_bangs(stripped(e)) == head_bangs(e),
    decreases e,
{
    match e {
        ExprView::Reference(x) => lemma_stripped_bangs(*x),
        ExprView::Paren(x) => lemma_stripped_bangs(*x),
        ExprView::Group(x) => lemma_stripped_bangs(*x),
        ExprView::MethodCall { receiver, method } => lemma_stripped_bangs(*receiver),
        _ => {},
    }
}

// ---------------------------------------------------------------------
// laws
// ---------------------------------------------------------------------

proof fn lemma_stripped_twice(e: ExprView)
    ensures
        stripped(stripped(e)) == stripped(e),
    decreases e,
{
    match e {
        ExprView::Reference(x) => lemma_stripped_twice(*x),
        ExprView::Paren(x) => lemma_stripped_twice(*x),
        ExprView::Group(x) => lemma_stripped_twice(*x),
        ExprView::MethodCall { receiver, method } => lemma_stripped_twice(*receiver),
        _ => {},
    }
}

/// An expression resolves as it does without its adapters: `&`, parentheses,
/// `.to_owned()` and the like make no difference, one by one or nested.
pub proof fn law_adapters_are_transparent(
    e: ExprView,
    method: Seq<char>,
    entries: Seq<EntryView>,
    scope: ScopeView,
    depth: nat,
    visited: Set<Seq<char>>,
)
    requires
        is_adapter(method),
    ensures
        ({
            let out = resolve_node(e, entries, scope, depth, visited);
            let called = ExprView::MethodCall { receiver: Box::new(e), method };
            &&& resolve_node(stripped(e), entries, scope, depth, visited) == out
            &&& resolve_node(ExprView::Reference(Box::new(e)), entries, scope, depth, visited)
                == out
            &&& resolve_node(ExprView::Paren(Box::new(e)), entries, scope, depth, visited) == out
            &&& resolve_node(ExprView::Group(Box::new(e)), entries, scope, depth, visited) == out
            &&& resolve_node(called, entries, scope, depth, visited) == out
        }),
{
    lemma_stripped_twice(e);
    assert(stripped(ExprView::Reference(Box::new(e))) == stripped(e));
    assert(stripped(ExprView::Paren(Box::new(e))) == stripped(e));
    assert(stripped(ExprView::Group(Box::new(e))) == stripped(e));
    assert(stripped(ExprView::MethodCall { receiver: Box::new(e), method }) == stripped(e));
}

/// Whether `x` is `e` inside adapters, however many and in whatever order.
pub open spec fn wraps(x: ExprView, e: ExprView) -> bool
    decreases x,
{
    x == e || match x {
        ExprView::Reference(y) => wraps(*y, e),
        ExprView::Paren(y) => wraps(*y, e),
        ExprView::Group(y) => wraps(*y, e),
        ExprView::MethodCall { receiver, method } => is_adapter(method) && wraps(*receiver, e),
        _ => false,
    }
}

proof fn lemma_wraps_stripped(x: ExprView, e: ExprView)
    requires
        wraps(x, e),
    ensures
        stripped(x) == stripped(e),
    decreases x,
{
    if x != e {
        match x {
            ExprView::Reference(y) => lemma_wraps_stripped(*y, e),
            ExprView::Paren(y) => lemma_wraps_stripped(*y, e),
            ExprView::Group(y) => lemma_wraps_stripped(*y, e),
            ExprView::MethodCall { receiver, method } => lemma_wraps_stripped(*receiver, e),
            _ => {},
        }
    }
}

/// An expression inside any nesting of adapters resolves as it does by itself.
pub proof fn law_nested_adapters_are_transparent(
    x: ExprView,
    e: ExprView,
    entries: Seq<EntryView>,
    scope: ScopeView,
    depth: nat,
    visited: Set<Seq<char>>,
)
    requires
        wraps(x, e),
    ensures
        resolve_node(x, entries, scope, depth, visited) == resolve_node(
            e,
            entries,
            scope,
            depth,
            visited,
        ),
{
    lemma_wraps_stripped(x, e);
    lemma_stripped_twice(x);
    lemma_stripped_twice(e);
}

/// A resolution leaves no mark behind: what counts as being looked up afterwards
/// did so before. So two resolutions one after the other do not get in each
/// other's way.
pub proof fn law_guard_is_released(
    text: Seq<char>,
    entries: Seq<EntryView>,
    scope: ScopeView,
    depth: nat,
    visited: Set<Seq<char>>,
)
    ensures
        resolve_text(text, entries, scope, depth, visited).visited.subset_of(visited),
    decreases depth, count_of(text, '!'), 3nat, 0nat,
{
    if depth > 0 {
        match parsed_expr(text) {
            Ok(e) => {
                if head_bangs(e) <= count_of(text, '!') {
                    lemma_node_released(e, entries, scope, depth, visited);
                }
            },
            Err(_) => {},
        }
    }
}

proof fn lemma_node_released(
    e: ExprView,
    entries: Seq<EntryView>,
    scope: ScopeView,
    depth: nat,
    visited: Set<Seq<char>>,
)
    ensures
        resolve_node(e, entries, scope, depth, visited).visited.subset_of(visited),
    decreases depth, head_bangs(e), 2nat, 0nat,
{
    lemma_stripped_bangs(e);
    match stripped(e) {
        ExprView::Path(p) => {
            lemma_path_released(p, entries, scope, depth, visited);
        },
        ExprView::Macro { path, tokens } => {
            lemma_format_released(tokens, entries, scope, depth, visited);
        },
        ExprView::MethodCall { receiver, method } => {
            lemma_builder_released(
                method_bodies(entries, method),
                0,
                "method:"@ + method,
                method,
                entries,
                scope,
                depth,
                visited,
            );
        },
        ExprView::Call { func } => {
            if let ExprView::Path(p) = *func {
                lemma_builder_released(
                    function_bodies(entries, last_ident(p)),
                    0,
                    "fn:"@ + last_ident(p),
                    last_ident(p),
                    entries,
                    scope,
                    depth,
                    visited,
                );
            }
        },
        _ => {},
    }
}

proof fn lemma_found_released(
    key: Seq<char>,
    text: Seq<char>,
    entries: Seq<EntryView>,
    scope: ScopeView,
    depth: nat,
    visited: Set<Seq<char>>,
)
    ensures
        resolve_found(key, text, entries, scope, depth, visited).visited.subset_of(visited),
    decreases depth, 0nat, 0nat, 0nat,
{
    if depth > 0 {
        law_guard_is_released(text, entries, scope, (depth - 1) as nat, visited.insert(key));
    }
}

proof fn lemma_path_released(
    path: Seq<Seq<char>>,
    entries: Seq<EntryView>,
    scope: ScopeView,
    depth: nat,
    visited: Set<Seq<char>>,
)
    ensures
        resolve_path(path, entries, scope, depth, visited).visited.subset_of(visited),
    decreases depth, 0nat, 1nat, 0nat,
{
    let ident = last_ident(path);
    let key = binding_key(ident);
    match scope_binding(scope, ident) {
        Some(rhs) => {
            if visited.contains(key) {
                lemma_const_released(path, entries, scope, depth, visited.remove(key));
            } else {
                let r = resolve_found(key, rhs, entries, scope, depth, visited);
                lemma_found_released(key, rhs, entries, scope, depth, visited);
                lemma_const_released(path, entries, scope, depth, r.visited);
            }
        },
        None => {
            lemma_const_released(path, entries, scope, depth, visited);
        },
    }
}

proof fn lemma_const_released(
    path: Seq<Seq<char>>,
    entries: Seq<EntryView>,
    scope: ScopeView,
    depth: nat,
    visited: Set<Seq<char>>,
)
    ensures
        resolve_const(path, entries, scope, depth, visited).visited.subset_of(visited),
    decreases depth, 0nat, 0nat, 2nat,
{
    let written = join(path, "::"@);
    let key = const_key(crate_path(scope.current_crate, written));
    lemma_helper_released(path, entries, scope, depth, visited.remove(key));
    if let Some(text) = crate_const(entries, scope.current_crate, written, last_ident(path)) {
        lemma_found_released(key, text, entries, scope, depth, visited);
    }
}

proof fn lemma_helper_released(
    path: Seq<Seq<char>>,
    entries: Seq<EntryView>,
    scope: ScopeView,
    depth: nat,
    visited: Set<Seq<char>>,
)
    ensures
        resolve_helper(path, entries, scope, depth, visited).visited.subset_of(visited),
    decreases depth, 0nat, 0nat, 1nat,
{
    let written = join(path, "::"@);
    if let Some(found) = helper_const(
        entries,
        scope.helper_crates,
        written,
        last_ident(path),
        visited,
    ) {
        lemma_found_released(found.0, found.1, entries, scope, depth, visited);
    }
}

proof fn lemma_builder_released(
    bodies: Seq<Seq<char>>,
    i: nat,
    key: Seq<char>,
    name: Seq<char>,
    entries: Seq<EntryView>,
    scope: ScopeView,
    depth: nat,
    visited: Set<Seq<char>>,
)
    ensures
        resolve_builder(
            bodies,
            i,
            key,
            name,
            entries,
            scope,
            depth,
            visited,
        ).visited.subset_of(visited),
    decreases depth, 0nat, 1nat, bodies.len() - i,
{
    if i >= bodies.len() {
    } else if visited.contains(key) {
        lemma_builder_released(bodies, i + 1, key, name, entries, scope, depth, visited);
    } else {
        let marked = visited.insert(key);
        let r = if depth == 0 {
            Resolution { outcome: exhausted(), visited: marked }
        } else {
            resolve_body(bodies[i as int], entries, scope, (depth - 1) as nat, marked)
        };
        if depth > 0 {
            lemma_body_released(bodies[i as int], entries, scope, (depth - 1) as nat, marked);
        }
        lemma_builder_released(
            bodies,
            i + 1,
            key,
            name,
            entries,
            scope,
            depth,
            r.visited.remove(key),
        );
    }
}

pub proof fn lemma_body_released(
    body: Seq<char>,
    entries: Seq<EntryView>,
    scope: ScopeView,
    depth: nat,
    visited: Set<Seq<char>>,
)
    ensures
        resolve_body(body, entries, scope, depth, visited).visited.subset_of(visited),
    decreases depth, body_bangs(body), 4nat, 0nat,
{
    if let Ok(stmts) = parsed_block(body) {
        lemma_stmts_released(stmts, entries, scope, depth, visited);
    }
}

proof fn lemma_stmts_released(
    stmts: Seq<StmtView>,
    entries: Seq<EntryView>,
    scope: ScopeView,
    depth: nat,
    visited: Set<Seq<char>>,
)
    ensures
        resolve_stmts(stmts, entries, scope, depth, visited).visited.subset_of(visited),
    decreases depth, most_bangs(stmts), 3nat, stmts.len() + 1,
{
    match body_template(stmts) {
        Some(e) => {
            lemma_template_bangs(stmts);
            lemma_node_released(e, entries, scope, depth, visited);
        },
        None => {
            lemma_values_released(stmts, entries, scope, depth, visited);
        },
    }
}

proof fn lemma_values_released(
    stmts: Seq<StmtView>,
    entries: Seq<EntryView>,
    scope: ScopeView,
    depth: nat,
    visited: Set<Seq<char>>,
)
    ensures
        resolve_values(stmts, entries, scope, depth, visited).visited.subset_of(visited),
    decreases depth, most_bangs(stmts), 3nat, stmts.len(),
{
    if stmts.len() > 0 {
        lemma_values_released(stmts.drop_last(), entries, scope, depth, visited);
        let front = resolve_values(stmts.drop_last(), entries, scope, depth, visited);
        if let StmtView::Expr(e) = stmts.last() {
            lemma_node_released(e, entries, scope, depth, front.visited);
        }
    }
}

proof fn lemma_format_released(
    tokens: Seq<char>,
    entries: Seq<EntryView>,
    scope: ScopeView,
    depth: nat,
    visited: Set<Seq<char>>,
)
    ensures
        resolve_format(tokens, entries, scope, depth, visited).visited.subset_of(visited),
    decreases depth, count_of(tokens, '!'), 6nat, 0nat,
{
    if let Ok(f) = format_tokens(tokens) {
        lemma_pieces_released(
            tokens,
            template_pieces(f.template).len(),
            entries,
            scope,
            depth,
            visited,
        );
    }
}

pub proof fn lemma_pieces_released(
    tokens: Seq<char>,
    n: nat,
    entries: Seq<EntryView>,
    scope: ScopeView,
    depth: nat,
    visited: Set<Seq<char>>,
)
    ensures
        fill_pieces(tokens, n, entries, scope, depth, visited).visited.subset_of(visited),
    decreases depth, count_of(tokens, '!'), 5nat, n,
{
    let f = format_tokens(tokens)->Ok_0;
    if n == 0 || format_tokens(tokens) is Err || n > template_pieces(f.template).len() {
    } else {
        lemma_pieces_released(tokens, (n - 1) as nat, entries, scope, depth, visited);
        let front = fill_pieces(tokens, (n - 1) as nat, entries, scope, depth, visited);
        if let PieceView::Hole(h) = template_pieces(f.template)[n - 1] {
            if let Some(text) = hole_source(f.args, upto(h, ':'), front.next) {
                lemma_count_hole_source(tokens, n - 1, front.next, '!');
                lemma_argument_released(text, entries, scope, depth, front.visited);
            }
        }
    }
}

proof fn lemma_argument_released(
    text: Seq<char>,
    entries: Seq<EntryView>,
    scope: ScopeView,
    depth: nat,
    visited: Set<Seq<char>>,
)
    ensures
        resolve_argument(text, entries, scope, depth, visited).visited.subset_of(visited),
    decreases depth, count_of(text, '!'), 4nat, 0nat,
{
    lemma_count_trim(text, '!');
    if trim_of(text).len() > 0 {
        law_guard_is_released(trim_of(text), entries, scope, depth, visited);
    }
}

/// A local binding comes before every constant, unless it leads to a name that
/// is not found.
pub proof fn law_binding_comes_first(
    path: Seq<Seq<char>>,
    entries: Seq<EntryView>,
    scope: ScopeView,
    depth: nat,
    visited: Set<Seq<char>>,
)
    requires
        scope_binding(scope, last_ident(path)) is Some,
        !visited.contains(binding_key(last_ident(path))),
    ensures
        ({
            let r = resolve_found(
                binding_key(last_ident(path)),
                scope_binding(scope, last_ident(path))->0,
                entries,
                scope,
                depth,
                visited,
            );
            !is_not_found(r.outcome) ==> resolve_path(path, entries, scope, depth, visited) == r
        }),
{
}

/// A constant of the crate itself comes before those of the helper crates.
pub proof fn law_own_crate_comes_first(
    path: Seq<Seq<char>>,
    entries: Seq<EntryView>,
    scope: ScopeView,
    depth: nat,
    visited: Set<Seq<char>>,
)
    requires
        scope_binding(scope, last_ident(path)) is None,
        crate_const(
            entries,
            scope.current_crate,
            join(path, "::"@),
            last_ident(path),
        ) is Some,
        !visited.contains(const_key(crate_path(scope.current_crate, join(path, "::"@)))),
    ensures
        resolve_path(path, entries, scope, depth, visited) == resolve_found(
            const_key(crate_path(scope.current_crate, join(path, "::"@))),
            crate_const(
                entries,
                scope.current_crate,
                join(path, "::"@),
                last_ident(path),
            )->0,
            entries,
            scope,
            depth,
            visited,
        ),
{
}

proof fn lemma_first_format_at(stmts: Seq<StmtView>, i: int, k: int)
    requires
        0 <= i <= k < stmts.len(),
        gives_format(stmts[k]),
        forall|j: int| i <= j < k ==> !gives_format(#[trigger] stmts[j]),
    ensures
        first_format(stmts, i) == held(stmts[k]),
    decreases k - i,
{
    if i < k {
        lemma_first_format_at(stmts, i + 1, k);
    }
}

proof fn lemma_first_literal_at(stmts: Seq<StmtView>, i: int, k: int)
    requires
        0 <= i <= k < stmts.len(),
        gives_literal(stmts[k]),
        forall|j: int| i <= j < k ==> !gives_literal(#[trigger] stmts[j]),
    ensures
        first_literal(stmts, i) == held(stmts[k]),
    decreases k - i,
{
    if i < k {
        lemma_first_literal_at(stmts, i + 1, k);
    }
}

proof fn lemma_no_format(stmts: Seq<StmtView>, i: int)
    requires
        forall|j: int| 0 <= j < stmts.len() ==> !gives_format(#[trigger] stmts[j]),
    ensures
        first_format(stmts, i) is None,
    decreases stmts.len() - i,
{
    if 0 <= i < stmts.len() {
        lemma_no_format(stmts, i + 1);
    }
}

proof fn lemma_no_literal(stmts: Seq<StmtView>, i: int)
    requires
        forall|j: int| 0 <= j < stmts.len() ==> !gives_literal(#[trigger] stmts[j]),
    ensures
        first_literal(stmts, i) is None,
    decreases stmts.len() - i,
{
    if 0 <= i < stmts.len() {
        lemma_no_literal(stmts, i + 1);
    }
}

/// The first `format!` of a body is its value, whether it stands by itself, is
/// bound or is returned, and whatever stands around it.
pub proof fn law_first_format_is_the_value(
    stmts: Seq<StmtView>,
    k: int,
    entries: Seq<EntryView>,
    scope: ScopeView,
    depth: nat,
    visited: Set<Seq<char>>,
)
    requires
        0 <= k < stmts.len(),
        gives_format(stmts[k]),
        forall|j: int| 0 <= j < k ==> !gives_format(#[trigger] stmts[j]),
    ensures
        resolve_stmts(stmts, entries, scope, depth, visited) == resolve_node(
            held(stmts[k])->0,
            entries,
            scope,
            depth,
            visited,
        ),
{
    lemma_first_format_at(stmts, 0, k);
}

/// Without a `format!`, the first string literal of a body that looks like a
/// subject is its value.
pub proof fn law_first_literal_is_the_value(
    stmts: Seq<StmtView>,
    k: int,
    entries: Seq<EntryView>,
    scope: ScopeView,
    depth: nat,
    visited: Set<Seq<char>>,
)
    requires
        0 <= k < stmts.len(),
        gives_literal(stmts[k]),
        forall|j: int| 0 <= j < k ==> !gives_literal(#[trigger] stmts[j]),
        forall|j: int| 0 <= j < stmts.len() ==> !gives_format(#[trigger] stmts[j]),
    ensures
        resolve_stmts(stmts, entries, scope, depth, visited) == (Resolution {
            outcome: OutcomeView::Resolved(stripped(held(stmts[k])->0)->Str_0),
            visited,
        }),
{
    lemma_no_format(stmts, 0);
    lemma_first_literal_at(stmts, 0, k);
}

/// A body without a template has the value of its last expression.
pub proof fn law_last_expression_is_the_value(
    stmts: Seq<StmtView>,
    entries: Seq<EntryView>,
    scope: ScopeView,
    depth: nat,
    visited: Set<Seq<char>>,
)
    requires
        forall|j: int|
            0 <= j < stmts.len() ==> !gives_format(#[trigger] stmts[j]) && !gives_literal(
                stmts[j],
            ),
    ensures
        resolve_stmts(stmts, entries, scope, depth, visited) == resolve_values(
            stmts,
            entries,
            scope,
            depth,
            visited,
        ),
{
    lemma_no_format(stmts, 0);
    lemma_no_literal(stmts, 0);
}

/// A `format!` whose template has no braces resolves to its template.
pub proof fn law_plain_template_is_itself(
    tokens: Seq<char>,
    entries: Seq<EntryView>,
    scope: ScopeView,
    depth: nat,
    visited: Set<Seq<char>>,
)
    requires
        format_tokens(tokens) is Ok,
        !format_tokens(tokens)->Ok_0.template.contains('{'),
        !format_tokens(tokens)->Ok_0.template.contains('}'),
    ensures
        resolve_format(tokens, entries, scope, depth, visited) == (Resolution {
            outcome: OutcomeView::Resolved(format_tokens(tokens)->Ok_0.template),
            visited,
        }),
{
    let t = format_tokens(tokens)->Ok_0.template;
    lemma_plain_pieces(t, 0);
    assert(t.skip(0) =~= t);
    lemma_plain_filling(tokens, t.len(), entries, scope, depth, visited);
    assert(t.take(t.len() as int) =~= t);
}

proof fn lemma_plain_pieces(t: Seq<char>, i: int)
    requires
        0 <= i <= t.len(),
        !t.contains('{'),
        !t.contains('}'),
    ensures
        pieces_from(t, i, None) == t.skip(i).map_values(|c: char| PieceView::Text(seq![c])),
    decreases t.len() - i,
{
    let all = t.skip(i).map_values(|c: char| PieceView::Text(seq![c]));
    if i < t.len() {
        assert(t.contains(t[i]));
        lemma_plain_pieces(t, i + 1);
        let rest = t.skip(i + 1).map_values(|c: char| PieceView::Text(seq![c]));
        assert(t.skip(i) =~= seq![t[i]] + t.skip(i + 1));
        assert(all =~= seq![PieceView::Text(seq![t[i]])] + rest);
    } else {
        assert(all =~= Seq::empty());
    }
}

proof fn lemma_plain_filling(
    tokens: Seq<char>,
    n: nat,
    entries: Seq<EntryView>,
    scope: ScopeView,
    depth: nat,
    visited: Set<Seq<char>>,
)
    requires
        format_tokens(tokens) is Ok,
        template_pieces(format_tokens(tokens)->Ok_0.template)
            == format_tokens(tokens)->Ok_0.template.map_values(
            |c: char| PieceView::Text(seq![c]),
        ),
        n <= format_tokens(tokens)->Ok_0.template.len(),
    ensures
        fill_pieces(tokens, n, entries, scope, depth, visited) == (Filling {
            text: format_tokens(tokens)->Ok_0.template.take(n as int),
            dynamic: false,
            next: 0,
            visited,
        }),
    decreases n,
{
    let t = format_tokens(tokens)->Ok_0.template;
    if n > 0 {
        lemma_plain_filling(tokens, (n - 1) as nat, entries, scope, depth, visited);
        assert(t.take(n as int) =~= t.take(n - 1) + seq![t[n - 1]]);
    } else {
        assert(t.take(0) =~= Seq::empty());
    }
}

// ---------------------------------------------------------------------
// the resolver
// ---------------------------------------------------------------------

/// Resolves a subject expression given as text.
#[must_use]
pub fn resolve(snippet: &str, index: &SymbolIndex, scope: &Scope<'_>) -> (out: ResolveOutcome)
    ensures
        out.deep_view() == resolve_text(
            snippet@,
            index@.entries,
            scope.deep_view(),
            DEFAULT_DEPTH as nat,
            Set::empty(),
        ).outcome,
{
    let mut visited = StringHashSet::new();
    resolve_with_depth(snippet, index, scope, DEFAULT_DEPTH, &mut visited)
}

/// Resolves a subject expression that is already parsed. Adapters around it make
/// no difference.
#[must_use]
pub fn resolve_parsed(expr: &ExprNode, index: &SymbolIndex, scope: &Scope<'_>) -> (out:
    ResolveOutcome)
    ensures
        out.deep_view() == resolve_node(
            expr.deep_view(),
            index@.entries,
            scope.deep_view(),
            DEFAULT_DEPTH as nat,
            Set::empty(),
        ).outcome,
        out.deep_view() == resolve_node(
            stripped(expr.deep_view()),
            index@.entries,
            scope.deep_view(),
            DEFAULT_DEPTH as nat,
            Set::empty(),
        ).outcome,
{
    proof {
        lemma_stripped_twice(expr.deep_view());
    }
    let mut visited = StringHashSet::new();
    resolve_expr(expr, index, scope, DEFAULT_DEPTH, &mut visited)
}

fn resolve_with_depth(
    snippet: &str,
    index: &SymbolIndex,
    scope: &Scope<'_>,
    depth: u8,
    visited: &mut StringHashSet,
) -> (out: ResolveOutcome)
    ensures
        (Resolution { outcome: out.deep_view(), visited: final(visited)@ }) == resolve_text(
            snippet@,
            index@.entries,
            scope.deep_view(),
            depth as nat,
            old(visited)@,
        ),
    decreases depth, count_of(snippet@, '!'), 3nat, 0nat,
{
    if depth == 0 {
        return ResolveOutcome::Unresolved(UnresolvedReason::DepthExhausted);
    }
    match parse_expr(snippet) {
        Ok(expr) => resolve_expr(&expr, index, scope, depth, visited),
        Err(message) => ResolveOutcome::Unresolved(
            UnresolvedReason::ParseError { snippet: snippet.to_owned(), message },
        ),
    }
}

/// Resolves a parsed expression with `depth` steps left, while what `visited` holds
/// is being looked up. Adapters around the expression make no difference.
pub fn resolve_expr(
    expr: &ExprNode,
    index: &SymbolIndex,
    scope: &Scope<'_>,
    depth: u8,
    visited: &mut StringHashSet,
) -> (out: ResolveOutcome)
    ensures
        (Resolution { outcome: out.deep_view(), visited: final(visited)@ }) == resolve_node(
            expr.deep_view(),
            index@.entries,
            scope.deep_view(),
            depth as nat,
            old(visited)@,
        ),
        (Resolution { outcome: out.deep_view(), visited: final(visited)@ }) == resolve_node(
            stripped(expr.deep_view()),
            index@.entries,
            scope.deep_view(),
            depth as nat,
            old(visited)@,
        ),
    decreases depth, head_bangs(expr.deep_view()), 2nat, 0nat,
{
    proof {
        lemma_stripped_bangs(expr.deep_view());
        lemma_stripped_twice(expr.deep_view());
    }
    let normalised = normalise(expr);
    match normalised {
        ExprNode::Str(s) => ResolveOutcome::Resolved(s.clone()),
        ExprNode::ByteStr(b) => ResolveOutcome::Resolved(lossy_text(b.as_slice())),
        ExprNode::OtherLit => ResolveOutcome::Unresolved(
            UnresolvedReason::UnsupportedShape { kind: "non-string literal" },
        ),
        ExprNode::Path(p) => resolve_path_expr(p.as_slice(), index, scope, depth, visited),
        ExprNode::Macro { path, tokens } => {
            let name = last_text(path.as_slice());
            if same_text(name, "format") {
                resolve_format_macro(tokens.as_str(), index, scope, depth, visited)
            } else if same_text(name, "concat") {
                resolve_concat_macro(tokens.as_str())
            } else {
                ResolveOutcome::Unresolved(
                    UnresolvedReason::UnsupportedShape { kind: "non-format macro" },
                )
            }
        },
        ExprNode::MethodCall { receiver: _, method } => {
            if list_has(scope.subject_builder_methods, method.as_str()) {
                let bodies = collect_methods_named(index, method.as_str());
                let key = concat("method:", method.as_str());
                resolve_builder_bodies(
                    bodies.as_slice(),
                    key.as_str(),
                    method.as_str(),
                    index,
                    scope,
                    depth,
                    visited,
                )
            } else {
                ResolveOutcome::Unresolved(
                    UnresolvedReason::UnsupportedShape { kind: "non-builder method call" },
                )
            }
        },
        ExprNode::Call { func } => match &**func {
            ExprNode::Path(p) => {
                assert(func.deep_view() == ExprView::Path(p.deep_view()));
                let name = last_text(p.as_slice());
                let bodies = collect_functions_named(index, name);
                let key = concat("fn:", name);
                resolve_builder_bodies(
                    bodies.as_slice(),
                    key.as_str(),
                    name,
                    index,
                    scope,
                    depth,
                    visited,
                )
            },
            _ => {
                assert(!(func.deep_view() is Path));
                ResolveOutcome::Unresolved(
                    UnresolvedReason::UnsupportedShape { kind: "non-path function call" },
                )
            },
        },
        ExprNode::Field => ResolveOutcome::PartiallyResolved("*".to_owned()),
        _ => ResolveOutcome::Unresolved(
            UnresolvedReason::UnsupportedShape { kind: "other expression shape" },
        ),
    }
}

fn adapter(method: &str) -> (yes: bool)
    ensures
        yes == is_adapter(method@),
{
    same_text(method, "to_owned") || same_text(method, "to_string") || same_text(method, "clone")
        || same_text(method, "into") || same_text(method, "as_str") || same_text(method, "as_ref")
}

/// Strips adapters that keep the value.
fn normalise(expr: &ExprNode) -> (out: &ExprNode)
    ensures
        out.deep_view() == stripped(expr.deep_view()),
    decreases expr,
{
    match expr {
        ExprNode::Reference(e) => normalise(e),
        ExprNode::Paren(e) => normalise(e),
        ExprNode::Group(e) => normalise(e),
        ExprNode::MethodCall { receiver, method } => {
            if adapter(method.as_str()) {
                normalise(receiver)
            } else {
                expr
            }
        },
        _ => expr,
    }
}

fn last_text(path: &[String]) -> (out: &str)
    ensures
        out@ == last_ident(path.deep_view()),
{
    if path.len() == 0 {
        proof {
            reveal_strlit("");
        }
        assert(""@ =~= Seq::<char>::empty());
        ""
    } else {
        path[path.len() - 1].as_str()
    }
}

fn resolve_found_text(
    key: String,
    text: &str,
    index: &SymbolIndex,
    scope: &Scope<'_>,
    depth: u8,
    visited: &mut StringHashSet,
) -> (out: ResolveOutcome)
    ensures
        (Resolution { outcome: out.deep_view(), visited: final(visited)@ }) == resolve_found(
            key@,
            text@,
            index@.entries,
            scope.deep_view(),
            depth as nat,
            old(visited)@,
        ),
    decreases depth, 0nat, 0nat, 0nat,
{
    let mark = key.clone();
    visited.insert(mark);
    let out = if depth == 0 {
        ResolveOutcome::Unresolved(UnresolvedReason::DepthExhausted)
    } else {
        resolve_with_depth(text, index, scope, depth - 1, visited)
    };
    visited.remove(key.as_str());
    out
}

fn is_missing(out: &ResolveOutcome) -> (yes: bool)
    ensures
        yes == is_not_found(out.deep_view()),
{
    match out {
        ResolveOutcome::Unresolved(UnresolvedReason::SymbolNotFound { path: _ }) => true,
        _ => false,
    }
}

fn resolve_path_expr(
    path: &[String],
    index: &SymbolIndex,
    scope: &Scope<'_>,
    depth: u8,
    visited: &mut StringHashSet,
) -> (out: ResolveOutcome)
    ensures
        (Resolution { outcome: out.deep_view(), visited: final(visited)@ }) == resolve_path(
            path.deep_view(),
            index@.entries,
            scope.deep_view(),
            depth as nat,
            old(visited)@,
        ),
    decreases depth, 0nat, 1nat, 0nat,
{
    let ident = last_text(path);
    let bound = match scope.fn_body_source {
        Some(body) => find_let_binding(body, ident),
        None => None,
    };
    match bound {
        Some(rhs) => {
            let key = concat("binding:", ident);
            if visited.contains(key.as_str()) {
                visited.remove(key.as_str());
            } else {
                let out = resolve_found_text(key, rhs.as_str(), index, scope, depth, visited);
                if !is_missing(&out) {
                    return out;
                }
            }
        },
        None => {},
    }
    resolve_const_path(path, index, scope, depth, visited)
}

fn resolve_const_path(
    path: &[String],
    index: &SymbolIndex,
    scope: &Scope<'_>,
    depth: u8,
    visited: &mut StringHashSet,
) -> (out: ResolveOutcome)
    ensures
        (Resolution { outcome: out.deep_view(), visited: final(visited)@ }) == resolve_const(
            path.deep_view(),
            index@.entries,
            scope.deep_view(),
            depth as nat,
            old(visited)@,
        ),
    decreases depth, 0nat, 0nat, 2nat,
{
    let ident = last_text(path);
    let written = join_with(path, "::");
    let mut at_root = underscore(scope.current_crate);
    at_root.append("::");
    at_root.append(written.as_str());
    let key = concat("const:", at_root.as_str());
    if !visited.contains(key.as_str()) {
        let text = find_crate_const(
            index,
            scope.current_crate,
            at_root.as_str(),
            written.as_str(),
            ident,
        );
        if let Some(text) = text {
            return resolve_found_text(key, text.as_str(), index, scope, depth, visited);
        }
    }
    visited.remove(key.as_str());
    resolve_helper_path(path, index, scope, depth, visited)
}

fn resolve_helper_path(
    path: &[String],
    index: &SymbolIndex,
    scope: &Scope<'_>,
    depth: u8,
    visited: &mut StringHashSet,
) -> (out: ResolveOutcome)
    ensures
        (Resolution { outcome: out.deep_view(), visited: final(visited)@ }) == resolve_helper(
            path.deep_view(),
            index@.entries,
            scope.deep_view(),
            depth as nat,
            old(visited)@,
        ),
    decreases depth, 0nat, 0nat, 1nat,
{
    let ident = last_text(path);
    let written = join_with(path, "::");
    match find_helper_const(index, scope.helper_crates, written.as_str(), ident, visited) {
        Some(found) => resolve_found_text(
            found.0,
            found.1.as_str(),
            index,
            scope,
            depth,
            visited,
        ),
        None => ResolveOutcome::Unresolved(UnresolvedReason::SymbolNotFound { path: written }),
    }
}

fn const_source(symbol: Option<&Symbol>) -> (out: Option<String>)
    ensures
        out.deep_view() == const_text(symbol.deep_view()),
{
    match symbol {
        Some(Symbol::Const(snippet)) => Some(snippet.source.clone()),
        _ => None,
    }
}

fn find_crate_const(
    index: &SymbolIndex,
    crate_name: &str,
    at_root: &str,
    written: &str,
    ident: &str,
) -> (out: Option<String>)
    requires
        at_root@ == crate_path(crate_name@, written@),
    ensures
        out.deep_view() == crate_const(index@.entries, crate_name@, written@, ident@),
{
    let found = const_source(index.lookup_in_crate(crate_name, at_root));
    if found.is_some() {
        return found;
    }
    let found = const_source(index.lookup_in_crate(crate_name, written));
    if found.is_some() {
        return found;
    }
    const_source(find_const_by_ident(index, crate_name, ident))
}

fn find_helper_const(
    index: &SymbolIndex,
    helpers: &[String],
    written: &str,
    ident: &str,
    visited: &StringHashSet,
) -> (out: Option<(String, String)>)
    ensures
        out.deep_view() == helper_const(
            index@.entries,
            helpers.deep_view(),
            written@,
            ident@,
            visited@,
        ),
{
    let ghost all = helpers.deep_view();
    let mut i: usize = 0;
    assert(all.skip(0) =~= all);
    while i < helpers.len()
        invariant
            i <= helpers.len(),
            all == helpers.deep_view(),
            helper_const(index@.entries, all, written@, ident@, visited@) == helper_const(
                index@.entries,
                all.skip(i as int),
                written@,
                ident@,
                visited@,
            ),
        decreases helpers.len() - i,
    {
        let helper = helpers[i].as_str();
        assert(all.skip(i as int)[0] == helpers@[i as int]@);
        assert(all.skip(i as int).drop_first() =~= all.skip(i + 1));
        let found = const_source(index.lookup_in_crate(helper, written));
        if let Some(text) = found {
            let key = helper_mark(helper, written);
            if !visited.contains(key.as_str()) {
                return Some((key, text));
            }
        }
        let found = const_source(find_const_by_ident(index, helper, ident));
        if let Some(text) = found {
            let key = helper_mark(helper, ident);
            if !visited.contains(key.as_str()) {
                return Some((key, text));
            }
        }
        i += 1;
    }
    None
}

fn helper_mark(helper: &str, path: &str) -> (out: String)
    ensures
        out@ == helper_key(helper@, path@),
{
    let mut out = concat("helperconst:", helper);
    out.append("::");
    out.append(path);
    out
}

fn ends_in_item(path: &str, name: &str) -> (yes: bool)
    ensures
        yes == names_item(path@, name@),
{
    let suffix = chars_of(concat("::", name).as_str());
    let chars = chars_of(path);
    ends_with(&chars, &suffix)
}

fn find_const_by_ident<'a>(index: &'a SymbolIndex, crate_name: &str, ident: &str) -> (out: Option<
    &'a Symbol,
>)
    ensures
        out.deep_view() == symbol_by_ident(
            index@.entries,
            index@.entries,
            crate_name@,
            ident@,
        ),
{
    let symbols = index.iter();
    let ghost all = index@.entries;
    assert(symbols@.len() == symbols.deep_view().len());
    let mut i: usize = 0;
    assert(all.skip(0) =~= all);
    while i < symbols.len()
        invariant
            i <= symbols.len(),
            symbols@.len() == all.len(),
            all == index@.entries,
            symbols.deep_view() == all.map_values(|e: EntryView| (e.path, e.symbol)),
            symbol_by_ident(all, all, crate_name@, ident@) == symbol_by_ident(
                all.skip(i as int),
                all,
                crate_name@,
                ident@,
            ),
        decreases symbols.len() - i,
    {
        let path = symbols[i].0;
        let symbol = symbols[i].1;
        assert(symbols.deep_view()[i as int] == (path@, symbol.deep_view()));
        assert(all.skip(i as int)[0].path == path@);
        assert(all.skip(i as int)[0].symbol == symbol.deep_view());
        assert(all.skip(i as int).drop_first() =~= all.skip(i + 1));
        let is_const = match symbol {
            Symbol::Const(_) => true,
            _ => false,
        };
        if is_const && ends_in_item(path.as_str(), ident) {
            let found = index.lookup_in_crate(crate_name, path.as_str());
            if found.is_some() {
                return found;
            }
        }
        i += 1;
    }
    None
}

fn collect_methods_named(index: &SymbolIndex, name: &str) -> (out: Vec<String>)
    ensures
        out.deep_view() == method_bodies(index@.entries, name@),
{
    let symbols = index.iter();
    let ghost all = index@.entries;
    assert(symbols@.len() == symbols.deep_view().len());
    let mut out: Vec<String> = Vec::new();
    let mut i: usize = 0;
    assert(out.deep_view() =~= Seq::empty());
    while i < symbols.len()
        invariant
            i <= symbols.len(),
            symbols@.len() == all.len(),
            symbols.deep_view() == all.map_values(|e: EntryView| (e.path, e.symbol)),
            out.deep_view() == method_bodies(all.take(i as int), name@),
        decreases symbols.len() - i,
    {
        let path = symbols[i].0;
        let symbol = symbols[i].1;
        assert(symbols.deep_view()[i as int] == (path@, symbol.deep_view()));
        assert(all[i as int].path == path@ && all[i as int].symbol == symbol.deep_view());
        assert(all.take(i + 1).drop_last() =~= all.take(i as int));
        match symbol {
            Symbol::Method { type_path: _, body } => {
                if ends_in_item(path.as_str(), name) {
                    let ghost front = out.deep_view();
                    out.push(body.source.clone());
                    assert(out.deep_view() =~= front.push(body.source@));
                }
            },
            _ => {},
        }
        i += 1;
    }
    assert(all.take(i as int) =~= all);
    out
}

fn collect_functions_named(index: &SymbolIndex, name: &str) -> (out: Vec<String>)
    ensures
        out.deep_view() == function_bodies(index@.entries, name@),
{
    let symbols = index.iter();
    let ghost all = index@.entries;
    assert(symbols@.len() == symbols.deep_view().len());
    let mut out: Vec<String> = Vec::new();
    let mut i: usize = 0;
    assert(out.deep_view() =~= Seq::empty());
    while i < symbols.len()
        invariant
            i <= symbols.len(),
            symbols@.len() == all.len(),
            symbols.deep_view() == all.map_values(|e: EntryView| (e.path, e.symbol)),
            out.deep_view() == function_bodies(all.take(i as int), name@),
        decreases symbols.len() - i,
    {
        let path = symbols[i].0;
        let symbol = symbols[i].1;
        assert(symbols.deep_view()[i as int] == (path@, symbol.deep_view()));
        assert(all[i as int].path == path@ && all[i as int].symbol == symbol.deep_view());
        assert(all.take(i + 1).drop_last() =~= all.take(i as int));
        match symbol {
            Symbol::Function(body) => {
                if ends_in_item(path.as_str(), name) {
                    let ghost front = out.deep_view();
                    out.push(body.source.clone());
                    assert(out.deep_view() =~= front.push(body.source@));
                }
            },
            _ => {},
        }
        i += 1;
    }
    assert(all.take(i as int) =~= all);
    out
}

fn resolve_builder_bodies(
    bodies: &[String],
    key: &str,
    name: &str,
    index: &SymbolIndex,
    scope: &Scope<'_>,
    depth: u8,
    visited: &mut StringHashSet,
) -> (out: ResolveOutcome)
    ensures
        (Resolution { outcome: out.deep_view(), visited: final(visited)@ }) == resolve_builder(
            bodies.deep_view(),
            0,
            key@,
            name@,
            index@.entries,
            scope.deep_view(),
            depth as nat,
            old(visited)@,
        ),
    decreases depth, 0nat, 1nat, bodies.len(),
{
    let ghost start = visited@;
    let mut i: usize = 0;
    while i < bodies.len()
        invariant
            i <= bodies.len(),
            start == old(visited)@,
            resolve_builder(
                bodies.deep_view(),
                0,
                key@,
                name@,
                index@.entries,
                scope.deep_view(),
                depth as nat,
                start,
            ) == resolve_builder(
                bodies.deep_view(),
                i as nat,
                key@,
                name@,
                index@.entries,
                scope.deep_view(),
                depth as nat,
                visited@,
            ),
        decreases bodies.len() - i,
    {
        assert(bodies.deep_view()[i as int] == bodies@[i as int]@);
        if !visited.contains(key) {
            visited.insert(key.to_owned());
            let out = if depth == 0 {
                ResolveOutcome::Unresolved(UnresolvedReason::DepthExhausted)
            } else {
                extract_format_from_body(bodies[i].as_str(), index, scope, depth - 1, visited)
            };
            visited.remove(key);
            match out {
                ResolveOutcome::Unresolved(_) => {},
                _ => {
                    return out;
                },
            }
        }
        i += 1;
    }
    ResolveOutcome::Unresolved(UnresolvedReason::SymbolNotFound { path: name.to_owned() })
}

fn extract_format_from_body(
    body: &str,
    index: &SymbolIndex,
    scope: &Scope<'_>,
    depth: u8,
    visited: &mut StringHashSet,
) -> (out: ResolveOutcome)
    ensures
        (Resolution { outcome: out.deep_view(), visited: final(visited)@ }) == resolve_body(
            body@,
            index@.entries,
            scope.deep_view(),
            depth as nat,
            old(visited)@,
        ),
    decreases depth, body_bangs(body@), 4nat, 0nat,
{
    match parse_block(body) {
        Ok(stmts) => resolve_statements(stmts.as_slice(), index, scope, depth, visited),
        Err(_) => ResolveOutcome::Unresolved(
            UnresolvedReason::ParseError {
                snippet: body.to_owned(),
                message: "body not a Block".to_owned(),
            },
        ),
    }
}

fn held_expr(stmt: &StmtNode) -> (out: Option<&ExprNode>)
    ensures
        out.deep_view() == held(stmt.deep_view()),
        out matches Some(e) ==> held(stmt.deep_view()) == Some(e.deep_view()),
{
    match stmt {
        StmtNode::Expr(e) => Some(e),
        StmtNode::Return(e) => e.as_ref(),
        StmtNode::Let(e) => e.as_ref(),
        StmtNode::Macro(e) => Some(e),
        StmtNode::Other => None,
    }
}

fn format_invocation(expr: &ExprNode) -> (yes: bool)
    ensures
        yes == is_format(expr.deep_view()),
{
    let inner = normalise(expr);
    match inner {
        ExprNode::Macro { path, tokens: _ } => {
            if path.len() == 0 {
                proof {
                    reveal_strlit("format");
                    assert(last_ident(path.deep_view()).len() != "format"@.len());
                }
                return false;
            }
            assert(path.deep_view().last() == path@[path.len() - 1]@);
            same_text(path[path.len() - 1].as_str(), "format")
        },
        _ => false,
    }
}

fn subject_literal(expr: &ExprNode) -> (yes: bool)
    ensures
        yes == is_subject_literal(expr.deep_view()),
{
    let inner = normalise(expr);
    match inner {
        ExprNode::Str(text) => NatsPattern::parse(text.as_str()).is_ok(),
        _ => false,
    }
}

fn resolve_statements(
    stmts: &[StmtNode],
    index: &SymbolIndex,
    scope: &Scope<'_>,
    depth: u8,
    visited: &mut StringHashSet,
) -> (out: ResolveOutcome)
    ensures
        (Resolution { outcome: out.deep_view(), visited: final(visited)@ }) == resolve_stmts(
            stmts.deep_view(),
            index@.entries,
            scope.deep_view(),
            depth as nat,
            old(visited)@,
        ),
    decreases depth, most_bangs(stmts.deep_view()), 3nat, stmts.len() + 1,
{
    let ghost all = stmts.deep_view();
    let mut i: usize = 0;
    while i < stmts.len()
        invariant
            i <= stmts.len(),
            all == stmts.deep_view(),
            visited@ == old(visited)@,
            first_format(all, 0) == first_format(all, i as int),
        decreases stmts.len() - i,
    {
        assert(all[i as int] == stmts@[i as int].deep_view());
        if let Some(e) = held_expr(&stmts[i]) {
            if format_invocation(e) {
                proof {
                    lemma_most_bangs(all, i as int);
                }
                return resolve_expr(e, index, scope, depth, visited);
            }
        }
        i += 1;
    }
    let mut k: usize = 0;
    while k < stmts.len()
        invariant
            k <= stmts.len(),
            all == stmts.deep_view(),
            visited@ == old(visited)@,
            first_format(all, 0) is None,
            first_literal(all, 0) == first_literal(all, k as int),
        decreases stmts.len() - k,
    {
        assert(all[k as int] == stmts@[k as int].deep_view());
        if let Some(e) = held_expr(&stmts[k]) {
            if subject_literal(e) {
                proof {
                    lemma_most_bangs(all, k as int);
                }
                return resolve_expr(e, index, scope, depth, visited);
            }
        }
        k += 1;
    }
    resolve_expressions(stmts, index, scope, depth, visited)
}

fn resolve_expressions(
    stmts: &[StmtNode],
    index: &SymbolIndex,
    scope: &Scope<'_>,
    depth: u8,
    visited: &mut StringHashSet,
) -> (out: ResolveOutcome)
    ensures
        (Resolution { outcome: out.deep_view(), visited: final(visited)@ }) == resolve_values(
            stmts.deep_view(),
            index@.entries,
            scope.deep_view(),
            depth as nat,
            old(visited)@,
        ),
    decreases depth, most_bangs(stmts.deep_view()), 3nat, stmts.len(),
{
    let ghost start = visited@;
    let ghost all = stmts.deep_view();
    let mut last = ResolveOutcome::Unresolved(
        UnresolvedReason::UnsupportedShape { kind: "body without return expression" },
    );
    let mut i: usize = 0;
    assert(all.take(0) =~= Seq::empty());
    while i < stmts.len()
        invariant
            i <= stmts.len(),
            all == stmts.deep_view(),
            (Resolution { outcome: last.deep_view(), visited: visited@ }) == resolve_values(
                all.take(i as int),
                index@.entries,
                scope.deep_view(),
                depth as nat,
                start,
            ),
        decreases stmts.len() - i,
    {
        assert(all[i as int] == stmts@[i as int].deep_view());
        assert(all.take(i + 1).drop_last() =~= all.take(i as int));
        proof {
            lemma_most_bangs(all, i as int);
        }
        match &stmts[i] {
            StmtNode::Expr(e) => {
                last = resolve_expr(e, index, scope, depth, visited);
            },
            StmtNode::Return(_) => {
                last = ResolveOutcome::Unresolved(
                    UnresolvedReason::UnsupportedShape { kind: "other expression shape" },
                );
            },
            _ => {},
        }
        i += 1;
    }
    assert(all.take(i as int) =~= all);
    last
}

fn resolve_concat_macro(tokens: &str) -> (out: ResolveOutcome)
    ensures
        out.deep_view() == concat_outcome(tokens@),
{
    let text = read_quoted(tokens);
    if chars_of(text.as_str()).len() == 0 {
        ResolveOutcome::Unresolved(
            UnresolvedReason::UnsupportedShape { kind: "concat! with non-literal args" },
        )
    } else {
        ResolveOutcome::Resolved(text)
    }
}

fn resolve_format_macro(
    tokens: &str,
    index: &SymbolIndex,
    scope: &Scope<'_>,
    depth: u8,
    visited: &mut StringHashSet,
) -> (out: ResolveOutcome)
    ensures
        (Resolution { outcome: out.deep_view(), visited: final(visited)@ }) == resolve_format(
            tokens@,
            index@.entries,
            scope.deep_view(),
            depth as nat,
            old(visited)@,
        ),
    decreases depth, count_of(tokens@, '!'), 6nat, 0nat,
{
    let (template, args) = match read_format(tokens) {
        Ok(parts) => parts,
        Err(kind) => {
            return ResolveOutcome::Unresolved(UnresolvedReason::UnsupportedShape { kind });
        },
    };
    let pieces = read_template(&template);
    let ghost start = visited@;
    let ghost f = format_tokens(tokens@)->Ok_0;
    let mut out = String::new();
    let mut dynamic = false;
    let mut next: usize = 0;
    let mut i: usize = 0;
    assert(out@ =~= Seq::<char>::empty());
    while i < pieces.len()
        invariant
            i <= pieces.len(),
            next <= i,
            format_tokens(tokens@) is Ok,
            f == format_tokens(tokens@)->Ok_0,
            args.deep_view() == f.args,
            pieces.deep_view() == template_pieces(f.template),
            (Filling { text: out@, dynamic, next: next as int, visited: visited@ })
                == fill_pieces(
                tokens@,
                i as nat,
                index@.entries,
                scope.deep_view(),
                depth as nat,
                start,
            ),
        decreases pieces.len() - i,
    {
        assert(template_pieces(f.template)[i as int] == pieces@[i as int].deep_view());
        proof {
            lemma_count_hole_source(tokens@, i as int, next as int, '!');
        }
        match &pieces[i] {
            Piece::Char(c) => {
                let ghost front = out@;
                out.push(*c);
                assert(out@ =~= front + seq![*c]);
            },
            Piece::Hole(hole) => {
                let chars = chars_of(hole.as_str());
                let n = find(&chars, ':');
                let name = vstd::slice::slice_subrange(&chars, 0, n);
                assert(name@ =~= upto(hole@, ':'));
                let source = find_hole_source(args.as_slice(), name, next);
                if name.len() == 0 {
                    next += 1;
                }
                match source {
                    Some(text) => {
                        let filled = resolve_arg_snippet(
                            text.as_str(),
                            index,
                            scope,
                            depth,
                            visited,
                        );
                        match filled {
                            ResolveOutcome::Resolved(s) => {
                                out.append(s.as_str());
                            },
                            ResolveOutcome::PartiallyResolved(s) => {
                                dynamic = true;
                                out.append(s.as_str());
                            },
                            ResolveOutcome::Unresolved(_) => {
                                dynamic = true;
                                out.append("*");
                            },
                        }
                    },
                    None => {
                        dynamic = true;
                        out.append("*");
                    },
                }
            },
        }
        i += 1;
    }
    if dynamic {
        ResolveOutcome::PartiallyResolved(out)
    } else {
        ResolveOutcome::Resolved(out)
    }
}

fn resolve_arg_snippet(
    snippet: &str,
    index: &SymbolIndex,
    scope: &Scope<'_>,
    depth: u8,
    visited: &mut StringHashSet,
) -> (out: ResolveOutcome)
    ensures
        (Resolution { outcome: out.deep_view(), visited: final(visited)@ }) == resolve_argument(
            snippet@,
            index@.entries,
            scope.deep_view(),
            depth as nat,
            old(visited)@,
        ),
    decreases depth, count_of(snippet@, '!'), 4nat, 0nat,
{
    proof {
        lemma_count_trim(snippet@, '!');
    }
    let chars = chars_of(snippet);
    let trimmed = trim(&chars);
    if trimmed.len() == 0 {
        ResolveOutcome::PartiallyResolved("*".to_owned())
    } else {
        let text = string_of(trimmed);
        resolve_with_depth(text.as_str(), index, scope, depth, visited)
    }
}

} // verus!
