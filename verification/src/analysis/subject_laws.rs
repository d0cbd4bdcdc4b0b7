//! What an expression resolves to.

use super::subject::{
    const_key, const_text, crate_path, function_bodies, helper_const, helper_key, is_adapter,
    lemma_body_released, method_bodies, names_item, resolve_body, resolve_builder, resolve_found,
    resolve_helper, resolve_node, resolve_stmts, resolve_text, resolve_values, symbol_by_ident,
    OutcomeView, ReasonView, ScopeView,
};
use super::symbol_index::{has_key, lemma_lookup_found, lookup, EntryView, SymbolView};
use super::template::let_binding;
use crate::syntax::{head_bangs, parsed_block, parsed_expr, ExprView, StmtView};
use crate::text::{count_of, has_suffix, underscored, utf8_lossy};
use crate::text_laws::{below, colon_path, law_joined_segments_are_a_path, lemma_colons};
use vstd::prelude::*;

verus! {

// ---------------------------------------------------------------------
// shapes
// ---------------------------------------------------------------------

/// What each shape of expression comes to by itself: string literals are their
/// values, a field is a part that is not known, and the rest is told apart in
/// what is reported.
pub proof fn law_plain_shapes(
    text: Seq<char>,
    bytes: Seq<u8>,
    path: Seq<Seq<char>>,
    name: Seq<char>,
    e: ExprView,
    entries: Seq<EntryView>,
    scope: ScopeView,
    depth: nat,
    visited: Set<Seq<char>>,
)
    ensures
        resolve_node(ExprView::Str(text), entries, scope, depth, visited).outcome
            == OutcomeView::Resolved(text),
        resolve_node(ExprView::ByteStr(bytes), entries, scope, depth, visited).outcome
            == OutcomeView::Resolved(utf8_lossy(bytes)),
        resolve_node(ExprView::Field, entries, scope, depth, visited).outcome
            == OutcomeView::PartiallyResolved("*"@),
        resolve_node(ExprView::OtherLit, entries, scope, depth, visited).outcome
            == OutcomeView::Unresolved(
            ReasonView::UnsupportedShape { kind: "non-string literal"@ },
        ),
        resolve_node(ExprView::Other, entries, scope, depth, visited).outcome
            == OutcomeView::Unresolved(
            ReasonView::UnsupportedShape { kind: "other expression shape"@ },
        ),
        name != "format"@ && name != "concat"@ ==> resolve_node(
            ExprView::Macro { path: path.push(name), tokens: text },
            entries,
            scope,
            depth,
            visited,
        ).outcome == OutcomeView::Unresolved(
            ReasonView::UnsupportedShape { kind: "non-format macro"@ },
        ),
        !(e is Path) ==> resolve_node(
            ExprView::Call { func: Box::new(e) },
            entries,
            scope,
            depth,
            visited,
        ).outcome == OutcomeView::Unresolved(
            ReasonView::UnsupportedShape { kind: "non-path function call"@ },
        ),
        !is_adapter(name) && !scope.subject_builder_methods.contains(name) ==> resolve_node(
            ExprView::MethodCall { receiver: Box::new(e), method: name },
            entries,
            scope,
            depth,
            visited,
        ).outcome == OutcomeView::Unresolved(
            ReasonView::UnsupportedShape { kind: "non-builder method call"@ },
        ),
{
}

/// The conversions to a string and the copy make no difference; no other method
/// is one of them.
pub proof fn law_adapter_names(e: ExprView, name: Seq<char>)
    ensures
        is_adapter("to_owned"@),
        is_adapter("to_string"@),
        is_adapter("clone"@),
        is_adapter("into"@),
        is_adapter("as_str"@),
        is_adapter("as_ref"@),
        is_adapter(name) ==> name == "to_owned"@ || name == "to_string"@ || name == "clone"@
            || name == "into"@ || name == "as_str"@ || name == "as_ref"@,
{
}

/// A text that parses resolves as its expression; one that does not is reported
/// with what the parser said. Without a step left nothing resolves.
pub proof fn law_texts_resolve_as_they_parse(
    text: Seq<char>,
    entries: Seq<EntryView>,
    scope: ScopeView,
    depth: nat,
    visited: Set<Seq<char>>,
)
    ensures
        resolve_text(text, entries, scope, 0, visited).outcome == OutcomeView::Unresolved(
            ReasonView::DepthExhausted,
        ),
        depth > 0 ==> match parsed_expr(text) {
            Ok(e) => head_bangs(e) <= count_of(text, '!')
                ==> resolve_text(text, entries, scope, depth, visited) == resolve_node(
                e,
                entries,
                scope,
                depth,
                visited,
            ),
            Err(m) => resolve_text(text, entries, scope, depth, visited).outcome
                == OutcomeView::Unresolved(ReasonView::ParseError { snippet: text, message: m }),
        },
{
}

// ---------------------------------------------------------------------
// constants
// ---------------------------------------------------------------------

/// The enclosing function, if there is one, binds no such name.
pub open spec fn unbound(scope: ScopeView, name: Seq<char>) -> bool {
    scope.fn_body_source matches Some(body) ==> let_binding(body, name) is None
}

/// The crate has a constant with that text under the path.
pub open spec fn has_const(
    entries: Seq<EntryView>,
    crate_name: Seq<char>,
    path: Seq<char>,
    text: Seq<char>,
) -> bool {
    lookup(entries, crate_name, path) matches Some(SymbolView::Const(x)) && x.source == text
}

/// The crate has no constant under the path.
pub open spec fn no_const(entries: Seq<EntryView>, crate_name: Seq<char>, path: Seq<char>) -> bool {
    !(lookup(entries, crate_name, path) matches Some(SymbolView::Const(x)))
}

/// An item of the crate, in some module, with the name.
pub open spec fn item_named(e: EntryView, crate_name: Seq<char>, name: Seq<char>) -> bool {
    e.crate_name == crate_name && has_suffix(e.path, seq![':', ':'] + name)
}

/// The path of an item below the root of a crate, as it is written in paths.
pub open spec fn from_root(crate_name: Seq<char>, path: Seq<Seq<char>>) -> Seq<char> {
    below(underscored(crate_name), colon_path(path))
}

/// A path with all its segments below the root of the crate names the constant
/// there, whatever other constants end in the same name.
pub proof fn law_written_path_names_its_constant(
    path: Seq<Seq<char>>,
    text: Seq<char>,
    entries: Seq<EntryView>,
    scope: ScopeView,
    depth: nat,
    visited: Set<Seq<char>>,
)
    requires
        path.len() > 0,
        depth > 0,
        unbound(scope, path.last()),
        has_const(
            entries,
            scope.current_crate,
            from_root(scope.current_crate, path),
            text,
        ),
        !visited.contains("const:"@ + from_root(scope.current_crate, path)),
    ensures
        resolve_node(ExprView::Path(path), entries, scope, depth, visited).outcome == resolve_text(
            text,
            entries,
            scope,
            (depth - 1) as nat,
            visited.insert("const:"@ + from_root(scope.current_crate, path)),
        ).outcome,
{
    law_joined_segments_are_a_path(path);
    lemma_colons();
}

/// Where the crate has nothing at that place below its root, a path names the
/// constant that is kept under it as it is written.
pub proof fn law_path_as_written(
    path: Seq<Seq<char>>,
    text: Seq<char>,
    entries: Seq<EntryView>,
    scope: ScopeView,
    depth: nat,
    visited: Set<Seq<char>>,
)
    requires
        path.len() > 0,
        depth > 0,
        unbound(scope, path.last()),
        no_const(entries, scope.current_crate, from_root(scope.current_crate, path)),
        has_const(entries, scope.current_crate, colon_path(path), text),
        !visited.contains("const:"@ + from_root(scope.current_crate, path)),
    ensures
        resolve_node(ExprView::Path(path), entries, scope, depth, visited).outcome == resolve_text(
            text,
            entries,
            scope,
            (depth - 1) as nat,
            visited.insert("const:"@ + from_root(scope.current_crate, path)),
        ).outcome,
{
    law_joined_segments_are_a_path(path);
    lemma_colons();
}

/// A constant that is a string literal is its value wherever its path stands.
pub proof fn law_literal_constant(
    path: Seq<Seq<char>>,
    text: Seq<char>,
    value: Seq<char>,
    entries: Seq<EntryView>,
    scope: ScopeView,
    depth: nat,
    visited: Set<Seq<char>>,
)
    requires
        path.len() > 0,
        depth > 1,
        unbound(scope, path.last()),
        has_const(
            entries,
            scope.current_crate,
            from_root(scope.current_crate, path),
            text,
        ),
        parsed_expr(text) == Ok::<ExprView, Seq<char>>(ExprView::Str(value)),
        !visited.contains("const:"@ + from_root(scope.current_crate, path)),
    ensures
        resolve_node(ExprView::Path(path), entries, scope, depth, visited).outcome
            == OutcomeView::Resolved(value),
{
    law_written_path_names_its_constant(path, text, entries, scope, depth, visited);
}

/// The symbol that is found by its last name is that of an item of the crate with
/// that name, and one is found where there is a constant of that name.
proof fn lemma_by_name(
    rest: Seq<EntryView>,
    entries: Seq<EntryView>,
    crate_name: Seq<char>,
    name: Seq<char>,
) -> (k: int)
    ensures
        symbol_by_ident(rest, entries, crate_name, name) matches Some(s) ==> 0 <= k
            < entries.len() && item_named(entries[k], crate_name, name) && entries[k].symbol == s,
        symbol_by_ident(rest, entries, crate_name, name) is None ==> forall|i: int|
            0 <= i < rest.len() && (#[trigger] rest[i]).symbol is Const && has_suffix(
                rest[i].path,
                seq![':', ':'] + name,
            ) ==> lookup(entries, crate_name, rest[i].path) is None,
    decreases rest.len(),
{
    lemma_colons();
    if rest.len() == 0 {
        0
    } else if rest[0].symbol is Const && names_item(rest[0].path, name) && lookup(
        entries,
        crate_name,
        rest[0].path,
    ) is Some {
        lemma_lookup_found(entries, crate_name, rest[0].path)
    } else {
        let k = lemma_by_name(rest.drop_first(), entries, crate_name, name);
        if symbol_by_ident(rest, entries, crate_name, name) is None {
            assert forall|i: int|
                0 <= i < rest.len() && (#[trigger] rest[i]).symbol is Const && has_suffix(
                    rest[i].path,
                    seq![':', ':'] + name,
                ) implies lookup(entries, crate_name, rest[i].path) is None by {
                if i > 0 {
                    assert(rest.drop_first()[i - 1] == rest[i]);
                }
            }
        }
        k
    }
}

/// The crate has a constant of the name in some module, and nothing else there
/// has the name.
pub open spec fn only_const_named(
    entries: Seq<EntryView>,
    crate_name: Seq<char>,
    name: Seq<char>,
    k: int,
) -> bool {
    &&& 0 <= k < entries.len()
    &&& item_named(entries[k], crate_name, name)
    &&& entries[k].symbol is Const
    &&& forall|j: int|
        0 <= j < entries.len() && item_named(#[trigger] entries[j], crate_name, name)
            ==> entries[j] == entries[k]
}

/// The crate has no item of the name in any module.
pub open spec fn nothing_named(
    entries: Seq<EntryView>,
    crate_name: Seq<char>,
    name: Seq<char>,
) -> bool {
    forall|j: int|
        0 <= j < entries.len() ==> !item_named(#[trigger] entries[j], crate_name, name)
}

proof fn lemma_only_const(
    entries: Seq<EntryView>,
    crate_name: Seq<char>,
    name: Seq<char>,
    k: int,
)
    requires
        only_const_named(entries, crate_name, name, k),
    ensures
        const_text(symbol_by_ident(entries, entries, crate_name, name)) == Some(
            entries[k].symbol->Const_0.source,
        ),
{
    let j = lemma_by_name(entries, entries, crate_name, name);
    if symbol_by_ident(entries, entries, crate_name, name) is None {
        assert(entries[k].symbol is Const);
        let i = lemma_lookup_found(entries, crate_name, entries[k].path);
        assert(has_key(entries[k], crate_name, entries[k].path));
    } else {
        assert(entries[j] == entries[k]);
    }
}

/// A name that no item of the crate has finds none.
pub proof fn lemma_nothing_named(entries: Seq<EntryView>, crate_name: Seq<char>, name: Seq<char>)
    requires
        nothing_named(entries, crate_name, name),
    ensures
        symbol_by_ident(entries, entries, crate_name, name) is None,
{
    let j = lemma_by_name(entries, entries, crate_name, name);
}

/// A path that the crate does not keep as it is written names the one constant
/// in any of its modules that has the last name.
pub proof fn law_constant_in_a_module(
    path: Seq<Seq<char>>,
    k: int,
    entries: Seq<EntryView>,
    scope: ScopeView,
    depth: nat,
    visited: Set<Seq<char>>,
)
    requires
        path.len() > 0,
        depth > 0,
        unbound(scope, path.last()),
        no_const(entries, scope.current_crate, from_root(scope.current_crate, path)),
        no_const(entries, scope.current_crate, colon_path(path)),
        only_const_named(entries, scope.current_crate, path.last(), k),
        !visited.contains("const:"@ + from_root(scope.current_crate, path)),
    ensures
        resolve_node(ExprView::Path(path), entries, scope, depth, visited).outcome == resolve_text(
            entries[k].symbol->Const_0.source,
            entries,
            scope,
            (depth - 1) as nat,
            visited.insert("const:"@ + from_root(scope.current_crate, path)),
        ).outcome,
{
    law_joined_segments_are_a_path(path);
    lemma_colons();
    lemma_only_const(entries, scope.current_crate, path.last(), k);
}

/// The crate of the scope has nothing that the path could name.
pub open spec fn not_at_home(
    path: Seq<Seq<char>>,
    entries: Seq<EntryView>,
    scope: ScopeView,
) -> bool {
    &&& unbound(scope, path.last())
    &&& no_const(entries, scope.current_crate, from_root(scope.current_crate, path))
    &&& no_const(entries, scope.current_crate, colon_path(path))
    &&& nothing_named(entries, scope.current_crate, path.last())
}

/// None of the first `n` helper crates has anything that the path could name.
pub open spec fn not_in_helpers(
    path: Seq<Seq<char>>,
    entries: Seq<EntryView>,
    helpers: Seq<Seq<char>>,
    n: int,
) -> bool {
    forall|j: int|
        0 <= j < n ==> no_const(entries, #[trigger] helpers[j], colon_path(path))
            && nothing_named(entries, helpers[j], path.last())
}

/// The mark under which a constant of a helper crate is looked up.
pub open spec fn helper_mark(helper: Seq<char>, path: Seq<char>) -> Seq<char> {
    "helperconst:"@ + helper + seq![':', ':'] + path
}

proof fn lemma_helper_at(
    path: Seq<Seq<char>>,
    entries: Seq<EntryView>,
    helpers: Seq<Seq<char>>,
    n: int,
    visited: Set<Seq<char>>,
)
    requires
        path.len() > 0,
        0 <= n <= helpers.len(),
        not_in_helpers(path, entries, helpers, n),
    ensures
        helper_const(entries, helpers, colon_path(path), path.last(), visited) == helper_const(
            entries,
            helpers.skip(n),
            colon_path(path),
            path.last(),
            visited,
        ),
    decreases n,
{
    if n == 0 {
        assert(helpers.skip(0) =~= helpers);
    } else {
        lemma_helper_at(path, entries, helpers, n - 1, visited);
        let rest = helpers.skip(n - 1);
        assert(rest[0] == helpers[n - 1]);
        assert(rest.drop_first() =~= helpers.skip(n));
        lemma_nothing_named(entries, helpers[n - 1], path.last());
    }
}

/// What the crate itself does not have is taken from the first helper crate that
/// has it, in the order in which they are listed: under the path as it is
/// written, or else by the last name.
pub proof fn law_helper_crates_in_order(
    path: Seq<Seq<char>>,
    n: int,
    k: int,
    text: Seq<char>,
    entries: Seq<EntryView>,
    scope: ScopeView,
    depth: nat,
    visited: Set<Seq<char>>,
)
    requires
        path.len() > 0,
        depth > 0,
        not_at_home(path, entries, scope),
        !visited.contains("const:"@ + from_root(scope.current_crate, path)),
        0 <= n < scope.helper_crates.len(),
        not_in_helpers(path, entries, scope.helper_crates, n),
        !visited.contains(helper_mark(scope.helper_crates[n], colon_path(path))),
        !visited.contains(helper_mark(scope.helper_crates[n], path.last())),
    ensures
        has_const(entries, scope.helper_crates[n], colon_path(path), text) ==> resolve_node(
            ExprView::Path(path),
            entries,
            scope,
            depth,
            visited,
        ).outcome == resolve_text(
            text,
            entries,
            scope,
            (depth - 1) as nat,
            visited.insert(helper_mark(scope.helper_crates[n], colon_path(path))),
        ).outcome,
        no_const(entries, scope.helper_crates[n], colon_path(path)) && only_const_named(
            entries,
            scope.helper_crates[n],
            path.last(),
            k,
        ) ==> resolve_node(
            ExprView::Path(path),
            entries,
            scope,
            depth,
            visited,
        ).outcome == resolve_text(
            entries[k].symbol->Const_0.source,
            entries,
            scope,
            (depth - 1) as nat,
            visited.insert(helper_mark(scope.helper_crates[n], path.last())),
        ).outcome,
{
    law_joined_segments_are_a_path(path);
    lemma_colons();
    lemma_nothing_named(entries, scope.current_crate, path.last());
    lemma_helper_at(path, entries, scope.helper_crates, n, visited);
    let rest = scope.helper_crates.skip(n);
    assert(rest[0] == scope.helper_crates[n]);
    let home = const_key(crate_path(scope.current_crate, colon_path(path)));
    assert(visited.remove(home) =~= visited);
    assert(helper_key(scope.helper_crates[n], colon_path(path)) == helper_mark(
        scope.helper_crates[n],
        colon_path(path),
    ));
    assert(helper_key(scope.helper_crates[n], path.last()) == helper_mark(
        scope.helper_crates[n],
        path.last(),
    ));
    let helper = scope.helper_crates[n];
    let whole = colon_path(path);
    let r = resolve_helper(path, entries, scope, depth, visited);
    assert(resolve_node(ExprView::Path(path), entries, scope, depth, visited) == r);
    let found = helper_const(entries, scope.helper_crates, whole, path.last(), visited);
    assert(found == helper_const(entries, rest, whole, path.last(), visited));
    if has_const(entries, helper, whole, text) {
        assert(found == Some((helper_key(helper, whole), text)));
        assert(r == resolve_found(helper_key(helper, whole), text, entries, scope, depth, visited));
    }
    if no_const(entries, helper, whole) && only_const_named(entries, helper, path.last(), k) {
        lemma_only_const(entries, helper, path.last(), k);
        let t = entries[k].symbol->Const_0.source;
        assert(found == Some((helper_key(helper, path.last()), t)));
        assert(r == resolve_found(
            helper_key(helper, path.last()),
            t,
            entries,
            scope,
            depth,
            visited,
        ));
    }
}

/// What is neither bound nor kept anywhere is reported as not found, by the path
/// as it is written.
pub proof fn law_unknown_path_is_not_found(
    path: Seq<Seq<char>>,
    entries: Seq<EntryView>,
    scope: ScopeView,
    depth: nat,
    visited: Set<Seq<char>>,
)
    requires
        path.len() > 0,
        not_at_home(path, entries, scope),
        !visited.contains("const:"@ + from_root(scope.current_crate, path)),
        not_in_helpers(path, entries, scope.helper_crates, scope.helper_crates.len() as int),
    ensures
        resolve_node(ExprView::Path(path), entries, scope, depth, visited).outcome
            == OutcomeView::Unresolved(ReasonView::SymbolNotFound { path: colon_path(path) }),
{
    law_joined_segments_are_a_path(path);
    lemma_colons();
    lemma_nothing_named(entries, scope.current_crate, path.last());
    lemma_helper_at(path, entries, scope.helper_crates, scope.helper_crates.len() as int, visited);
    assert(scope.helper_crates.skip(scope.helper_crates.len() as int) =~= Seq::empty());
    let home = const_key(crate_path(scope.current_crate, colon_path(path)));
    assert(visited.remove(home) =~= visited);
}

/// A path whose last name the enclosing function binds resolves as what it is bound
/// to, before any constant, unless that leads to something that is not found.
pub proof fn law_bound_name(
    outer: Seq<Seq<char>>,
    name: Seq<char>,
    body: Seq<char>,
    rhs: Seq<char>,
    entries: Seq<EntryView>,
    scope: ScopeView,
    depth: nat,
    visited: Set<Seq<char>>,
)
    requires
        scope.fn_body_source == Some(body),
        let_binding(body, name) == Some(rhs),
        depth > 0,
        !visited.contains("binding:"@ + name),
    ensures
        ({
            let bound = resolve_text(
                rhs,
                entries,
                scope,
                (depth - 1) as nat,
                visited.insert("binding:"@ + name),
            ).outcome;
            let out = resolve_node(
                ExprView::Path(outer.push(name)),
                entries,
                scope,
                depth,
                visited,
            ).outcome;
            !(bound matches OutcomeView::Unresolved(ReasonView::SymbolNotFound { path })) ==> out
                == bound
        }),
{
    assert(outer.push(name).last() == name);
}

// ---------------------------------------------------------------------
// builders
// ---------------------------------------------------------------------

pub open spec fn is_method_named(e: EntryView, name: Seq<char>) -> bool {
    e.symbol is Method && has_suffix(e.path, seq![':', ':'] + name)
}

pub open spec fn is_function_named(e: EntryView, name: Seq<char>) -> bool {
    e.symbol is Function && has_suffix(e.path, seq![':', ':'] + name)
}

/// The builders of a name are all the methods, or all the functions, of that name
/// in the index, in its order.
pub proof fn law_builders_of_a_name(entries: Seq<EntryView>, name: Seq<char>)
    ensures
        method_bodies(entries, name) == entries.filter(
            |e: EntryView| is_method_named(e, name),
        ).map_values(|e: EntryView| e.symbol->body.source),
        function_bodies(entries, name) == entries.filter(
            |e: EntryView| is_function_named(e, name),
        ).map_values(|e: EntryView| e.symbol->Function_0.source),
    decreases entries.len(),
{
    reveal(Seq::filter);
    lemma_colons();
    let p = |e: EntryView| is_method_named(e, name);
    let q = |e: EntryView| is_function_named(e, name);
    let f = |e: EntryView| e.symbol->body.source;
    let g = |e: EntryView| e.symbol->Function_0.source;
    if entries.len() > 0 {
        let rest = entries.drop_last();
        law_builders_of_a_name(rest, name);
        if p(entries.last()) {
            assert(entries.filter(p) =~= rest.filter(p).push(entries.last()));
            assert(entries.filter(p).map_values(f) =~= rest.filter(p).map_values(f).push(
                f(entries.last()),
            ));
        } else {
            assert(entries.filter(p) =~= rest.filter(p));
        }
        if q(entries.last()) {
            assert(entries.filter(q) =~= rest.filter(q).push(entries.last()));
            assert(entries.filter(q).map_values(g) =~= rest.filter(q).map_values(g).push(
                g(entries.last()),
            ));
        } else {
            assert(entries.filter(q) =~= rest.filter(q));
        }
    } else {
        assert(entries.filter(p).map_values(f) =~= Seq::empty());
        assert(entries.filter(q).map_values(g) =~= Seq::empty());
    }
}

/// What the `k`-th body of a builder comes to, with the builder marked.
pub open spec fn body_outcome(
    bodies: Seq<Seq<char>>,
    k: int,
    mark: Seq<char>,
    entries: Seq<EntryView>,
    scope: ScopeView,
    depth: nat,
) -> OutcomeView {
    resolve_body(bodies[k], entries, scope, (depth - 1) as nat, set![mark]).outcome
}

proof fn lemma_builder_from(
    bodies: Seq<Seq<char>>,
    i: nat,
    k: int,
    mark: Seq<char>,
    name: Seq<char>,
    entries: Seq<EntryView>,
    scope: ScopeView,
    depth: nat,
)
    requires
        depth > 0,
        i <= k <= bodies.len(),
        forall|j: int|
            i <= j < k ==> body_outcome(bodies, j, mark, entries, scope, depth) is Unresolved,
        k < bodies.len() ==> !(body_outcome(bodies, k, mark, entries, scope, depth) is Unresolved),
    ensures
        resolve_builder(bodies, i, mark, name, entries, scope, depth, Set::empty()).outcome == (
        if k < bodies.len() {
            body_outcome(bodies, k, mark, entries, scope, depth)
        } else {
            OutcomeView::Unresolved(ReasonView::SymbolNotFound { path: name })
        }),
    decreases bodies.len() - i,
{
    let none = Set::<Seq<char>>::empty();
    if i < bodies.len() {
        let r = resolve_body(
            bodies[i as int],
            entries,
            scope,
            (depth - 1) as nat,
            none.insert(mark),
        );
        assert(none.insert(mark) =~= set![mark]);
        assert(r.outcome == body_outcome(bodies, i as int, mark, entries, scope, depth));
        if r.outcome is Unresolved {
            lemma_body_released(
                bodies[i as int],
                entries,
                scope,
                (depth - 1) as nat,
                none.insert(mark),
            );
            assert(r.visited.remove(mark) =~= none);
            lemma_builder_from(bodies, i + 1, k, mark, name, entries, scope, depth);
        }
    }
}

/// A call of a builder comes to what the first of its bodies that resolves comes
/// to, and is not found where none does. A method counts as a builder where it is
/// listed as one; a function always does.
pub proof fn law_first_body_that_resolves(
    receiver: ExprView,
    path: Seq<Seq<char>>,
    name: Seq<char>,
    k: int,
    entries: Seq<EntryView>,
    scope: ScopeView,
    depth: nat,
)
    requires
        depth > 0,
        0 <= k,
    ensures
        ({
            let bodies = method_bodies(entries, name);
            let mark = "method:"@ + name;
            let out = resolve_node(
                ExprView::MethodCall { receiver: Box::new(receiver), method: name },
                entries,
                scope,
                depth,
                Set::empty(),
            ).outcome;
            !is_adapter(name) && scope.subject_builder_methods.contains(name) && k <= bodies.len()
                && (forall|j: int|
                0 <= j < k ==> body_outcome(bodies, j, mark, entries, scope, depth)
                    is Unresolved) ==> if k == bodies.len() {
                out == OutcomeView::Unresolved(ReasonView::SymbolNotFound { path: name })
            } else {
                !(body_outcome(bodies, k, mark, entries, scope, depth) is Unresolved) ==> out
                    == body_outcome(bodies, k, mark, entries, scope, depth)
            }
        }),
        ({
            let bodies = function_bodies(entries, name);
            let mark = "fn:"@ + name;
            let out = resolve_node(
                ExprView::Call { func: Box::new(ExprView::Path(path.push(name))) },
                entries,
                scope,
                depth,
                Set::empty(),
            ).outcome;
            k <= bodies.len() && (forall|j: int|
                0 <= j < k ==> body_outcome(bodies, j, mark, entries, scope, depth)
                    is Unresolved) ==> if k == bodies.len() {
                out == OutcomeView::Unresolved(ReasonView::SymbolNotFound { path: name })
            } else {
                !(body_outcome(bodies, k, mark, entries, scope, depth) is Unresolved) ==> out
                    == body_outcome(bodies, k, mark, entries, scope, depth)
            }
        }),
{
    let methods = method_bodies(entries, name);
    let m = "method:"@ + name;
    if k <= methods.len() && (forall|j: int|
        0 <= j < k ==> body_outcome(methods, j, m, entries, scope, depth) is Unresolved) && (k
        < methods.len() ==> !(body_outcome(methods, k, m, entries, scope, depth) is Unresolved)) {
        lemma_builder_from(methods, 0, k, m, name, entries, scope, depth);
    }
    let functions = function_bodies(entries, name);
    let f = "fn:"@ + name;
    assert(path.push(name).last() == name);
    if k <= functions.len() && (forall|j: int|
        0 <= j < k ==> body_outcome(functions, j, f, entries, scope, depth) is Unresolved) && (k
        < functions.len() ==> !(body_outcome(functions, k, f, entries, scope, depth)
        is Unresolved)) {
        lemma_builder_from(functions, 0, k, f, name, entries, scope, depth);
    }
}

/// The first body of a builder comes first, whatever else is being looked up.
pub proof fn law_first_body_comes_first(
    receiver: ExprView,
    path: Seq<Seq<char>>,
    name: Seq<char>,
    entries: Seq<EntryView>,
    scope: ScopeView,
    depth: nat,
    visited: Set<Seq<char>>,
)
    requires
        depth > 0,
    ensures
        ({
            let bodies = method_bodies(entries, name);
            let mark = "method:"@ + name;
            let first = resolve_body(
                bodies[0],
                entries,
                scope,
                (depth - 1) as nat,
                visited.insert(mark),
            ).outcome;
            !is_adapter(name) && scope.subject_builder_methods.contains(name) && bodies.len() > 0
                && !visited.contains(mark) && !(first is Unresolved) ==> resolve_node(
                ExprView::MethodCall { receiver: Box::new(receiver), method: name },
                entries,
                scope,
                depth,
                visited,
            ).outcome == first
        }),
        ({
            let bodies = function_bodies(entries, name);
            let mark = "fn:"@ + name;
            let first = resolve_body(
                bodies[0],
                entries,
                scope,
                (depth - 1) as nat,
                visited.insert(mark),
            ).outcome;
            bodies.len() > 0 && !visited.contains(mark) && !(first is Unresolved) ==> resolve_node(
                ExprView::Call { func: Box::new(ExprView::Path(path.push(name))) },
                entries,
                scope,
                depth,
                visited,
            ).outcome == first
        }),
{
    assert(path.push(name).last() == name);
}

/// A body that parses comes to what its statements do. Without a template that is
/// the last expression among them: later bindings, items and macros make no
/// difference. A `return` at the end is no expression that resolves, and without
/// any expression nothing does.
pub proof fn law_bodies_come_to_their_statements(
    body: Seq<char>,
    stmts: Seq<StmtView>,
    e: ExprView,
    s: StmtView,
    entries: Seq<EntryView>,
    scope: ScopeView,
    depth: nat,
    visited: Set<Seq<char>>,
)
    ensures
        match parsed_block(body) {
            Ok(found) => resolve_body(body, entries, scope, depth, visited) == resolve_stmts(
                found,
                entries,
                scope,
                depth,
                visited,
            ),
            Err(_) => resolve_body(body, entries, scope, depth, visited).outcome is Unresolved,
        },
        resolve_values(stmts.push(StmtView::Expr(e)), entries, scope, depth, visited).outcome
            == resolve_node(
            e,
            entries,
            scope,
            depth,
            resolve_values(stmts, entries, scope, depth, visited).visited,
        ).outcome,
        s is Let || s is Macro || s is Other ==> resolve_values(
            stmts.push(s),
            entries,
            scope,
            depth,
            visited,
        ) == resolve_values(stmts, entries, scope, depth, visited),
        s is Return ==> (resolve_values(
            stmts.push(s),
            entries,
            scope,
            depth,
            visited,
        ).outcome matches OutcomeView::Unresolved(why) && why is UnsupportedShape),
        resolve_values(Seq::empty(), entries, scope, depth, visited).outcome matches
            OutcomeView::Unresolved(why) && why is UnsupportedShape,
{
    assert(stmts.push(StmtView::Expr(e)).drop_last() =~= stmts);
    assert(stmts.push(s).drop_last() =~= stmts);
}

} // verus!
