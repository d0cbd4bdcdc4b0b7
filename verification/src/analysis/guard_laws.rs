//! What becomes of a name that leads back to itself, or to nothing.

use super::subject::{
    binding_key, const_key, crate_path, function_bodies, helper_const, helper_key, is_adapter,
    law_guard_is_released, method_bodies, resolve_builder, resolve_const, resolve_found,
    resolve_helper, resolve_node, resolve_path, resolve_text, symbol_by_ident, OutcomeView,
    ReasonView, ScopeView,
};
use super::subject_laws::{
    from_root, has_const, helper_mark, lemma_nothing_named, no_const, not_at_home, unbound,
};
use super::symbol_index::{lookup, EntryView};
use super::template::let_binding;
use crate::syntax::ExprView;
use crate::text::has_suffix;
use crate::text_laws::{colon_path, law_joined_segments_are_a_path, lemma_colons};
use vstd::prelude::*;

verus! {

/// A binding that does not lead to anything gives way to a constant: a name that
/// is bound to something that is not found resolves as the constant of its name.
pub proof fn law_dangling_binding_gives_way(
    name: Seq<char>,
    body: Seq<char>,
    rhs: Seq<char>,
    text: Seq<char>,
    entries: Seq<EntryView>,
    scope: ScopeView,
    depth: nat,
)
    requires
        depth > 0,
        scope.fn_body_source == Some(body),
        let_binding(body, name) == Some(rhs),
        resolve_text(
            rhs,
            entries,
            scope,
            (depth - 1) as nat,
            set!["binding:"@ + name],
        ).outcome matches OutcomeView::Unresolved(why) && why is SymbolNotFound,
        has_const(entries, scope.current_crate, from_root(scope.current_crate, seq![name]), text),
    ensures
        resolve_node(
            ExprView::Path(seq![name]),
            entries,
            scope,
            depth,
            Set::empty(),
        ).outcome == resolve_text(
            text,
            entries,
            scope,
            (depth - 1) as nat,
            set!["const:"@ + from_root(scope.current_crate, seq![name])],
        ).outcome,
{
    let path = seq![name];
    let none = Set::<Seq<char>>::empty();
    let key = binding_key(name);
    law_joined_segments_are_a_path(path);
    lemma_colons();
    assert(path.last() == name);
    assert(none.insert(key) =~= set!["binding:"@ + name]);
    let r = resolve_found(key, rhs, entries, scope, depth, none);
    law_guard_is_released(rhs, entries, scope, (depth - 1) as nat, none.insert(key));
    assert(r.visited =~= none);
    assert(resolve_path(path, entries, scope, depth, none) == resolve_const(
        path,
        entries,
        scope,
        depth,
        none,
    ));
    let mark = const_key(crate_path(scope.current_crate, colon_path(path)));
    assert(none.insert(mark) =~= set!["const:"@ + from_root(scope.current_crate, path)]);
}

/// A name that is looked up on the right of its own binding is not that binding
/// but the constant of its name.
pub proof fn law_binding_of_itself_is_the_constant(
    name: Seq<char>,
    body: Seq<char>,
    rhs: Seq<char>,
    text: Seq<char>,
    entries: Seq<EntryView>,
    scope: ScopeView,
    depth: nat,
)
    requires
        depth > 0,
        scope.fn_body_source == Some(body),
        let_binding(body, name) == Some(rhs),
        has_const(entries, scope.current_crate, from_root(scope.current_crate, seq![name]), text),
    ensures
        resolve_node(
            ExprView::Path(seq![name]),
            entries,
            scope,
            depth,
            set!["binding:"@ + name],
        ).outcome == resolve_text(
            text,
            entries,
            scope,
            (depth - 1) as nat,
            set!["const:"@ + from_root(scope.current_crate, seq![name])],
        ).outcome,
{
    let path = seq![name];
    let none = Set::<Seq<char>>::empty();
    let key = binding_key(name);
    law_joined_segments_are_a_path(path);
    lemma_colons();
    assert(path.last() == name);
    let marked = set!["binding:"@ + name];
    assert(marked.remove(key) =~= none);
    assert(resolve_path(path, entries, scope, depth, marked) == resolve_const(
        path,
        entries,
        scope,
        depth,
        none,
    ));
    let mark = const_key(crate_path(scope.current_crate, colon_path(path)));
    assert(none.insert(mark) =~= set!["const:"@ + from_root(scope.current_crate, path)]);
}

/// A constant that is named in its own value is not that constant again: the first
/// helper crate that has one under the path answers.
pub proof fn law_constant_of_itself_is_a_helpers(
    path: Seq<Seq<char>>,
    own: Seq<char>,
    text: Seq<char>,
    entries: Seq<EntryView>,
    scope: ScopeView,
    depth: nat,
)
    requires
        path.len() > 0,
        depth > 0,
        unbound(scope, path.last()),
        has_const(entries, scope.current_crate, from_root(scope.current_crate, path), own),
        scope.helper_crates.len() > 0,
        has_const(entries, scope.helper_crates[0], colon_path(path), text),
    ensures
        resolve_node(
            ExprView::Path(path),
            entries,
            scope,
            depth,
            set!["const:"@ + from_root(scope.current_crate, path)],
        ).outcome == resolve_text(
            text,
            entries,
            scope,
            (depth - 1) as nat,
            set![helper_mark(scope.helper_crates[0], colon_path(path))],
        ).outcome,
{
    let none = Set::<Seq<char>>::empty();
    law_joined_segments_are_a_path(path);
    lemma_colons();
    let marked = set!["const:"@ + from_root(scope.current_crate, path)];
    let mark = const_key(crate_path(scope.current_crate, colon_path(path)));
    assert(marked.remove(mark) =~= none);
    assert(resolve_path(path, entries, scope, depth, marked) == resolve_helper(
        path,
        entries,
        scope,
        depth,
        none,
    ));
    let helper = scope.helper_crates[0];
    let key = helper_key(helper, colon_path(path));
    assert(helper_const(entries, scope.helper_crates, colon_path(path), path.last(), none) == Some(
        (key, text),
    ));
    assert(none.insert(key) =~= set![helper_mark(helper, colon_path(path))]);
}

/// A constant of a helper crate that leads back to itself is not found.
pub proof fn law_helper_constant_of_itself_is_not_found(
    path: Seq<Seq<char>>,
    helper: Seq<char>,
    entries: Seq<EntryView>,
    scope: ScopeView,
    depth: nat,
    visited: Set<Seq<char>>,
)
    requires
        path.len() > 0,
        not_at_home(path, entries, scope),
        scope.helper_crates == seq![helper],
        visited.contains(helper_mark(helper, colon_path(path))),
        visited.contains(helper_mark(helper, path.last())),
        !visited.contains("const:"@ + from_root(scope.current_crate, path)),
    ensures
        resolve_node(ExprView::Path(path), entries, scope, depth, visited).outcome
            == OutcomeView::Unresolved(ReasonView::SymbolNotFound { path: colon_path(path) }),
{
    law_joined_segments_are_a_path(path);
    lemma_colons();
    lemma_nothing_named(entries, scope.current_crate, path.last());
    let mark = const_key(crate_path(scope.current_crate, colon_path(path)));
    assert(visited.remove(mark) =~= visited);
    let rest = scope.helper_crates.drop_first();
    assert(rest =~= Seq::empty());
    assert(helper_const(entries, rest, colon_path(path), path.last(), visited) is None);
    assert(scope.helper_crates[0] == helper);
    assert(helper_key(helper, colon_path(path)) == helper_mark(helper, colon_path(path)));
    assert(helper_key(helper, path.last()) == helper_mark(helper, path.last()));
    assert(helper_const(
        entries,
        scope.helper_crates,
        colon_path(path),
        path.last(),
        visited,
    ) is None);
}

proof fn lemma_builder_marked(
    bodies: Seq<Seq<char>>,
    i: nat,
    key: Seq<char>,
    name: Seq<char>,
    entries: Seq<EntryView>,
    scope: ScopeView,
    depth: nat,
    visited: Set<Seq<char>>,
)
    requires
        visited.contains(key),
    ensures
        resolve_builder(bodies, i, key, name, entries, scope, depth, visited).outcome
            == OutcomeView::Unresolved(ReasonView::SymbolNotFound { path: name }),
    decreases bodies.len() - i,
{
    if i < bodies.len() {
        lemma_builder_marked(bodies, i + 1, key, name, entries, scope, depth, visited);
    }
}

/// A builder that is called in its own body is not found, whatever it is given.
pub proof fn law_builder_in_itself_is_not_found(
    name: Seq<char>,
    receiver: ExprView,
    path: Seq<Seq<char>>,
    entries: Seq<EntryView>,
    scope: ScopeView,
    depth: nat,
    visited: Set<Seq<char>>,
)
    requires
        !is_adapter(name),
    ensures
        scope.subject_builder_methods.contains(name) && visited.contains("method:"@ + name)
            ==> resolve_node(
            ExprView::MethodCall { receiver: Box::new(receiver), method: name },
            entries,
            scope,
            depth,
            visited,
        ).outcome == OutcomeView::Unresolved(ReasonView::SymbolNotFound { path: name }),
        visited.contains("fn:"@ + name) ==> resolve_node(
            ExprView::Call { func: Box::new(ExprView::Path(path.push(name))) },
            entries,
            scope,
            depth,
            visited,
        ).outcome == OutcomeView::Unresolved(ReasonView::SymbolNotFound { path: name }),
{
    if visited.contains("method:"@ + name) {
        lemma_builder_marked(
            method_bodies(entries, name),
            0,
            "method:"@ + name,
            name,
            entries,
            scope,
            depth,
            visited,
        );
    }
    if visited.contains("fn:"@ + name) {
        assert(path.push(name).last() == name);
        lemma_builder_marked(
            function_bodies(entries, name),
            0,
            "fn:"@ + name,
            name,
            entries,
            scope,
            depth,
            visited,
        );
    }
}

/// A constant somewhere in the index that has the name, at a path where the crate
/// keeps something too.
pub open spec fn candidate(
    entries: Seq<EntryView>,
    crate_name: Seq<char>,
    name: Seq<char>,
    k: int,
) -> bool {
    &&& entries[k].symbol is Const
    &&& has_suffix(entries[k].path, seq![':', ':'] + name)
    &&& lookup(entries, crate_name, entries[k].path) is Some
}

proof fn lemma_first_candidate(
    rest: Seq<EntryView>,
    at: int,
    entries: Seq<EntryView>,
    crate_name: Seq<char>,
    name: Seq<char>,
    k: int,
)
    requires
        0 <= at <= k < entries.len(),
        rest == entries.skip(at),
        candidate(entries, crate_name, name, k),
        forall|i: int| 0 <= i < k ==> !#[trigger] candidate(entries, crate_name, name, i),
    ensures
        symbol_by_ident(rest, entries, crate_name, name) == lookup(
            entries,
            crate_name,
            entries[k].path,
        ),
    decreases k - at,
{
    lemma_colons();
    assert(rest[0] == entries[at]);
    if at < k {
        assert(!candidate(entries, crate_name, name, at));
        assert(rest.drop_first() =~= entries.skip(at + 1));
        lemma_first_candidate(rest.drop_first(), at + 1, entries, crate_name, name, k);
    }
}

/// Of several constants of one name in the modules of a crate the first in the
/// order of the index answers to the name.
pub proof fn law_first_constant_of_a_name(
    path: Seq<Seq<char>>,
    k: int,
    text: Seq<char>,
    entries: Seq<EntryView>,
    scope: ScopeView,
    depth: nat,
    visited: Set<Seq<char>>,
)
    requires
        path.len() > 0,
        depth > 0,
        unbound(scope, path.last()),
        no_const(entries, scope.current_crate, from_root(scope.current_crate, path)),
        no_const(entries, scope.current_crate, colon_path(path)),
        0 <= k < entries.len(),
        candidate(entries, scope.current_crate, path.last(), k),
        forall|i: int|
            0 <= i < k ==> !#[trigger] candidate(entries, scope.current_crate, path.last(), i),
        has_const(entries, scope.current_crate, entries[k].path, text),
        !visited.contains("const:"@ + from_root(scope.current_crate, path)),
    ensures
        resolve_node(ExprView::Path(path), entries, scope, depth, visited).outcome == resolve_text(
            text,
            entries,
            scope,
            (depth - 1) as nat,
            visited.insert("const:"@ + from_root(scope.current_crate, path)),
        ).outcome,
{
    law_joined_segments_are_a_path(path);
    lemma_colons();
    assert(entries.skip(0) =~= entries);
    lemma_first_candidate(entries, 0, entries, scope.current_crate, path.last(), k);
}

} // verus!
