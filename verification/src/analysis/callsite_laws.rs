//! What extraction finds in a file, and what it does not.

use super::callsite::{
    associated_fn, constant_or_local, first_publish_site, first_subscribe_site, function_call_site,
    group_paths, import_matches, imported, imported_paths, joined, method_call_site, site_of_kind,
    string_shaped, type_matches, use_paths, CallKind, CallView, ConfigView, MethodMatch,
    PublisherKind, SiteView,
};
use crate::order::lemma_contains_add;
use crate::syntax::{ArgView, EventView, ExprView, UseView};
use crate::text::{has_path_sep, has_suffix, last_path_segment, upto};
use crate::text_laws::{
    below, colon_path, law_ends, law_joined_segments_are_a_path, law_last_segment, law_upto,
    lemma_colon_path_push, lemma_colons,
};
use vstd::prelude::*;

verus! {

// ---------------------------------------------------------------------
// imports
// ---------------------------------------------------------------------

/// `a::b::leaf` as a tree, for the segments `a` and `b`.
pub open spec fn nested(segments: Seq<Seq<char>>, leaf: UseView) -> UseView
    decreases segments.len(),
{
    if segments.len() == 0 {
        leaf
    } else {
        UseView::Path {
            ident: segments[0],
            tree: Box::new(nested(segments.drop_first(), leaf)),
        }
    }
}

/// No segment is empty.
pub open spec fn proper(segments: Seq<Seq<char>>) -> bool {
    forall|i: int| 0 <= i < segments.len() ==> (#[trigger] segments[i]).len() > 0
}

proof fn lemma_colon_path_len(segments: Seq<Seq<char>>)
    requires
        proper(segments),
        segments.len() > 0,
    ensures
        colon_path(segments).len() > 0,
    decreases segments.len(),
{
    if segments.len() > 1 {
        assert(segments[0].len() > 0);
    } else {
        assert(segments[0].len() > 0);
    }
}

proof fn lemma_nested_use(front: Seq<Seq<char>>, segments: Seq<Seq<char>>, leaf: UseView)
    requires
        proper(front),
        proper(segments),
    ensures
        use_paths(nested(segments, leaf), colon_path(front)) == use_paths(
            leaf,
            colon_path(front + segments),
        ),
    decreases segments.len(),
{
    if segments.len() == 0 {
        assert(front + segments =~= front);
    } else {
        let next = front.push(segments[0]);
        assert(proper(next)) by {
            assert forall|i: int| 0 <= i < next.len() implies (#[trigger] next[i]).len() > 0 by {
                if i < front.len() {
                    assert(next[i] == front[i]);
                } else {
                    assert(segments[0].len() > 0);
                }
            }
        }
        let rest = segments.drop_first();
        assert(proper(rest)) by {
            assert forall|i: int| 0 <= i < rest.len() implies (#[trigger] rest[i]).len() > 0 by {
                assert(segments[i + 1].len() > 0);
            }
        }
        lemma_colons();
        lemma_nested_use(next, rest, leaf);
        assert(next + rest =~= front + segments);
        if front.len() > 0 {
            lemma_colon_path_len(front);
            lemma_colon_path_push(front, segments[0]);
        } else {
            assert(next =~= seq![segments[0]]);
        }
        assert(joined(colon_path(front), segments[0]) == colon_path(next));
    }
}

/// `use a::b::C;` imports `a::b::C`, with or without a new name, and a glob
/// imports everything below its path. A group imports what each of its trees
/// does.
pub proof fn law_use_imports_what_it_names(
    segments: Seq<Seq<char>>,
    name: Seq<char>,
    items: Seq<UseView>,
    path: Seq<char>,
)
    requires
        proper(segments),
        segments.len() > 0,
    ensures
        use_paths(nested(segments, UseView::Name(name)), Seq::empty()) == seq![
            colon_path(segments.push(name)),
        ],
        use_paths(nested(segments, UseView::Rename(name)), Seq::empty()) == seq![
            colon_path(segments.push(name)),
        ],
        use_paths(nested(segments, UseView::Glob), Seq::empty()) == seq![
            below(colon_path(segments), seq!['*']),
        ],
        use_paths(UseView::Name(name), Seq::empty()) == seq![name],
        use_paths(nested(segments, UseView::Group(items)), Seq::empty()).contains(path) == exists|
            i: int,
        |
            0 <= i < items.len() && use_paths(
                nested(segments, #[trigger] items[i]),
                Seq::empty(),
            ).contains(path),
{
    let none = Seq::<Seq<char>>::empty();
    assert(none + segments =~= segments);
    assert(colon_path(none) == Seq::<char>::empty());
    lemma_nested_use(none, segments, UseView::Name(name));
    lemma_nested_use(none, segments, UseView::Rename(name));
    lemma_nested_use(none, segments, UseView::Glob);
    lemma_nested_use(none, segments, UseView::Group(items));
    lemma_colon_path_len(segments);
    lemma_colon_path_push(segments, name);
    lemma_colons();
    reveal_strlit("::*");
    assert(colon_path(segments) + "::*"@ =~= below(colon_path(segments), seq!['*']));
    lemma_group_paths(items, items.len(), colon_path(segments), path);
    assert forall|i: int| 0 <= i < items.len() implies use_paths(
        nested(segments, #[trigger] items[i]),
        Seq::empty(),
    ) == use_paths(items[i], colon_path(segments)) by {
        lemma_nested_use(none, segments, items[i]);
    }
}

proof fn lemma_group_paths(items: Seq<UseView>, n: nat, prefix: Seq<char>, path: Seq<char>)
    requires
        n <= items.len(),
    ensures
        group_paths(items, n, prefix).contains(path) == exists|i: int|
            0 <= i < n && use_paths(#[trigger] items[i], prefix).contains(path),
    decreases n,
{
    if n > 0 {
        lemma_group_paths(items, (n - 1) as nat, prefix, path);
        lemma_contains_add(
            group_paths(items, (n - 1) as nat, prefix),
            use_paths(items[n - 1], prefix),
            path,
        );
        if use_paths(items[n - 1], prefix).contains(path) {
            assert(0 <= n - 1 < n);
        }
    }
}

/// Every `use` item of a file counts, wherever it stands, and nothing else is an
/// import.
pub proof fn law_every_use_counts(events: Seq<EventView>, path: Seq<char>)
    ensures
        imported_paths(events).contains(path) == exists|i: int|
            0 <= i < events.len() && (#[trigger] events[i] matches EventView::Use(tree)
                && use_paths(tree, Seq::empty()).contains(path)),
    decreases events.len(),
{
    if events.len() > 0 {
        let rest = events.drop_last();
        law_every_use_counts(rest, path);
        if imported_paths(rest).contains(path) {
            let i = choose|i: int|
                0 <= i < rest.len() && (#[trigger] rest[i] matches EventView::Use(tree)
                    && use_paths(tree, Seq::empty()).contains(path));
            assert(events[i] == rest[i]);
        }
        if let EventView::Use(tree) = events.last() {
            lemma_contains_add(
                imported_paths(rest),
                use_paths(tree, Seq::empty()),
                path,
            );
            if use_paths(tree, Seq::empty()).contains(path) {
                assert(events[events.len() - 1] == events.last());
            }
        }
        if exists|i: int|
            0 <= i < events.len() && (#[trigger] events[i] matches EventView::Use(tree)
                && use_paths(tree, Seq::empty()).contains(path)) {
            let i = choose|i: int|
                0 <= i < events.len() && (#[trigger] events[i] matches EventView::Use(tree)
                    && use_paths(tree, Seq::empty()).contains(path));
            if i < rest.len() {
                assert(rest[i] == events[i]);
            }
        }
    }
}

// ---------------------------------------------------------------------
// hints
// ---------------------------------------------------------------------

/// A path that ends in `name`, with or without something before it.
pub open spec fn named(path: Seq<char>, outer: Option<Seq<char>>, name: Seq<char>) -> bool {
    match outer {
        Some(o) => path == below(o, name),
        None => path == name,
    }
}

proof fn lemma_named(path: Seq<char>, outer: Option<Seq<char>>, name: Seq<char>)
    requires
        named(path, outer, name),
        !name.contains(':'),
    ensures
        last_path_segment(path) == name,
        has_path_sep(path) == (outer is Some),
{
    match outer {
        Some(o) => law_last_segment(o, name),
        None => law_last_segment(Seq::empty(), name),
    }
}

/// An import brings in a trait or type exactly when both end in the same name,
/// whatever modules stand before it on either side.
pub proof fn law_import_goes_by_its_last_name(
    import: Seq<char>,
    a: Option<Seq<char>>,
    s: Seq<char>,
    path: Seq<char>,
    b: Option<Seq<char>>,
    t: Seq<char>,
)
    requires
        named(import, a, s),
        named(path, b, t),
        !s.contains(':'),
        !t.contains(':'),
    ensures
        import_matches(import, path) == (s == t),
{
    lemma_named(import, a, s);
    lemma_named(path, b, t);
    lemma_colons();
    if s == t {
        if a is None && b is None {
            assert(import == path);
        }
    } else {
        assert(import != path);
        let tail = "::"@ + path;
        if has_suffix(import, tail) {
            law_ends(import, tail, Seq::empty());
            let front = import.take(import.len() - tail.len());
            match b {
                Some(o) => {
                    assert(import =~= below(front + seq![':', ':'] + o, t));
                    law_last_segment(front + seq![':', ':'] + o, t);
                },
                None => {
                    assert(import =~= below(front, t));
                    law_last_segment(front, t);
                },
            }
        }
    }
}

/// One import is enough, wherever it stands in the list; and without one there
/// is no hint.
pub proof fn law_one_import_is_enough(path: Seq<char>, imports: Seq<Seq<char>>)
    ensures
        forall|i: int|
            0 <= i < imports.len() && import_matches(#[trigger] imports[i], path) ==> imported(
                Some(path),
                imports,
            ),
        (forall|i: int| 0 <= i < imports.len() ==> !import_matches(#[trigger] imports[i], path))
            ==> !imported(Some(path), imports),
        !imported(None, imports),
{
}

/// A type written out in full needs no hint. Written by its last name, or by its
/// last module and name, it needs one unless names alone count: that the type is
/// imported, or the module that is written.
pub proof fn law_written_types(
    outer: Seq<char>,
    module: Seq<char>,
    name: Seq<char>,
    imports: Seq<Seq<char>>,
    method_match: MethodMatch,
)
    requires
        !module.contains(':'),
        !name.contains(':'),
        module.len() > 0,
    ensures
        ({
            let full = below(below(outer, module), name);
            let hint = method_match is Name || imported(Some(full), imports);
            &&& type_matches(Some(full), full, imports, method_match)
            &&& hint ==> type_matches(Some(full), name, imports, method_match)
            &&& hint ==> type_matches(Some(full), below(module, name), imports, method_match)
            &&& imports.contains(below(outer, module)) ==> type_matches(
                Some(full),
                below(module, name),
                imports,
                method_match,
            )
            &&& !hint && name != full ==> !type_matches(Some(full), name, imports, method_match)
            &&& !hint && below(module, name) != full && !imports.contains(below(outer, module))
                ==> !type_matches(Some(full), below(module, name), imports, method_match)
            &&& !type_matches(None, name, imports, method_match)
        }),
{
    let full = below(below(outer, module), name);
    let short = below(module, name);
    lemma_written(outer, module, name);
    if imports.contains(full) {
        let i = choose|i: int| 0 <= i < imports.len() && imports[i] == full;
        assert(import_matches(imports[i], full));
    }
}

proof fn lemma_written(outer: Seq<char>, module: Seq<char>, name: Seq<char>)
    requires
        !module.contains(':'),
        !name.contains(':'),
        module.len() > 0,
    ensures
        ({
            let full = below(below(outer, module), name);
            let short = below(module, name);
            &&& last_path_segment(full) == name
            &&& has_suffix(full, "::"@ + short)
            &&& has_suffix(full, "::"@ + name)
            &&& full.take(full.len() - (short.len() - upto(short, ':').len())) == below(
                outer,
                module,
            )
            &&& full.take(full.len() - (name.len() - upto(name, ':').len())) == full
        }),
{
    let full = below(below(outer, module), name);
    let short = below(module, name);
    lemma_colons();
    law_last_segment(below(outer, module), name);
    assert(has_suffix(full, "::"@ + short)) by {
        law_ends(full, "::"@ + short, outer);
        assert(full =~= outer + ("::"@ + short));
    }
    assert(upto(short, ':') == module) by {
        law_upto(module, ':', seq![':'] + name);
        assert(short =~= module + seq![':'] + (seq![':'] + name));
    }
    assert(full.take(full.len() - (short.len() - module.len())) =~= below(outer, module));
    assert(has_suffix(full, "::"@ + name)) by {
        law_ends(full, "::"@ + name, below(outer, module));
        assert(full =~= below(outer, module) + ("::"@ + name));
    }
    law_upto(name, ':', Seq::empty());
    assert(full.take(full.len() as int) =~= full);
}

/// A type of another name is another type.
pub proof fn law_other_types_do_not_match(
    x: Seq<char>,
    a: Option<Seq<char>>,
    s: Seq<char>,
    receiver: Seq<char>,
    b: Option<Seq<char>>,
    t: Seq<char>,
    imports: Seq<Seq<char>>,
    method_match: MethodMatch,
)
    requires
        named(x, a, s),
        named(receiver, b, t),
        !s.contains(':'),
        !t.contains(':'),
        s != t,
    ensures
        !type_matches(Some(x), receiver, imports, method_match),
{
    lemma_named(x, a, s);
    lemma_named(receiver, b, t);
    law_import_goes_by_its_last_name(x, a, s, receiver, b, t);
    if receiver == s {
        lemma_named(receiver, None, s);
    }
}

/// The call `a::b::T::f(..)` calls the function `f` of the type `a::b::T`; a name
/// alone calls no function of a type.
pub proof fn law_associated_function(segments: Seq<Seq<char>>, name: Seq<char>)
    requires
        segments.len() > 0,
    ensures
        associated_fn(ExprView::Path(segments.push(name))) == Some((colon_path(segments), name)),
        associated_fn(ExprView::Path(seq![name])) is None,
{
    law_joined_segments_are_a_path(segments);
    assert(segments.push(name).drop_last() =~= segments);
}

// ---------------------------------------------------------------------
// what looks like a subject
// ---------------------------------------------------------------------

/// `A` to `Z`.
pub open spec fn capital(c: char) -> bool {
    0x41 <= c as u32 <= 0x5a
}

/// `a` to `z`.
pub open spec fn small(c: char) -> bool {
    0x61 <= c as u32 <= 0x7a
}

/// `0` to `9`.
pub open spec fn figure(c: char) -> bool {
    0x30 <= c as u32 <= 0x39
}

/// Literals, formats and calls look like subjects, and so does what is converted
/// to a string. References and parentheses make no difference. Numbers, fields
/// and what the parser does not tell apart do not look like subjects.
pub proof fn law_string_shapes(
    e: ExprView,
    text: Seq<char>,
    bytes: Seq<u8>,
    p: Seq<Seq<char>>,
    name: Seq<char>,
)
    ensures
        !(e is Path) ==> !string_shaped(ExprView::Call { func: Box::new(e) }),
        string_shaped(ExprView::MethodCall { receiver: Box::new(e), method: name }) ==> name
            == "to_owned"@ || name == "to_string"@ || name == "into"@ || name == "clone"@ || name
            == "as_str"@ || name == "as_ref"@,
        string_shaped(ExprView::Macro { path: p.push(name), tokens: text }) ==> name == "format"@
            || name == "concat"@ || name == "include_str"@,
        string_shaped(ExprView::Str(text)),
        string_shaped(ExprView::ByteStr(bytes)),
        string_shaped(ExprView::Reference(Box::new(e))) == string_shaped(e),
        string_shaped(ExprView::Paren(Box::new(e))) == string_shaped(e),
        string_shaped(ExprView::Group(Box::new(e))) == string_shaped(e),
        string_shaped(ExprView::Call { func: Box::new(ExprView::Path(p)) }),
        !string_shaped(ExprView::OtherLit),
        !string_shaped(ExprView::Field),
        !string_shaped(ExprView::Other),
        string_shaped(ExprView::Macro { path: p.push("format"@), tokens: text }),
        string_shaped(ExprView::Macro { path: p.push("concat"@), tokens: text }),
        string_shaped(ExprView::Macro { path: p.push("include_str"@), tokens: text }),
        string_shaped(ExprView::MethodCall { receiver: Box::new(e), method: "to_owned"@ }),
        string_shaped(ExprView::MethodCall { receiver: Box::new(e), method: "to_string"@ }),
        string_shaped(ExprView::MethodCall { receiver: Box::new(e), method: "into"@ }),
        string_shaped(ExprView::MethodCall { receiver: Box::new(e), method: "clone"@ }),
        string_shaped(ExprView::MethodCall { receiver: Box::new(e), method: "as_str"@ }),
        string_shaped(ExprView::MethodCall { receiver: Box::new(e), method: "as_ref"@ }),
{
}

/// A path looks like a subject when its last name is in capitals or in small
/// letters throughout, with digits and underscores after the first letter. A
/// name with both does not: it is a type or a variant. What stands before the
/// last name makes no difference.
pub proof fn law_string_shaped_names(p: Seq<Seq<char>>, name: Seq<char>)
    ensures
        string_shaped(ExprView::Path(p.push(name))) == string_shaped(ExprView::Path(seq![name])),
        name.len() > 0 && capital(name[0]) && (forall|i: int|
            0 <= i < name.len() ==> capital(#[trigger] name[i]) || name[i] == '_' || figure(
                name[i],
            )) ==> string_shaped(ExprView::Path(p.push(name))),
        name.len() > 0 && small(name[0]) && (forall|i: int|
            0 <= i < name.len() ==> small(#[trigger] name[i]) || name[i] == '_' || figure(name[i]))
            ==> string_shaped(ExprView::Path(p.push(name))),
        (exists|i: int, j: int|
            0 <= i < name.len() && 0 <= j < name.len() && capital(#[trigger] name[i]) && small(
                #[trigger] name[j],
            )) ==> !string_shaped(ExprView::Path(p.push(name))),
        name.len() > 0 && !capital(name[0]) && !small(name[0]) ==> !string_shaped(
            ExprView::Path(p.push(name)),
        ),
{
    let q = seq![name];
    assert(q.last() == name);
    assert(p.push(name).last() == name);
    if name.len() > 0 && !capital(name[0]) && !small(name[0]) {
        assert(!constant_or_local(name));
    }
    if exists|i: int, j: int|
        0 <= i < name.len() && 0 <= j < name.len() && capital(#[trigger] name[i]) && small(
            #[trigger] name[j],
        ) {
        let (i, j) = choose|i: int, j: int|
            0 <= i < name.len() && 0 <= j < name.len() && capital(#[trigger] name[i]) && small(
                #[trigger] name[j],
            );
        assert(!constant_or_local(name));
    }
}

// ---------------------------------------------------------------------
// which calls are call sites
// ---------------------------------------------------------------------

/// Whether the argument at `k` is there and looks like a subject.
pub open spec fn usable(args: Seq<ArgView>, k: int) -> bool {
    0 <= k < args.len() && string_shaped(args[k].tree)
}

/// Whether a call fits a specification: it has the name of the method, and by its
/// receiver or the imports it is about the trait or the type.
pub open spec fn about(
    kind: PublisherKind,
    path: Option<Seq<char>>,
    type_path: Option<Seq<char>>,
    method: Seq<char>,
    call: CallView,
    imports: Seq<Seq<char>>,
    method_match: MethodMatch,
) -> bool {
    method == call.name && match (kind, call.receiver) {
        (PublisherKind::Trait, None) => method_match is Name || imported(path, imports),
        (PublisherKind::Inherent, None) => method_match is Name || imported(type_path, imports),
        (PublisherKind::Inherent, Some(t)) => type_matches(type_path, t, imports, method_match),
        (PublisherKind::Trait, Some(_)) => false,
    }
}

/// Whether a publisher of the configuration fits a call and finds its subject.
pub open spec fn publishes(
    config: ConfigView,
    i: int,
    call: CallView,
    imports: Seq<Seq<char>>,
    args: Seq<ArgView>,
) -> bool {
    let s = config.publishers[i];
    about(s.kind, s.path, s.type_path, s.method, call, imports, config.method_match) && usable(
        args,
        s.subject_arg_index,
    )
}

/// Whether a consumer of the configuration fits a call and finds its subject.
pub open spec fn subscribes(
    config: ConfigView,
    i: int,
    call: CallView,
    imports: Seq<Seq<char>>,
    args: Seq<ArgView>,
) -> bool {
    let s = config.consumers[i];
    about(s.kind, s.path, s.type_path, s.method, call, imports, config.method_match) && usable(
        args,
        s.subject_arg_index,
    )
}

/// No publisher and no consumer of the kind fits.
pub open spec fn no_fit(
    config: ConfigView,
    kind: PublisherKind,
    call: CallView,
    imports: Seq<Seq<char>>,
    args: Seq<ArgView>,
) -> bool {
    &&& forall|i: int|
        0 <= i < config.publishers.len() && (#[trigger] config.publishers[i]).kind == kind
            ==> !publishes(config, i, call, imports, args)
    &&& forall|i: int|
        0 <= i < config.consumers.len() && (#[trigger] config.consumers[i]).kind == kind
            ==> !subscribes(config, i, call, imports, args)
}

/// The column of a call, counted from 1.
pub open spec fn shown_column(column: int) -> int {
    if column < usize::MAX {
        column + 1
    } else {
        column
    }
}

/// The site of a call that the `i`-th publisher fits.
pub open spec fn published_by(
    config: ConfigView,
    i: int,
    call: CallView,
    args: Seq<ArgView>,
    file: Seq<char>,
    body: Option<Seq<char>>,
) -> SiteView {
    SiteView {
        kind: CallKind::Publish,
        file,
        line: call.line,
        column: shown_column(call.column),
        subject_expr: args[config.publishers[i].subject_arg_index].source,
        consumer_name_expr: None,
        matched_method: call.name,
        enclosing_fn_body: body,
    }
}

/// The site of a call that the `i`-th consumer fits. Its consumer name is the
/// argument that the specification points to, if the call has it.
pub open spec fn subscribed_by(
    config: ConfigView,
    i: int,
    call: CallView,
    args: Seq<ArgView>,
    file: Seq<char>,
    body: Option<Seq<char>>,
) -> SiteView {
    let at = config.consumers[i].consumer_name_arg_index;
    SiteView {
        kind: CallKind::Subscribe,
        file,
        line: call.line,
        column: shown_column(call.column),
        subject_expr: args[config.consumers[i].subject_arg_index].source,
        consumer_name_expr: if at is Some && 0 <= at->0 < args.len() {
            Some(args[at->0].source)
        } else {
            None
        },
        matched_method: call.name,
        enclosing_fn_body: body,
    }
}

proof fn lemma_publisher_at(
    config: ConfigView,
    k: int,
    i: int,
    call: CallView,
    imports: Seq<Seq<char>>,
    args: Seq<ArgView>,
    file: Seq<char>,
    body: Option<Seq<char>>,
)
    requires
        0 <= k <= i < config.publishers.len(),
        publishes(config, i, call, imports, args),
        forall|j: int|
            k <= j < i && (#[trigger] config.publishers[j]).kind == config.publishers[i].kind
                ==> !publishes(config, j, call, imports, args),
    ensures
        first_publish_site(
            config.publishers.skip(k),
            config.publishers[i].kind,
            call,
            imports,
            config.method_match,
            args,
            file,
            body,
        ) == Some(published_by(config, i, call, args, file, body)),
    decreases i - k,
{
    let specs = config.publishers.skip(k);
    assert(specs[0] == config.publishers[k]);
    assert(specs.drop_first() =~= config.publishers.skip(k + 1));
    if k < i {
        assert(config.publishers[k].kind == config.publishers[i].kind ==> !publishes(
            config,
            k,
            call,
            imports,
            args,
        ));
        lemma_publisher_at(config, k + 1, i, call, imports, args, file, body);
    }
}

proof fn lemma_no_publisher(
    config: ConfigView,
    k: int,
    kind: PublisherKind,
    call: CallView,
    imports: Seq<Seq<char>>,
    args: Seq<ArgView>,
    file: Seq<char>,
    body: Option<Seq<char>>,
)
    requires
        0 <= k <= config.publishers.len(),
        forall|j: int|
            0 <= j < config.publishers.len() && (#[trigger] config.publishers[j]).kind == kind
                ==> !publishes(config, j, call, imports, args),
    ensures
        first_publish_site(
            config.publishers.skip(k),
            kind,
            call,
            imports,
            config.method_match,
            args,
            file,
            body,
        ) is None,
    decreases config.publishers.len() - k,
{
    if k < config.publishers.len() {
        let specs = config.publishers.skip(k);
        assert(specs[0] == config.publishers[k]);
        assert(specs.drop_first() =~= config.publishers.skip(k + 1));
        lemma_no_publisher(config, k + 1, kind, call, imports, args, file, body);
    }
}

proof fn lemma_consumer_at(
    config: ConfigView,
    k: int,
    i: int,
    call: CallView,
    imports: Seq<Seq<char>>,
    args: Seq<ArgView>,
    file: Seq<char>,
    body: Option<Seq<char>>,
)
    requires
        0 <= k <= i < config.consumers.len(),
        subscribes(config, i, call, imports, args),
        forall|j: int|
            k <= j < i && (#[trigger] config.consumers[j]).kind == config.consumers[i].kind
                ==> !subscribes(config, j, call, imports, args),
    ensures
        first_subscribe_site(
            config.consumers.skip(k),
            config.consumers[i].kind,
            call,
            imports,
            config.method_match,
            args,
            file,
            body,
        ) == Some(subscribed_by(config, i, call, args, file, body)),
    decreases i - k,
{
    let specs = config.consumers.skip(k);
    assert(specs[0] == config.consumers[k]);
    assert(specs.drop_first() =~= config.consumers.skip(k + 1));
    if k < i {
        assert(config.consumers[k].kind == config.consumers[i].kind ==> !subscribes(
            config,
            k,
            call,
            imports,
            args,
        ));
        lemma_consumer_at(config, k + 1, i, call, imports, args, file, body);
    }
}

proof fn lemma_no_consumer(
    config: ConfigView,
    k: int,
    kind: PublisherKind,
    call: CallView,
    imports: Seq<Seq<char>>,
    args: Seq<ArgView>,
    file: Seq<char>,
    body: Option<Seq<char>>,
)
    requires
        0 <= k <= config.consumers.len(),
        forall|j: int|
            0 <= j < config.consumers.len() && (#[trigger] config.consumers[j]).kind == kind
                ==> !subscribes(config, j, call, imports, args),
    ensures
        first_subscribe_site(
            config.consumers.skip(k),
            kind,
            call,
            imports,
            config.method_match,
            args,
            file,
            body,
        ) is None,
    decreases config.consumers.len() - k,
{
    if k < config.consumers.len() {
        let specs = config.consumers.skip(k);
        assert(specs[0] == config.consumers[k]);
        assert(specs.drop_first() =~= config.consumers.skip(k + 1));
        lemma_no_consumer(config, k + 1, kind, call, imports, args, file, body);
    }
}

proof fn lemma_no_site_of_kind(
    config: ConfigView,
    kind: PublisherKind,
    call: CallView,
    imports: Seq<Seq<char>>,
    args: Seq<ArgView>,
    file: Seq<char>,
    body: Option<Seq<char>>,
)
    requires
        no_fit(config, kind, call, imports, args),
    ensures
        site_of_kind(config, kind, call, imports, args, file, body) is None,
{
    assert(config.publishers.skip(0) =~= config.publishers);
    assert(config.consumers.skip(0) =~= config.consumers);
    lemma_no_publisher(config, 0, kind, call, imports, args, file, body);
    lemma_no_consumer(config, 0, kind, call, imports, args, file, body);
}

/// A method call that a configured publisher fits is a publish site: of the
/// first publisher of its kind that fits. Trait specifications come before
/// inherent ones.
pub proof fn law_publisher_gives_a_site(
    config: ConfigView,
    i: int,
    imports: Seq<Seq<char>>,
    call: CallView,
    args: Seq<ArgView>,
    file: Seq<char>,
    body: Option<Seq<char>>,
)
    requires
        call.receiver is None,
        0 <= i < config.publishers.len(),
        publishes(config, i, call, imports, args),
        forall|j: int|
            0 <= j < i && (#[trigger] config.publishers[j]).kind == config.publishers[i].kind
                ==> !publishes(config, j, call, imports, args),
        config.publishers[i].kind is Inherent ==> no_fit(
            config,
            PublisherKind::Trait,
            call,
            imports,
            args,
        ),
    ensures
        method_call_site(config, imports, call, args, file, body) == Some(
            published_by(config, i, call, args, file, body),
        ),
{
    assert(config.publishers.skip(0) =~= config.publishers);
    lemma_publisher_at(config, 0, i, call, imports, args, file, body);
    if config.publishers[i].kind is Inherent {
        lemma_no_site_of_kind(config, PublisherKind::Trait, call, imports, args, file, body);
    }
}

/// A method call that a configured consumer fits, of whatever kind, is a
/// subscribe site, unless a publisher comes before it.
pub proof fn law_consumer_gives_a_site(
    config: ConfigView,
    i: int,
    imports: Seq<Seq<char>>,
    call: CallView,
    args: Seq<ArgView>,
    file: Seq<char>,
    body: Option<Seq<char>>,
)
    requires
        call.receiver is None,
        0 <= i < config.consumers.len(),
        subscribes(config, i, call, imports, args),
        forall|j: int|
            0 <= j < i && (#[trigger] config.consumers[j]).kind == config.consumers[i].kind
                ==> !subscribes(config, j, call, imports, args),
        forall|j: int|
            0 <= j < config.publishers.len() && (#[trigger] config.publishers[j]).kind
                == config.consumers[i].kind ==> !publishes(config, j, call, imports, args),
        config.consumers[i].kind is Inherent ==> no_fit(
            config,
            PublisherKind::Trait,
            call,
            imports,
            args,
        ),
    ensures
        method_call_site(config, imports, call, args, file, body) == Some(
            subscribed_by(config, i, call, args, file, body),
        ),
{
    let kind = config.consumers[i].kind;
    assert(config.publishers.skip(0) =~= config.publishers);
    assert(config.consumers.skip(0) =~= config.consumers);
    lemma_no_publisher(config, 0, kind, call, imports, args, file, body);
    lemma_consumer_at(config, 0, i, call, imports, args, file, body);
    if kind is Inherent {
        lemma_no_site_of_kind(config, PublisherKind::Trait, call, imports, args, file, body);
    }
}

/// A method call that nothing configured fits is no call site.
pub proof fn law_no_fit_no_site(
    config: ConfigView,
    imports: Seq<Seq<char>>,
    call: CallView,
    args: Seq<ArgView>,
    file: Seq<char>,
    body: Option<Seq<char>>,
)
    requires
        call.receiver is None,
        no_fit(config, PublisherKind::Trait, call, imports, args),
        no_fit(config, PublisherKind::Inherent, call, imports, args),
    ensures
        method_call_site(config, imports, call, args, file, body) is None,
{
    lemma_no_site_of_kind(config, PublisherKind::Trait, call, imports, args, file, body);
    lemma_no_site_of_kind(config, PublisherKind::Inherent, call, imports, args, file, body);
}

/// The call `T::f(..)` by its type, function and place.
pub open spec fn typed_call(
    segments: Seq<Seq<char>>,
    name: Seq<char>,
    line: int,
    column: int,
) -> CallView {
    CallView { receiver: Some(colon_path(segments)), name, line, column }
}

/// A call of an associated function is a site of the first publisher that fits,
/// else of the first consumer that fits, else none.
pub proof fn law_typed_calls(
    config: ConfigView,
    i: int,
    imports: Seq<Seq<char>>,
    segments: Seq<Seq<char>>,
    name: Seq<char>,
    line: int,
    column: int,
    args: Seq<ArgView>,
    file: Seq<char>,
    body: Option<Seq<char>>,
)
    requires
        segments.len() > 0,
    ensures
        ({
            let call = typed_call(segments, name, line, column);
            let site = function_call_site(
                config,
                imports,
                ExprView::Path(segments.push(name)),
                line,
                column,
                args,
                file,
                body,
            );
            let no_publisher = forall|j: int|
                0 <= j < config.publishers.len() && (#[trigger] config.publishers[j]).kind
                    is Inherent ==> !publishes(config, j, call, imports, args);
            &&& 0 <= i < config.publishers.len() && publishes(config, i, call, imports, args) && (
            forall|j: int|
                0 <= j < i && (#[trigger] config.publishers[j]).kind is Inherent ==> !publishes(
                    config,
                    j,
                    call,
                    imports,
                    args,
                )) ==> site == Some(published_by(config, i, call, args, file, body))
            &&& 0 <= i < config.consumers.len() && subscribes(config, i, call, imports, args)
                && no_publisher && (forall|j: int|
                0 <= j < i && (#[trigger] config.consumers[j]).kind is Inherent ==> !subscribes(
                    config,
                    j,
                    call,
                    imports,
                    args,
                )) ==> site == Some(subscribed_by(config, i, call, args, file, body))
            &&& no_fit(config, PublisherKind::Inherent, call, imports, args) ==> site is None
        }),
{
    let call = typed_call(segments, name, line, column);
    let kind = PublisherKind::Inherent;
    law_associated_function(segments, name);
    assert(config.publishers.skip(0) =~= config.publishers);
    assert(config.consumers.skip(0) =~= config.consumers);
    if 0 <= i < config.publishers.len() && publishes(config, i, call, imports, args) && (forall|
        j: int,
    |
        0 <= j < i && (#[trigger] config.publishers[j]).kind is Inherent ==> !publishes(
            config,
            j,
            call,
            imports,
            args,
        )) {
        lemma_publisher_at(config, 0, i, call, imports, args, file, body);
    }
    if forall|j: int|
        0 <= j < config.publishers.len() && (#[trigger] config.publishers[j]).kind is Inherent
            ==> !publishes(config, j, call, imports, args) {
        lemma_no_publisher(config, 0, kind, call, imports, args, file, body);
    }
    if 0 <= i < config.consumers.len() && subscribes(config, i, call, imports, args) && (forall|
        j: int,
    |
        0 <= j < i && (#[trigger] config.consumers[j]).kind is Inherent ==> !subscribes(
            config,
            j,
            call,
            imports,
            args,
        )) {
        lemma_consumer_at(config, 0, i, call, imports, args, file, body);
    }
    if no_fit(config, kind, call, imports, args) {
        lemma_no_site_of_kind(config, kind, call, imports, args, file, body);
    }
}

} // verus!
