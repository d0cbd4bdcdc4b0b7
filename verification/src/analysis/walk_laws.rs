//! What a walk over a file collects, and where.

use super::callsite::{
    enclosing_body, extracted, function_call_site, imported_paths, law_sites_in_source_order,
    looked_at, method_call_site, method_symbols, path_of_module, site_lt, walked, without_space,
    CallView, ConfigView, FrameView, SettingView, SiteView, WalkView,
};
use super::callsite_laws::shown_column;
use super::symbol_index::{SnippetView, SpanView, SymbolView};
use crate::order::{lemma_contains_push, lemma_same_elements};
use crate::syntax::{EventView, ImplItemView, SourceView};
use crate::text::{is_space, underscored};
use crate::text_laws::{below, colon_path, lemma_colon_path_push, lemma_colons};
use vstd::prelude::*;

verus! {

// ---------------------------------------------------------------------
// methods
// ---------------------------------------------------------------------

/// A piece of source with its place; columns are shown from 1.
pub open spec fn source_at(
    source: Seq<char>,
    file: Seq<char>,
    line: int,
    column: int,
) -> SnippetView {
    SnippetView { source, span: SpanView { file, line, column: shown_column(column) } }
}

/// The symbol of a method of the type.
pub open spec fn method_of(
    type_path: Seq<char>,
    item: ImplItemView,
    file: Seq<char>,
) -> (Seq<char>, SymbolView) {
    (
        below(type_path, item->name),
        SymbolView::Method {
            type_path,
            body: source_at(item->body, file, item->line, item->column),
        },
    )
}

/// The functions among the items of a block.
pub open spec fn functions(items: Seq<ImplItemView>) -> Seq<ImplItemView> {
    items.filter(|x: ImplItemView| x is Fn)
}

/// Every function of an `impl` block is a method symbol: with the type before its
/// name, with its body and place, in the order of the block; and nothing else is.
pub proof fn law_every_function_is_a_method(
    type_path: Seq<char>,
    items: Seq<ImplItemView>,
    file: Seq<char>,
)
    ensures
        method_symbols(type_path, items, file) == functions(items).map_values(
            |x: ImplItemView| method_of(type_path, x, file),
        ),
        forall|i: int|
            0 <= i < items.len() && (#[trigger] items[i] is Fn) ==> method_symbols(
                type_path,
                items,
                file,
            ).contains(method_of(type_path, items[i], file)),
    decreases items.len(),
{
    let p = |x: ImplItemView| x is Fn;
    let f = |x: ImplItemView| method_of(type_path, x, file);
    lemma_colons();
    reveal(Seq::filter);
    if items.len() > 0 {
        let rest = items.drop_last();
        law_every_function_is_a_method(type_path, rest, file);
        let all = method_symbols(type_path, items, file);
        let front = method_symbols(type_path, rest, file);
        if items.last() is Fn {
            assert(functions(items) =~= functions(rest).push(items.last()));
            assert(functions(items).map_values(f) =~= functions(rest).map_values(f).push(
                f(items.last()),
            ));
            assert(all =~= front.push(method_of(type_path, items.last(), file)));
        } else {
            assert(functions(items) =~= functions(rest));
        }
        assert forall|i: int| 0 <= i < items.len() && (#[trigger] items[i] is Fn) implies
            all.contains(method_of(type_path, items[i], file)) by {
            let m = method_of(type_path, items[i], file);
            if i < rest.len() {
                assert(rest[i] == items[i]);
                assert(front.contains(m));
                let k = choose|k: int| 0 <= k < front.len() && front[k] == m;
                assert(all[k] == m);
            } else {
                assert(all[all.len() - 1] == m);
            }
        }
    } else {
        assert(functions(items).map_values(f) =~= Seq::empty());
    }
}

/// The type of an `impl` block is written without white space, and otherwise as
/// it stands.
pub proof fn law_type_without_space(s: Seq<char>)
    ensures
        without_space(s) == s.filter(|c: char| !is_space(c)),
    decreases s.len(),
{
    reveal(Seq::filter);
    if s.len() > 0 {
        law_type_without_space(s.drop_last());
    } else {
        assert(without_space(s) =~= s.filter(|c: char| !is_space(c)));
    }
}

// ---------------------------------------------------------------------
// where a walk is
// ---------------------------------------------------------------------

/// Going into a block puts it around the place, and coming out takes the
/// innermost one off; nothing else moves.
pub proof fn law_blocks_nest(events: Seq<EventView>, e: EventView, setting: SettingView)
    ensures
        ({
            let here = walked(events, setting).frames;
            let there = walked(events.push(e), setting).frames;
            match e {
                EventView::EnterMod { name } => there == here.push(FrameView::Module(name)),
                EventView::EnterImpl { self_type, items } => there == here.push(FrameView::Impl),
                EventView::EnterMethod { body } => there == here.push(FrameView::Method(body)),
                EventView::EnterTraitMethod { default } => there == here.push(
                    FrameView::TraitMethod(default),
                ),
                EventView::EnterFn { name, line, column, body } => there == here.push(
                    FrameView::Function(body),
                ),
                EventView::LeaveMod => here.len() > 0 ==> there == here.drop_last(),
                EventView::LeaveImpl => here.len() > 0 ==> there == here.drop_last(),
                EventView::LeaveMethod => here.len() > 0 ==> there == here.drop_last(),
                EventView::LeaveTraitMethod => here.len() > 0 ==> there == here.drop_last(),
                EventView::LeaveFn => here.len() > 0 ==> there == here.drop_last(),
                _ => there == here,
            }
        }),
{
    assert(events.push(e).drop_last() =~= events);
}

/// Outside `impl` blocks every place is looked at, and inside one what is in its
/// methods; what is directly in the block is not.
pub proof fn law_what_is_looked_at(frames: Seq<FrameView>, inner: FrameView, body: Seq<char>)
    ensures
        (forall|i: int| 0 <= i < frames.len() ==> !(#[trigger] frames[i] is Impl)) ==> looked_at(
            frames,
        ),
        !looked_at(frames.push(FrameView::Impl)),
        looked_at(frames) ==> looked_at(
            frames.push(FrameView::Impl).push(FrameView::Method(body)),
        ),
        looked_at(frames) && !(inner is Impl) ==> looked_at(frames.push(inner)),
        !(inner is Method) ==> !looked_at(frames.push(FrameView::Impl).push(inner)),
{
    let at_impl = frames.push(FrameView::Impl);
    assert(at_impl[frames.len() as int] is Impl);
    let in_method = at_impl.push(FrameView::Method(body));
    if looked_at(frames) {
        assert forall|i: int| 0 <= i < in_method.len() && #[trigger] in_method[i] is Impl implies i
            + 1 < in_method.len() && in_method[i + 1] is Method by {
            if i < frames.len() {
                assert(frames[i] is Impl);
                assert(in_method[i + 1] == frames[i + 1]);
            }
        }
        let deeper = frames.push(inner);
        if !(inner is Impl) {
            assert forall|i: int| 0 <= i < deeper.len() && #[trigger] deeper[i] is Impl implies i
                + 1 < deeper.len() && deeper[i + 1] is Method by {
                assert(frames[i] is Impl);
                assert(deeper[i + 1] == frames[i + 1]);
            }
        }
    }
    let other = at_impl.push(inner);
    assert(other[frames.len() as int] is Impl);
    assert(other[frames.len() as int + 1] == inner);
}

/// The body around a place is that of the innermost method or function that has
/// one; modules and `impl` blocks have none.
pub proof fn law_innermost_body(frames: Seq<FrameView>, body: Seq<char>, name: Seq<char>)
    ensures
        enclosing_body(frames.push(FrameView::Function(body))) == Some(body),
        enclosing_body(frames.push(FrameView::Method(body))) == Some(body),
        enclosing_body(frames.push(FrameView::TraitMethod(Some(body)))) == Some(body),
        enclosing_body(frames.push(FrameView::TraitMethod(None))) == enclosing_body(frames),
        enclosing_body(frames.push(FrameView::Module(name))) == enclosing_body(frames),
        enclosing_body(frames.push(FrameView::Impl)) == enclosing_body(frames),
        enclosing_body(Seq::empty()) is None,
{
    assert(frames.push(FrameView::TraitMethod(None)).drop_last() =~= frames);
    assert(frames.push(FrameView::Module(name)).drop_last() =~= frames);
    assert(frames.push(FrameView::Impl).drop_last() =~= frames);
}

/// The names of the modules around a place, from the outside in.
pub open spec fn modules(frames: Seq<FrameView>) -> Seq<Seq<char>>
    decreases frames.len(),
{
    if frames.len() == 0 {
        Seq::empty()
    } else {
        match frames.last() {
            FrameView::Module(name) => modules(frames.drop_last()).push(name),
            _ => modules(frames.drop_last()),
        }
    }
}

proof fn lemma_module_path(crate_name: Seq<char>, frames: Seq<FrameView>)
    ensures
        path_of_module(crate_name, frames) == colon_path(
            seq![underscored(crate_name)] + modules(frames),
        ),
    decreases frames.len(),
{
    let root = seq![underscored(crate_name)];
    if frames.len() == 0 {
        assert(root + modules(frames) =~= root);
    } else {
        lemma_module_path(crate_name, frames.drop_last());
        if let FrameView::Module(name) = frames.last() {
            let outer = root + modules(frames.drop_last());
            lemma_colon_path_push(outer, name);
            lemma_colons();
            assert(root + modules(frames) =~= outer.push(name));
        }
    }
}

// ---------------------------------------------------------------------
// what is collected
// ---------------------------------------------------------------------

/// The path of an item: its crate, the modules around it, its name.
pub open spec fn path_to(
    crate_name: Seq<char>,
    frames: Seq<FrameView>,
    name: Seq<char>,
) -> Seq<char> {
    colon_path((seq![underscored(crate_name)] + modules(frames)).push(name))
}

/// What one more event adds to the symbols: a constant or a function adds itself
/// under the path of its modules, an `impl` block its methods under its type, and
/// nothing else adds anything. Where a place is not looked at nothing is added.
pub proof fn law_symbols_added(events: Seq<EventView>, e: EventView, setting: SettingView)
    ensures
        ({
            let w = walked(events, setting);
            let after = walked(events.push(e), setting).symbols;
            if !looked_at(w.frames) {
                after == w.symbols
            } else {
                match e {
                    EventView::Const { name, line, column, value } => after == w.symbols.push(
                        (
                            path_to(setting.crate_name, w.frames, name),
                            SymbolView::Const(source_at(value, setting.file, line, column)),
                        ),
                    ),
                    EventView::EnterFn { name, line, column, body } => after == w.symbols.push(
                        (
                            path_to(setting.crate_name, w.frames, name),
                            SymbolView::Function(source_at(body, setting.file, line, column)),
                        ),
                    ),
                    EventView::EnterImpl { self_type, items } => after == w.symbols + functions(
                        items,
                    ).map_values(
                        |x: ImplItemView|
                            method_of(
                                self_type.filter(|c: char| !is_space(c)),
                                x,
                                setting.file,
                            ),
                    ),
                    _ => after == w.symbols,
                }
            }
        }),
{
    let w = walked(events, setting);
    let after = walked(events.push(e), setting).symbols;
    assert(events.push(e).drop_last() =~= events);
    lemma_module_path(setting.crate_name, w.frames);
    lemma_colons();
    let outer = seq![underscored(setting.crate_name)] + modules(w.frames);
    match e {
        EventView::Const { name, line, column, value } => {
            lemma_colon_path_push(outer, name);
            if looked_at(w.frames) {
                assert(after =~= w.symbols.push(
                    (
                        path_to(setting.crate_name, w.frames, name),
                        SymbolView::Const(source_at(value, setting.file, line, column)),
                    ),
                ));
            }
        },
        EventView::EnterFn { name, line, column, body } => {
            lemma_colon_path_push(outer, name);
            if looked_at(w.frames) {
                assert(after =~= w.symbols.push(
                    (
                        path_to(setting.crate_name, w.frames, name),
                        SymbolView::Function(source_at(body, setting.file, line, column)),
                    ),
                ));
            }
        },
        EventView::EnterImpl { self_type, items } => {
            let t = self_type.filter(|c: char| !is_space(c));
            law_type_without_space(self_type);
            law_every_function_is_a_method(t, items, setting.file);
        },
        _ => {},
    }
}

/// The call site that an event is where the walk has come to `w`: a call that is
/// looked at is one where something configured fits, with the body around it.
pub open spec fn site_here(w: WalkView, e: EventView, setting: SettingView) -> Option<SiteView> {
    if !looked_at(w.frames) {
        None
    } else {
        match e {
            EventView::MethodCall { method, line, column, args } => method_call_site(
                setting.config,
                setting.imports,
                CallView { receiver: None, name: method, line, column },
                args,
                setting.file,
                enclosing_body(w.frames),
            ),
            EventView::Call { func, line, column, args } => function_call_site(
                setting.config,
                setting.imports,
                func,
                line,
                column,
                args,
                setting.file,
                enclosing_body(w.frames),
            ),
            _ => None,
        }
    }
}

/// What one more event adds to the call sites: a call that is one adds its site;
/// nothing else adds anything.
pub proof fn law_sites_added(events: Seq<EventView>, e: EventView, setting: SettingView)
    ensures
        ({
            let w = walked(events, setting);
            let after = walked(events.push(e), setting).sites;
            match site_here(w, e, setting) {
                Some(site) => after == w.sites.push(site),
                None => after == w.sites,
            }
        }),
{
    assert(events.push(e).drop_last() =~= events);
}

/// The call sites of a file are those of its calls, all of them.
pub proof fn law_sites_are_those_of_the_calls(
    events: Seq<EventView>,
    setting: SettingView,
    site: SiteView,
)
    ensures
        walked(events, setting).sites.contains(site) == exists|n: int|
            0 <= n < events.len() && site_here(
                walked(events.take(n), setting),
                #[trigger] events[n],
                setting,
            ) == Some(site),
    decreases events.len(),
{
    let all = walked(events, setting).sites;
    if events.len() > 0 {
        let rest = events.drop_last();
        let e = events.last();
        let front = walked(rest, setting).sites;
        law_sites_are_those_of_the_calls(rest, setting, site);
        assert(rest.push(e) =~= events);
        law_sites_added(rest, e, setting);
        if let Some(s) = site_here(walked(rest, setting), e, setting) {
            lemma_contains_push(front, s, site);
        }
        assert(events.take(events.len() - 1) =~= rest);
        assert(events[events.len() - 1] == e);
        if front.contains(site) {
            let n = choose|n: int|
                0 <= n < rest.len() && site_here(
                    walked(rest.take(n), setting),
                    #[trigger] rest[n],
                    setting,
                ) == Some(site);
            assert(rest.take(n) =~= events.take(n));
            assert(events[n] == rest[n]);
        }
        if exists|n: int|
            0 <= n < events.len() && site_here(
                walked(events.take(n), setting),
                #[trigger] events[n],
                setting,
            ) == Some(site) {
            let n = choose|n: int|
                0 <= n < events.len() && site_here(
                    walked(events.take(n), setting),
                    #[trigger] events[n],
                    setting,
                ) == Some(site);
            if n < rest.len() {
                assert(rest.take(n) =~= events.take(n));
                assert(rest[n] == events[n]);
            }
        }
    }
}

/// A walk keeps what it has found: what the first events gave is at the start of
/// what all of them give.
pub proof fn law_walk_only_adds(events: Seq<EventView>, n: int, setting: SettingView)
    requires
        0 <= n <= events.len(),
    ensures
        walked(events.take(n), setting).sites.is_prefix_of(walked(events, setting).sites),
        walked(events.take(n), setting).symbols.is_prefix_of(walked(events, setting).symbols),
    decreases events.len(),
{
    if n == events.len() {
        assert(events.take(n) =~= events);
    } else {
        let rest = events.drop_last();
        law_walk_only_adds(rest, n, setting);
        assert(rest.take(n) =~= events.take(n));
        let a = walked(events.take(n), setting);
        let b = walked(rest, setting);
        let c = walked(events, setting);
        assert(rest.push(events.last()) =~= events);
        law_sites_added(rest, events.last(), setting);
        law_symbols_added(rest, events.last(), setting);
        assert(b.sites.is_prefix_of(c.sites));
        assert(b.symbols.is_prefix_of(c.symbols));
        assert(c.sites.take(a.sites.len() as int) =~= a.sites) by {
            assert forall|i: int| 0 <= i < a.sites.len() implies c.sites[i] == a.sites[i] by {
                assert(b.sites[i] == a.sites[i]);
            }
        }
    }
}

// ---------------------------------------------------------------------
// the file as a whole
// ---------------------------------------------------------------------

/// What a file is walked with: every import of the file counts for all of it.
pub open spec fn setting_of(
    source: SourceView,
    file: Seq<char>,
    crate_name: Seq<char>,
    config: ConfigView,
) -> SettingView {
    SettingView { file, crate_name, config, imports: imported_paths(source.events) }
}

/// What is extracted from a file is what a walk over all of it finds: all the
/// symbols in the order found, under the crate, and all the call sites, by line
/// and column.
pub proof fn law_extraction_is_complete(
    source: SourceView,
    file: Seq<char>,
    crate_name: Seq<char>,
    config: ConfigView,
)
    ensures
        ({
            let w = walked(source.events, setting_of(source, file, crate_name, config));
            let out = extracted(source, file, crate_name, config);
            &&& out.symbols.symbols == w.symbols
            &&& out.symbols.crate_name == crate_name
            &&& out.sites.to_multiset() == w.sites.to_multiset()
            &&& forall|s: SiteView| #[trigger] out.sites.contains(s) == w.sites.contains(s)
            &&& forall|i: int, j: int|
                0 <= i < j < out.sites.len() ==> (#[trigger] out.sites[i]).line < (
                #[trigger] out.sites[j]).line || (out.sites[i].line == out.sites[j].line
                    && out.sites[i].column <= out.sites[j].column)
        }),
{
    let w = walked(source.events, setting_of(source, file, crate_name, config));
    let out = extracted(source, file, crate_name, config);
    law_sites_in_source_order(source, file, crate_name, config, 0, 0);
    lemma_same_elements(out.sites, w.sites);
    let lt = |a: SiteView, b: SiteView| site_lt(a, b);
    assert forall|i: int, j: int|
        0 <= i < j < out.sites.len() implies (#[trigger] out.sites[i]).line
        < (#[trigger] out.sites[j]).line || (out.sites[i].line == out.sites[j].line
        && out.sites[i].column <= out.sites[j].column) by {
        assert(!lt(out.sites[j], out.sites[i]));
    }
}

/// Every function of an `impl` block that is looked at is among the symbols that
/// are extracted from its file.
pub proof fn law_extracted_methods(
    source: SourceView,
    file: Seq<char>,
    crate_name: Seq<char>,
    config: ConfigView,
    n: int,
    k: int,
)
    requires
        0 <= n < source.events.len(),
        source.events[n] is EnterImpl,
        looked_at(
            walked(
                source.events.take(n),
                setting_of(source, file, crate_name, config),
            ).frames,
        ),
        0 <= k < source.events[n]->EnterImpl_items.len(),
        source.events[n]->EnterImpl_items[k] is Fn,
    ensures
        extracted(source, file, crate_name, config).symbols.symbols.contains(
            method_of(
                source.events[n]->self_type.filter(|c: char| !is_space(c)),
                source.events[n]->EnterImpl_items[k],
                file,
            ),
        ),
{
    let setting = setting_of(source, file, crate_name, config);
    let events = source.events;
    let items = events[n]->EnterImpl_items;
    let t = events[n]->self_type.filter(|c: char| !is_space(c));
    let m = method_of(t, items[k], file);
    let before = walked(events.take(n), setting);
    let now = walked(events.take(n + 1), setting);
    assert(events.take(n).push(events[n]) =~= events.take(n + 1));
    law_symbols_added(events.take(n), events[n], setting);
    law_every_function_is_a_method(t, items, file);
    let added = method_symbols(t, items, file);
    assert(added.contains(m));
    let j = choose|j: int| 0 <= j < added.len() && added[j] == m;
    assert(now.symbols =~= before.symbols + added);
    assert(now.symbols[before.symbols.len() + j] == m);
    law_walk_only_adds(events, n + 1, setting);
    law_extraction_is_complete(source, file, crate_name, config);
    assert(walked(events, setting).symbols[before.symbols.len() + j] == m);
}

} // verus!
