//! What all the sources of a workspace come to together.

use super::callsite::{extracted, ConfigView, SiteView};
use super::index_laws::{
    law_merge_adds_what_the_file_defines, law_merge_leaves_the_rest, leaves_out,
};
use super::pipeline::{collected, pipeline_inputs, DeclaredView, SourceTextView};
use super::symbol_index::{
    index_sorted, law_first_definition_wins, law_merged_sorted, lookup, merged, EntryView,
    IndexView, SymbolView,
};
use crate::order::flat;
use crate::syntax::walked_source;
use vstd::prelude::*;

verus! {

/// The call sites of a source text, each with its crate; none where the text does
/// not parse.
pub open spec fn calls_in(s: SourceTextView, config: ConfigView) -> Seq<(Seq<char>, SiteView)> {
    match walked_source(s.text) {
        Ok(parsed) => extracted(parsed, s.file, s.crate_name, config).sites.map_values(
            |site: SiteView| (s.crate_name, site),
        ),
        Err(_) => Seq::empty(),
    }
}

/// What a source text of the crate defines; nothing where it does not parse or is
/// of another crate.
pub open spec fn defined_in(
    s: SourceTextView,
    config: ConfigView,
    crate_name: Seq<char>,
) -> Seq<(Seq<char>, SymbolView)> {
    match walked_source(s.text) {
        Ok(parsed) => if s.crate_name == crate_name {
            extracted(parsed, s.file, s.crate_name, config).symbols.symbols
        } else {
            Seq::empty()
        },
        Err(_) => Seq::empty(),
    }
}

/// The call sites of all sources are collected, file after file, each with the
/// crate of its file.
pub proof fn law_all_calls_are_collected(sources: Seq<SourceTextView>, config: ConfigView)
    ensures
        collected(sources, config).call_sites == flat(
            sources,
            |s: SourceTextView| calls_in(s, config),
        ),
    decreases sources.len(),
{
    if sources.len() > 0 {
        law_all_calls_are_collected(sources.drop_last(), config);
        let front = collected(sources.drop_last(), config);
        assert(front.call_sites + Seq::empty() =~= front.call_sites);
        assert(collected(sources, config).call_sites =~= front.call_sites + calls_in(
            sources.last(),
            config,
        ));
    }
}

proof fn lemma_collected_sorted(sources: Seq<SourceTextView>, config: ConfigView)
    ensures
        index_sorted(collected(sources, config).index.entries),
    decreases sources.len(),
{
    if sources.len() > 0 {
        let s = sources.last();
        let front = collected(sources.drop_last(), config);
        lemma_collected_sorted(sources.drop_last(), config);
        if let Ok(parsed) = walked_source(s.text) {
            law_merged_sorted(
                front.index,
                s.crate_name,
                extracted(parsed, s.file, s.crate_name, config).symbols.symbols,
            );
        }
    }
}

/// What no source of a crate defines is not found in it.
pub proof fn law_nothing_else_is_found(
    sources: Seq<SourceTextView>,
    config: ConfigView,
    crate_name: Seq<char>,
    path: Seq<char>,
)
    requires
        leaves_out(flat(sources, |s: SourceTextView| defined_in(s, config, crate_name)), path),
    ensures
        lookup(collected(sources, config).index.entries, crate_name, path) is None,
    decreases sources.len(),
{
    let f = |s: SourceTextView| defined_in(s, config, crate_name);
    if sources.len() > 0 {
        let s = sources.last();
        let rest = sources.drop_last();
        let all = flat(sources, f);
        let early = flat(rest, f);
        let own = f(s);
        assert forall|i: int| 0 <= i < early.len() implies (#[trigger] early[i]).0 != path by {
            assert(all[i] == early[i]);
        }
        assert forall|i: int| 0 <= i < own.len() implies (#[trigger] own[i]).0 != path by {
            assert(all[early.len() + i] == own[i]);
        }
        law_nothing_else_is_found(rest, config, crate_name, path);
        lemma_collected_sorted(rest, config);
        if let Ok(parsed) = walked_source(s.text) {
            let new = extracted(parsed, s.file, s.crate_name, config).symbols.symbols;
            law_merge_leaves_the_rest(
                collected(rest, config).index,
                s.crate_name,
                new,
                crate_name,
                path,
            );
        }
    }
}

/// What some source of a crate defines is found in it: the first definition in the
/// order of the sources, whatever other crates define.
pub proof fn law_first_definition_is_found(
    sources: Seq<SourceTextView>,
    config: ConfigView,
    crate_name: Seq<char>,
    path: Seq<char>,
    k: int,
)
    requires
        ({
            let all = flat(sources, |s: SourceTextView| defined_in(s, config, crate_name));
            &&& 0 <= k < all.len()
            &&& all[k].0 == path
            &&& leaves_out(all.take(k), path)
        }),
    ensures
        lookup(collected(sources, config).index.entries, crate_name, path) == Some(
            flat(sources, |s: SourceTextView| defined_in(s, config, crate_name))[k].1,
        ),
    decreases sources.len(),
{
    let f = |s: SourceTextView| defined_in(s, config, crate_name);
    let all = flat(sources, f);
    let s = sources.last();
    let rest = sources.drop_last();
    let early = flat(rest, f);
    let own = f(s);
    let front = collected(rest, config);
    lemma_collected_sorted(rest, config);
    if k < early.len() {
        assert(early[k] == all[k]);
        assert(early.take(k) =~= all.take(k));
        law_first_definition_is_found(rest, config, crate_name, path, k);
        if let Ok(parsed) = walked_source(s.text) {
            let new = extracted(parsed, s.file, s.crate_name, config).symbols.symbols;
            if s.crate_name != crate_name || leaves_out(new, path) {
                law_merge_leaves_the_rest(front.index, s.crate_name, new, crate_name, path);
            } else {
                lemma_again(front.index, crate_name, new, path);
            }
        }
    } else {
        let at = k - early.len();
        assert(own[at] == all[k]);
        assert forall|i: int| 0 <= i < early.len() implies (#[trigger] early[i]).0 != path by {
            assert(all.take(k)[i] == early[i]);
        }
        law_nothing_else_is_found(rest, config, crate_name, path);
        let before = own.take(at);
        assert forall|i: int| 0 <= i < before.len() implies (#[trigger] before[i]).0 != path by {
            assert(all.take(k)[early.len() + i] == before[i]);
        }
        assert(own =~= before + seq![(path, all[k].1)] + own.skip(at + 1));
        law_merge_adds_what_the_file_defines(
            front.index,
            crate_name,
            before,
            path,
            all[k].1,
            own.skip(at + 1),
        );
    }
}

proof fn lemma_again(
    index: IndexView,
    crate_name: Seq<char>,
    new: Seq<(Seq<char>, SymbolView)>,
    path: Seq<char>,
)
    requires
        index_sorted(index.entries),
        !leaves_out(new, path),
        lookup(index.entries, crate_name, path) is Some,
    ensures
        lookup(merged(index, crate_name, new).entries, crate_name, path) == lookup(
            index.entries,
            crate_name,
            path,
        ),
    decreases new.len(),
{
    let i = choose|i: int| 0 <= i < new.len() && (#[trigger] new[i]).0 == path;
    let last = new.last();
    let front = new.drop_last();
    law_merged_sorted(index, crate_name, front);
    law_first_definition_wins(
        merged(index, crate_name, front).entries,
        EntryView { crate_name, path: last.0, symbol: last.1 },
        crate_name,
        path,
    );
    if leaves_out(front, path) {
        law_merge_leaves_the_rest(index, crate_name, front, crate_name, path);
    } else {
        lemma_again(index, crate_name, front, path);
    }
}

/// What is declared reaches the graph as it was declared.
pub proof fn law_declarations_reach_the_graph(
    call_sites: Seq<(Seq<char>, SiteView)>,
    declared: DeclaredView,
)
    ensures
        pipeline_inputs(call_sites, declared).call_sites == call_sites,
        pipeline_inputs(call_sites, declared).ingress == declared.ingress,
        pipeline_inputs(call_sites, declared).egress == declared.egress,
        pipeline_inputs(call_sites, declared).helper_crates == declared.helper_crates,
        pipeline_inputs(call_sites, declared).subject_builder_methods
            == declared.subject_builder_methods,
        pipeline_inputs(call_sites, declared).subject_builder_functions
            == declared.subject_builder_functions,
{
}

} // verus!
