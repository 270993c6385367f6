//! What holds of what the daemon knows, whatever its plugins reported.

use crate::daemon::{
    all_run_snapshots, chosen_snapshot, earliest_ahead, is_clock_time, known_once,
    law_refresh_is_read_back, only_provider, opt_views, plugin_ids, plugin_meta, primary_candidates,
    provider_of_run, requested_ids, run_provider, run_snapshots, selected_ids, snapshot_views,
    snapshots_of, snapshots_of_all, speaks_of_one, CachedPluginSnapshot, DaemonState, PluginMeta,
    PluginRun, ResetMark, SnapshotView,
};
use crate::outside::rfc3339_nanos;
use crate::plugin_engine::manifest::{LoadedPlugin, ManifestLine};
use crate::plugin_engine::output::{output_views, LineView, PluginOutput, ProbeResult};
use crate::plugin_engine::run_laws::is_same_account;
use crate::provider_watch::ProviderWatchCommand;
use crate::refresh::{Refresh, RefreshStage, RefreshStep};
use crate::text::{opt_view, views};
use crate::text_order::text_less;
use vstd::prelude::*;

verus! {

/// True if a snapshot holds a report, in every part, and the time at which it came in.
pub open spec fn is_snapshot_of(
    snapshot: CachedPluginSnapshot,
    output: PluginOutput,
    fetched_at: Seq<char>,
) -> bool {
    &&& snapshot.provider_id@ == output.provider_id@
    &&& snapshot.display_name@ == output.display_name@
    &&& opt_view(snapshot.plan) == opt_view(output.plan)
    &&& snapshot.lines@.len() == output.lines@.len()
    &&& forall|k: int|
        0 <= k < output.lines@.len() ==> (#[trigger] snapshot.lines@[k])@ == output.lines@[k]@
    &&& is_same_account(snapshot.account, output.account)
    &&& snapshot.fetched_at@ == fetched_at
}

proof fn lemma_snapshot_of(
    snapshot: CachedPluginSnapshot,
    output: PluginOutput,
    fetched_at: Seq<char>,
)
    requires
        snapshot@ == crate::daemon::snapshot_of(output@, fetched_at),
    ensures
        is_snapshot_of(snapshot, output, fetched_at),
{
    let own = crate::plugin_engine::output::line_views(snapshot.lines@);
    let given = crate::plugin_engine::output::line_views(output.lines@);
    assert(own == given);
    assert(own.len() == snapshot.lines@.len());
    assert(given.len() == output.lines@.len());
    assert forall|k: int| 0 <= k < output.lines@.len() implies (#[trigger] snapshot.lines@[k])@
        == output.lines@[k]@ by {
        assert(own[k] == snapshot.lines@[k]@);
        assert(given[k] == output.lines@[k]@);
    }
}

/// A snapshot is the report that it was made of, with the time.
pub proof fn law_snapshot_is_the_report(
    output: PluginOutput,
    fetched_at: String,
    r: CachedPluginSnapshot,
)
    requires
        call_ensures(CachedPluginSnapshot::from_output, (output, fetched_at), r),
    ensures
        is_snapshot_of(r, output, fetched_at@),
{
    lemma_snapshot_of(r, output, fetched_at@);
}

/// The number of reports in the runs before one.
pub open spec fn reports_before(runs: Seq<PluginRun>, i: int) -> int
    decreases i,
{
    if i <= 0 {
        0
    } else {
        reports_before(runs, i - 1) + runs[i - 1].outputs@.len()
    }
}

proof fn lemma_reports_before(runs: Seq<PluginRun>, more: Seq<PluginRun>, i: int)
    requires
        0 <= i <= runs.len(),
        runs.len() <= more.len(),
        forall|k: int| 0 <= k < runs.len() ==> runs[k] == #[trigger] more[k],
    ensures
        reports_before(runs, i) == reports_before(more, i),
    decreases i,
{
    if i > 0 {
        lemma_reports_before(runs, more, i - 1);
        assert(runs[i - 1] == more[i - 1]);
    }
}

proof fn lemma_all_run_snapshots(runs: Seq<PluginRun>)
    ensures
        all_run_snapshots(runs).len() == reports_before(runs, runs.len() as int),
        forall|i: int, k: int|
            #![trigger runs[i].outputs@[k]]
            0 <= i < runs.len() && 0 <= k < runs[i].outputs@.len() ==> 0 <= reports_before(runs, i)
                + k < all_run_snapshots(runs).len() && all_run_snapshots(runs)[reports_before(
                runs,
                i,
            ) + k] == crate::daemon::snapshot_of(runs[i].outputs@[k]@, runs[i].fetched_at@),
        forall|i: int| 0 <= i <= runs.len() ==> #[trigger] reports_before(runs, i) >= 0,
    decreases runs.len(),
{
    if runs.len() > 0 {
        let init = runs.drop_last();
        lemma_all_run_snapshots(init);
        let last = runs.len() - 1;
        let own = run_snapshots(runs.last());
        lemma_reports_before(init, runs, last);
        assert(own.len() == runs[last].outputs@.len());
        assert forall|i: int, k: int|
            #![trigger runs[i].outputs@[k]]
            0 <= i < runs.len() && 0 <= k < runs[i].outputs@.len() implies 0 <= reports_before(
            runs,
            i,
        ) + k < all_run_snapshots(runs).len() && all_run_snapshots(runs)[reports_before(runs, i)
            + k] == crate::daemon::snapshot_of(runs[i].outputs@[k]@, runs[i].fetched_at@) by {
            if i < last {
                lemma_reports_before(init, runs, i);
                assert(init[i].outputs@[k] == runs[i].outputs@[k]);
            } else {
                assert(output_views(runs[last].outputs@)[k] == runs[last].outputs@[k]@);
                assert(own[k] == crate::daemon::snapshot_of(
                    runs[i].outputs@[k]@,
                    runs[i].fetched_at@,
                ));
                assert(reports_before(init, last) >= 0);
            }
        }
        assert forall|i: int| 0 <= i <= runs.len() implies #[trigger] reports_before(runs, i)
            >= 0 by {
            if i < runs.len() {
                lemma_reports_before(init, runs, i);
                assert(reports_before(init, i) >= 0);
            } else {
                lemma_reports_before(init, runs, last);
                assert(reports_before(init, last) >= 0);
            }
        }
    }
}

/// A refresh returns one snapshot for each report, run by run and in order, with all that the
/// report holds and the time of its run; and it changes neither the plugins nor the settings.
pub proof fn law_refresh_returns_each_report(
    state: &mut DaemonState,
    runs: Vec<PluginRun>,
    r: Vec<CachedPluginSnapshot>,
    i: int,
    k: int,
)
    requires
        call_ensures(DaemonState::finish_refresh, (state, runs), r),
    ensures
        final(state).spec_plugins() == old(state).spec_plugins(),
        final(state).spec_app_data_dir() == old(state).spec_app_data_dir(),
        final(state).spec_app_version() == old(state).spec_app_version(),
        final(state).spec_plugin_overrides_dir() == old(state).spec_plugin_overrides_dir(),
        r@.len() == reports_before(runs@, runs@.len() as int),
        0 <= i < runs@.len() && 0 <= k < runs@[i].outputs@.len() ==> is_snapshot_of(
            r@[reports_before(runs@, i) + k],
            runs@[i].outputs@[k],
            runs@[i].fetched_at@,
        ),
{
    lemma_all_run_snapshots(runs@);
    let all = snapshot_views(r@);
    assert(all.len() == r@.len());
    if 0 <= i < runs@.len() && 0 <= k < runs@[i].outputs@.len() {
        let at = reports_before(runs@, i) + k;
        let output = runs@[i].outputs@[k];
        assert(all[at] == r@[at]@);
        lemma_snapshot_of(r@[at], output, runs@[i].fetched_at@);
    }
}

/// After a refresh each snapshot that is read back for a provider has all that its report
/// holds, and the time of its run; the reports of a run are those that are read back for its
/// provider, in order, where all of them speak of it and no other run does.
pub proof fn law_refresh_is_read_back_in_every_part(
    state: &mut DaemonState,
    runs: Vec<PluginRun>,
    returned: Vec<CachedPluginSnapshot>,
    i: int,
    k: int,
    request: &Option<Vec<String>>,
    r: Vec<CachedPluginSnapshot>,
)
    requires
        call_ensures(DaemonState::finish_refresh, (state, runs), returned),
        call_ensures(DaemonState::cached, (final(state), request), r),
        0 <= i < runs@.len(),
        forall|j: int| 0 <= j < runs@.len() ==> speaks_of_one(#[trigger] runs@[j]),
        forall|j: int|
            0 <= j < runs@.len() && j != i ==> run_provider(#[trigger] runs@[j]) != run_provider(
                runs@[i],
            ),
        *request matches Some(ids) && views(ids@) == seq![run_provider(runs@[i])],
        old(state).spec_ids().contains(run_provider(runs@[i])),
    ensures
        r@.len() == runs@[i].outputs@.len(),
        0 <= k < r@.len() ==> is_snapshot_of(r@[k], runs@[i].outputs@[k], runs@[i].fetched_at@),
{
    let id = run_provider(runs@[i]);
    let after = final(state).spec_cache();
    law_refresh_is_read_back(old(state).spec_cache(), runs@, i);
    crate::refresh::lemma_read_one(after, final(state).spec_ids(), id);
    let all = snapshot_views(r@);
    let own = run_snapshots(runs@[i]);
    assert(opt_views(*request) == Some(seq![id]));
    assert(all == own);
    assert(all.len() == r@.len());
    assert(own.len() == runs@[i].outputs@.len());
    if 0 <= k < r@.len() {
        assert(all[k] == r@[k]@);
        assert(output_views(runs@[i].outputs@)[k] == runs@[i].outputs@[k]@);
        lemma_snapshot_of(r@[k], runs@[i].outputs@[k], runs@[i].fetched_at@);
    }
}

/// A provider that no run speaks of is read after a refresh as it was before.
pub proof fn law_refresh_leaves_the_others(
    state: &mut DaemonState,
    runs: Vec<PluginRun>,
    returned: Vec<CachedPluginSnapshot>,
    id: Seq<char>,
)
    requires
        call_ensures(DaemonState::finish_refresh, (state, runs), returned),
        forall|j: int| 0 <= j < runs@.len() ==> run_provider(#[trigger] runs@[j]) != id,
    ensures
        snapshots_of(final(state).spec_cache(), id) == snapshots_of(old(state).spec_cache(), id),
{
    let providers = crate::daemon::run_providers(runs@);
    assert(!providers.contains(id)) by {
        if providers.contains(id) {
            let j = choose|j: int| 0 <= j < providers.len() && providers[j] == id;
            assert(run_provider(runs@[j]) == id);
        }
    }
}

/// A run speaks of the provider of its first report, and of its plugin where it has none.
pub proof fn law_run_speaks_of_its_first_report(run: PluginRun)
    ensures
        run.outputs@.len() > 0 ==> run_provider(run) == run.outputs@[0].provider_id@,
        run.outputs@.len() == 0 ==> run_provider(run) == run.plugin_id@,
{
}

/// The snapshots of a provider among others are just those that name it, in order.
pub proof fn law_only_own_snapshots_are_kept(
    list: Seq<SnapshotView>,
    next: SnapshotView,
    id: Seq<char>,
)
    ensures
        only_provider(Seq::empty(), id) == Seq::<SnapshotView>::empty(),
        only_provider(list.push(next), id) == if next.provider_id == id {
            only_provider(list, id).push(next)
        } else {
            only_provider(list, id)
        },
{
    assert(list.push(next).drop_last() =~= list);
    assert(only_provider(Seq::empty(), id) =~= Seq::<SnapshotView>::empty());
}

/// Snapshots that look the same are the same, in every part.
pub proof fn law_snapshots_are_known_by_their_looks(
    a: CachedPluginSnapshot,
    b: CachedPluginSnapshot,
    k: int,
)
    requires
        a@ == b@,
    ensures
        a.provider_id@ == b.provider_id@,
        a.display_name@ == b.display_name@,
        opt_view(a.plan) == opt_view(b.plan),
        a.lines@.len() == b.lines@.len(),
        0 <= k < a.lines@.len() ==> a.lines@[k]@ == b.lines@[k]@,
        a.fetched_at@ == b.fetched_at@,
        is_same_account(a.account, b.account),
{
    let own = crate::plugin_engine::output::line_views(a.lines@);
    let other = crate::plugin_engine::output::line_views(b.lines@);
    assert(own.len() == a.lines@.len() && other.len() == b.lines@.len());
    if 0 <= k < a.lines@.len() {
        assert(own[k] == a.lines@[k]@);
        assert(other[k] == b.lines@[k]@);
    }
}

proof fn lemma_known_once_contains(ids: Seq<Seq<char>>, known: Seq<Seq<char>>, id: Seq<char>)
    ensures
        known_once(ids, known).contains(id) <==> ids.contains(id) && known.contains(id),
{
    crate::daemon::law_requested_ids_are_known_and_distinct(ids, known);
}

/// A request that names identities speaks of them in the order in which they are named for
/// the first time; naming one again, or one that is not known, adds nothing. One that names
/// none speaks of all plugins, in their order.
pub proof fn law_request_speaks_of_what_it_names(
    ids: Seq<Seq<char>>,
    id: Seq<char>,
    known: Seq<Seq<char>>,
)
    ensures
        requested_ids(None, known) == known,
        requested_ids(Some(Seq::empty()), known) == Seq::<Seq<char>>::empty(),
        requested_ids(Some(ids.push(id)), known) == if known.contains(id) && !ids.contains(id) {
            requested_ids(Some(ids), known).push(id)
        } else {
            requested_ids(Some(ids), known)
        },
{
    assert(ids.push(id).drop_last() =~= ids);
    assert(requested_ids(Some(Seq::empty()), known) =~= Seq::<Seq<char>>::empty());
    lemma_known_once_contains(ids, known, id);
}

/// A refresh speaks of the plugins that are named, or of all where none are, in the order of
/// the plugins.
pub proof fn law_refresh_goes_in_the_order_of_the_plugins(
    ids: Option<Seq<Seq<char>>>,
    known: Seq<Seq<char>>,
    next: Seq<char>,
)
    ensures
        selected_ids(ids, Seq::empty()) == Seq::<Seq<char>>::empty(),
        ids is None ==> selected_ids(ids, known.push(next)) == selected_ids(ids, known).push(next),
        ids matches Some(list) ==> selected_ids(ids, known.push(next)) == if list.contains(next) {
            selected_ids(ids, known).push(next)
        } else {
            selected_ids(ids, known)
        },
{
    assert(known.push(next).drop_last() =~= known);
    assert(selected_ids(ids, Seq::empty()) =~= Seq::<Seq<char>>::empty());
}

/// What is read for several providers is what is read for each of them, one after the other;
/// a provider that never reported has nothing.
pub proof fn law_providers_are_read_one_by_one(
    cache: Map<Seq<char>, Seq<SnapshotView>>,
    ids: Seq<Seq<char>>,
    id: Seq<char>,
)
    ensures
        snapshots_of_all(cache, Seq::empty()) == Seq::<SnapshotView>::empty(),
        snapshots_of_all(cache, ids.push(id)) == snapshots_of_all(cache, ids) + (
        if cache.dom().contains(id) {
            cache[id]
        } else {
            Seq::empty()
        }),
{
    assert(ids.push(id).drop_last() =~= ids);
    assert(snapshots_of_all(cache, Seq::empty()) =~= Seq::<SnapshotView>::empty());
}

/// The snapshot that stands for a provider is the first of the default account; without one it
/// is the only one there is, and without that there is none.
pub proof fn law_default_account_stands_for_the_provider(list: Seq<SnapshotView>, i: int)
    ensures
        0 <= i < list.len() && list[i].account.id == "default"@ && (forall|k: int|
            0 <= k < i ==> (#[trigger] list[k]).account.id != "default"@) ==> chosen_snapshot(list)
            == Some(list[i]),
        (forall|k: int| 0 <= k < list.len() ==> (#[trigger] list[k]).account.id != "default"@)
            ==> chosen_snapshot(list) == if list.len() == 1 {
            Some(list[0])
        } else {
            None
        },
{
    lemma_first_default(list, i);
}

proof fn lemma_first_default(list: Seq<SnapshotView>, i: int)
    ensures
        0 <= i < list.len() && list[i].account.id == "default"@ && (forall|k: int|
            0 <= k < i ==> (#[trigger] list[k]).account.id != "default"@)
            ==> crate::daemon::first_default(list) == Some(list[i]),
        (forall|k: int| 0 <= k < list.len() ==> (#[trigger] list[k]).account.id != "default"@)
            ==> crate::daemon::first_default(list) is None,
    decreases list.len(),
{
    if list.len() > 0 {
        let rest = list.drop_first();
        assert forall|k: int| 0 <= k < rest.len() implies rest[k] == #[trigger] list[k + 1] by {}
        if 0 < i < list.len() && list[i].account.id == "default"@ && (forall|k: int|
            0 <= k < i ==> (#[trigger] list[k]).account.id != "default"@) {
            assert(list[0].account.id != "default"@);
            assert forall|k: int| 0 <= k < i - 1 implies (#[trigger] rest[k]).account.id
                != "default"@ by {
                assert(list[k + 1].account.id != "default"@);
            }
        }
        if forall|k: int| 0 <= k < list.len() ==> (#[trigger] list[k]).account.id != "default"@ {
            assert(list[0].account.id != "default"@);
            assert forall|k: int| 0 <= k < rest.len() implies (#[trigger] rest[k]).account.id
                != "default"@ by {
                assert(list[k + 1].account.id != "default"@);
            }
        }
        lemma_first_default(rest, i - 1);
    }
}

/// The snapshot that is given for one provider is the one that stands for it among those that
/// are read for it.
pub proof fn law_one_stands_for_all(
    state: &DaemonState,
    plugin_id: &String,
    r: Option<CachedPluginSnapshot>,
)
    requires
        call_ensures(DaemonState::cached_one, (state, plugin_id), r),
    ensures
        ({
            let list = snapshots_of(state.spec_cache(), plugin_id@);
            &&& r matches Some(snapshot) ==> list.contains(snapshot@) && (snapshot@.account.id
                == "default"@ || list.len() == 1)
            &&& r is None ==> list.len() != 1 && forall|k: int|
                0 <= k < list.len() ==> (#[trigger] list[k]).account.id != "default"@
        }),
{
    let list = snapshots_of(state.spec_cache(), plugin_id@);
    if exists|k: int| 0 <= k < list.len() && (#[trigger] list[k]).account.id == "default"@ {
        let k = choose|k: int| 0 <= k < list.len() && (#[trigger] list[k]).account.id == "default"@;
        let first = lemma_least_default(list, k);
        law_default_account_stands_for_the_provider(list, first);
    } else {
        law_default_account_stands_for_the_provider(list, -1);
        if list.len() == 1 {
            assert(list.contains(list[0]));
        }
    }
}

proof fn lemma_least_default(list: Seq<SnapshotView>, k: int) -> (first: int)
    requires
        0 <= k < list.len(),
        list[k].account.id == "default"@,
    ensures
        0 <= first <= k,
        list[first].account.id == "default"@,
        forall|j: int| 0 <= j < first ==> (#[trigger] list[j]).account.id != "default"@,
    decreases k,
{
    if exists|j: int| 0 <= j < k && (#[trigger] list[j]).account.id == "default"@ {
        let j = choose|j: int| 0 <= j < k && (#[trigger] list[j]).account.id == "default"@;
        lemma_least_default(list, j)
    } else {
        k
    }
}

/// True if a progress line in a place of what is kept resets at this text.
pub open spec fn line_at_resets(
    cache: Map<Seq<char>, Seq<SnapshotView>>,
    id: Seq<char>,
    i: int,
    j: int,
    text: Seq<char>,
) -> bool {
    &&& cache.dom().contains(id)
    &&& 0 <= i < cache[id].len()
    &&& 0 <= j < cache[id][i].lines.len()
    &&& cache[id][i].lines[j] matches LineView::Progress { resets_at, .. } && resets_at == Some(
        text,
    )
}

proof fn lemma_line_resets(
    cache: Map<Seq<char>, Seq<SnapshotView>>,
    id: Seq<char>,
    i: int,
    j: int,
    text: Seq<char>,
)
    requires
        line_at_resets(cache, id, i, j, text),
    ensures
        crate::daemon::provider_resets(cache, id, text),
{
    let snapshot = cache[id][i];
    assert(crate::daemon::line_reset(snapshot.lines[j]) == Some(text));
    assert(crate::daemon::snapshot_resets(cache[id][i], text));
}

proof fn lemma_resets_at_a_line(
    cache: Map<Seq<char>, Seq<SnapshotView>>,
    id: Seq<char>,
    text: Seq<char>,
)
    requires
        crate::daemon::provider_resets(cache, id, text),
    ensures
        exists|i: int, j: int| line_at_resets(cache, id, i, j, text),
{
    let list = cache[id];
    let i = choose|i: int|
        0 <= i < list.len() && #[trigger] crate::daemon::snapshot_resets(list[i], text);
    let lines = list[i].lines;
    let j = choose|j: int|
        0 <= j < lines.len() && crate::daemon::line_reset(#[trigger] lines[j]) == Some(text);
    assert(line_at_resets(cache, id, i, j, text));
}

/// The next reset is one that a line names, it lies ahead with the margin, no other that does
/// comes sooner, and the milliseconds are the whole ones until then, as far as they can be
/// counted. There is none exactly where no line names a time that lies ahead.
pub proof fn law_next_reset_is_the_soonest(
    state: &DaemonState,
    margin_secs: u64,
    now: i128,
    id: Seq<char>,
    i: int,
    j: int,
    other: Seq<char>,
    r: Option<(String, u64)>,
)
    requires
        is_clock_time(now),
        call_ensures(DaemonState::next_reset_with_delay, (state, margin_secs, now), r),
    ensures
        r matches Some((text, ms)) ==> {
            &&& exists|own: Seq<char>, k: int, l: int|
                line_at_resets(state.spec_cache(), own, k, l, text@)
            &&& rfc3339_nanos(text@) matches Some(at) && {
                let left = at + margin_secs * 1_000_000_000 - now;
                &&& left > 0
                &&& ms < u64::MAX ==> ms * 1_000_000 <= left < (ms + 1) * 1_000_000
                &&& ms == u64::MAX ==> left >= ms * 1_000_000
                &&& line_at_resets(state.spec_cache(), id, i, j, other) ==> (rfc3339_nanos(
                    other,
                ) matches Some(then) ==> then + margin_secs * 1_000_000_000 <= now || at <= then)
            }
        },
        r is None ==> line_at_resets(state.spec_cache(), id, i, j, other) ==> (rfc3339_nanos(
            other,
        ) matches Some(then) ==> then + margin_secs * 1_000_000_000 <= now),
{
    let cache = state.spec_cache();
    if line_at_resets(cache, id, i, j, other) {
        lemma_line_resets(cache, id, i, j, other);
    }
    if r is None && line_at_resets(cache, id, i, j, other) {
        assert(crate::daemon::provider_resets(state.spec_cache(), id, other));
        assert(!crate::daemon::text_is_ahead(other, margin_secs, now));
    }
    if let Some((text, ms)) = r {
        let own = choose|own: Seq<char>| #[trigger]
            crate::daemon::provider_resets(cache, own, text@);
        lemma_resets_at_a_line(cache, own, text@);
        let at = rfc3339_nanos(text@).unwrap();
        let left = at + margin_secs * 1_000_000_000 - now;
        assert(left > 0);
        assert(left / 1_000_000 * 1_000_000 <= left < (left / 1_000_000 + 1) * 1_000_000);
    }
}

/// True if a progress line in a place should have reset by now.
pub open spec fn is_late_line(
    cache: Map<Seq<char>, Seq<SnapshotView>>,
    id: Seq<char>,
    i: int,
    j: int,
    text: Seq<char>,
    margin_secs: u64,
    now: i128,
) -> bool {
    line_at_resets(cache, id, i, j, text) && match rfc3339_nanos(text) {
        Some(at) => at + margin_secs * 1_000_000_000 <= now,
        None => false,
    }
}

/// True if a progress line of a provider should have reset by now.
pub open spec fn has_late_line(
    cache: Map<Seq<char>, Seq<SnapshotView>>,
    id: Seq<char>,
    margin_secs: u64,
    now: i128,
) -> bool {
    exists|i: int, j: int, text: Seq<char>|
        is_late_line(cache, id, i, j, text, margin_secs, now)
}

/// The providers that are overdue are those with a line whose reset, with the margin, does not
/// lie ahead; they are named in ascending order, each once.
pub proof fn law_overdue_providers_are_named(
    state: &DaemonState,
    margin_secs: u64,
    now: i128,
    id: Seq<char>,
    i: int,
    j: int,
    text: Seq<char>,
    any: bool,
    r: Vec<String>,
)
    requires
        call_ensures(DaemonState::provider_ids_with_past_resets, (state, margin_secs, now), r),
        call_ensures(DaemonState::has_past_resets, (state, margin_secs, now), any),
    ensures
        is_late_line(state.spec_cache(), id, i, j, text, margin_secs, now) ==> any && exists|
            k: int,
        |
            0 <= k < r@.len() && (#[trigger] r@[k])@ == id,
        forall|k: int|
            0 <= k < r@.len() ==> has_late_line(
                state.spec_cache(),
                (#[trigger] r@[k])@,
                margin_secs,
                now,
            ),
        forall|k: int, l: int|
            0 <= k < l < r@.len() ==> text_less((#[trigger] r@[k])@, (#[trigger] r@[l])@),
        any <==> r@.len() > 0,
{
    let cache = state.spec_cache();
    let ids = views(r@);
    assert(ids.len() == r@.len());
    if is_late_line(cache, id, i, j, text, margin_secs, now) {
        lemma_line_resets(cache, id, i, j, text);
        assert(crate::daemon::is_overdue(cache, id, margin_secs, now));
        assert(ids.contains(id));
        let k = choose|k: int| 0 <= k < ids.len() && ids[k] == id;
        assert(r@[k]@ == id);
    }
    assert forall|k: int| 0 <= k < r@.len() implies has_late_line(
        cache,
        (#[trigger] r@[k])@,
        margin_secs,
        now,
    ) by {
        let own_id = r@[k]@;
        assert(ids[k] == own_id);
        assert(ids.contains(own_id));
        assert(crate::daemon::is_overdue(cache, own_id, margin_secs, now));
        let own = choose|own: Seq<char>| #[trigger]
            crate::daemon::provider_resets(cache, own_id, own) && crate::daemon::text_is_past(
                own,
                margin_secs,
                now,
            );
        lemma_resets_at_a_line(cache, own_id, own);
        let (l, m) = choose|l: int, m: int| line_at_resets(cache, own_id, l, m, own);
        assert(is_late_line(cache, own_id, l, m, own, margin_secs, now));
    }
    assert forall|k: int, l: int| 0 <= k < l < r@.len() implies text_less(
        (#[trigger] r@[k])@,
        (#[trigger] r@[l])@,
    ) by {
        assert(ids[k] == r@[k]@ && ids[l] == r@[l]@);
    }
    if r@.len() > 0 {
        assert(ids.contains(ids[0]));
        assert(crate::daemon::is_overdue(cache, ids[0], margin_secs, now));
    }
    if any {
        let own_id = choose|own_id: Seq<char>| #[trigger]
            crate::daemon::is_overdue(cache, own_id, margin_secs, now);
        assert(ids.contains(own_id));
    }
}

/// True if a line that a plugin announces may stand for the plugin: it is a progress line, and
/// has a rank.
pub open spec fn may_stand(line: ManifestLine) -> bool {
    line.line_type@ == "progress"@ && line.primary_order is Some
}

/// True if `at` are the places of all lines that may stand for the plugin, by their rank, and
/// those of one rank as they are announced.
pub open spec fn are_ranked(lines: Seq<ManifestLine>, at: Seq<int>) -> bool {
    &&& forall|k: int|
        0 <= k < at.len() ==> 0 <= #[trigger] at[k] < lines.len() && may_stand(lines[at[k]])
    &&& forall|i: int| 0 <= i < lines.len() && may_stand(#[trigger] lines[i]) ==> at.contains(i)
    &&& forall|k: int, l: int|
        0 <= k < l < at.len() ==> {
            let a = lines[#[trigger] at[k]].primary_order->0;
            let b = lines[#[trigger] at[l]].primary_order->0;
            a < b || (a == b && at[k] < at[l])
        }
}

/// The labels that may stand for a plugin are those of its ranked progress lines, by rank.
pub proof fn law_candidates_go_by_rank(lines: &Vec<ManifestLine>, r: Vec<String>)
    requires
        call_ensures(primary_candidates, (lines,), r),
    ensures
        exists|at: Seq<int>| #[trigger]
            are_ranked(lines@, at) && at.len() == r@.len() && forall|k: int|
                0 <= k < at.len() ==> (#[trigger] r@[k])@ == lines@[at[k]].label@,
{
    let at = choose|places: Seq<int>| #[trigger]
        crate::daemon::candidate_places(lines@, places) && views(r@) == crate::daemon::labels_at(
            lines@,
            places,
        );
    lemma_ranked(lines@, at, r@);
}

proof fn lemma_ranked(lines: Seq<ManifestLine>, at: Seq<int>, labels: Seq<String>)
    requires
        crate::daemon::candidate_places(lines, at),
        views(labels) == crate::daemon::labels_at(lines, at),
    ensures
        are_ranked(lines, at),
        at.len() == labels.len(),
        forall|k: int| 0 <= k < at.len() ==> (#[trigger] labels[k])@ == lines[at[k]].label@,
{
    let seen = views(labels);
    assert(seen.len() == labels.len());
    assert forall|k: int| 0 <= k < at.len() implies (#[trigger] labels[k])@
        == lines[at[k]].label@ by {
        assert(seen[k] == labels[k]@);
    }
    assert forall|i: int| 0 <= i < lines.len() && may_stand(#[trigger] lines[i]) implies at.contains(
        i,
    ) by {
        assert(crate::daemon::is_candidate(lines[i]));
    }
}

/// Clients are told of a plugin what it says of itself: its identity, its name, its icon, its
/// colour, its lines and its links, in order, and the lines that may stand for it.
pub proof fn law_clients_are_told_of_the_plugin(plugin: &LoadedPlugin, r: PluginMeta, i: int)
    requires
        call_ensures(plugin_meta, (plugin,), r),
    ensures
        r.id@ == plugin.manifest.id@,
        r.name@ == plugin.manifest.name@,
        r.icon_url@ == plugin.icon_data_url@,
        opt_view(r.brand_color) == opt_view(plugin.manifest.brand_color),
        r.lines@.len() == plugin.manifest.lines@.len(),
        0 <= i < r.lines@.len() ==> r.lines@[i].line_type@ == plugin.manifest.lines@[i].line_type@
            && r.lines@[i].label@ == plugin.manifest.lines@[i].label@ && r.lines@[i].scope@
            == plugin.manifest.lines@[i].scope@,
        r.links@.len() == plugin.manifest.links@.len(),
        0 <= i < r.links@.len() ==> r.links@[i].label@ == plugin.manifest.links@[i].label@
            && r.links@[i].url@ == plugin.manifest.links@[i].url@,
        exists|at: Seq<int>| #[trigger]
            are_ranked(plugin.manifest.lines@, at) && at.len() == r.primary_candidates@.len()
                && forall|k: int|
                0 <= k < at.len() ==> (#[trigger] r.primary_candidates@[k])@
                    == plugin.manifest.lines@[at[k]].label@,
{
    let lines = plugin.manifest.lines@;
    let at = choose|places: Seq<int>| #[trigger]
        crate::daemon::candidate_places(lines, places) && views(r.primary_candidates@)
            == crate::daemon::labels_at(lines, places);
    lemma_ranked(lines, at, r.primary_candidates@);
    if 0 <= i < r.lines@.len() {
        assert(crate::daemon::line_matches(r.lines@[i], lines[i]));
    }
    if 0 <= i < r.links@.len() {
        assert(crate::daemon::link_matches(r.links@[i], plugin.manifest.links@[i]));
    }
}

/// Clients are told of all plugins, in their order.
pub proof fn law_clients_are_told_of_all_plugins(
    state: &DaemonState,
    r: Vec<PluginMeta>,
    i: int,
    alone: PluginMeta,
)
    requires
        call_ensures(DaemonState::plugins_meta, (state,), r),
    ensures
        r@.len() == state.spec_plugins().len(),
        0 <= i < r@.len() && call_ensures(plugin_meta, (&state.spec_plugins()[i],), alone) ==> {
            &&& r@[i].id@ == alone.id@
            &&& r@[i].name@ == alone.name@
            &&& r@[i].icon_url@ == alone.icon_url@
            &&& r@[i].lines@.len() == alone.lines@.len()
            &&& r@[i].links@.len() == alone.links@.len()
            &&& r@[i].id@ == plugin_ids(state.spec_plugins())[i]
        },
{
    if 0 <= i < r@.len() {
        assert(crate::daemon::meta_matches(r@[i], state.spec_plugins()[i]));
    }
}

/// A daemon that just began has the plugins and settings it was given, and knows nothing of
/// what they report.
pub proof fn law_new_daemon_knows_nothing(
    plugins: Vec<LoadedPlugin>,
    app_data_dir: crate::lexical_path::LexicalPath,
    app_version: String,
    plugin_overrides_dir: Option<crate::lexical_path::LexicalPath>,
    r: DaemonState,
    request: &Option<Vec<String>>,
    read: Vec<CachedPluginSnapshot>,
)
    requires
        call_ensures(
            DaemonState::new,
            (plugins, app_data_dir, app_version, plugin_overrides_dir),
            r,
        ),
        call_ensures(DaemonState::cached, (&r, request), read),
    ensures
        r.spec_plugins() == plugins@,
        r.spec_app_data_dir() == app_data_dir,
        r.spec_app_version() == app_version,
        r.spec_plugin_overrides_dir() == plugin_overrides_dir,
        read@.len() == 0,
{
    lemma_nothing_is_read(requested_ids(opt_views(*request), r.spec_ids()));
    assert(snapshot_views(read@).len() == read@.len());
}

proof fn lemma_nothing_is_read(ids: Seq<Seq<char>>)
    ensures
        snapshots_of_all(Map::<Seq<char>, Seq<SnapshotView>>::empty(), ids).len() == 0,
    decreases ids.len(),
{
    if ids.len() > 0 {
        lemma_nothing_is_read(ids.drop_last());
    }
}

/// Putting snapshots in for a provider lets it be read with just these, and every other
/// provider as before.
pub proof fn law_put_snapshots_are_read(
    state: &mut DaemonState,
    provider_id: &String,
    snapshots: Vec<CachedPluginSnapshot>,
    other: Seq<char>,
)
    requires
        call_ensures(DaemonState::replace_provider_cache, (state, provider_id, snapshots), ()),
    ensures
        snapshots_of(final(state).spec_cache(), provider_id@) == snapshot_views(snapshots@),
        other != provider_id@ ==> snapshots_of(final(state).spec_cache(), other) == snapshots_of(
            old(state).spec_cache(),
            other,
        ),
        final(state).spec_plugins() == old(state).spec_plugins(),
{
}

/// New plugins leave alone what was reported.
pub proof fn law_new_plugins_keep_the_snapshots(state: &mut DaemonState, plugins: Vec<LoadedPlugin>)
    requires
        call_ensures(DaemonState::set_plugins, (state, plugins), ()),
    ensures
        final(state).spec_plugins() == plugins@,
        final(state).spec_cache() == old(state).spec_cache(),
{
}

/// A request is answered from what is kept exactly where each provider it speaks of has
/// something.
pub proof fn law_kept_answers_cover_the_request(
    state: &DaemonState,
    request: &Option<Vec<String>>,
    i: int,
    r: bool,
)
    requires
        call_ensures(DaemonState::has_cached_for, (state, request), r),
    ensures
        r && 0 <= i < requested_ids(opt_views(*request), state.spec_ids()).len() ==> snapshots_of(
            state.spec_cache(),
            requested_ids(opt_views(*request), state.spec_ids())[i],
        ).len() > 0,
        !r ==> exists|k: int|
            0 <= k < requested_ids(opt_views(*request), state.spec_ids()).len() && snapshots_of(
                state.spec_cache(),
                #[trigger] requested_ids(opt_views(*request), state.spec_ids())[k],
            ).len() == 0,
{
}

/// A plugin is known by the identity in its manifest.
pub proof fn law_plugin_is_known_by_its_identity(state: &DaemonState, plugin_id: &str, r: bool)
    requires
        call_ensures(DaemonState::has_plugin, (state, plugin_id), r),
    ensures
        r <==> exists|i: int|
            0 <= i < state.spec_plugins().len() && (#[trigger] state.spec_plugins()[i]).manifest.id@
                == plugin_id@,
{
    let ids = state.spec_ids();
    if r {
        let i = choose|i: int| 0 <= i < ids.len() && ids[i] == plugin_id@;
        assert(state.spec_plugins()[i].manifest.id@ == plugin_id@);
    }
    if exists|i: int|
        0 <= i < state.spec_plugins().len() && (#[trigger] state.spec_plugins()[i]).manifest.id@
            == plugin_id@ {
        let i = choose|i: int|
            0 <= i < state.spec_plugins().len() && (#[trigger] state.spec_plugins()[i]).manifest.id@
                == plugin_id@;
        assert(ids[i] == plugin_id@);
    }
}

/// The plugins of a request are taken in their order: exactly those that it names, or all of
/// them where it names none.
pub proof fn law_named_plugins_are_taken(
    state: &DaemonState,
    request: &Option<Vec<String>>,
    p: usize,
    r: Vec<usize>,
)
    requires
        call_ensures(DaemonState::resolve_plugins, (state, request), r),
        p < state.spec_plugins().len(),
    ensures
        *request is None ==> r@.contains(p),
        *request matches Some(ids) ==> (r@.contains(p) <==> exists|k: int|
            0 <= k < ids@.len() && (#[trigger] ids@[k])@
                == state.spec_plugins()[p as int].manifest.id@),
        forall|k: int, l: int| 0 <= k < l < r@.len() ==> (#[trigger] r@[k]) < (#[trigger] r@[l]),
{
    if let Some(ids) = *request {
        let named = views(ids@);
        let id = state.spec_ids()[p as int];
        if named.contains(id) {
            let k = choose|k: int| 0 <= k < named.len() && named[k] == id;
            assert(ids@[k]@ == id);
        }
        if exists|k: int|
            0 <= k < ids@.len() && (#[trigger] ids@[k])@
                == state.spec_plugins()[p as int].manifest.id@ {
            let k = choose|k: int|
                0 <= k < ids@.len() && (#[trigger] ids@[k])@
                    == state.spec_plugins()[p as int].manifest.id@;
            assert(named[k] == id);
        }
    }
}

/// A plugin is asked again in three steps: its subscriptions are removed, it runs, and the
/// subscriptions of that run are registered for the provider that the run speaks of; without
/// a registry it only runs. While its result is awaited it stays the one to run.
pub proof fn law_plugin_is_asked_step_by_step(refresh: &mut Refresh, r: RefreshStep)
    requires
        old(refresh).wf(),
        call_ensures(Refresh::next_step, (refresh,), r),
    ensures
        final(refresh).wf(),
        final(refresh).runs() == old(refresh).runs(),
        final(refresh).ids() == old(refresh).ids(),
        final(refresh).places() == old(refresh).places(),
        final(refresh).watching() == old(refresh).watching(),
        old(refresh).stage() == RefreshStage::Clear ==> {
            let n = old(refresh).runs().len() as int;
            &&& n == old(refresh).ids().len() ==> r == RefreshStep::Finished
            &&& n < old(refresh).ids().len() ==> final(refresh).stage() == RefreshStage::Probe
            &&& n < old(refresh).ids().len() && old(refresh).watching() ==> (
            r matches RefreshStep::Watch(ProviderWatchCommand::ClearProvider { provider_id })
                && provider_id@ == old(refresh).ids()[n])
            &&& n < old(refresh).ids().len() && !old(refresh).watching() ==> r
                == RefreshStep::Probe(old(refresh).places()[n])
        },
        old(refresh).stage() == RefreshStage::Probe ==> r == RefreshStep::Probe(
            old(refresh).places()[old(refresh).runs().len() as int],
        ) && final(refresh).stage() == RefreshStage::Probe,
        old(refresh).stage() == RefreshStage::Replace ==> {
            let run = old(refresh).runs().last();
            &&& final(refresh).stage() == RefreshStage::Clear
            &&& r matches RefreshStep::Watch(ProviderWatchCommand::ReplaceProvider {
                provider_id,
                files,
            }) && files@ == old(refresh).files() && provider_id@ == if run.outputs@.len() > 0 {
                run.outputs@[0].provider_id@
            } else {
                run.plugin_id@
            }
        },
        r is Finished ==> old(refresh).runs().len() == old(refresh).ids().len(),
{
}

/// The result of a plugin is kept behind those before it, with its reports and the time, and
/// its subscriptions are the next to be registered where there is a registry.
pub proof fn law_result_is_kept(
    refresh: &mut Refresh,
    result: ProbeResult,
    fetched_at: String,
    i: int,
)
    requires
        old(refresh).wf(),
        old(refresh).stage() == RefreshStage::Probe,
        call_ensures(Refresh::probed, (refresh, result, fetched_at), ()),
    ensures
        final(refresh).wf(),
        final(refresh).runs().len() == old(refresh).runs().len() + 1,
        0 <= i < old(refresh).runs().len() ==> final(refresh).runs()[i] == old(refresh).runs()[i],
        final(refresh).runs().last().outputs == result.outputs,
        final(refresh).runs().last().fetched_at == fetched_at,
        final(refresh).runs().last().plugin_id@ == old(refresh).ids()[old(
            refresh,
        ).runs().len() as int],
        old(refresh).watching() ==> final(refresh).stage() == RefreshStage::Replace
            && final(refresh).files() == result.subscriptions@,
        !old(refresh).watching() ==> final(refresh).stage() == RefreshStage::Clear,
{
    if 0 <= i < old(refresh).runs().len() {
        assert(final(refresh).runs().drop_last()[i] == old(refresh).runs()[i]);
    }
}

/// A refresh begins with the plugins of the request, in their order, and with none of them
/// asked.
pub proof fn law_refresh_begins_with_the_request(
    state: &DaemonState,
    request: &Option<Vec<String>>,
    watching: bool,
    i: int,
    r: Refresh,
)
    requires
        call_ensures(DaemonState::begin_refresh, (state, request, watching), r),
    ensures
        r.wf(),
        r.runs().len() == 0,
        r.stage() == RefreshStage::Clear,
        r.watching() == watching,
        0 <= i < r.ids().len() ==> r.places()[i] < state.spec_plugins().len() && r.ids()[i]
            == state.spec_plugins()[r.places()[i] as int].manifest.id@,
        *request is None ==> r.ids().len() == state.spec_plugins().len(),
{
    if *request is None {
        lemma_all_are_selected(state.spec_ids());
    }
    if 0 <= i < r.ids().len() {
        assert(r.places()[i] < state.spec_plugins().len());
    }
}

proof fn lemma_all_are_selected(known: Seq<Seq<char>>)
    ensures
        selected_ids(None, known) == known,
    decreases known.len(),
{
    if known.len() > 0 {
        lemma_all_are_selected(known.drop_last());
        assert(known.drop_last().push(known.last()) =~= known);
    } else {
        assert(selected_ids(None, known) =~= known);
    }
}

/// The state is read as it is.
pub proof fn law_state_is_read_as_it_is(
    state: &DaemonState,
    i: usize,
    count: usize,
    plugin: &LoadedPlugin,
    ids: &Option<Vec<String>>,
    wanted: Vec<String>,
)
    requires
        call_ensures(DaemonState::plugin_count, (state,), count),
        i < count,
        call_ensures(DaemonState::plugin, (state, i), plugin),
        call_ensures(DaemonState::resolve_plugin_ids, (state, ids), wanted),
    ensures
        count == state.spec_plugins().len(),
        *plugin == state.spec_plugins()[i as int],
        *ids is None ==> wanted@.len() == count && wanted@[i as int]@ == plugin.manifest.id@,
{
    let all = views(wanted@);
    assert(all.len() == wanted@.len());
    if *ids is None {
        assert(all == plugin_ids(state.spec_plugins()));
        assert(all[i as int] == wanted@[i as int]@);
    }
}

/// The settings that a daemon began with are those that it is read with.
pub proof fn law_settings_are_read_back(
    plugins: Vec<LoadedPlugin>,
    app_data_dir: crate::lexical_path::LexicalPath,
    app_version: String,
    plugin_overrides_dir: Option<crate::lexical_path::LexicalPath>,
    state: DaemonState,
    data_dir: &crate::lexical_path::LexicalPath,
    version: &String,
    overrides_dir: &Option<crate::lexical_path::LexicalPath>,
)
    requires
        call_ensures(
            DaemonState::new,
            (plugins, app_data_dir, app_version, plugin_overrides_dir),
            state,
        ),
        call_ensures(DaemonState::app_data_dir, (&state,), data_dir),
        call_ensures(DaemonState::app_version, (&state,), version),
        call_ensures(DaemonState::plugin_overrides_dir, (&state,), overrides_dir),
    ensures
        *data_dir == app_data_dir,
        *version == app_version,
        *overrides_dir == plugin_overrides_dir,
{
}

/// A refresh that was told to ask a plugin awaits its result, and takes it in: it is then the
/// last of the runs that are handed out, and no result is awaited any more.
pub proof fn law_awaited_result_is_handed_out(
    refresh: &mut Refresh,
    awaited: bool,
    result: ProbeResult,
    fetched_at: String,
    after: bool,
    runs: Vec<PluginRun>,
)
    requires
        old(refresh).wf(),
        call_ensures(Refresh::awaits_result, (&*old(refresh),), awaited),
        awaited,
        call_ensures(Refresh::probed, (refresh, result, fetched_at), ()),
        call_ensures(Refresh::awaits_result, (&*final(refresh),), after),
        call_ensures(Refresh::into_runs, (*final(refresh),), runs),
    ensures
        !after,
        runs@.len() == old(refresh).runs().len() + 1,
        runs@.last().outputs == result.outputs,
        runs@.last().fetched_at == fetched_at,
{
}

/// The provider that a run speaks of is that of its first report, or else its plugin.
pub proof fn law_run_names_its_provider(run: &PluginRun, r: String)
    requires
        call_ensures(provider_of_run, (run,), r),
    ensures
        run.outputs@.len() > 0 ==> r@ == run.outputs@[0].provider_id@,
        run.outputs@.len() == 0 ==> r@ == run.plugin_id@,
{
}

/// Of several marks the one is taken that comes first among those that lie ahead, with the
/// margin, and of several such the first; the whole milliseconds until then are counted.
pub proof fn law_earliest_mark_ahead_is_taken(
    marks: &Vec<ResetMark>,
    margin_secs: u64,
    now: i128,
    k: int,
    r: Option<(usize, u64)>,
)
    requires
        is_clock_time(now),
        forall|j: int| 0 <= j < marks@.len() ==> is_clock_time((#[trigger] marks@[j]).nanos),
        call_ensures(earliest_ahead, (marks, margin_secs, now), r),
    ensures
        r matches Some((i, ms)) ==> {
            let left = marks@[i as int].nanos + margin_secs * 1_000_000_000 - now;
            &&& i < marks@.len()
            &&& left > 0
            &&& ms < u64::MAX ==> ms * 1_000_000 <= left < (ms + 1) * 1_000_000
            &&& 0 <= k < marks@.len() && marks@[k].nanos + margin_secs * 1_000_000_000 > now
                ==> marks@[i as int].nanos <= marks@[k].nanos && (k < i ==> marks@[i as int].nanos
                < marks@[k].nanos)
        },
{
    if let Some((i, ms)) = r {
        if 0 <= k < marks@.len() {
            assert(crate::daemon::is_ahead(marks@[k], margin_secs, now) ==> crate::daemon::with_margin(
                marks@[i as int].nanos,
                margin_secs,
            ) <= crate::daemon::with_margin(marks@[k].nanos, margin_secs));
        }
    }
}

/// The time until the next reset is that of the reset that is named.
pub proof fn law_time_until_the_reset_is_that_of_the_reset(
    state: &DaemonState,
    margin_secs: u64,
    now: i128,
    next: Option<(String, u64)>,
    r: Option<u64>,
)
    requires
        is_clock_time(now),
        call_ensures(DaemonState::next_reset_with_delay, (state, margin_secs, now), next),
        call_ensures(DaemonState::time_until_next_reset, (state, margin_secs, now), r),
    ensures
        r is Some <==> next is Some,
        r matches Some(ms) ==> next.unwrap().1 == ms,
{
    let cache = state.spec_cache();
    if let Some((text, delay)) = next {
        let own = choose|own: Seq<char>| #[trigger]
            crate::daemon::provider_resets(cache, own, text@);
        assert(crate::daemon::provider_resets(cache, own, text@));
        assert(crate::daemon::text_is_ahead(text@, margin_secs, now));
        assert(r is Some);
        let (id, other) = choose|id: Seq<char>, other: Seq<char>|
            {
                &&& #[trigger] crate::daemon::provider_resets(cache, id, other)
                &&& crate::daemon::text_is_ahead(other, margin_secs, now)
                &&& r == Some(
                    crate::daemon::delay_ms(
                        crate::daemon::with_margin(rfc3339_nanos(other).unwrap(), margin_secs),
                        now as int,
                    ),
                )
                &&& forall|id2: Seq<char>, third: Seq<char>| #[trigger]
                    crate::daemon::provider_resets(cache, id2, third)
                        && crate::daemon::text_is_ahead(third, margin_secs, now)
                        ==> crate::daemon::with_margin(rfc3339_nanos(other).unwrap(), margin_secs)
                        <= crate::daemon::with_margin(rfc3339_nanos(third).unwrap(), margin_secs)
            };
        assert(crate::daemon::provider_resets(cache, id, other));
    }
}

} // verus!
