//! What the daemon knows: its plugins, and what they reported last.

use crate::lexical_path::LexicalPath;
use crate::outside::{parse_rfc3339, rfc3339_nanos};
use crate::plugin_engine::manifest::{LoadedPlugin, ManifestLine, PluginLink};
use crate::plugin_engine::output::{
    line_views, output_views, AccountRef, AccountView, LineView, MetricLine, OutputView,
    PluginOutput,
};
use crate::table::Table;
use crate::text::{clone_opt, contains_text, opt_view, same, views};
use crate::text_order::{ascending, sorted_distinct};
use vstd::prelude::*;

verus! {

/// A line that a plugin announces, as it is told to clients.
#[derive(Debug)]
pub struct ManifestLineDto {
    pub line_type: String,
    pub label: String,
    pub scope: String,
}

/// A link of a plugin, as it is told to clients.
#[derive(Debug)]
pub struct PluginLinkDto {
    pub label: String,
    pub url: String,
}

/// What clients are told of a plugin.
#[derive(Debug)]
pub struct PluginMeta {
    pub id: String,
    pub name: String,
    pub icon_url: String,
    pub brand_color: Option<String>,
    pub lines: Vec<ManifestLineDto>,
    pub links: Vec<PluginLinkDto>,
    pub primary_candidates: Vec<String>,
}

/// What a plugin reported of an account, and when.
#[derive(Debug, PartialEq, Eq)]
pub struct CachedPluginSnapshot {
    pub provider_id: String,
    pub display_name: String,
    pub plan: Option<String>,
    pub lines: Vec<MetricLine>,
    pub fetched_at: String,
    pub account: AccountRef,
}

/// A snapshot, as values.
#[verifier::ext_equal]
pub struct SnapshotView {
    pub provider_id: Seq<char>,
    pub display_name: Seq<char>,
    pub plan: Option<Seq<char>>,
    pub lines: Seq<LineView>,
    pub fetched_at: Seq<char>,
    pub account: AccountView,
}

impl View for CachedPluginSnapshot {
    type V = SnapshotView;

    open spec fn view(&self) -> SnapshotView {
        SnapshotView {
            provider_id: self.provider_id@,
            display_name: self.display_name@,
            plan: opt_view(self.plan),
            lines: line_views(self.lines@),
            fetched_at: self.fetched_at@,
            account: self.account@,
        }
    }
}

/// Snapshots as values.
pub open spec fn snapshot_views(list: Seq<CachedPluginSnapshot>) -> Seq<SnapshotView> {
    list.map_values(|s: CachedPluginSnapshot| s@)
}

/// The snapshot of a report that came in at a time.
pub open spec fn snapshot_of(output: OutputView, fetched_at: Seq<char>) -> SnapshotView {
    SnapshotView {
        provider_id: output.provider_id,
        display_name: output.display_name,
        plan: output.plan,
        lines: output.lines,
        fetched_at,
        account: output.account,
    }
}

impl CachedPluginSnapshot {
    /// The snapshot of a report that came in at a time.
    pub fn from_output(output: PluginOutput, fetched_at: String) -> (r: Self)
        ensures
            r@ == snapshot_of(output@, fetched_at@),
    {
        CachedPluginSnapshot {
            provider_id: output.provider_id,
            display_name: output.display_name,
            plan: output.plan,
            lines: output.lines,
            fetched_at,
            account: output.account,
        }
    }
}

impl Clone for CachedPluginSnapshot {
    fn clone(&self) -> (r: Self)
        ensures
            r@ == self@,
    {
        let report = PluginOutput {
            provider_id: self.provider_id.clone(),
            display_name: self.display_name.clone(),
            plan: clone_opt(&self.plan),
            lines: crate::plugin_engine::output::clone_lines(&self.lines),
            icon_url: String::new(),
            account: self.account.clone(),
        };
        let r = CachedPluginSnapshot::from_output(report, self.fetched_at.clone());
        assert(r@ =~= self@);
        r
    }
}

fn clone_snapshots(list: &Vec<CachedPluginSnapshot>, out: &mut Vec<CachedPluginSnapshot>)
    ensures
        snapshot_views(final(out)@) == snapshot_views(old(out)@) + snapshot_views(list@),
{
    let ghost start = snapshot_views(out@);
    let mut i: usize = 0;
    assert(snapshot_views(list@).take(0) =~= Seq::<SnapshotView>::empty());
    assert(snapshot_views(out@) =~= start + snapshot_views(list@).take(0));
    while i < list.len()
        invariant
            i <= list@.len(),
            start == snapshot_views(old(out)@),
            snapshot_views(out@) == start + snapshot_views(list@).take(i as int),
        decreases list@.len() - i,
    {
        let ghost before = out@;
        out.push(list[i].clone());
        assert(snapshot_views(out@) =~= snapshot_views(before).push(list@[i as int]@));
        assert(snapshot_views(list@).take(i + 1) =~= snapshot_views(list@).take(i as int).push(
            list@[i as int]@,
        ));
        assert(snapshot_views(out@) =~= start + snapshot_views(list@).take(i + 1));
        i = i + 1;
    }
    assert(snapshot_views(list@).take(list@.len() as int) =~= snapshot_views(list@));
}

/// The identities of plugins.
pub open spec fn plugin_ids(plugins: Seq<LoadedPlugin>) -> Seq<Seq<char>> {
    plugins.map_values(|p: LoadedPlugin| p.manifest.id@)
}

/// The plugins of the daemon and what they reported last.
pub struct DaemonState {
    plugins: Vec<LoadedPlugin>,
    app_data_dir: LexicalPath,
    app_version: String,
    plugin_overrides_dir: Option<LexicalPath>,
    cache: Table<String, Vec<CachedPluginSnapshot>>,
}

impl DaemonState {
    /// The plugins.
    pub closed spec fn spec_plugins(&self) -> Seq<LoadedPlugin> {
        self.plugins@
    }

    /// The snapshots by provider; absent for a provider that never reported.
    pub closed spec fn spec_cache(&self) -> Map<Seq<char>, Seq<SnapshotView>> {
        self.cache@.map_values(|list: Vec<CachedPluginSnapshot>| snapshot_views(list@))
    }

    /// The directory for the data of plugins.
    pub closed spec fn spec_app_data_dir(&self) -> LexicalPath {
        self.app_data_dir
    }

    /// The version of the program.
    pub closed spec fn spec_app_version(&self) -> String {
        self.app_version
    }

    /// The directory with the overrides of plugins.
    pub closed spec fn spec_plugin_overrides_dir(&self) -> Option<LexicalPath> {
        self.plugin_overrides_dir
    }

    /// True if the directories and the version are those of another state.
    pub open spec fn same_settings(&self, other: &DaemonState) -> bool {
        &&& self.spec_app_data_dir() == other.spec_app_data_dir()
        &&& self.spec_app_version() == other.spec_app_version()
        &&& self.spec_plugin_overrides_dir() == other.spec_plugin_overrides_dir()
    }

    /// The identities of the plugins.
    pub open spec fn spec_ids(&self) -> Seq<Seq<char>> {
        plugin_ids(self.spec_plugins())
    }
}

/// The first occurrences of the texts that are among those known, in order.
pub open spec fn known_once(ids: Seq<Seq<char>>, known: Seq<Seq<char>>) -> Seq<Seq<char>>
    decreases ids.len(),
{
    if ids.len() == 0 {
        Seq::empty()
    } else {
        let before = known_once(ids.drop_last(), known);
        if known.contains(ids.last()) && !before.contains(ids.last()) {
            before.push(ids.last())
        } else {
            before
        }
    }
}

/// The identities that a request speaks of: those of all plugins, or those that it names,
/// each once, as far as there is such a plugin.
pub open spec fn requested_ids(ids: Option<Seq<Seq<char>>>, known: Seq<Seq<char>>) -> Seq<Seq<char>> {
    match ids {
        None => known,
        Some(list) => known_once(list, known),
    }
}

/// True if a request speaks of an identity: without a list it speaks of all.
pub open spec fn is_wanted(ids: Option<Seq<Seq<char>>>, id: Seq<char>) -> bool {
    match ids {
        None => true,
        Some(list) => list.contains(id),
    }
}

/// The identities that a request speaks of, in the order of the plugins.
pub open spec fn selected_ids(ids: Option<Seq<Seq<char>>>, known: Seq<Seq<char>>) -> Seq<Seq<char>>
    decreases known.len(),
{
    if known.len() == 0 {
        Seq::empty()
    } else {
        let before = selected_ids(ids, known.drop_last());
        if is_wanted(ids, known.last()) {
            before.push(known.last())
        } else {
            before
        }
    }
}

/// The identities in some places.
pub open spec fn ids_at(places: Seq<usize>, known: Seq<Seq<char>>) -> Seq<Seq<char>> {
    places.map_values(|p: usize| known[p as int])
}

/// The views of an optional list of strings.
pub open spec fn opt_views(list: Option<Vec<String>>) -> Option<Seq<Seq<char>>> {
    match list {
        Some(l) => Some(views(l@)),
        None => None,
    }
}

/// No identity occurs twice among those that a request names, and each belongs to a plugin.
pub proof fn law_requested_ids_are_known_and_distinct(ids: Seq<Seq<char>>, known: Seq<Seq<char>>)
    ensures
        known_once(ids, known).no_duplicates(),
        forall|id: Seq<char>| #[trigger]
            known_once(ids, known).contains(id) <==> ids.contains(id) && known.contains(id),
    decreases ids.len(),
{
    let all = known_once(ids, known);
    if ids.len() > 0 {
        let init = ids.drop_last();
        let before = known_once(init, known);
        law_requested_ids_are_known_and_distinct(init, known);
        assert forall|id: Seq<char>| #[trigger]
            all.contains(id) <==> ids.contains(id) && known.contains(id) by {
            assert(before.contains(id) <==> init.contains(id) && known.contains(id));
            if all.contains(id) {
                let k = choose|k: int| 0 <= k < all.len() && all[k] == id;
                if k < before.len() {
                    assert(before[k] == id);
                    assert(before.contains(id));
                    let j = choose|j: int| 0 <= j < init.len() && init[j] == id;
                    assert(ids[j] == id);
                } else {
                    assert(ids[ids.len() - 1] == id);
                }
            }
            if ids.contains(id) && known.contains(id) {
                let j = choose|j: int| 0 <= j < ids.len() && ids[j] == id;
                if j < init.len() {
                    assert(init[j] == id);
                    assert(before.contains(id));
                }
                if before.contains(id) {
                    let k = choose|k: int| 0 <= k < before.len() && before[k] == id;
                    assert(all[k] == id);
                } else {
                    assert(all.last() == id);
                }
            }
        }
        assert forall|i: int, j: int| 0 <= i < all.len() && 0 <= j < all.len() && i
            != j implies all[i] != all[j] by {
            if i < before.len() && j < before.len() {
                assert(before[i] != before[j]);
            } else if i < before.len() {
                assert(before.contains(before[i]));
            } else {
                assert(before.contains(before[j]));
            }
        }
    }
}

/// The snapshots of a provider.
pub open spec fn snapshots_of(cache: Map<Seq<char>, Seq<SnapshotView>>, id: Seq<char>) -> Seq<
    SnapshotView,
> {
    if cache.dom().contains(id) {
        cache[id]
    } else {
        Seq::empty()
    }
}

/// The snapshots of several providers, one after the other.
pub open spec fn snapshots_of_all(
    cache: Map<Seq<char>, Seq<SnapshotView>>,
    ids: Seq<Seq<char>>,
) -> Seq<SnapshotView>
    decreases ids.len(),
{
    if ids.len() == 0 {
        Seq::empty()
    } else {
        snapshots_of_all(cache, ids.drop_last()) + snapshots_of(cache, ids.last())
    }
}

/// The snapshot that stands for a provider: that of the default account, or else the only
/// one there is.
pub open spec fn chosen_snapshot(list: Seq<SnapshotView>) -> Option<SnapshotView> {
    match first_default(list) {
        Some(snapshot) => Some(snapshot),
        None => if list.len() == 1 {
            Some(list[0])
        } else {
            None
        },
    }
}

/// The first snapshot of the default account.
pub open spec fn first_default(list: Seq<SnapshotView>) -> Option<SnapshotView>
    decreases list.len(),
{
    if list.len() == 0 {
        None
    } else if list[0].account.id == "default"@ {
        Some(list[0])
    } else {
        first_default(list.drop_first())
    }
}

/// What a plugin reported in one run, and when.
#[derive(Debug)]
pub struct PluginRun {
    pub plugin_id: String,
    pub outputs: Vec<PluginOutput>,
    pub fetched_at: String,
}

/// The provider that a run speaks of: that of its first report, or else the plugin.
pub open spec fn run_provider(run: PluginRun) -> Seq<char> {
    if run.outputs@.len() > 0 {
        run.outputs@[0].provider_id@
    } else {
        run.plugin_id@
    }
}

/// The snapshots of a run.
pub open spec fn run_snapshots(run: PluginRun) -> Seq<SnapshotView> {
    output_views(run.outputs@).map_values(|o: OutputView| snapshot_of(o, run.fetched_at@))
}

/// The snapshots of several runs, one after the other.
pub open spec fn all_run_snapshots(runs: Seq<PluginRun>) -> Seq<SnapshotView>
    decreases runs.len(),
{
    if runs.len() == 0 {
        Seq::empty()
    } else {
        all_run_snapshots(runs.drop_last()) + run_snapshots(runs.last())
    }
}

/// The providers that the runs speak of, in order.
pub open spec fn run_providers(runs: Seq<PluginRun>) -> Seq<Seq<char>> {
    runs.map_values(|r: PluginRun| run_provider(r))
}

/// The snapshots of one provider among others.
pub open spec fn only_provider(list: Seq<SnapshotView>, id: Seq<char>) -> Seq<SnapshotView>
    decreases list.len(),
{
    if list.len() == 0 {
        Seq::empty()
    } else {
        let before = only_provider(list.drop_last(), id);
        if list.last().provider_id == id {
            before.push(list.last())
        } else {
            before
        }
    }
}

/// The snapshots by provider after several runs: those of each provider that a run speaks
/// of are replaced by what came in for it, even if that is nothing.
pub open spec fn refreshed(
    cache: Map<Seq<char>, Seq<SnapshotView>>,
    providers: Seq<Seq<char>>,
    snapshots: Seq<SnapshotView>,
) -> Map<Seq<char>, Seq<SnapshotView>> {
    Map::new(
        |id: Seq<char>| cache.dom().contains(id) || providers.contains(id),
        |id: Seq<char>|
            if providers.contains(id) {
                only_provider(snapshots, id)
            } else {
                cache[id]
            },
    )
}

/// After a refresh, a provider that took part in it has exactly the snapshots that came in
/// for it, and every other provider has what it had.
pub proof fn law_refresh_replaces_what_it_refreshed(
    cache: Map<Seq<char>, Seq<SnapshotView>>,
    providers: Seq<Seq<char>>,
    snapshots: Seq<SnapshotView>,
    id: Seq<char>,
)
    ensures
        providers.contains(id) ==> snapshots_of(refreshed(cache, providers, snapshots), id)
            == only_provider(snapshots, id),
        !providers.contains(id) ==> snapshots_of(refreshed(cache, providers, snapshots), id)
            == snapshots_of(cache, id),
{
}

/// True if all reports of a run speak of its provider.
pub open spec fn speaks_of_one(run: PluginRun) -> bool {
    forall|i: int|
        0 <= i < run.outputs@.len() ==> (#[trigger] run.outputs@[i]).provider_id@ == run_provider(
            run,
        )
}

/// Where all reports of each run speak of its provider, and no two runs speak of one, reading
/// the provider of a run after the refresh gives back exactly its reports, in order.
pub proof fn law_refresh_is_read_back(
    cache: Map<Seq<char>, Seq<SnapshotView>>,
    runs: Seq<PluginRun>,
    i: int,
)
    requires
        0 <= i < runs.len(),
        forall|j: int| 0 <= j < runs.len() ==> speaks_of_one(#[trigger] runs[j]),
        forall|j: int|
            0 <= j < runs.len() && j != i ==> run_provider(#[trigger] runs[j]) != run_provider(
                runs[i],
            ),
    ensures
        snapshots_of(
            refreshed(cache, run_providers(runs), all_run_snapshots(runs)),
            run_provider(runs[i]),
        ) == run_snapshots(runs[i]),
{
    let id = run_provider(runs[i]);
    assert(run_providers(runs)[i] == id);
    assert(run_providers(runs).contains(id));
    lemma_own_reports(runs, i);
}

proof fn lemma_own_reports(runs: Seq<PluginRun>, i: int)
    requires
        0 <= i < runs.len(),
        forall|j: int| 0 <= j < runs.len() ==> speaks_of_one(#[trigger] runs[j]),
        forall|j: int|
            0 <= j < runs.len() && j != i ==> run_provider(#[trigger] runs[j]) != run_provider(
                runs[i],
            ),
    ensures
        only_provider(all_run_snapshots(runs), run_provider(runs[i])) == run_snapshots(runs[i]),
    decreases runs.len(),
{
    let id = run_provider(runs[i]);
    let init = runs.drop_last();
    let last = runs.last();
    let own = run_snapshots(last);
    lemma_only_provider_adds(all_run_snapshots(init), own, id);
    assert forall|k: int| 0 <= k < own.len() implies (#[trigger] own[k]).provider_id
        == run_provider(last) by {
        assert(speaks_of_one(runs[runs.len() - 1]));
        assert(last.outputs@[k].provider_id@ == run_provider(last));
    }
    if i == runs.len() - 1 {
        lemma_only_provider_all(own, id);
        lemma_other_runs(init, id);
        assert(Seq::<SnapshotView>::empty() + own =~= own);
    } else {
        assert(run_provider(runs[runs.len() - 1]) != id);
        lemma_only_provider_none(own, id);
        lemma_own_reports(init, i);
        assert(run_snapshots(runs[i]) + Seq::<SnapshotView>::empty() =~= run_snapshots(runs[i]));
    }
}

proof fn lemma_other_runs(runs: Seq<PluginRun>, id: Seq<char>)
    requires
        forall|j: int| 0 <= j < runs.len() ==> speaks_of_one(#[trigger] runs[j]),
        forall|j: int| 0 <= j < runs.len() ==> run_provider(#[trigger] runs[j]) != id,
    ensures
        only_provider(all_run_snapshots(runs), id) == Seq::<SnapshotView>::empty(),
    decreases runs.len(),
{
    if runs.len() > 0 {
        let init = runs.drop_last();
        let last = runs.last();
        let own = run_snapshots(last);
        lemma_other_runs(init, id);
        lemma_only_provider_adds(all_run_snapshots(init), own, id);
        assert(runs[runs.len() - 1] == last);
        assert forall|k: int| 0 <= k < own.len() implies (#[trigger] own[k]).provider_id != id by {
            assert(last.outputs@[k].provider_id@ == run_provider(last));
        }
        lemma_only_provider_none(own, id);
        assert(Seq::<SnapshotView>::empty() + Seq::<SnapshotView>::empty() =~= Seq::<
            SnapshotView,
        >::empty());
    }
}

proof fn lemma_only_provider_adds(a: Seq<SnapshotView>, b: Seq<SnapshotView>, id: Seq<char>)
    ensures
        only_provider(a + b, id) == only_provider(a, id) + only_provider(b, id),
    decreases b.len(),
{
    if b.len() == 0 {
        assert(a + b =~= a);
        assert(only_provider(a, id) + only_provider(b, id) =~= only_provider(a, id));
    } else {
        lemma_only_provider_adds(a, b.drop_last(), id);
        assert((a + b).drop_last() =~= a + b.drop_last());
        assert((a + b).last() == b.last());
        assert(only_provider(a + b, id) =~= only_provider(a, id) + only_provider(b, id));
    }
}

proof fn lemma_only_provider_none(list: Seq<SnapshotView>, id: Seq<char>)
    requires
        forall|i: int| 0 <= i < list.len() ==> (#[trigger] list[i]).provider_id != id,
    ensures
        only_provider(list, id) == Seq::<SnapshotView>::empty(),
    decreases list.len(),
{
    if list.len() > 0 {
        let init = list.drop_last();
        assert forall|i: int| 0 <= i < init.len() implies (#[trigger] init[i]).provider_id != id by {
            assert(init[i] == list[i]);
        }
        lemma_only_provider_none(init, id);
        assert(list[list.len() - 1].provider_id != id);
    }
}

proof fn lemma_only_provider_all(list: Seq<SnapshotView>, id: Seq<char>)
    requires
        forall|i: int| 0 <= i < list.len() ==> (#[trigger] list[i]).provider_id == id,
    ensures
        only_provider(list, id) == list,
    decreases list.len(),
{
    if list.len() > 0 {
        let init = list.drop_last();
        assert forall|i: int| 0 <= i < init.len() implies (#[trigger] init[i]).provider_id == id by {
            assert(init[i] == list[i]);
        }
        lemma_only_provider_all(init, id);
        assert(list[list.len() - 1].provider_id == id);
        assert(init.push(list.last()) =~= list);
    } else {
        assert(only_provider(list, id) =~= list);
    }
}

impl DaemonState {
    /// A daemon whose plugins reported nothing yet.
    pub fn new(
        plugins: Vec<LoadedPlugin>,
        app_data_dir: LexicalPath,
        app_version: String,
        plugin_overrides_dir: Option<LexicalPath>,
    ) -> (r: Self)
        ensures
            r.spec_plugins() == plugins@,
            r.spec_app_data_dir() == app_data_dir,
            r.spec_app_version() == app_version,
            r.spec_plugin_overrides_dir() == plugin_overrides_dir,
            r.spec_cache() == Map::<Seq<char>, Seq<SnapshotView>>::empty(),
    {
        let r = DaemonState {
            plugins,
            app_data_dir,
            app_version,
            plugin_overrides_dir,
            cache: Table::new(),
        };
        assert(r.spec_cache() =~= Map::<Seq<char>, Seq<SnapshotView>>::empty());
        r
    }

    /// The directory for the data of plugins.
    pub fn app_data_dir(&self) -> (r: &LexicalPath)
        ensures
            *r == self.spec_app_data_dir(),
    {
        &self.app_data_dir
    }

    /// The version of the program.
    pub fn app_version(&self) -> (r: &String)
        ensures
            *r == self.spec_app_version(),
    {
        &self.app_version
    }

    /// The directory with the overrides of plugins.
    pub fn plugin_overrides_dir(&self) -> (r: &Option<LexicalPath>)
        ensures
            *r == self.spec_plugin_overrides_dir(),
    {
        &self.plugin_overrides_dir
    }

    /// A plugin by its place.
    pub fn plugin(&self, i: usize) -> (r: &LoadedPlugin)
        requires
            i < self.spec_plugins().len(),
        ensures
            *r == self.spec_plugins()[i as int],
    {
        &self.plugins[i]
    }

    /// True if there is a plugin with the identity.
    pub fn has_plugin(&self, plugin_id: &str) -> (r: bool)
        ensures
            r == self.spec_ids().contains(plugin_id@),
    {
        let ghost ids = self.spec_ids();
        let mut i: usize = 0;
        while i < self.plugins.len()
            invariant
                i <= self.plugins@.len(),
                ids == plugin_ids(self.plugins@),
                forall|j: int| 0 <= j < i ==> ids[j] != plugin_id@,
            decreases self.plugins@.len() - i,
        {
            assert(ids[i as int] == self.plugins@[i as int].manifest.id@);
            if same(self.plugins[i].manifest.id.as_str(), plugin_id) {
                return true;
            }
            i = i + 1;
        }
        false
    }

    /// The number of plugins.
    pub fn plugin_count(&self) -> (r: usize)
        ensures
            r == self.spec_plugins().len(),
    {
        self.plugins.len()
    }

    /// The identities that a request speaks of.
    pub fn resolve_plugin_ids(&self, plugin_ids: &Option<Vec<String>>) -> (r: Vec<String>)
        ensures
            views(r@) == requested_ids(opt_views(*plugin_ids), self.spec_ids()),
    {
        let ghost known = self.spec_ids();
        let mut out: Vec<String> = Vec::new();
        match plugin_ids {
            None => {
                let mut i: usize = 0;
                assert(views(out@) =~= known.take(0));
                while i < self.plugins.len()
                    invariant
                        i <= self.plugins@.len(),
                        known == crate::daemon::plugin_ids(self.plugins@),
                        views(out@) == known.take(i as int),
                    decreases self.plugins@.len() - i,
                {
                    let ghost before = out@;
                    out.push(self.plugins[i].manifest.id.clone());
                    assert(views(out@) =~= views(before).push(known[i as int]));
                    assert(known.take(i + 1) =~= known.take(i as int).push(known[i as int]));
                    i = i + 1;
                }
                assert(known.take(known.len() as int) =~= known);
            },
            Some(list) => {
                let ghost ids = views(list@);
                let mut i: usize = 0;
                assert(ids.take(0) =~= Seq::<Seq<char>>::empty());
                assert(views(out@) =~= Seq::<Seq<char>>::empty());
                while i < list.len()
                    invariant
                        i <= list@.len(),
                        ids == views(list@),
                        known == self.spec_ids(),
                        views(out@) == known_once(ids.take(i as int), known),
                    decreases list@.len() - i,
                {
                    let ghost next = ids.take(i + 1);
                    assert(next.drop_last() =~= ids.take(i as int));
                    assert(next.last() == list@[i as int]@);
                    if self.has_plugin(list[i].as_str()) && !contains_text(&out, list[i].as_str()) {
                        let ghost before = out@;
                        out.push(list[i].clone());
                        assert(views(out@) =~= views(before).push(list@[i as int]@));
                    }
                    i = i + 1;
                }
                assert(ids.take(ids.len() as int) =~= ids);
            },
        }
        out
    }

    /// The places of the plugins that a request speaks of, in the order of the plugins.
    pub fn resolve_plugins(&self, plugin_ids: &Option<Vec<String>>) -> (r: Vec<usize>)
        ensures
            forall|i: int|
                0 <= i < r@.len() ==> (#[trigger] r@[i]) < self.spec_plugins().len(),
            forall|i: int, j: int|
                0 <= i < j < r@.len() ==> (#[trigger] r@[i]) < (#[trigger] r@[j]),
            forall|p: usize|
                p < self.spec_plugins().len() ==> (#[trigger] r@.contains(p) <==> is_wanted(
                    opt_views(*plugin_ids),
                    self.spec_ids()[p as int],
                )),
            ids_at(r@, self.spec_ids()) == selected_ids(opt_views(*plugin_ids), self.spec_ids()),
    {
        let ghost known = self.spec_ids();
        let mut out: Vec<usize> = Vec::new();
        let mut i: usize = 0;
        assert(ids_at(out@, known) =~= selected_ids(opt_views(*plugin_ids), known.take(0)));
        while i < self.plugins.len()
            invariant
                i <= self.plugins@.len(),
                known == crate::daemon::plugin_ids(self.plugins@),
                forall|k: int| 0 <= k < out@.len() ==> (#[trigger] out@[k]) < i,
                forall|k: int, l: int|
                    0 <= k < l < out@.len() ==> (#[trigger] out@[k]) < (#[trigger] out@[l]),
                forall|p: usize|
                    p < i ==> (#[trigger] out@.contains(p) <==> is_wanted(
                        opt_views(*plugin_ids),
                        known[p as int],
                    )),
                ids_at(out@, known) == selected_ids(opt_views(*plugin_ids), known.take(i as int)),
            decreases self.plugins@.len() - i,
        {
            let wanted = match plugin_ids {
                None => true,
                Some(list) => contains_text(list, self.plugins[i].manifest.id.as_str()),
            };
            assert(known[i as int] == self.plugins@[i as int].manifest.id@);
            let ghost before = out@;
            if wanted {
                out.push(i);
            }
            assert(known.take(i + 1).drop_last() =~= known.take(i as int));
            assert(known.take(i + 1).last() == known[i as int]);
            if wanted {
                assert(ids_at(out@, known) =~= ids_at(before, known).push(known[i as int]));
            }
            assert forall|p: usize| p < i + 1 implies (#[trigger] out@.contains(p) <==> is_wanted(
                opt_views(*plugin_ids),
                known[p as int],
            )) by {
                if p < i {
                    assert(before.contains(p) <==> out@.contains(p)) by {
                        if before.contains(p) {
                            let k = choose|k: int| 0 <= k < before.len() && before[k] == p;
                            assert(out@[k] == p);
                        }
                        if out@.contains(p) {
                            let k = choose|k: int| 0 <= k < out@.len() && out@[k] == p;
                            assert(before[k] == p);
                        }
                    }
                } else {
                    if wanted {
                        assert(out@[out@.len() - 1] == p);
                    } else if out@.contains(p) {
                        let k = choose|k: int| 0 <= k < out@.len() && out@[k] == p;
                        assert(out@[k] < i);
                    }
                }
            }
            i = i + 1;
        }
        assert(known.take(known.len() as int) =~= known);
        out
    }

    /// The snapshots that a request speaks of.
    pub fn cached(&self, plugin_ids: &Option<Vec<String>>) -> (r: Vec<CachedPluginSnapshot>)
        ensures
            snapshot_views(r@) == snapshots_of_all(
                self.spec_cache(),
                requested_ids(opt_views(*plugin_ids), self.spec_ids()),
            ),
    {
        let selected = self.resolve_plugin_ids(plugin_ids);
        let ghost ids = views(selected@);
        let mut out: Vec<CachedPluginSnapshot> = Vec::new();
        let mut i: usize = 0;
        assert(ids.take(0) =~= Seq::<Seq<char>>::empty());
        assert(snapshot_views(out@) =~= Seq::<SnapshotView>::empty());
        while i < selected.len()
            invariant
                i <= selected@.len(),
                ids == views(selected@),
                snapshot_views(out@) == snapshots_of_all(self.spec_cache(), ids.take(i as int)),
            decreases selected@.len() - i,
        {
            let ghost next = ids.take(i + 1);
            assert(next.drop_last() =~= ids.take(i as int));
            assert(next.last() == selected@[i as int]@);
            match self.cache.get(&selected[i]) {
                Some(list) => {
                    clone_snapshots(list, &mut out);
                },
                None => {
                    assert(snapshot_views(out@) + Seq::<SnapshotView>::empty()
                        =~= snapshot_views(out@));
                },
            }
            i = i + 1;
        }
        assert(ids.take(ids.len() as int) =~= ids);
        out
    }

    /// The snapshot that stands for a provider.
    pub fn cached_one(&self, plugin_id: &String) -> (r: Option<CachedPluginSnapshot>)
        ensures
            r is Some <==> chosen_snapshot(snapshots_of(self.spec_cache(), plugin_id@)) is Some,
            r matches Some(snapshot) ==> chosen_snapshot(
                snapshots_of(self.spec_cache(), plugin_id@),
            ) == Some(snapshot@),
    {
        let list = match self.cache.get(plugin_id) {
            Some(list) => list,
            None => {
                return None;
            },
        };
        let ghost all = snapshot_views(list@);
        let mut i: usize = 0;
        assert(all.skip(0) =~= all);
        while i < list.len()
            invariant
                i <= list@.len(),
                all == snapshot_views(list@),
                all == snapshots_of(self.spec_cache(), plugin_id@),
                first_default(all) == first_default(all.skip(i as int)),
            decreases list@.len() - i,
        {
            assert(all.skip(i as int)[0] == list@[i as int]@);
            assert(all.skip(i as int).drop_first() =~= all.skip(i + 1));
            if same(list[i].account.id.as_str(), "default") {
                return Some(list[i].clone());
            }
            i = i + 1;
        }
        assert(all.len() == list@.len());
        if list.len() == 1 {
            assert(all[0] == list@[0]@);
            return Some(list[0].clone());
        }
        None
    }

    /// Replaces the plugins; what they reported stays.
    pub fn set_plugins(&mut self, plugins: Vec<LoadedPlugin>)
        ensures
            final(self).spec_plugins() == plugins@,
            final(self).spec_cache() == old(self).spec_cache(),
            final(self).same_settings(old(self)),
    {
        self.plugins = plugins;
    }

    /// Replaces the snapshots of a provider.
    pub fn replace_provider_cache(
        &mut self,
        provider_id: &String,
        snapshots: Vec<CachedPluginSnapshot>,
    )
        ensures
            final(self).spec_plugins() == old(self).spec_plugins(),
            final(self).same_settings(old(self)),
            final(self).spec_cache() == old(self).spec_cache().insert(
                provider_id@,
                snapshot_views(snapshots@),
            ),
    {
        self.cache.insert(provider_id.clone(), snapshots);
        assert(self.spec_cache() =~= old(self).spec_cache().insert(
            provider_id@,
            snapshot_views(snapshots@),
        ));
    }

    /// Takes in what plugins reported. Returns all snapshots that came in.
    pub fn finish_refresh(&mut self, runs: Vec<PluginRun>) -> (r: Vec<CachedPluginSnapshot>)
        ensures
            final(self).spec_plugins() == old(self).spec_plugins(),
            final(self).same_settings(old(self)),
            snapshot_views(r@) == all_run_snapshots(runs@),
            final(self).spec_cache() == refreshed(
                old(self).spec_cache(),
                run_providers(runs@),
                all_run_snapshots(runs@),
            ),
    {
        let ghost start = self.spec_cache();
        let mut snapshots: Vec<CachedPluginSnapshot> = Vec::new();
        let mut providers: Vec<String> = Vec::new();
        let mut i: usize = 0;
        assert(runs@.take(0) =~= Seq::<PluginRun>::empty());
        assert(snapshot_views(snapshots@) =~= Seq::<SnapshotView>::empty());
        assert(views(providers@) =~= run_providers(runs@).take(0));
        while i < runs.len()
            invariant
                i <= runs@.len(),
                snapshot_views(snapshots@) == all_run_snapshots(runs@.take(i as int)),
                views(providers@) == run_providers(runs@).take(i as int),
            decreases runs@.len() - i,
        {
            let ghost next = runs@.take(i + 1);
            assert(next.drop_last() =~= runs@.take(i as int));
            assert(next.last() == runs@[i as int]);
            let run = &runs[i];
            let ghost before = providers@;
            providers.push(provider_of_run(run));
            assert(views(providers@) =~= views(before).push(run_provider(*run)));
            assert(run_providers(runs@).take(i + 1) =~= run_providers(runs@).take(i as int).push(
                run_provider(*run),
            ));
            push_run_snapshots(run, &mut snapshots);
            i = i + 1;
        }
        assert(runs@.take(runs@.len() as int) =~= runs@);
        assert(run_providers(runs@).take(runs@.len() as int) =~= run_providers(runs@));
        let ghost all = snapshot_views(snapshots@);
        let ghost ids = run_providers(runs@);
        let mut j: usize = 0;
        assert(self.spec_cache() =~= refreshed(start, ids.take(0), all));
        while j < providers.len()
            invariant
                j <= providers@.len(),
                views(providers@) == ids,
                all == snapshot_views(snapshots@),
                self.spec_plugins() == old(self).spec_plugins(),
                self.same_settings(old(self)),
                self.spec_cache() == refreshed(start, ids.take(j as int), all),
            decreases providers@.len() - j,
        {
            let own = snapshots_of_provider(&snapshots, providers[j].as_str());
            let ghost before = self.spec_cache();
            self.replace_provider_cache(&providers[j], own);
            proof {
                let id = providers@[j as int]@;
                let done = ids.take(j as int);
                let next = ids.take(j + 1);
                assert(ids[j as int] == id);
                assert(next =~= done.push(id));
                assert forall|p: Seq<char>| next.contains(p) <==> done.contains(p) || p == id by {
                    if next.contains(p) {
                        let k = choose|k: int| 0 <= k < next.len() && next[k] == p;
                        if k < j {
                            assert(done[k] == p);
                        }
                    }
                    if done.contains(p) {
                        let k = choose|k: int| 0 <= k < done.len() && done[k] == p;
                        assert(next[k] == p);
                    }
                    assert(next[j as int] == id);
                }
                assert(self.spec_cache() =~= refreshed(start, next, all));
            }
            j = j + 1;
        }
        assert(ids.take(ids.len() as int) =~= ids);
        snapshots
    }

    /// True if every provider that a request speaks of has snapshots.
    pub fn has_cached_for(&self, plugin_ids: &Option<Vec<String>>) -> (r: bool)
        ensures
            r == forall|i: int|
                0 <= i < requested_ids(opt_views(*plugin_ids), self.spec_ids()).len()
                    ==> snapshots_of(
                    self.spec_cache(),
                    #[trigger] requested_ids(opt_views(*plugin_ids), self.spec_ids())[i],
                ).len() > 0,
    {
        let selected = self.resolve_plugin_ids(plugin_ids);
        let ghost ids = requested_ids(opt_views(*plugin_ids), self.spec_ids());
        let mut i: usize = 0;
        while i < selected.len()
            invariant
                i <= selected@.len(),
                ids == views(selected@),
                ids == requested_ids(opt_views(*plugin_ids), self.spec_ids()),
                forall|k: int|
                    0 <= k < i ==> snapshots_of(self.spec_cache(), #[trigger] ids[k]).len() > 0,
            decreases selected@.len() - i,
        {
            assert(ids[i as int] == selected@[i as int]@);
            let filled = match self.cache.get(&selected[i]) {
                Some(list) => {
                    assert(snapshot_views(list@).len() == list@.len());
                    list.len() > 0
                },
                None => false,
            };
            if !filled {
                assert(snapshots_of(self.spec_cache(), ids[i as int]).len() == 0);
                return false;
            }
            i = i + 1;
        }
        assert(ids.len() == selected@.len());
        true
    }
}

/// The provider that a run speaks of.
pub fn provider_of_run(run: &PluginRun) -> (r: String)
    ensures
        r@ == run_provider(*run),
{
    if run.outputs.len() > 0 {
        run.outputs[0].provider_id.clone()
    } else {
        run.plugin_id.clone()
    }
}

fn push_run_snapshots(run: &PluginRun, out: &mut Vec<CachedPluginSnapshot>)
    ensures
        snapshot_views(final(out)@) == snapshot_views(old(out)@) + run_snapshots(*run),
{
    let ghost start = snapshot_views(out@);
    let ghost all = run_snapshots(*run);
    let mut i: usize = 0;
    assert(snapshot_views(out@) =~= start + all.take(0));
    while i < run.outputs.len()
        invariant
            i <= run.outputs@.len(),
            start == snapshot_views(old(out)@),
            all == run_snapshots(*run),
            snapshot_views(out@) == start + all.take(i as int),
        decreases run.outputs@.len() - i,
    {
        let ghost before = out@;
        let report = run.outputs[i].clone();
        out.push(CachedPluginSnapshot::from_output(report, run.fetched_at.clone()));
        assert(snapshot_views(out@) =~= snapshot_views(before).push(all[i as int]));
        assert(snapshot_views(out@) =~= start + all.take(i + 1));
        i = i + 1;
    }
    assert(all.take(all.len() as int) =~= all);
}

fn snapshots_of_provider(list: &Vec<CachedPluginSnapshot>, id: &str) -> (r: Vec<
    CachedPluginSnapshot,
>)
    ensures
        snapshot_views(r@) == only_provider(snapshot_views(list@), id@),
{
    let ghost all = snapshot_views(list@);
    let mut out: Vec<CachedPluginSnapshot> = Vec::new();
    let mut i: usize = 0;
    assert(all.take(0) =~= Seq::<SnapshotView>::empty());
    assert(snapshot_views(out@) =~= Seq::<SnapshotView>::empty());
    while i < list.len()
        invariant
            i <= list@.len(),
            all == snapshot_views(list@),
            snapshot_views(out@) == only_provider(all.take(i as int), id@),
        decreases list@.len() - i,
    {
        let ghost next = all.take(i + 1);
        assert(next.drop_last() =~= all.take(i as int));
        assert(next.last() == list@[i as int]@);
        if same(list[i].provider_id.as_str(), id) {
            let ghost before = out@;
            out.push(list[i].clone());
            assert(snapshot_views(out@) =~= snapshot_views(before).push(list@[i as int]@));
        }
        i = i + 1;
    }
    assert(all.take(all.len() as int) =~= all);
    out
}

/// The time at which a line resets, as the plugin wrote it.
pub open spec fn line_reset(line: LineView) -> Option<Seq<char>> {
    match line {
        LineView::Progress { resets_at, .. } => resets_at,
        _ => None,
    }
}

/// True if a line of a snapshot resets at a time.
pub open spec fn snapshot_resets(snapshot: SnapshotView, text: Seq<char>) -> bool {
    exists|j: int|
        0 <= j < snapshot.lines.len() && line_reset(#[trigger] snapshot.lines[j]) == Some(text)
}

/// True if a line of one of the snapshots resets at a time.
pub open spec fn list_resets(list: Seq<SnapshotView>, text: Seq<char>) -> bool {
    exists|i: int| 0 <= i < list.len() && #[trigger] snapshot_resets(list[i], text)
}

/// True if a line of a provider resets at a time.
pub open spec fn provider_resets(
    cache: Map<Seq<char>, Seq<SnapshotView>>,
    id: Seq<char>,
    text: Seq<char>,
) -> bool {
    cache.dom().contains(id) && list_resets(cache[id], text)
}

/// A time, and some seconds more, in nanoseconds.
pub open spec fn with_margin(nanos: i128, margin_secs: u64) -> int {
    nanos + margin_secs * 1_000_000_000
}

/// The whole milliseconds between two times, as far as they can be counted.
pub open spec fn delay_ms(later: int, now: int) -> u64 {
    if (later - now) / 1_000_000 > u64::MAX {
        u64::MAX
    } else {
        ((later - now) / 1_000_000) as u64
    }
}

/// A time at which a line of a provider resets.
#[derive(Debug)]
pub struct ResetMark {
    pub provider_id: String,
    pub text: String,
    pub nanos: i128,
}

/// Times of the kind that clocks show: within a trillion seconds of the beginning of 1970.
pub open spec fn is_clock_time(nanos: i128) -> bool {
    -1_000_000_000_000_000_000_000 <= nanos <= 1_000_000_000_000_000_000_000
}

/// True if a mark with the margin lies after a point in time.
pub open spec fn is_ahead(mark: ResetMark, margin_secs: u64, now: i128) -> bool {
    with_margin(mark.nanos, margin_secs) > now
}

fn add_margin(nanos: i128, margin_secs: u64) -> (r: i128)
    requires
        is_clock_time(nanos),
    ensures
        r == with_margin(nanos, margin_secs),
{
    nanos + margin_secs as i128 * 1_000_000_000
}

fn whole_milliseconds(later: i128, now: i128) -> (r: u64)
    requires
        now < later,
        later <= 100_000_000_000_000_000_000_000_000_000,
        is_clock_time(now),
    ensures
        r == delay_ms(later as int, now as int),
{
    let ms: i128 = (later - now) / 1_000_000;
    if ms > 18_446_744_073_709_551_615 {
        u64::MAX
    } else {
        ms as u64
    }
}

/// The place of the first mark with the earliest time that lies ahead, and the milliseconds
/// until then.
pub fn earliest_ahead(marks: &Vec<ResetMark>, margin_secs: u64, now: i128) -> (r: Option<
    (usize, u64),
>)
    requires
        is_clock_time(now),
        forall|k: int| 0 <= k < marks@.len() ==> is_clock_time((#[trigger] marks@[k]).nanos),
    ensures
        r is None <==> forall|k: int|
            0 <= k < marks@.len() ==> !is_ahead(#[trigger] marks@[k], margin_secs, now),
        r matches Some((i, ms)) ==> {
            &&& i < marks@.len()
            &&& is_ahead(marks@[i as int], margin_secs, now)
            &&& ms == delay_ms(with_margin(marks@[i as int].nanos, margin_secs), now as int)
            &&& forall|k: int|
                0 <= k < marks@.len() && is_ahead(#[trigger] marks@[k], margin_secs, now)
                    ==> with_margin(marks@[i as int].nanos, margin_secs) <= with_margin(
                    marks@[k].nanos,
                    margin_secs,
                ) && (k < i ==> with_margin(marks@[i as int].nanos, margin_secs) < with_margin(
                    marks@[k].nanos,
                    margin_secs,
                ))
        },
{
    let mut best: Option<(usize, i128)> = None;
    let mut i: usize = 0;
    while i < marks.len()
        invariant
            i <= marks@.len(),
            is_clock_time(now),
            forall|k: int| 0 <= k < marks@.len() ==> is_clock_time((#[trigger] marks@[k]).nanos),
            best is None <==> forall|k: int|
                0 <= k < i ==> !is_ahead(#[trigger] marks@[k], margin_secs, now),
            best matches Some((b, at)) ==> {
                &&& b < i
                &&& at == with_margin(marks@[b as int].nanos, margin_secs)
                &&& is_ahead(marks@[b as int], margin_secs, now)
                &&& forall|k: int|
                    0 <= k < i && is_ahead(#[trigger] marks@[k], margin_secs, now) ==> at
                        <= with_margin(marks@[k].nanos, margin_secs) && (k < b ==> at
                        < with_margin(marks@[k].nanos, margin_secs))
            },
        decreases marks@.len() - i,
    {
        let at = add_margin(marks[i].nanos, margin_secs);
        let better = at > now && match best {
            None => true,
            Some((_, earliest)) => at < earliest,
        };
        let ghost before = best;
        if better {
            best = Some((i, at));
        }
        assert(best is None <==> forall|k: int|
            0 <= k < i + 1 ==> !is_ahead(#[trigger] marks@[k], margin_secs, now)) by {
            assert(is_ahead(marks@[i as int], margin_secs, now) <==> at > now);
            match best {
                Some((b, _)) => {
                    assert(is_ahead(marks@[b as int], margin_secs, now));
                },
                None => {},
            }
        }
        i = i + 1;
    }
    match best {
        None => None,
        Some((b, at)) => Some((b, whole_milliseconds(at, now))),
    }
}

/// The providers with a mark that, with the margin, does not lie ahead, in ascending order.
pub fn past_providers(marks: &Vec<ResetMark>, margin_secs: u64, now: i128) -> (r: Vec<String>)
    requires
        forall|k: int| 0 <= k < marks@.len() ==> is_clock_time((#[trigger] marks@[k]).nanos),
    ensures
        ascending(views(r@)),
        forall|id: Seq<char>| #[trigger]
            views(r@).contains(id) <==> exists|k: int|
                0 <= k < marks@.len() && (#[trigger] marks@[k]).provider_id@ == id && !is_ahead(
                    marks@[k],
                    margin_secs,
                    now,
                ),
{
    let mut ids: Vec<String> = Vec::new();
    let mut i: usize = 0;
    while i < marks.len()
        invariant
            i <= marks@.len(),
            forall|k: int| 0 <= k < marks@.len() ==> is_clock_time((#[trigger] marks@[k]).nanos),
            forall|id: Seq<char>| #[trigger]
                views(ids@).contains(id) <==> exists|k: int|
                    0 <= k < i && (#[trigger] marks@[k]).provider_id@ == id && !is_ahead(
                        marks@[k],
                        margin_secs,
                        now,
                    ),
        decreases marks@.len() - i,
    {
        let at = add_margin(marks[i].nanos, margin_secs);
        let ghost before = views(ids@);
        let ghost own = marks@[i as int].provider_id@;
        if at <= now {
            ids.push(marks[i].provider_id.clone());
            assert(views(ids@) =~= before.push(own));
        }
        assert forall|id: Seq<char>| #[trigger] views(ids@).contains(id) <==> exists|k: int|
            0 <= k < i + 1 && (#[trigger] marks@[k]).provider_id@ == id && !is_ahead(
                marks@[k],
                margin_secs,
                now,
            ) by {
            assert(before.contains(id) <==> exists|k: int|
                0 <= k < i && (#[trigger] marks@[k]).provider_id@ == id && !is_ahead(
                    marks@[k],
                    margin_secs,
                    now,
                ));
            if views(ids@).contains(id) {
                let n = choose|n: int| 0 <= n < views(ids@).len() && views(ids@)[n] == id;
                if n < before.len() {
                    assert(before[n] == id);
                    assert(before.contains(id));
                } else {
                    assert(marks@[i as int].provider_id@ == id);
                }
            }
            if exists|k: int|
                0 <= k < i + 1 && (#[trigger] marks@[k]).provider_id@ == id && !is_ahead(
                    marks@[k],
                    margin_secs,
                    now,
                ) {
                let k = choose|k: int|
                    0 <= k < i + 1 && (#[trigger] marks@[k]).provider_id@ == id && !is_ahead(
                        marks@[k],
                        margin_secs,
                        now,
                    );
                if k < i {
                    assert(before.contains(id));
                    let n = choose|n: int| 0 <= n < before.len() && before[n] == id;
                    assert(views(ids@)[n] == id);
                } else {
                    assert(views(ids@)[before.len() as int] == id);
                }
            }
        }
        i = i + 1;
    }
    sorted_distinct(&ids)
}

/// True if the marks are exactly the times at which lines of the providers reset.
pub open spec fn marks_match(
    marks: Seq<ResetMark>,
    cache: Map<Seq<char>, Seq<SnapshotView>>,
) -> bool {
    &&& forall|k: int|
        0 <= k < marks.len() ==> {
            &&& provider_resets(cache, (#[trigger] marks[k]).provider_id@, marks[k].text@)
            &&& rfc3339_nanos(marks[k].text@) == Some(marks[k].nanos)
        }
    &&& forall|id: Seq<char>, text: Seq<char>| #[trigger]
        provider_resets(cache, id, text) && rfc3339_nanos(text) is Some ==> exists|k: int|
            0 <= k < marks.len() && (#[trigger] marks[k]).provider_id@ == id && marks[k].text@
                == text
}

fn push_line_marks(provider_id: &String, lines: &Vec<MetricLine>, out: &mut Vec<ResetMark>)
    requires
        forall|k: int| 0 <= k < old(out)@.len() ==> is_clock_time((#[trigger] old(out)@[k]).nanos),
    ensures
        final(out)@.len() >= old(out)@.len(),
        final(out)@.take(old(out)@.len() as int) == old(out)@,
        forall|k: int|
            0 <= k < final(out)@.len() ==> is_clock_time((#[trigger] final(out)@[k]).nanos),
        forall|k: int|
            old(out)@.len() <= k < final(out)@.len() ==> {
                &&& (#[trigger] final(out)@[k]).provider_id@ == provider_id@
                &&& rfc3339_nanos(final(out)@[k].text@) == Some(final(out)@[k].nanos)
                &&& exists|j: int|
                    0 <= j < lines@.len() && line_reset((#[trigger] lines@[j])@) == Some(
                        final(out)@[k].text@,
                    )
            },
        forall|j: int, text: Seq<char>|
            0 <= j < lines@.len() && #[trigger] line_reset(lines@[j]@) == Some(text) && (
            #[trigger] rfc3339_nanos(text)) is Some ==> exists|k: int|
                old(out)@.len() <= k < final(out)@.len() && (#[trigger] final(out)@[k]).text@
                    == text,
{
    let ghost start = out@;
    let mut i: usize = 0;
    assert(start.take(start.len() as int) =~= start);
    while i < lines.len()
        invariant
            i <= lines@.len(),
            start == old(out)@,
            out@.len() >= start.len(),
            out@.take(start.len() as int) == start,
            forall|k: int| 0 <= k < out@.len() ==> is_clock_time((#[trigger] out@[k]).nanos),
            forall|k: int|
                start.len() <= k < out@.len() ==> {
                    &&& (#[trigger] out@[k]).provider_id@ == provider_id@
                    &&& rfc3339_nanos(out@[k].text@) == Some(out@[k].nanos)
                    &&& exists|j: int|
                        0 <= j < lines@.len() && line_reset((#[trigger] lines@[j])@) == Some(
                            out@[k].text@,
                        )
                },
            forall|j: int, text: Seq<char>|
                0 <= j < i && #[trigger] line_reset(lines@[j]@) == Some(text) && (
                #[trigger] rfc3339_nanos(text)) is Some ==> exists|k: int|
                    start.len() <= k < out@.len() && (#[trigger] out@[k]).text@ == text,
        decreases lines@.len() - i,
    {
        let ghost before = out@;
        match &lines[i] {
            MetricLine::Progress {
                label,
                used,
                limit,
                format,
                resets_at,
                period_duration_ms,
                color,
            } => match resets_at {
                Some(text) => {
                    assert(line_reset(lines@[i as int]@) == Some(text@));
                    match parse_rfc3339(text.as_str()) {
                        Some(nanos) => {
                            out.push(
                                ResetMark {
                                    provider_id: provider_id.clone(),
                                    text: text.clone(),
                                    nanos,
                                },
                            );
                            assert(out@.take(start.len() as int) =~= start);
                        },
                        None => {},
                    }
                },
                None => {
                    assert(line_reset(lines@[i as int]@) is None);
                },
            },
            _ => {
                assert(line_reset(lines@[i as int]@) is None);
            },
        }
        assert forall|j: int, text: Seq<char>|
            0 <= j < i + 1 && #[trigger] line_reset(lines@[j]@) == Some(text) && (
            #[trigger] rfc3339_nanos(text)) is Some implies exists|k: int|
            start.len() <= k < out@.len() && (#[trigger] out@[k]).text@ == text by {
            if j < i {
                let k = choose|k: int|
                    start.len() <= k < before.len() && (#[trigger] before[k]).text@ == text;
                assert(out@[k].text@ == text);
            } else {
                assert(out@[out@.len() - 1].text@ == text);
            }
        }
        i = i + 1;
    }
}

fn push_list_marks(
    provider_id: &String,
    list: &Vec<CachedPluginSnapshot>,
    out: &mut Vec<ResetMark>,
)
    requires
        forall|k: int| 0 <= k < old(out)@.len() ==> is_clock_time((#[trigger] old(out)@[k]).nanos),
    ensures
        final(out)@.len() >= old(out)@.len(),
        final(out)@.take(old(out)@.len() as int) == old(out)@,
        forall|k: int|
            0 <= k < final(out)@.len() ==> is_clock_time((#[trigger] final(out)@[k]).nanos),
        forall|k: int|
            old(out)@.len() <= k < final(out)@.len() ==> {
                &&& (#[trigger] final(out)@[k]).provider_id@ == provider_id@
                &&& rfc3339_nanos(final(out)@[k].text@) == Some(final(out)@[k].nanos)
                &&& list_resets(snapshot_views(list@), final(out)@[k].text@)
            },
        forall|text: Seq<char>| #[trigger]
            list_resets(snapshot_views(list@), text) && rfc3339_nanos(text) is Some ==> exists|
                k: int,
            |
                old(out)@.len() <= k < final(out)@.len() && (#[trigger] final(out)@[k]).text@
                    == text,
{
    let ghost start = out@;
    let ghost all = snapshot_views(list@);
    let mut i: usize = 0;
    assert(start.take(start.len() as int) =~= start);
    while i < list.len()
        invariant
            i <= list@.len(),
            start == old(out)@,
            all == snapshot_views(list@),
            out@.len() >= start.len(),
            out@.take(start.len() as int) == start,
            forall|k: int| 0 <= k < out@.len() ==> is_clock_time((#[trigger] out@[k]).nanos),
            forall|k: int|
                start.len() <= k < out@.len() ==> {
                    &&& (#[trigger] out@[k]).provider_id@ == provider_id@
                    &&& rfc3339_nanos(out@[k].text@) == Some(out@[k].nanos)
                    &&& list_resets(all, out@[k].text@)
                },
            forall|n: int, text: Seq<char>|
                0 <= n < i && #[trigger] snapshot_resets(all[n], text) && rfc3339_nanos(
                    text,
                ) is Some ==> exists|k: int|
                    start.len() <= k < out@.len() && (#[trigger] out@[k]).text@ == text,
        decreases list@.len() - i,
    {
        let ghost before = out@;
        push_line_marks(provider_id, &list[i].lines, out);
        proof {
            let lines = list@[i as int].lines@;
            assert(all[i as int] == list@[i as int]@);
            assert(out@.take(start.len() as int) =~= before.take(start.len() as int));
            assert forall|k: int| start.len() <= k < out@.len() implies {
                &&& (#[trigger] out@[k]).provider_id@ == provider_id@
                &&& rfc3339_nanos(out@[k].text@) == Some(out@[k].nanos)
                &&& list_resets(all, out@[k].text@)
            } by {
                if k < before.len() {
                    assert(out@.take(before.len() as int)[k] == before[k]);
                } else {
                    let j = choose|j: int|
                        0 <= j < lines.len() && line_reset((#[trigger] lines[j])@) == Some(
                            out@[k].text@,
                        );
                    assert(all[i as int].lines[j] == lines[j]@);
                    assert(snapshot_resets(all[i as int], out@[k].text@));
                }
            }
            assert forall|n: int, text: Seq<char>|
                0 <= n < i + 1 && #[trigger] snapshot_resets(all[n], text) && rfc3339_nanos(
                    text,
                ) is Some implies exists|k: int|
                start.len() <= k < out@.len() && (#[trigger] out@[k]).text@ == text by {
                if n < i {
                    let k = choose|k: int|
                        start.len() <= k < before.len() && (#[trigger] before[k]).text@ == text;
                    assert(out@.take(before.len() as int)[k] == before[k]);
                    assert(out@[k].text@ == text);
                } else {
                    let j = choose|j: int|
                        0 <= j < all[n].lines.len() && line_reset(#[trigger] all[n].lines[j])
                            == Some(text);
                    assert(line_reset(lines[j]@) == Some(text));
                    let k = choose|k: int|
                        before.len() <= k < out@.len() && (#[trigger] out@[k]).text@ == text;
                    assert(out@[k].text@ == text);
                }
            }
        }
        i = i + 1;
    }
    assert forall|text: Seq<char>| #[trigger]
        list_resets(all, text) && rfc3339_nanos(text) is Some implies exists|k: int|
        start.len() <= k < out@.len() && (#[trigger] out@[k]).text@ == text by {
        let n = choose|n: int| 0 <= n < all.len() && #[trigger] snapshot_resets(all[n], text);
        assert(snapshot_resets(all[n], text));
    }
}

/// True if a time that a plugin wrote, with the margin, lies after a point in time.
pub open spec fn text_is_ahead(text: Seq<char>, margin_secs: u64, now: i128) -> bool {
    match rfc3339_nanos(text) {
        Some(nanos) => with_margin(nanos, margin_secs) > now,
        None => false,
    }
}

/// True if a time that a plugin wrote, with the margin, does not lie after a point in time.
pub open spec fn text_is_past(text: Seq<char>, margin_secs: u64, now: i128) -> bool {
    match rfc3339_nanos(text) {
        Some(nanos) => with_margin(nanos, margin_secs) <= now,
        None => false,
    }
}

/// True if a provider has a line that should have reset by now.
pub open spec fn is_overdue(
    cache: Map<Seq<char>, Seq<SnapshotView>>,
    id: Seq<char>,
    margin_secs: u64,
    now: i128,
) -> bool {
    exists|text: Seq<char>| #[trigger]
        provider_resets(cache, id, text) && text_is_past(text, margin_secs, now)
}

impl DaemonState {
    /// The times at which lines of the providers reset.
    pub fn reset_marks(&self) -> (r: Vec<ResetMark>)
        ensures
            marks_match(r@, self.spec_cache()),
            forall|k: int| 0 <= k < r@.len() ==> is_clock_time((#[trigger] r@[k]).nanos),
    {
        let ghost cache = self.spec_cache();
        let keys = self.cache.keys();
        let mut out: Vec<ResetMark> = Vec::new();
        let mut i: usize = 0;
        while i < keys.len()
            invariant
                i <= keys@.len(),
                cache == self.spec_cache(),
                forall|k: int| 0 <= k < out@.len() ==> is_clock_time((#[trigger] out@[k]).nanos),
                forall|k: int|
                    0 <= k < out@.len() ==> {
                        &&& provider_resets(cache, (#[trigger] out@[k]).provider_id@, out@[k].text@)
                        &&& rfc3339_nanos(out@[k].text@) == Some(out@[k].nanos)
                    },
                forall|n: int, text: Seq<char>|
                    0 <= n < i && #[trigger] provider_resets(cache, keys@[n]@, text)
                        && rfc3339_nanos(text) is Some ==> exists|k: int|
                        0 <= k < out@.len() && (#[trigger] out@[k]).provider_id@ == keys@[n]@
                            && out@[k].text@ == text,
            decreases keys@.len() - i,
        {
            let ghost before = out@;
            let ghost id = keys@[i as int]@;
            match self.cache.get(&keys[i]) {
                Some(list) => {
                    push_list_marks(&keys[i], list, &mut out);
                    proof {
                        assert(cache[id] == snapshot_views(list@));
                        assert forall|k: int| 0 <= k < out@.len() implies {
                            &&& provider_resets(
                                cache,
                                (#[trigger] out@[k]).provider_id@,
                                out@[k].text@,
                            )
                            &&& rfc3339_nanos(out@[k].text@) == Some(out@[k].nanos)
                        } by {
                            if k < before.len() {
                                assert(out@.take(before.len() as int)[k] == before[k]);
                            }
                        }
                    }
                },
                None => {
                    assert(!cache.dom().contains(id));
                },
            }
            proof {
                assert forall|n: int, text: Seq<char>|
                    0 <= n < i + 1 && #[trigger] provider_resets(cache, keys@[n]@, text)
                        && rfc3339_nanos(text) is Some implies exists|k: int|
                    0 <= k < out@.len() && (#[trigger] out@[k]).provider_id@ == keys@[n]@
                        && out@[k].text@ == text by {
                    if n < i {
                        let k = choose|k: int|
                            0 <= k < before.len() && (#[trigger] before[k]).provider_id@
                                == keys@[n]@ && before[k].text@ == text;
                        assert(out@.take(before.len() as int)[k] == before[k]);
                        assert(out@[k].provider_id@ == keys@[n]@);
                    } else {
                        assert(list_resets(cache[id], text));
                        let k = choose|k: int|
                            before.len() <= k < out@.len() && (#[trigger] out@[k]).text@ == text;
                        assert(out@[k].provider_id@ == keys@[n]@);
                    }
                }
            }
            i = i + 1;
        }
        assert forall|id: Seq<char>, text: Seq<char>| #[trigger]
            provider_resets(cache, id, text) && rfc3339_nanos(text) is Some implies exists|k: int|
            0 <= k < out@.len() && (#[trigger] out@[k]).provider_id@ == id && out@[k].text@
                == text by {
            assert(self.cache@.dom().contains(id));
            let n = choose|n: int| 0 <= n < keys@.len() && (#[trigger] keys@[n])@ == id;
            assert(provider_resets(cache, keys@[n]@, text));
        }
        out
    }

    /// The earliest time ahead at which a line resets, with the margin, as the plugin wrote
    /// it, and the milliseconds until then.
    pub fn next_reset_with_delay(&self, margin_secs: u64, now: i128) -> (r: Option<(String, u64)>)
        requires
            is_clock_time(now),
        ensures
            r is None <==> forall|id: Seq<char>, text: Seq<char>| #[trigger]
                provider_resets(self.spec_cache(), id, text) ==> !text_is_ahead(
                    text,
                    margin_secs,
                    now,
                ),
            r matches Some((text, ms)) ==> {
                &&& exists|id: Seq<char>| #[trigger] provider_resets(self.spec_cache(), id, text@)
                &&& text_is_ahead(text@, margin_secs, now)
                &&& ms == delay_ms(
                    with_margin(rfc3339_nanos(text@).unwrap(), margin_secs),
                    now as int,
                )
                &&& forall|id: Seq<char>, other: Seq<char>| #[trigger]
                    provider_resets(self.spec_cache(), id, other) && text_is_ahead(
                        other,
                        margin_secs,
                        now,
                    ) ==> with_margin(rfc3339_nanos(text@).unwrap(), margin_secs) <= with_margin(
                        rfc3339_nanos(other).unwrap(),
                        margin_secs,
                    )
            },
    {
        let marks = self.reset_marks();
        let ghost cache = self.spec_cache();
        match earliest_ahead(&marks, margin_secs, now) {
            None => {
                assert forall|id: Seq<char>, text: Seq<char>| #[trigger]
                    provider_resets(cache, id, text) implies !text_is_ahead(
                    text,
                    margin_secs,
                    now,
                ) by {
                    if rfc3339_nanos(text) is Some {
                        let k = choose|k: int|
                            0 <= k < marks@.len() && (#[trigger] marks@[k]).provider_id@ == id
                                && marks@[k].text@ == text;
                        assert(!is_ahead(marks@[k], margin_secs, now));
                    }
                }
                None
            },
            Some((i, ms)) => {
                proof {
                    let mark = marks@[i as int];
                    assert(provider_resets(cache, mark.provider_id@, mark.text@));
                    assert forall|id: Seq<char>, other: Seq<char>| #[trigger]
                        provider_resets(cache, id, other) && text_is_ahead(
                            other,
                            margin_secs,
                            now,
                        ) implies with_margin(mark.nanos, margin_secs) <= with_margin(
                        rfc3339_nanos(other).unwrap(),
                        margin_secs,
                    ) by {
                        let k = choose|k: int|
                            0 <= k < marks@.len() && (#[trigger] marks@[k]).provider_id@ == id
                                && marks@[k].text@ == other;
                        assert(is_ahead(marks@[k], margin_secs, now));
                    }
                }
                Some((marks[i].text.clone(), ms))
            },
        }
    }

    /// The milliseconds until the next reset, with the margin.
    pub fn time_until_next_reset(&self, margin_secs: u64, now: i128) -> (r: Option<u64>)
        requires
            is_clock_time(now),
        ensures
            r is None <==> forall|id: Seq<char>, text: Seq<char>| #[trigger]
                provider_resets(self.spec_cache(), id, text) ==> !text_is_ahead(
                    text,
                    margin_secs,
                    now,
                ),
            r matches Some(ms) ==> exists|id: Seq<char>, text: Seq<char>|
                {
                    &&& #[trigger] provider_resets(self.spec_cache(), id, text)
                    &&& text_is_ahead(text, margin_secs, now)
                    &&& ms == delay_ms(
                        with_margin(rfc3339_nanos(text).unwrap(), margin_secs),
                        now as int,
                    )
                    &&& forall|id2: Seq<char>, other: Seq<char>| #[trigger]
                        provider_resets(self.spec_cache(), id2, other) && text_is_ahead(
                            other,
                            margin_secs,
                            now,
                        ) ==> with_margin(rfc3339_nanos(text).unwrap(), margin_secs)
                            <= with_margin(rfc3339_nanos(other).unwrap(), margin_secs)
                },
    {
        match self.next_reset_with_delay(margin_secs, now) {
            Some((text, ms)) => {
                proof {
                    let id = choose|id: Seq<char>| #[trigger]
                        provider_resets(self.spec_cache(), id, text@);
                    assert(provider_resets(self.spec_cache(), id, text@));
                }
                Some(ms)
            },
            None => None,
        }
    }

    /// The providers with a line that should have reset by now, in ascending order.
    pub fn provider_ids_with_past_resets(&self, margin_secs: u64, now: i128) -> (r: Vec<String>)
        ensures
            ascending(views(r@)),
            forall|id: Seq<char>| #[trigger]
                views(r@).contains(id) <==> is_overdue(self.spec_cache(), id, margin_secs, now),
    {
        let marks = self.reset_marks();
        let ghost cache = self.spec_cache();
        let ids = past_providers(&marks, margin_secs, now);
        assert forall|id: Seq<char>| #[trigger] views(ids@).contains(id) <==> is_overdue(
            cache,
            id,
            margin_secs,
            now,
        ) by {
            if views(ids@).contains(id) {
                let k = choose|k: int|
                    0 <= k < marks@.len() && (#[trigger] marks@[k]).provider_id@ == id && !is_ahead(
                        marks@[k],
                        margin_secs,
                        now,
                    );
                assert(provider_resets(cache, id, marks@[k].text@));
            }
            if is_overdue(cache, id, margin_secs, now) {
                let text = choose|text: Seq<char>| #[trigger]
                    provider_resets(cache, id, text) && text_is_past(text, margin_secs, now);
                let k = choose|k: int|
                    0 <= k < marks@.len() && (#[trigger] marks@[k]).provider_id@ == id
                        && marks@[k].text@ == text;
                assert(!is_ahead(marks@[k], margin_secs, now));
            }
        }
        ids
    }

    /// True if a line of some provider should have reset by now.
    pub fn has_past_resets(&self, margin_secs: u64, now: i128) -> (r: bool)
        ensures
            r == exists|id: Seq<char>| #[trigger]
                is_overdue(self.spec_cache(), id, margin_secs, now),
    {
        let ids = self.provider_ids_with_past_resets(margin_secs, now);
        proof {
            if ids@.len() > 0 {
                let id = views(ids@)[0];
                assert(views(ids@).contains(id));
                assert(is_overdue(self.spec_cache(), id, margin_secs, now));
            }
            if exists|id: Seq<char>| #[trigger]
                is_overdue(self.spec_cache(), id, margin_secs, now) {
                let id = choose|id: Seq<char>| #[trigger]
                    is_overdue(self.spec_cache(), id, margin_secs, now);
                assert(views(ids@).contains(id));
            }
        }
        ids.len() > 0
    }
}

/// A time that a plugin wrote lies ahead or in the past, never both; with a larger margin
/// what lies ahead still does.
pub proof fn law_resets_are_ahead_or_past(text: Seq<char>, margin: u64, larger: u64, now: i128)
    requires
        margin <= larger,
    ensures
        rfc3339_nanos(text) is Some ==> (text_is_ahead(text, margin, now) <==> !text_is_past(
            text,
            margin,
            now,
        )),
        text_is_ahead(text, margin, now) ==> text_is_ahead(text, larger, now),
{
}

/// True for lines that may stand for the plugin.
pub open spec fn is_candidate(line: ManifestLine) -> bool {
    line.line_type@ == "progress"@ && line.primary_order is Some
}

/// True if the line in the first place comes before the one in the second among the lines
/// that may stand for the plugin: by their order, and in one order as they are listed.
pub open spec fn comes_before(lines: Seq<ManifestLine>, a: int, b: int) -> bool {
    lines[a].primary_order.unwrap() < lines[b].primary_order.unwrap() || (
    lines[a].primary_order.unwrap() == lines[b].primary_order.unwrap() && a < b)
}

/// True if `places` are the places of all lines that may stand for the plugin, in order.
pub open spec fn candidate_places(lines: Seq<ManifestLine>, places: Seq<int>) -> bool {
    &&& forall|k: int|
        0 <= k < places.len() ==> 0 <= #[trigger] places[k] < lines.len() && is_candidate(
            lines[places[k]],
        )
    &&& forall|k: int, l: int|
        0 <= k < l < places.len() ==> comes_before(
            lines,
            #[trigger] places[k],
            #[trigger] places[l],
        )
    &&& forall|i: int|
        0 <= i < lines.len() && is_candidate(#[trigger] lines[i]) ==> places.contains(i)
}

/// The labels of the lines in some places.
pub open spec fn labels_at(lines: Seq<ManifestLine>, places: Seq<int>) -> Seq<Seq<char>> {
    places.map_values(|i: int| lines[i].label@)
}

/// The labels of the lines that may stand for the plugin, in order.
pub fn primary_candidates(lines: &Vec<ManifestLine>) -> (r: Vec<String>)
    ensures
        exists|places: Seq<int>| #[trigger]
            candidate_places(lines@, places) && views(r@) == labels_at(lines@, places),
{
    let mut order: Vec<usize> = Vec::new();
    let ghost mut places: Seq<int> = Seq::empty();
    let mut i: usize = 0;
    while i < lines.len()
        invariant
            i <= lines@.len(),
            places == order@.map_values(|p: usize| p as int),
            forall|k: int|
                0 <= k < places.len() ==> 0 <= #[trigger] places[k] < i && is_candidate(
                    lines@[places[k]],
                ),
            forall|k: int, l: int|
                0 <= k < l < places.len() ==> comes_before(
                    lines@,
                    #[trigger] places[k],
                    #[trigger] places[l],
                ),
            forall|n: int| 0 <= n < i && is_candidate(#[trigger] lines@[n]) ==> places.contains(n),
        decreases lines@.len() - i,
    {
        let ghost before = places;
        match lines[i].primary_order {
            Some(rank) => {
                if same(lines[i].line_type.as_str(), "progress") {
                    let mut at: usize = 0;
                    assert forall|k: int| 0 <= k < order@.len() implies (#[trigger] order@[k]) < i
                        && is_candidate(lines@[order@[k] as int]) by {
                        assert(places[k] == order@[k] as int);
                    }
                    while at < order.len() && rank_at(lines, order[at]) <= rank
                        invariant
                            at <= order@.len(),
                            i < lines@.len(),
                            places == before,
                            places == order@.map_values(|p: usize| p as int),
                            forall|k: int|
                                0 <= k < order@.len() ==> (#[trigger] order@[k]) < i
                                    && is_candidate(lines@[order@[k] as int]),
                            forall|k: int|
                                0 <= k < at ==> lines@[#[trigger] places[k]].primary_order.unwrap()
                                    <= rank,
                        decreases order@.len() - at,
                    {
                        assert(places[at as int] == order@[at as int] as int);
                        at = at + 1;
                    }
                    order.insert(at, i);
                    proof {
                        places = before.insert(at as int, i as int);
                        assert(places =~= order@.map_values(|p: usize| p as int));
                        assert(is_candidate(lines@[i as int]));
                        if at < before.len() {
                            assert(lines@[before[at as int]].primary_order.unwrap() > rank);
                        }
                        assert forall|k: int| 0 <= k < places.len() implies 0
                            <= #[trigger] places[k] < i + 1 && is_candidate(
                            lines@[places[k]],
                        ) by {
                            if k < at {
                                assert(places[k] == before[k]);
                            } else if k > at {
                                assert(places[k] == before[k - 1]);
                            }
                        }
                        assert forall|k: int, l: int| 0 <= k < l < places.len() implies comes_before(
                            lines@,
                            #[trigger] places[k],
                            #[trigger] places[l],
                        ) by {
                            let x = if k < at {
                                k
                            } else {
                                k - 1
                            };
                            let y = if l < at {
                                l
                            } else {
                                l - 1
                            };
                            if k == at {
                                assert(places[l] == before[l - 1]);
                                if l - 1 > at {
                                    assert(comes_before(
                                        lines@,
                                        before[at as int],
                                        before[l - 1],
                                    ));
                                }
                            } else if l == at {
                                assert(places[k] == before[k]);
                            } else {
                                assert(places[k] == before[x]);
                                assert(places[l] == before[y]);
                            }
                        }
                        assert forall|n: int|
                            0 <= n < i + 1 && is_candidate(
                                #[trigger] lines@[n],
                            ) implies places.contains(n) by {
                            if n < i {
                                let k = choose|k: int| 0 <= k < before.len() && before[k] == n;
                                if k < at {
                                    assert(places[k] == n);
                                } else {
                                    assert(places[k + 1] == n);
                                }
                            } else {
                                assert(places[at as int] == n);
                            }
                        }
                    }
                } else {
                    assert(!is_candidate(lines@[i as int]));
                }
            },
            None => {
                assert(!is_candidate(lines@[i as int]));
            },
        }
        i = i + 1;
    }
    assert(candidate_places(lines@, places));
    let ghost all = labels_at(lines@, places);
    let mut labels: Vec<String> = Vec::new();
    let mut j: usize = 0;
    assert(views(labels@) =~= all.take(0));
    while j < order.len()
        invariant
            j <= order@.len(),
            places == order@.map_values(|p: usize| p as int),
            candidate_places(lines@, places),
            all == labels_at(lines@, places),
            views(labels@) == all.take(j as int),
        decreases order@.len() - j,
    {
        let ghost before = labels@;
        assert(places[j as int] == order@[j as int] as int);
        labels.push(lines[order[j]].label.clone());
        assert(views(labels@) =~= views(before).push(all[j as int]));
        assert(all.take(j + 1) =~= all.take(j as int).push(all[j as int]));
        j = j + 1;
    }
    assert(all.take(all.len() as int) =~= all);
    labels
}

fn rank_at(lines: &Vec<ManifestLine>, i: usize) -> (r: u32)
    requires
        i < lines@.len(),
        lines@[i as int].primary_order is Some,
    ensures
        r == lines@[i as int].primary_order.unwrap(),
{
    match lines[i].primary_order {
        Some(rank) => rank,
        None => 0,
    }
}

/// True if clients are told of the line as it is announced.
pub open spec fn line_matches(dto: ManifestLineDto, line: ManifestLine) -> bool {
    dto.line_type@ == line.line_type@ && dto.label@ == line.label@ && dto.scope@ == line.scope@
}

/// True if clients are told of the link as it is.
pub open spec fn link_matches(dto: PluginLinkDto, link: PluginLink) -> bool {
    dto.label@ == link.label@ && dto.url@ == link.url@
}

/// True if clients are told of the plugin as it is.
pub open spec fn meta_matches(meta: PluginMeta, plugin: LoadedPlugin) -> bool {
    let manifest = plugin.manifest;
    &&& meta.id@ == manifest.id@
    &&& meta.name@ == manifest.name@
    &&& meta.icon_url@ == plugin.icon_data_url@
    &&& opt_view(meta.brand_color) == opt_view(manifest.brand_color)
    &&& meta.lines@.len() == manifest.lines@.len()
    &&& forall|i: int|
        0 <= i < manifest.lines@.len() ==> line_matches(
            #[trigger] meta.lines@[i],
            manifest.lines@[i],
        )
    &&& meta.links@.len() == manifest.links@.len()
    &&& forall|i: int|
        0 <= i < manifest.links@.len() ==> link_matches(
            #[trigger] meta.links@[i],
            manifest.links@[i],
        )
    &&& exists|places: Seq<int>| #[trigger]
        candidate_places(manifest.lines@, places) && views(meta.primary_candidates@) == labels_at(
            manifest.lines@,
            places,
        )
}

fn map_line(line: &ManifestLine) -> (r: ManifestLineDto)
    ensures
        line_matches(r, *line),
{
    ManifestLineDto {
        line_type: line.line_type.clone(),
        label: line.label.clone(),
        scope: line.scope.clone(),
    }
}

fn map_link(link: &PluginLink) -> (r: PluginLinkDto)
    ensures
        link_matches(r, *link),
{
    PluginLinkDto { label: link.label.clone(), url: link.url.clone() }
}

/// What clients are told of a plugin.
pub fn plugin_meta(plugin: &LoadedPlugin) -> (r: PluginMeta)
    ensures
        meta_matches(r, *plugin),
{
    let mut lines: Vec<ManifestLineDto> = Vec::new();
    let mut i: usize = 0;
    while i < plugin.manifest.lines.len()
        invariant
            i <= plugin.manifest.lines@.len(),
            lines@.len() == i,
            forall|k: int|
                0 <= k < i ==> line_matches(#[trigger] lines@[k], plugin.manifest.lines@[k]),
        decreases plugin.manifest.lines@.len() - i,
    {
        lines.push(map_line(&plugin.manifest.lines[i]));
        i = i + 1;
    }
    let mut links: Vec<PluginLinkDto> = Vec::new();
    let mut j: usize = 0;
    while j < plugin.manifest.links.len()
        invariant
            j <= plugin.manifest.links@.len(),
            links@.len() == j,
            forall|k: int|
                0 <= k < j ==> link_matches(#[trigger] links@[k], plugin.manifest.links@[k]),
        decreases plugin.manifest.links@.len() - j,
    {
        links.push(map_link(&plugin.manifest.links[j]));
        j = j + 1;
    }
    PluginMeta {
        id: plugin.manifest.id.clone(),
        name: plugin.manifest.name.clone(),
        icon_url: plugin.icon_data_url.clone(),
        brand_color: clone_opt(&plugin.manifest.brand_color),
        lines,
        links,
        primary_candidates: primary_candidates(&plugin.manifest.lines),
    }
}

impl DaemonState {
    /// What clients are told of the plugins, in their order.
    pub fn plugins_meta(&self) -> (r: Vec<PluginMeta>)
        ensures
            r@.len() == self.spec_plugins().len(),
            forall|i: int|
                0 <= i < r@.len() ==> meta_matches(#[trigger] r@[i], self.spec_plugins()[i]),
    {
        let mut out: Vec<PluginMeta> = Vec::new();
        let mut i: usize = 0;
        while i < self.plugins.len()
            invariant
                i <= self.plugins@.len(),
                out@.len() == i,
                forall|k: int|
                    0 <= k < i ==> meta_matches(#[trigger] out@[k], self.spec_plugins()[k]),
            decreases self.plugins@.len() - i,
        {
            out.push(plugin_meta(&self.plugins[i]));
            i = i + 1;
        }
        out
    }
}

} // verus!
