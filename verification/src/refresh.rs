//! The steps by which plugins are asked again.

use crate::daemon::{
    all_run_snapshots, is_wanted, known_once, law_refresh_is_read_back,
    law_refresh_replaces_what_it_refreshed, plugin_ids, provider_of_run, refreshed, requested_ids,
    run_provider, run_providers, run_snapshots, selected_ids, snapshots_of, snapshots_of_all,
    speaks_of_one, DaemonState, PluginRun, SnapshotView,
};
use crate::plugin_engine::manifest::LoadedPlugin;
use crate::plugin_engine::output::{output_views, ProbeResult};
use crate::plugin_engine::runtime::{course_reports, law_reports_carry_the_plugin, ProbeCourse};
use crate::provider_watch::{FileSubscription, ProviderWatchCommand};
use vstd::prelude::*;

verus! {

/// What comes next for the plugin at hand.
#[derive(Debug, Clone, Copy, PartialEq, Eq, Structural)]
pub enum RefreshStage {
    /// Its subscriptions are removed.
    Clear,
    /// It runs.
    Probe,
    /// Its new subscriptions are registered.
    Replace,
}

/// What to do next.
#[derive(Debug)]
pub enum RefreshStep {
    /// Give a command to the registry of subscriptions.
    Watch(ProviderWatchCommand),
    /// Run the plugin in this place.
    Probe(usize),
    /// All plugins have run.
    Finished,
}

/// Plugins that are asked one after the other.
#[derive(Debug)]
pub struct Refresh {
    places: Vec<usize>,
    ids: Vec<String>,
    watching: bool,
    stage: RefreshStage,
    runs: Vec<PluginRun>,
    files: Vec<FileSubscription>,
}

impl Refresh {
    /// The places of the plugins.
    pub closed spec fn places(&self) -> Seq<usize> {
        self.places@
    }

    /// The identities of the plugins.
    pub closed spec fn ids(&self) -> Seq<Seq<char>> {
        crate::text::views(self.ids@)
    }

    /// True if there is a registry of subscriptions.
    pub closed spec fn watching(&self) -> bool {
        self.watching
    }

    /// What comes next for the plugin at hand.
    pub closed spec fn stage(&self) -> RefreshStage {
        self.stage
    }

    /// The runs so far.
    pub closed spec fn runs(&self) -> Seq<PluginRun> {
        self.runs@
    }

    /// The subscriptions that are registered next.
    pub closed spec fn files(&self) -> Seq<FileSubscription> {
        self.files@
    }

    /// The plugin at hand: the one behind those that are done.
    pub open spec fn at(&self) -> int {
        if self.stage() == RefreshStage::Replace {
            self.runs().len() - 1
        } else {
            self.runs().len() as int
        }
    }

    /// True if there is no plugin left.
    pub open spec fn is_done(&self) -> bool {
        self.stage() == RefreshStage::Clear && self.at() >= self.ids().len()
    }

    /// What always holds.
    pub open spec fn wf(&self) -> bool {
        &&& self.places().len() == self.ids().len()
        &&& 0 <= self.at() <= self.ids().len()
        &&& self.stage() != RefreshStage::Clear ==> self.at() < self.ids().len()
        &&& self.stage() == RefreshStage::Replace ==> self.watching()
        &&& forall|i: int|
            0 <= i < self.runs().len() ==> (#[trigger] self.runs()[i]).plugin_id@ == self.ids()[i]
    }

    /// What to do next. A plugin stays at hand until its result comes in.
    pub fn next_step(&mut self) -> (r: RefreshStep)
        requires
            old(self).wf(),
        ensures
            final(self).wf(),
            final(self).places() == old(self).places(),
            final(self).ids() == old(self).ids(),
            final(self).watching() == old(self).watching(),
            final(self).runs() == old(self).runs(),
            old(self).is_done() ==> r == RefreshStep::Finished && final(self).is_done(),
            !old(self).is_done() ==> match old(self).stage() {
                RefreshStage::Clear => if old(self).watching() {
                    r matches RefreshStep::Watch(ProviderWatchCommand::ClearProvider { provider_id })
                        && provider_id@ == old(self).ids()[old(self).at()] && final(self).stage()
                        == RefreshStage::Probe
                } else {
                    r == RefreshStep::Probe(old(self).places()[old(self).at()])
                        && final(self).stage() == RefreshStage::Probe
                },
                RefreshStage::Probe => r == RefreshStep::Probe(
                    old(self).places()[old(self).at()],
                ) && final(self).stage() == RefreshStage::Probe,
                RefreshStage::Replace => r matches RefreshStep::Watch(
                    ProviderWatchCommand::ReplaceProvider { provider_id, files },
                ) && provider_id@ == crate::daemon::run_provider(old(self).runs().last())
                    && files@ == old(self).files() && final(self).stage() == RefreshStage::Clear,
            },
    {
        match self.stage {
            RefreshStage::Clear => {
                if self.runs.len() == self.ids.len() {
                    return RefreshStep::Finished;
                }
                let at: usize = self.runs.len();
                self.stage = RefreshStage::Probe;
                if self.watching {
                    let provider_id = self.ids[at].clone();
                    RefreshStep::Watch(ProviderWatchCommand::ClearProvider { provider_id })
                } else {
                    RefreshStep::Probe(self.places[at])
                }
            },
            RefreshStage::Probe => {
                let at: usize = self.runs.len();
                RefreshStep::Probe(self.places[at])
            },
            RefreshStage::Replace => {
                let last: usize = self.runs.len() - 1;
                let provider_id = provider_of_run(&self.runs[last]);
                let mut files: Vec<FileSubscription> = Vec::new();
                std::mem::swap(&mut files, &mut self.files);
                self.stage = RefreshStage::Clear;
                RefreshStep::Watch(ProviderWatchCommand::ReplaceProvider { provider_id, files })
            },
        }
    }

    /// True if the result of the plugin at hand is awaited.
    pub fn awaits_result(&self) -> (r: bool)
        ensures
            r == (self.stage() == RefreshStage::Probe),
    {
        match self.stage {
            RefreshStage::Probe => true,
            _ => false,
        }
    }

    /// Takes in the result of the plugin at hand.
    pub fn probed(&mut self, result: ProbeResult, fetched_at: String)
        requires
            old(self).wf(),
            old(self).stage() == RefreshStage::Probe,
        ensures
            final(self).wf(),
            final(self).places() == old(self).places(),
            final(self).ids() == old(self).ids(),
            final(self).watching() == old(self).watching(),
            final(self).runs().len() == old(self).runs().len() + 1,
            final(self).runs().drop_last() == old(self).runs(),
            final(self).runs().last().plugin_id@ == old(self).ids()[old(self).at()],
            final(self).runs().last().outputs == result.outputs,
            final(self).runs().last().fetched_at == fetched_at,
            old(self).watching() ==> final(self).stage() == RefreshStage::Replace
                && final(self).files() == result.subscriptions@,
            !old(self).watching() ==> final(self).stage() == RefreshStage::Clear,
    {
        let at: usize = self.runs.len();
        let plugin_id = self.ids[at].clone();
        let ghost before = self.runs@;
        self.runs.push(PluginRun { plugin_id, outputs: result.outputs, fetched_at });
        assert(self.runs@.drop_last() =~= before);
        if self.watching {
            self.files = result.subscriptions;
            self.stage = RefreshStage::Replace;
        } else {
            self.stage = RefreshStage::Clear;
        }
        assert forall|i: int| 0 <= i < self.runs@.len() implies (
        #[trigger] self.runs@[i]).plugin_id@ == self.ids()[i] by {
            if i < before.len() {
                assert(self.runs@[i] == before[i]);
            }
        }
    }

    /// The runs.
    pub fn into_runs(self) -> (r: Vec<PluginRun>)
        ensures
            r@ == self.runs(),
    {
        self.runs
    }
}

impl DaemonState {
    /// The plugins that a request speaks of, about to be asked one after the other.
    pub fn begin_refresh(&self, plugin_ids: &Option<Vec<String>>, watching: bool) -> (r: Refresh)
        ensures
            r.wf(),
            r.watching() == watching,
            r.stage() == RefreshStage::Clear,
            r.runs().len() == 0,
            forall|i: int|
                0 <= i < r.places().len() ==> (#[trigger] r.places()[i]) < self.spec_plugins().len()
                    && r.ids()[i] == self.spec_ids()[r.places()[i] as int],
            forall|i: int, j: int|
                0 <= i < j < r.places().len() ==> (#[trigger] r.places()[i]) < (
                #[trigger] r.places()[j]),
            forall|p: usize|
                p < self.spec_plugins().len() ==> (#[trigger] r.places().contains(p)
                    <==> crate::daemon::is_wanted(
                    crate::daemon::opt_views(*plugin_ids),
                    self.spec_ids()[p as int],
                )),
            r.ids() == crate::daemon::selected_ids(
                crate::daemon::opt_views(*plugin_ids),
                self.spec_ids(),
            ),
    {
        let places = self.resolve_plugins(plugin_ids);
        let mut ids: Vec<String> = Vec::new();
        let mut i: usize = 0;
        while i < places.len()
            invariant
                i <= places@.len(),
                ids@.len() == i,
                forall|k: int|
                    0 <= k < places@.len() ==> (#[trigger] places@[k]) < self.spec_plugins().len(),
                forall|k: int|
                    0 <= k < i ==> (#[trigger] ids@[k])@ == self.spec_ids()[places@[k] as int],
            decreases places@.len() - i,
        {
            ids.push(self.plugin(places[i]).manifest.id.clone());
            i = i + 1;
        }
        assert(crate::text::views(ids@) =~= crate::daemon::ids_at(places@, self.spec_ids()));
        Refresh {
            places,
            ids,
            watching,
            stage: RefreshStage::Clear,
            runs: Vec::new(),
            files: Vec::new(),
        }
    }
}

/// True if the runs of a refresh are those of the plugins in its places, each with the reports
/// that come of asking its plugin as the courses say.
pub open spec fn went_so(
    refresh: Refresh,
    plugins: Seq<LoadedPlugin>,
    courses: Seq<ProbeCourse>,
) -> bool {
    &&& courses.len() == refresh.runs().len()
    &&& forall|i: int|
        0 <= i < courses.len() ==> {
            &&& refresh.places()[i] < plugins.len()
            &&& refresh.ids()[i] == plugins[refresh.places()[i] as int].manifest.id@
            &&& output_views((#[trigger] refresh.runs()[i]).outputs@) == course_reports(
                plugins[refresh.places()[i] as int],
                courses[i],
            )
        }
}

/// A refresh asks the plugins that the request speaks of, in their order, and what it returns
/// are their snapshots, one plugin after the other. Reading one of them afterwards gives back
/// exactly its part, even where that is nothing, and every other plugin has what it had.
/// Plugins have different identities.
pub proof fn law_refresh_is_what_is_read(
    cache: Map<Seq<char>, Seq<SnapshotView>>,
    plugins: Seq<LoadedPlugin>,
    request: Option<Seq<Seq<char>>>,
    refresh: Refresh,
    courses: Seq<ProbeCourse>,
)
    requires
        plugin_ids(plugins).no_duplicates(),
        refresh.wf(),
        refresh.is_done(),
        refresh.ids() == selected_ids(request, plugin_ids(plugins)),
        went_so(refresh, plugins, courses),
    ensures
        ({
            let known = plugin_ids(plugins);
            let selected = selected_ids(request, known);
            let runs = refresh.runs();
            let returned = all_run_snapshots(runs);
            let after = refreshed(cache, run_providers(runs), returned);
            &&& forall|id: Seq<char>| #[trigger]
                selected.contains(id) <==> known.contains(id) && is_wanted(request, id)
            &&& runs.len() == selected.len()
            &&& returned == snapshots_of_all(after, selected)
            &&& forall|i: int|
                0 <= i < selected.len() ==> snapshots_of_all(
                    after,
                    requested_ids(Some(seq![#[trigger] selected[i]]), known),
                ) == run_snapshots(runs[i])
            &&& forall|id: Seq<char>|
                known.contains(id) && !is_wanted(request, id) ==> #[trigger] snapshots_of_all(
                    after,
                    requested_ids(Some(seq![id]), known),
                ) == snapshots_of_all(cache, requested_ids(Some(seq![id]), known))
        }),
{
    let known = plugin_ids(plugins);
    let selected = selected_ids(request, known);
    let runs = refresh.runs();
    let returned = all_run_snapshots(runs);
    let after = refreshed(cache, run_providers(runs), returned);
    lemma_selected(request, known);
    assert forall|i: int| 0 <= i < runs.len() implies run_provider(#[trigger] runs[i])
        == selected[i] && speaks_of_one(runs[i]) by {
        let run = runs[i];
        let plugin = plugins[refresh.places()[i] as int];
        law_reports_carry_the_plugin(plugin, courses[i]);
        assert(run.plugin_id@ == refresh.ids()[i]);
        assert forall|k: int| 0 <= k < run.outputs@.len() implies (
        #[trigger] run.outputs@[k]).provider_id@ == selected[i] by {
            assert(output_views(run.outputs@)[k] == run.outputs@[k]@);
            assert(course_reports(plugin, courses[i])[k].provider_id == plugin.manifest.id@);
        }
    }
    assert(run_providers(runs) =~= selected);
    assert forall|i: int| 0 <= i < selected.len() implies snapshots_of(
        after,
        #[trigger] selected[i],
    ) == run_snapshots(runs[i]) by {
        assert(run_provider(runs[i]) == selected[i]);
        assert forall|j: int| 0 <= j < runs.len() && j != i implies run_provider(
            #[trigger] runs[j],
        ) != run_provider(runs[i]) by {
            assert(selected[j] != selected[i]);
        }
        law_refresh_is_read_back(cache, runs, i);
    }
    lemma_returned(after, runs, selected);
    assert forall|i: int| 0 <= i < selected.len() implies snapshots_of_all(
        after,
        requested_ids(Some(seq![#[trigger] selected[i]]), known),
    ) == run_snapshots(runs[i]) by {
        assert(selected.contains(selected[i]));
        lemma_read_one(after, known, selected[i]);
    }
    assert forall|id: Seq<char>|
        known.contains(id) && !is_wanted(request, id) implies #[trigger] snapshots_of_all(
        after,
        requested_ids(Some(seq![id]), known),
    ) == snapshots_of_all(cache, requested_ids(Some(seq![id]), known)) by {
        lemma_read_one(after, known, id);
        lemma_read_one(cache, known, id);
        assert(!selected.contains(id));
        law_refresh_replaces_what_it_refreshed(cache, run_providers(runs), returned, id);
    }
}

proof fn lemma_selected(request: Option<Seq<Seq<char>>>, known: Seq<Seq<char>>)
    requires
        known.no_duplicates(),
    ensures
        forall|id: Seq<char>| #[trigger]
            selected_ids(request, known).contains(id) <==> known.contains(id) && is_wanted(
                request,
                id,
            ),
        selected_ids(request, known).no_duplicates(),
    decreases known.len(),
{
    let all = selected_ids(request, known);
    if known.len() > 0 {
        let init = known.drop_last();
        let before = selected_ids(request, init);
        lemma_selected(request, init);
        assert forall|id: Seq<char>| #[trigger]
            all.contains(id) <==> known.contains(id) && is_wanted(request, id) by {
            assert(before.contains(id) <==> init.contains(id) && is_wanted(request, id));
            if all.contains(id) {
                let k = choose|k: int| 0 <= k < all.len() && all[k] == id;
                if k < before.len() {
                    assert(before[k] == id);
                    let j = choose|j: int| 0 <= j < init.len() && init[j] == id;
                    assert(known[j] == id);
                } else {
                    assert(known[known.len() - 1] == id);
                }
            }
            if known.contains(id) && is_wanted(request, id) {
                let j = choose|j: int| 0 <= j < known.len() && known[j] == id;
                if j < init.len() {
                    assert(init[j] == id);
                    let k = choose|k: int| 0 <= k < before.len() && before[k] == id;
                    assert(all[k] == id);
                } else {
                    assert(all[all.len() - 1] == id);
                }
            }
        }
        assert forall|i: int, j: int| 0 <= i < all.len() && 0 <= j < all.len() && i
            != j implies all[i] != all[j] by {
            let last = known.last();
            assert(!before.contains(last)) by {
                if init.contains(last) {
                    let k = choose|k: int| 0 <= k < init.len() && init[k] == last;
                    assert(known[k] == known[known.len() - 1]);
                }
            }
            if i < before.len() && j < before.len() {
                assert(before[i] != before[j]);
            } else if i < before.len() {
                assert(before.contains(before[i]));
            } else {
                assert(before.contains(before[j]));
            }
        }
    }
}

proof fn lemma_returned(
    after: Map<Seq<char>, Seq<SnapshotView>>,
    runs: Seq<PluginRun>,
    ids: Seq<Seq<char>>,
)
    requires
        runs.len() == ids.len(),
        forall|i: int|
            0 <= i < ids.len() ==> snapshots_of(after, #[trigger] ids[i]) == run_snapshots(runs[i]),
    ensures
        all_run_snapshots(runs) == snapshots_of_all(after, ids),
    decreases runs.len(),
{
    if runs.len() > 0 {
        let init = ids.drop_last();
        assert forall|i: int| 0 <= i < init.len() implies snapshots_of(after, #[trigger] init[i])
            == run_snapshots(runs.drop_last()[i]) by {
            assert(init[i] == ids[i]);
        }
        lemma_returned(after, runs.drop_last(), init);
        assert(ids[ids.len() - 1] == ids.last());
    }
}

pub(crate) proof fn lemma_read_one(
    cache: Map<Seq<char>, Seq<SnapshotView>>,
    known: Seq<Seq<char>>,
    id: Seq<char>,
)
    requires
        known.contains(id),
    ensures
        snapshots_of_all(cache, requested_ids(Some(seq![id]), known)) == snapshots_of(cache, id),
{
    reveal_with_fuel(known_once, 2);
    reveal_with_fuel(snapshots_of_all, 2);
    let one = seq![id];
    assert(one.drop_last() =~= Seq::<Seq<char>>::empty());
    assert(one.last() == id);
    let asked = known_once(one, known);
    assert(asked =~= seq![id]);
    assert(asked.drop_last() =~= Seq::<Seq<char>>::empty());
    assert(Seq::<SnapshotView>::empty() + snapshots_of(cache, id) =~= snapshots_of(cache, id));
}

} // verus!
