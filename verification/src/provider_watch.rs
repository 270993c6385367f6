//! The registry of files that providers depend on.
//!
//! A provider subscribes to files. Each file is watched through the nearest existing
//! directory above it; when a file changes, its providers are collected and announced
//! once no further change has come for a while.

use crate::lexical_path::{
    lemma_empty_path, parent_path, path_ancestors, path_views, LexicalPath,
};
use crate::table::{KeySet, Table};
use crate::text::views;
use crate::text_order::{ascending, sorted_distinct};
use crate::watch_event::{
    absolute_from, event_paths, is_interesting, is_interesting_event_kind, is_removal,
    is_removal_event_kind, normalize_event_path, normalize_file_path, opt_path, FileEvent,
    RecursiveMode,
};
use vstd::prelude::*;

verus! {

/// How long changes are collected before they are announced, in milliseconds.
pub const PROVIDER_DEBOUNCE_MS: u64 = 1000;

/// A path as the sequence of its components.
pub type PathView = Seq<Seq<char>>;

/// A file that a provider depends on.
#[derive(Debug)]
pub struct FileSubscription {
    pub path: LexicalPath,
    /// Whether the file existed when the provider subscribed to it.
    pub existed_at_declaration: bool,
}

/// A command to the registry.
#[derive(Debug)]
pub enum ProviderWatchCommand {
    /// Remove all subscriptions of a provider.
    ClearProvider { provider_id: String },
    /// Replace the subscriptions of a provider; no files means no dependencies.
    ReplaceProvider { provider_id: String, files: Vec<FileSubscription> },
}

/// What the registry announces.
#[derive(Debug, PartialEq, Eq)]
pub enum ProviderWatchEvent {
    /// Files of these providers changed.
    ProvidersChanged(Vec<String>),
}

/// What became of one subscription.
#[derive(Debug, Clone, Copy, PartialEq, Eq, Structural)]
pub enum SubscriptionOutcome {
    /// The file is registered.
    Registered,
    /// The path has no parent, so nothing can be watched for it.
    NoParent,
    /// No directory but the root of the file system exists above the file.
    NoFrontier,
    /// The directory above the file could not be watched.
    WatchFailed,
}

/// The operations of the operating system that the registry needs. What they answer is left
/// open.
pub trait WatchBackend {
    /// Starts watching a directory.
    fn watch(&mut self, path: &LexicalPath, mode: RecursiveMode) -> (r: Result<(), String>);

    /// Stops watching a directory.
    fn unwatch(&mut self, path: &LexicalPath) -> (r: Result<(), String>);

    /// Whether something exists at a path.
    fn path_exists(&mut self, path: &LexicalPath) -> (r: bool);

    /// Whether a path leads to a directory.
    fn is_dir(&mut self, path: &LexicalPath) -> (r: bool);
}

/// A call of the operating system, with its answer.
pub enum WatchCall {
    Watch { path: PathView, mode: RecursiveMode, ok: bool },
    Unwatch { path: PathView, ok: bool },
    PathExists { path: PathView, answer: bool },
    IsDir { path: PathView, answer: bool },
}

/// A backend together with the calls that the registry made of it. The calls are kept for
/// proofs only.
pub struct RecordedBackend<B> {
    pub backend: B,
    log: Ghost<Seq<WatchCall>>,
}

impl<B: WatchBackend> RecordedBackend<B> {
    /// The calls so far, in order.
    pub closed spec fn calls(&self) -> Seq<WatchCall> {
        self.log@
    }

    /// The backend itself.
    pub closed spec fn inner(&self) -> B {
        self.backend
    }

    /// A backend of which nothing was asked yet.
    pub fn new(backend: B) -> (r: Self)
        ensures
            r.inner() == backend,
            r.calls() == Seq::<WatchCall>::empty(),
    {
        RecordedBackend { backend, log: Ghost(Seq::empty()) }
    }

    /// Starts watching a directory.
    fn watch(&mut self, path: &LexicalPath, mode: RecursiveMode) -> (r: Result<(), String>)
        ensures
            final(self).calls() == old(self).calls().push(
                WatchCall::Watch { path: path@, mode, ok: r is Ok },
            ),
    {
        let r = self.backend.watch(path, mode);
        proof {
            self.log@ = self.log@.push(WatchCall::Watch { path: path@, mode, ok: r is Ok });
        }
        r
    }

    /// Stops watching a directory.
    fn unwatch(&mut self, path: &LexicalPath) -> (r: Result<(), String>)
        ensures
            final(self).calls() == old(self).calls().push(
                WatchCall::Unwatch { path: path@, ok: r is Ok },
            ),
    {
        let r = self.backend.unwatch(path);
        proof {
            self.log@ = self.log@.push(WatchCall::Unwatch { path: path@, ok: r is Ok });
        }
        r
    }

    /// Whether something exists at a path.
    fn path_exists(&mut self, path: &LexicalPath) -> (r: bool)
        ensures
            final(self).calls() == old(self).calls().push(
                WatchCall::PathExists { path: path@, answer: r },
            ),
    {
        let r = self.backend.path_exists(path);
        proof {
            self.log@ = self.log@.push(WatchCall::PathExists { path: path@, answer: r });
        }
        r
    }

    /// Whether a path leads to a directory.
    fn is_dir(&mut self, path: &LexicalPath) -> (r: bool)
        ensures
            final(self).calls() == old(self).calls().push(
                WatchCall::IsDir { path: path@, answer: r },
            ),
    {
        let r = self.backend.is_dir(path);
        proof {
            self.log@ = self.log@.push(WatchCall::IsDir { path: path@, answer: r });
        }
        r
    }
}

/// What is known of one file.
pub struct TargetState {
    /// The providers that depend on the file.
    providers: KeySet<String>,
    /// The directory through which the file is watched; the empty path if there is none.
    current_root: LexicalPath,
    /// Whether the file existed when last looked at.
    last_observed_existence: bool,
    /// Whether the file existed when a provider subscribed to it, until that was
    /// compared with what is on disk.
    declaration_existence: Option<bool>,
}

/// The registry.
pub struct ProviderWatchActor {
    provider_files: Table<String, KeySet<LexicalPath>>,
    targets: Table<LexicalPath, TargetState>,
    watch_roots: Table<LexicalPath, KeySet<LexicalPath>>,
    global_deadline: Option<u64>,
    pending_snapshots: Table<LexicalPath, KeySet<String>>,
}

/// What is known of one file.
#[verifier::ext_equal]
pub struct TargetView {
    pub providers: Set<Seq<char>>,
    pub root: PathView,
    pub last_seen: bool,
    pub declared: Option<bool>,
}

/// The registry as maps: files by provider, what is known of each file, the files
/// watched through each directory, the time of the next announcement, and the
/// providers to announce by changed file.
#[verifier::ext_equal]
pub struct ActorView {
    pub files: Map<Seq<char>, Set<PathView>>,
    pub targets: Map<PathView, TargetView>,
    pub roots: Map<PathView, Set<PathView>>,
    pub deadline: Option<u64>,
    pub pending: Map<PathView, Set<Seq<char>>>,
}

impl View for TargetState {
    type V = TargetView;

    closed spec fn view(&self) -> TargetView {
        TargetView {
            providers: self.providers@,
            root: self.current_root@,
            last_seen: self.last_observed_existence,
            declared: self.declaration_existence,
        }
    }
}

impl View for ProviderWatchActor {
    type V = ActorView;

    closed spec fn view(&self) -> ActorView {
        ActorView {
            files: self.provider_files@.map_values(|s: KeySet<LexicalPath>| s@),
            targets: self.targets@.map_values(|t: TargetState| t@),
            roots: self.watch_roots@.map_values(|s: KeySet<LexicalPath>| s@),
            deadline: self.global_deadline,
            pending: self.pending_snapshots@.map_values(|s: KeySet<String>| s@),
        }
    }
}

/// The files of a provider.
pub open spec fn files_of(a: ActorView, provider: Seq<char>) -> Set<PathView> {
    if a.files.dom().contains(provider) {
        a.files[provider]
    } else {
        Set::empty()
    }
}

/// The providers of a file.
pub open spec fn providers_of(a: ActorView, file: PathView) -> Set<Seq<char>> {
    if a.targets.dom().contains(file) {
        a.targets[file].providers
    } else {
        Set::empty()
    }
}

/// The files watched through a directory.
pub open spec fn targets_at(a: ActorView, root: PathView) -> Set<PathView> {
    if a.roots.dom().contains(root) {
        a.roots[root]
    } else {
        Set::empty()
    }
}

/// The providers to announce for a file.
pub open spec fn pending_of(a: ActorView, file: PathView) -> Set<Seq<char>> {
    if a.pending.dom().contains(file) {
        a.pending[file]
    } else {
        Set::empty()
    }
}

/// What always holds of the registry: a provider has a file exactly if the file has the
/// provider, nobody has an empty entry, only providers of a file are to be announced for
/// it, and as long as something is to be announced there is a time for it.
pub open spec fn consistent(a: ActorView) -> bool {
    &&& forall|p: Seq<char>, f: PathView|
        files_of(a, p).contains(f) <==> #[trigger] providers_of(a, f).contains(p)
    &&& forall|p: Seq<char>| #[trigger] a.files.dom().contains(p) ==> a.files[p] != Set::<
        PathView,
    >::empty()
    &&& forall|f: PathView| #[trigger]
        a.targets.dom().contains(f) ==> a.targets[f].providers != Set::<Seq<char>>::empty()
    &&& forall|f: PathView| #[trigger]
        a.pending.dom().contains(f) ==> a.targets.dom().contains(f) && a.pending[f].subset_of(
            a.targets[f].providers,
        )
    &&& a.deadline is None ==> a.pending == Map::<PathView, Set<Seq<char>>>::empty()
}

/// The directory is in the registry; it keeps the files it had.
pub open spec fn with_root(a: ActorView, root: PathView) -> ActorView {
    ActorView { roots: a.roots.insert(root, targets_at(a, root)), ..a }
}

/// The directory is no longer in the registry.
pub open spec fn without_root(a: ActorView, root: PathView) -> ActorView {
    ActorView { roots: a.roots.remove(root), ..a }
}

/// True if the directory is in the registry and no file needs it.
pub open spec fn is_idle_root(a: ActorView, root: PathView) -> bool {
    a.roots.dom().contains(root) && a.roots[root] == Set::<PathView>::empty()
}

/// The file is watched through the directory too.
pub open spec fn attached(a: ActorView, root: PathView, file: PathView) -> ActorView {
    ActorView { roots: a.roots.insert(root, targets_at(a, root).insert(file)), ..a }
}

/// The file is no longer watched through the directory.
pub open spec fn detached(a: ActorView, root: PathView, file: PathView) -> ActorView {
    if a.roots.dom().contains(root) {
        ActorView { roots: a.roots.insert(root, a.roots[root].remove(file)), ..a }
    } else {
        a
    }
}

/// The directory is the one through which a known file is watched.
pub open spec fn rooted(a: ActorView, file: PathView, root: PathView) -> ActorView {
    if a.targets.dom().contains(file) {
        ActorView {
            targets: a.targets.insert(file, TargetView { root, ..a.targets[file] }),
            ..a
        }
    } else {
        a
    }
}

/// True if a look at the file shows something else than what was known of it.
pub open spec fn is_surprise(a: ActorView, file: PathView, exists_now: bool) -> bool {
    a.targets.dom().contains(file) && (a.targets[file].last_seen != exists_now || (
    a.targets[file].declared is Some && a.targets[file].declared != Some(exists_now)))
}

/// All providers of the file are to be announced, the debounce time after `now`.
pub open spec fn scheduled(a: ActorView, file: PathView, now: u64) -> ActorView {
    ActorView {
        pending: a.pending.insert(file, pending_of(a, file).union(providers_of(a, file))),
        deadline: Some((now + PROVIDER_DEBOUNCE_MS) as u64),
        ..a
    }
}

/// What is known of the file after a look at it.
pub open spec fn looked_at(a: ActorView, file: PathView, exists_now: bool) -> ActorView {
    if a.targets.dom().contains(file) {
        ActorView {
            targets: a.targets.insert(
                file,
                TargetView { last_seen: exists_now, declared: None, ..a.targets[file] },
            ),
            ..a
        }
    } else {
        a
    }
}

/// The registry after a look at the file: a surprise is scheduled.
pub open spec fn observed(a: ActorView, file: PathView, exists_now: bool, now: u64) -> ActorView {
    if is_surprise(a, file, exists_now) {
        scheduled(looked_at(a, file, exists_now), file, now)
    } else {
        looked_at(a, file, exists_now)
    }
}

impl ProviderWatchActor {
    /// What always holds of the registry.
    pub open spec fn well_formed(&self) -> bool {
        consistent(self@)
    }

    /// A registry without subscriptions.
    pub fn new() -> (r: Self)
        ensures
            r.well_formed(),
            r@.files == Map::<Seq<char>, Set<PathView>>::empty(),
            r@.targets == Map::<PathView, TargetView>::empty(),
            r@.roots == Map::<PathView, Set<PathView>>::empty(),
            r@.pending == Map::<PathView, Set<Seq<char>>>::empty(),
            r@.deadline is None,
    {
        let r = ProviderWatchActor {
            provider_files: Table::new(),
            targets: Table::new(),
            watch_roots: Table::new(),
            global_deadline: None,
            pending_snapshots: Table::new(),
        };
        assert(r@.files =~= Map::<Seq<char>, Set<PathView>>::empty());
        assert(r@.targets =~= Map::<PathView, TargetView>::empty());
        assert(r@.roots =~= Map::<PathView, Set<PathView>>::empty());
        assert(r@.pending =~= Map::<PathView, Set<Seq<char>>>::empty());
        r
    }

    /// When the collected changes are to be announced.
    pub fn deadline(&self) -> (r: Option<u64>)
        ensures
            r == self@.deadline,
    {
        self.global_deadline
    }

    /// Enters a directory that is being watched.
    fn enter_root(&mut self, root: &LexicalPath)
        ensures
            final(self)@ == with_root(old(self)@, root@),
    {
        let files = match self.watch_roots.get(root) {
            Some(set) => set.copy_set(),
            None => KeySet::new(),
        };
        self.watch_roots.insert(root.clone(), files);
        assert(self@ =~= with_root(old(self)@, root@));
    }

    /// Takes a directory out of the registry.
    fn leave_root(&mut self, root: &LexicalPath)
        ensures
            final(self)@ == without_root(old(self)@, root@),
    {
        let dropped = self.watch_roots.remove(root);
        assert(self@ =~= without_root(old(self)@, root@));
    }

    /// True if the directory is in the registry and no file needs it.
    fn idle_root(&self, root: &LexicalPath) -> (r: bool)
        ensures
            r == is_idle_root(self@, root@),
    {
        match self.watch_roots.get(root) {
            Some(set) => set.is_empty(),
            None => false,
        }
    }

    /// Notes that a file is watched through a directory.
    fn attach(&mut self, root: &LexicalPath, file: &LexicalPath)
        ensures
            final(self)@ == attached(old(self)@, root@, file@),
    {
        let mut files = match self.watch_roots.get(root) {
            Some(set) => set.copy_set(),
            None => KeySet::new(),
        };
        files.insert(file.clone());
        self.watch_roots.insert(root.clone(), files);
        assert(self@ =~= attached(old(self)@, root@, file@));
    }

    /// Notes that a file is no longer watched through a directory.
    fn detach(&mut self, root: &LexicalPath, file: &LexicalPath)
        ensures
            final(self)@ == detached(old(self)@, root@, file@),
    {
        match self.watch_roots.remove(root) {
            Some(set) => {
                let mut files = set;
                files.remove(file);
                self.watch_roots.insert(root.clone(), files);
            },
            None => {
                assert(old(self)@.roots.remove(root@) =~= old(self)@.roots);
            },
        }
        assert(self@ =~= detached(old(self)@, root@, file@));
    }

    /// Notes the directory through which a known file is watched.
    fn set_root(&mut self, file: &LexicalPath, root: LexicalPath)
        ensures
            final(self)@ == rooted(old(self)@, file@, root@),
    {
        match self.targets.remove(file) {
            Some(state) => {
                let mut changed = state;
                changed.current_root = root;
                self.targets.insert(file.clone(), changed);
            },
            None => {
                assert(old(self)@.targets.remove(file@) =~= old(self)@.targets);
            },
        }
        assert(self@ =~= rooted(old(self)@, file@, root@));
    }

    /// Schedules the announcement of all providers of a file.
    fn schedule(&mut self, file: &LexicalPath, now: u64)
        requires
            now + PROVIDER_DEBOUNCE_MS <= u64::MAX,
        ensures
            final(self)@ == scheduled(old(self)@, file@, now),
    {
        let mut ids = match self.pending_snapshots.get(file) {
            Some(set) => set.copy_set(),
            None => KeySet::new(),
        };
        match self.targets.get(file) {
            Some(state) => {
                ids.extend(&state.providers);
            },
            None => {
                assert(ids@.union(Set::empty()) =~= ids@);
            },
        }
        self.pending_snapshots.insert(file.clone(), ids);
        self.global_deadline = Some(now + PROVIDER_DEBOUNCE_MS);
        assert(self@ =~= scheduled(old(self)@, file@, now));
    }

    /// Takes in whether a file exists now, and schedules its providers if that is not
    /// what was known of it. Returns whether it was scheduled.
    pub fn observe(&mut self, file: &LexicalPath, exists_now: bool, now: u64) -> (r: bool)
        requires
            now + PROVIDER_DEBOUNCE_MS <= u64::MAX,
        ensures
            final(self)@ == observed(old(self)@, file@, exists_now, now),
            r == is_surprise(old(self)@, file@, exists_now),
    {
        let mut changed = false;
        match self.targets.remove(file) {
            Some(state) => {
                let mut next = state;
                match next.declaration_existence {
                    Some(declared) => {
                        if declared != exists_now {
                            changed = true;
                        }
                    },
                    None => {},
                }
                next.declaration_existence = None;
                if next.last_observed_existence != exists_now {
                    changed = true;
                    next.last_observed_existence = exists_now;
                }
                self.targets.insert(file.clone(), next);
            },
            None => {
                assert(old(self)@.targets.remove(file@) =~= old(self)@.targets);
            },
        }
        assert(self@ =~= looked_at(old(self)@, file@, exists_now));
        if changed {
            self.schedule(file, now);
        }
        changed
    }
}


/// A directory through which a file can be watched: it stands above the file and is not
/// the root of the file system.
pub open spec fn is_frontier(file: PathView, root: PathView) -> bool {
    parent_path(root) is Some && match parent_path(file) {
        Some(dir) => path_ancestors(dir).contains(root),
        None => false,
    }
}

/// The calls that came after those before.
pub open spec fn new_calls(before: Seq<WatchCall>, after: Seq<WatchCall>) -> Seq<WatchCall> {
    after.skip(before.len() as int)
}

/// True if calls were only added.
pub open spec fn calls_grow(before: Seq<WatchCall>, after: Seq<WatchCall>) -> bool {
    after == before + new_calls(before, after)
}

/// The answer to whether something exists at a path, where that was asked first.
pub open spec fn exists_answer(log: Seq<WatchCall>, path: PathView) -> Option<bool> {
    if log.len() == 0 {
        None
    } else {
        match log[0] {
            WatchCall::PathExists { path: asked, answer } => if asked == path {
                Some(answer)
            } else {
                None
            },
            _ => None,
        }
    }
}

/// The answer to whether a path leads to a directory, where that was asked first.
pub open spec fn dir_answer(log: Seq<WatchCall>, path: PathView) -> Option<bool> {
    if log.len() == 0 {
        None
    } else {
        match log[0] {
            WatchCall::IsDir { path: asked, answer } => if asked == path {
                Some(answer)
            } else {
                None
            },
            _ => None,
        }
    }
}

/// Whether watching a directory alone began, where that was tried first.
pub open spec fn watch_answer(log: Seq<WatchCall>, path: PathView) -> Option<bool> {
    if log.len() == 0 {
        None
    } else {
        match log[0] {
            WatchCall::Watch { path: asked, mode, ok } => if asked == path && mode
                == RecursiveMode::NonRecursive {
                Some(ok)
            } else {
                None
            },
            _ => None,
        }
    }
}

/// Whether watching a directory ended, where that was tried first.
pub open spec fn unwatch_answer(log: Seq<WatchCall>, path: PathView) -> Option<bool> {
    if log.len() == 0 {
        None
    } else {
        match log[0] {
            WatchCall::Unwatch { path: asked, ok } => if asked == path {
                Some(ok)
            } else {
                None
            },
            _ => None,
        }
    }
}

/// The first of some directories that is one and has a parent, as calls tell, and the calls
/// that are left. The directories are asked for in turn, until one is found. Like all that
/// follow, this is nothing where other calls were made.
pub open spec fn nearest_told(dirs: Seq<PathView>, log: Seq<WatchCall>) -> Option<
    (Option<PathView>, Seq<WatchCall>),
>
    decreases dirs.len(),
{
    if dirs.len() == 0 {
        Some((None, log))
    } else {
        match dir_answer(log, dirs[0]) {
            None => None,
            Some(yes) => if yes && parent_path(dirs[0]) is Some {
                Some((Some(dirs[0]), log.drop_first()))
            } else {
                nearest_told(dirs.drop_first(), log.drop_first())
            },
        }
    }
}

/// The directory through which a file can be watched, as calls tell.
pub open spec fn frontier_told(file: PathView, log: Seq<WatchCall>) -> Option<
    (Option<PathView>, Seq<WatchCall>),
> {
    match parent_path(file) {
        None => Some((None, log)),
        Some(dir) => nearest_told(path_ancestors(dir), log),
    }
}

/// The registry after a directory was to be watched, as calls tell; no registry if it could
/// not be. A directory that is watched already is watched anew only if it is gone.
pub open spec fn watch_told(a: ActorView, root: PathView, log: Seq<WatchCall>) -> Option<
    (Option<ActorView>, Seq<WatchCall>),
> {
    if a.roots.dom().contains(root) {
        match exists_answer(log, root) {
            None => None,
            Some(there) => if there {
                Some((Some(with_root(a, root)), log.drop_first()))
            } else {
                watch_anew_told(a, root, log.drop_first())
            },
        }
    } else {
        watch_anew_told(a, root, log)
    }
}

/// The complaint about a directory that cannot be watched.
pub open spec fn watch_complaint(a: ActorView, root: PathView, shown: Seq<char>) -> Seq<char> {
    (if a.roots.dom().contains(root) {
        "cannot reinstall stale watch on '"@
    } else {
        "cannot watch root '"@
    }) + shown + "'"@
}

/// The registry after a directory was watched anew, as calls tell.
pub open spec fn watch_anew_told(a: ActorView, root: PathView, log: Seq<WatchCall>) -> Option<
    (Option<ActorView>, Seq<WatchCall>),
> {
    match watch_answer(log, root) {
        None => None,
        Some(ok) => Some(
            (
                if ok {
                    Some(with_root(a, root))
                } else {
                    None
                },
                log.drop_first(),
            ),
        ),
    }
}

/// The registry after a directory was given up if no file needs it, as calls tell. One whose
/// watch cannot be ended stays, unless the directory is gone.
pub open spec fn release_told(a: ActorView, root: PathView, log: Seq<WatchCall>) -> Option<
    (ActorView, Seq<WatchCall>),
> {
    if !is_idle_root(a, root) {
        Some((a, log))
    } else {
        match unwatch_answer(log, root) {
            None => None,
            Some(ended) => if ended {
                Some((without_root(a, root), log.drop_first()))
            } else {
                match exists_answer(log.drop_first(), root) {
                    None => None,
                    Some(there) => Some(
                        (
                            if there {
                                a
                            } else {
                                without_root(a, root)
                            },
                            log.drop_first().drop_first(),
                        ),
                    ),
                }
            },
        }
    }
}

/// The registry after a file left the directory through which it was watched, if that is
/// another one than now, as calls tell.
pub open spec fn leave_told(
    a: ActorView,
    file: PathView,
    before: Option<PathView>,
    now_at: PathView,
    log: Seq<WatchCall>,
) -> Option<(ActorView, Seq<WatchCall>)> {
    match before {
        Some(old_root) => if old_root != now_at {
            release_told(detached(a, old_root, file), old_root, log)
        } else {
            Some((a, log))
        },
        None => Some((a, log)),
    }
}

/// The registry after a look at a file that is watched through a directory, as calls tell,
/// and whether its providers were scheduled.
pub open spec fn look_told(
    a: ActorView,
    file: PathView,
    root: PathView,
    now: u64,
    log: Seq<WatchCall>,
) -> Option<(ActorView, bool, Seq<WatchCall>)> {
    match exists_answer(log, file) {
        None => None,
        Some(exists_now) => Some(
            (
                observed(rooted(a, file, root), file, exists_now, now),
                is_surprise(rooted(a, file, root), file, exists_now),
                log.drop_first(),
            ),
        ),
    }
}

/// The directory through which a known file is watched.
pub open spec fn root_of(a: ActorView, file: PathView) -> Option<PathView> {
    if a.targets.dom().contains(file) {
        Some(a.targets[file].root)
    } else {
        None
    }
}

/// The registry after a file was moved to the directory through which it can be watched
/// now, and looked at, as calls tell, and whether its providers were scheduled. The new
/// directory is watched before the old one is given up. A file that cannot be watched any
/// more is watched through the empty path; one whose new directory cannot be watched stays
/// as it is.
pub open spec fn reconcile_told(
    a: ActorView,
    file: PathView,
    now: u64,
    log: Seq<WatchCall>,
) -> Option<(ActorView, bool, Seq<WatchCall>)> {
    match frontier_told(file, log) {
        None => None,
        Some((None, rest)) => match root_of(a, file) {
            None => Some((a, false, rest)),
            Some(old_root) => match release_told(detached(a, old_root, file), old_root, rest) {
                None => None,
                Some((b, left)) => Some((rooted(b, file, Seq::empty()), false, left)),
            },
        },
        Some((Some(root), rest)) => match watch_told(a, root, rest) {
            None => None,
            Some((None, left)) => Some((a, false, left)),
            Some((Some(b), left)) => match leave_told(
                attached(b, root, file),
                file,
                root_of(a, file),
                root,
                left,
            ) {
                None => None,
                Some((c, last)) => look_told(c, file, root, now, last),
            },
        },
    }
}

/// The registry after several files were moved and looked at, one after the other.
pub open spec fn reconcile_all_told(
    a: ActorView,
    files: Seq<PathView>,
    now: u64,
    log: Seq<WatchCall>,
) -> Option<(ActorView, Seq<WatchCall>)>
    decreases files.len(),
{
    if files.len() == 0 {
        Some((a, log))
    } else {
        match reconcile_all_told(a, files.drop_last(), now, log) {
            None => None,
            Some((b, rest)) => match reconcile_told(b, files.last(), now, rest) {
                None => None,
                Some((c, changed, left)) => Some((c, left)),
            },
        }
    }
}

proof fn lemma_calls_add(c0: Seq<WatchCall>, c1: Seq<WatchCall>, c2: Seq<WatchCall>)
    requires
        calls_grow(c0, c1),
        calls_grow(c1, c2),
    ensures
        calls_grow(c0, c2),
        new_calls(c0, c2) == new_calls(c0, c1) + new_calls(c1, c2),
{
    assert(new_calls(c0, c2) =~= new_calls(c0, c1) + new_calls(c1, c2));
    assert(c2 =~= c0 + new_calls(c0, c2));
}

proof fn lemma_one_call(c0: Seq<WatchCall>, call: WatchCall)
    ensures
        calls_grow(c0, c0.push(call)),
        new_calls(c0, c0.push(call)) == seq![call],
{
    assert(new_calls(c0, c0.push(call)) =~= seq![call]);
    assert(c0.push(call) =~= c0 + seq![call]);
}

proof fn lemma_no_calls(c0: Seq<WatchCall>)
    ensures
        calls_grow(c0, c0),
        new_calls(c0, c0) == Seq::<WatchCall>::empty(),
{
    assert(new_calls(c0, c0) =~= Seq::<WatchCall>::empty());
    assert(c0 + new_calls(c0, c0) =~= c0);
}

/// Calls behind those that are looked at do not matter.
proof fn lemma_first_call_stays(log: Seq<WatchCall>, more: Seq<WatchCall>)
    requires
        log.len() > 0,
    ensures
        (log + more)[0] == log[0],
        (log + more).drop_first() == log.drop_first() + more,
{
    assert((log + more).drop_first() =~= log.drop_first() + more);
}

proof fn lemma_nearest_goes_on(dirs: Seq<PathView>, log: Seq<WatchCall>, more: Seq<WatchCall>)
    requires
        nearest_told(dirs, log) is Some,
    ensures
        nearest_told(dirs, log + more) == Some(
            (nearest_told(dirs, log).unwrap().0, nearest_told(dirs, log).unwrap().1 + more),
        ),
    decreases dirs.len(),
{
    if dirs.len() > 0 {
        lemma_first_call_stays(log, more);
        if !(dir_answer(log, dirs[0]) == Some(true) && parent_path(dirs[0]) is Some) {
            lemma_nearest_goes_on(dirs.drop_first(), log.drop_first(), more);
        }
    }
}

proof fn lemma_frontier_goes_on(file: PathView, log: Seq<WatchCall>, more: Seq<WatchCall>)
    requires
        frontier_told(file, log) is Some,
    ensures
        frontier_told(file, log + more) == Some(
            (frontier_told(file, log).unwrap().0, frontier_told(file, log).unwrap().1 + more),
        ),
{
    match parent_path(file) {
        Some(dir) => {
            lemma_nearest_goes_on(path_ancestors(dir), log, more);
        },
        None => {},
    }
}

proof fn lemma_watch_goes_on(
    a: ActorView,
    root: PathView,
    log: Seq<WatchCall>,
    more: Seq<WatchCall>,
)
    requires
        watch_told(a, root, log) is Some,
    ensures
        watch_told(a, root, log + more) == Some(
            (watch_told(a, root, log).unwrap().0, watch_told(a, root, log).unwrap().1 + more),
        ),
{
    lemma_first_call_stays(log, more);
    if log.drop_first().len() > 0 {
        lemma_first_call_stays(log.drop_first(), more);
    }
}

proof fn lemma_release_goes_on(
    a: ActorView,
    root: PathView,
    log: Seq<WatchCall>,
    more: Seq<WatchCall>,
)
    requires
        release_told(a, root, log) is Some,
    ensures
        release_told(a, root, log + more) == Some(
            (release_told(a, root, log).unwrap().0, release_told(a, root, log).unwrap().1 + more),
        ),
{
    if is_idle_root(a, root) {
        lemma_first_call_stays(log, more);
        if log.drop_first().len() > 0 {
            lemma_first_call_stays(log.drop_first(), more);
        }
    }
}

proof fn lemma_leave_goes_on(
    a: ActorView,
    file: PathView,
    before: Option<PathView>,
    now_at: PathView,
    log: Seq<WatchCall>,
    more: Seq<WatchCall>,
)
    requires
        leave_told(a, file, before, now_at, log) is Some,
    ensures
        leave_told(a, file, before, now_at, log + more) == Some(
            (
                leave_told(a, file, before, now_at, log).unwrap().0,
                leave_told(a, file, before, now_at, log).unwrap().1 + more,
            ),
        ),
{
    match before {
        Some(old_root) => {
            if old_root != now_at {
                lemma_release_goes_on(detached(a, old_root, file), old_root, log, more);
            }
        },
        None => {},
    }
}

proof fn lemma_reconcile_goes_on(
    a: ActorView,
    file: PathView,
    now: u64,
    log: Seq<WatchCall>,
    more: Seq<WatchCall>,
)
    requires
        reconcile_told(a, file, now, log) is Some,
    ensures
        reconcile_told(a, file, now, log + more) == Some(
            (
                reconcile_told(a, file, now, log).unwrap().0,
                reconcile_told(a, file, now, log).unwrap().1,
                reconcile_told(a, file, now, log).unwrap().2 + more,
            ),
        ),
{
    lemma_frontier_goes_on(file, log, more);
    let (found, rest) = frontier_told(file, log).unwrap();
    match found {
        None => {
            match root_of(a, file) {
                Some(old_root) => {
                    lemma_release_goes_on(detached(a, old_root, file), old_root, rest, more);
                },
                None => {},
            }
        },
        Some(root) => {
            lemma_watch_goes_on(a, root, rest, more);
            let (watched, left) = watch_told(a, root, rest).unwrap();
            match watched {
                Some(b) => {
                    let joined = attached(b, root, file);
                    lemma_leave_goes_on(joined, file, root_of(a, file), root, left, more);
                    let (c, last) = leave_told(
                        joined,
                        file,
                        root_of(a, file),
                        root,
                        left,
                    ).unwrap();
                    lemma_first_call_stays(last, more);
                },
                None => {},
            }
        },
    }
}

proof fn lemma_reconcile_all_goes_on(
    a: ActorView,
    files: Seq<PathView>,
    now: u64,
    log: Seq<WatchCall>,
    more: Seq<WatchCall>,
)
    requires
        reconcile_all_told(a, files, now, log) is Some,
    ensures
        reconcile_all_told(a, files, now, log + more) == Some(
            (
                reconcile_all_told(a, files, now, log).unwrap().0,
                reconcile_all_told(a, files, now, log).unwrap().1 + more,
            ),
        ),
    decreases files.len(),
{
    if files.len() > 0 {
        lemma_reconcile_all_goes_on(a, files.drop_last(), now, log, more);
        let (b, rest) = reconcile_all_told(a, files.drop_last(), now, log).unwrap();
        lemma_reconcile_goes_on(b, files.last(), now, rest, more);
    }
}

/// Subscriptions are as before, what was to be announced still is, and anything new to
/// announce comes the debounce time after `now`.
pub open spec fn progressed(a: ActorView, b: ActorView, now: u64) -> bool {
    &&& b.files == a.files
    &&& b.targets.dom() == a.targets.dom()
    &&& forall|f: PathView|
        #![trigger b.targets[f]]
        #![trigger a.targets[f]]
        a.targets.dom().contains(f) ==> b.targets[f].providers == a.targets[f].providers
    &&& forall|f: PathView|
        #![trigger a.pending.dom().contains(f)]
        a.pending.dom().contains(f) ==> b.pending.dom().contains(f)
    &&& forall|f: PathView|
        #![trigger b.pending.dom().contains(f)]
        b.pending.dom().contains(f) ==> {
            &&& a.pending.dom().contains(f) || a.targets.dom().contains(f)
            &&& pending_of(a, f).subset_of(b.pending[f])
            &&& b.pending[f].subset_of(pending_of(a, f).union(providers_of(a, f)))
        }
    &&& (b.deadline == a.deadline && b.pending == a.pending) || b.deadline == Some(
        (now + PROVIDER_DEBOUNCE_MS) as u64,
    )
}

proof fn lemma_progress_continues(a: ActorView, b: ActorView, c: ActorView, now: u64)
    requires
        progressed(a, b, now),
        progressed(b, c, now),
    ensures
        progressed(a, c, now),
{
    assert forall|f: PathView| a.targets.dom().contains(f) implies #[trigger] c.targets[f].providers
        == a.targets[f].providers by {
        assert(b.targets[f].providers == a.targets[f].providers);
    }
    assert forall|f: PathView| #[trigger] c.pending.dom().contains(f) implies {
        &&& a.pending.dom().contains(f) || a.targets.dom().contains(f)
        &&& pending_of(a, f).subset_of(c.pending[f])
        &&& c.pending[f].subset_of(pending_of(a, f).union(providers_of(a, f)))
    } by {
        assert(providers_of(a, f) == providers_of(b, f)) by {
            if a.targets.dom().contains(f) {
                assert(b.targets[f].providers == a.targets[f].providers);
            }
        }
        if b.pending.dom().contains(f) {
        }
    }
}

proof fn lemma_progress_is_consistent(a: ActorView, b: ActorView, now: u64)
    requires
        consistent(a),
        progressed(a, b, now),
    ensures
        consistent(b),
{
    assert forall|p: Seq<char>, f: PathView|
        files_of(b, p).contains(f) <==> #[trigger] providers_of(b, f).contains(p) by {
        assert(files_of(a, p).contains(f) <==> providers_of(a, f).contains(p));
        if a.targets.dom().contains(f) {
            assert(b.targets[f].providers == a.targets[f].providers);
        }
    }
    assert forall|f: PathView| #[trigger] b.targets.dom().contains(f) implies b.targets[f].providers
        != Set::<Seq<char>>::empty() by {
        assert(a.targets.dom().contains(f));
        assert(b.targets[f].providers == a.targets[f].providers);
    }
    assert forall|f: PathView| #[trigger] b.pending.dom().contains(f) implies b.targets.dom().contains(
        f,
    ) && b.pending[f].subset_of(b.targets[f].providers) by {
        if a.pending.dom().contains(f) {
            assert(a.pending[f].subset_of(a.targets[f].providers));
        }
        assert(b.targets[f].providers == a.targets[f].providers);
    }
}

proof fn lemma_reconciling_progresses(
    a: ActorView,
    file: PathView,
    now: u64,
    log: Seq<WatchCall>,
)
    requires
        reconcile_told(a, file, now, log) is Some,
    ensures
        progressed(a, reconcile_told(a, file, now, log).unwrap().0, now),
{
    let b = reconcile_told(a, file, now, log).unwrap().0;
    assert(b.targets.dom() =~= a.targets.dom());
}

/// Moving a file between directories, and looking at it, keeps the registry consistent,
/// whatever the operating system answers. What was to be announced still is.
pub proof fn law_reconciling_is_consistent(
    a: ActorView,
    file: PathView,
    now: u64,
    log: Seq<WatchCall>,
)
    requires
        consistent(a),
        reconcile_told(a, file, now, log) is Some,
    ensures
        consistent(reconcile_told(a, file, now, log).unwrap().0),
        progressed(a, reconcile_told(a, file, now, log).unwrap().0, now),
{
    lemma_reconciling_progresses(a, file, now, log);
    lemma_progress_is_consistent(a, reconcile_told(a, file, now, log).unwrap().0, now);
}

impl ProviderWatchActor {
    /// Whether the directory has to be watched anew: it is not in the registry, or what
    /// was watched there is gone.
    pub fn needs_watch(&self, root: &LexicalPath, root_exists: bool) -> (r: bool)
        ensures
            r == !(self@.roots.dom().contains(root@) && root_exists),
    {
        !(self.watch_roots.contains(root) && root_exists)
    }

    /// Watches a directory, unless it is watched already. Returns whether it is newly
    /// watched; if it could not be watched the registry stays as it is.
    pub fn install_watch<B: WatchBackend>(
        &mut self,
        backend: &mut RecordedBackend<B>,
        root: &LexicalPath,
    ) -> (r: Result<bool, String>)
        ensures
            calls_grow(old(backend).calls(), final(backend).calls()),
            ({
                let log = new_calls(old(backend).calls(), final(backend).calls());
                match r {
                    Ok(newly) => {
                        &&& watch_told(old(self)@, root@, log) == Some(
                            (Some(final(self)@), Seq::<WatchCall>::empty()),
                        )
                        &&& newly == (log.last() is Watch)
                    },
                    Err(message) => {
                        &&& watch_told(old(self)@, root@, log) == Some(
                            (None::<ActorView>, Seq::<WatchCall>::empty()),
                        )
                        &&& final(self)@ == old(self)@
                        &&& message@ == watch_complaint(old(self)@, root@, root.written())
                    },
                }
            }),
    {
        let ghost c0 = backend.calls();
        let ghost start = self@;
        let known = self.watch_roots.contains(root);
        assert(known == start.roots.dom().contains(root@));
        proof {
            lemma_no_calls(c0);
        }
        let root_exists = if known {
            let there = backend.path_exists(root);
            proof {
                lemma_one_call(c0, WatchCall::PathExists { path: root@, answer: there });
            }
            there
        } else {
            false
        };
        let ghost c1 = backend.calls();
        if !self.needs_watch(root, root_exists) {
            assert(self@ =~= with_root(start, root@));
            assert(new_calls(c0, c1).drop_first() =~= Seq::<WatchCall>::empty());
            return Ok(false);
        }
        let watched = backend.watch(root, RecursiveMode::NonRecursive);
        proof {
            let call = WatchCall::Watch {
                path: root@,
                mode: RecursiveMode::NonRecursive,
                ok: watched is Ok,
            };
            lemma_one_call(c1, call);
            lemma_calls_add(c0, c1, backend.calls());
            let log = new_calls(c0, backend.calls());
            assert(log =~= new_calls(c0, c1) + seq![call]);
            assert(seq![call].drop_first() =~= Seq::<WatchCall>::empty());
            if known {
                assert(log.drop_first() =~= seq![call]);
            } else {
                assert(log =~= seq![call]);
            }
        }
        match watched {
            Ok(_) => {
                self.enter_root(root);
                Ok(true)
            },
            Err(_) => {
                let mut message = if known {
                    "cannot reinstall stale watch on '".to_string()
                } else {
                    "cannot watch root '".to_string()
                };
                let shown = root.to_text();
                message.append(shown.as_str());
                message.append("'");
                Err(message)
            },
        }
    }

    /// Takes in that the watch on an idle directory was to end: the directory leaves the
    /// registry if the watch ended, or if the directory itself is gone.
    pub fn note_unwatched(&mut self, root: &LexicalPath, unwatched: bool, root_exists: bool)
        ensures
            final(self)@ == if unwatched || !root_exists {
                without_root(old(self)@, root@)
            } else {
                old(self)@
            },
    {
        if unwatched || !root_exists {
            self.leave_root(root);
        }
    }

    /// Ends the watch on a directory that no file needs. Returns whether the directory
    /// left the registry.
    pub fn release_watch_if_empty<B: WatchBackend>(
        &mut self,
        backend: &mut RecordedBackend<B>,
        root: &LexicalPath,
    ) -> (r: bool)
        ensures
            calls_grow(old(backend).calls(), final(backend).calls()),
            release_told(
                old(self)@,
                root@,
                new_calls(old(backend).calls(), final(backend).calls()),
            ) == Some((final(self)@, Seq::<WatchCall>::empty())),
            r ==> is_idle_root(old(self)@, root@) && final(self)@ == without_root(
                old(self)@,
                root@,
            ),
            !r ==> final(self)@ == old(self)@,
    {
        let ghost c0 = backend.calls();
        let ghost start = self@;
        proof {
            lemma_no_calls(c0);
        }
        if !self.idle_root(root) {
            return false;
        }
        let unwatched = backend.unwatch(root).is_ok();
        let ghost c1 = backend.calls();
        let ghost first = WatchCall::Unwatch { path: root@, ok: unwatched };
        proof {
            lemma_one_call(c0, first);
            assert(seq![first].drop_first() =~= Seq::<WatchCall>::empty());
        }
        let root_exists = if unwatched {
            true
        } else {
            let there = backend.path_exists(root);
            proof {
                let second = WatchCall::PathExists { path: root@, answer: there };
                lemma_one_call(c1, second);
                lemma_calls_add(c0, c1, backend.calls());
                let log = new_calls(c0, backend.calls());
                assert(log =~= seq![first, second]);
                assert(log.drop_first() =~= seq![second]);
                assert(log.drop_first().drop_first() =~= Seq::<WatchCall>::empty());
            }
            there
        };
        self.note_unwatched(root, unwatched, root_exists);
        unwatched || !root_exists
    }

    /// Among a path and its ancestors, the nearest that is a directory but not the root of
    /// the file system.
    pub fn nearest_non_root_ancestor<B: WatchBackend>(
        backend: &mut RecordedBackend<B>,
        path: &LexicalPath,
    ) -> (r: Option<LexicalPath>)
        ensures
            calls_grow(old(backend).calls(), final(backend).calls()),
            nearest_told(
                path_ancestors(path@),
                new_calls(old(backend).calls(), final(backend).calls()),
            ) == Some((opt_path(r), Seq::<WatchCall>::empty())),
    {
        let ghost c0 = backend.calls();
        let list = path.ancestors();
        let ghost all = path_ancestors(path@);
        assert(path_views(list@).len() == list@.len());
        let mut i: usize = 0;
        proof {
            lemma_no_calls(c0);
            assert(all.skip(0) =~= all);
            assert forall|more: Seq<WatchCall>| nearest_told(
                all,
                #[trigger] (new_calls(c0, c0) + more),
            ) == nearest_told(all, more) by {
                assert(new_calls(c0, c0) + more =~= more);
            }
        }
        while i < list.len()
            invariant
                i <= list@.len(),
                all == path_views(list@),
                all == path_ancestors(path@),
                c0 == old(backend).calls(),
                calls_grow(c0, backend.calls()),
                forall|more: Seq<WatchCall>|
                    nearest_told(all, #[trigger] (new_calls(c0, backend.calls()) + more))
                        == nearest_told(all.skip(i as int), more),
            decreases list@.len() - i,
        {
            let ghost c1 = backend.calls();
            let yes = backend.is_dir(&list[i]);
            let ghost call = WatchCall::IsDir { path: list@[i as int]@, answer: yes };
            let ghost so_far = new_calls(c0, c1);
            let ghost log = new_calls(c0, backend.calls());
            proof {
                lemma_one_call(c1, call);
                lemma_calls_add(c0, c1, backend.calls());
                assert(all.skip(i as int)[0] == list@[i as int]@);
                assert(all.skip(i as int).drop_first() =~= all.skip(i + 1));
            }
            if yes && list[i].parent().is_some() {
                proof {
                    let empty = Seq::<WatchCall>::empty();
                    assert(log =~= so_far + seq![call]);
                    assert(seq![call].drop_first() =~= empty);
                }
                return Some(list[i].clone());
            }
            proof {
                assert forall|more: Seq<WatchCall>| nearest_told(all, #[trigger] (log + more))
                    == nearest_told(all.skip(i + 1), more) by {
                    let rest = seq![call] + more;
                    assert(log + more =~= so_far + rest);
                    assert(rest.drop_first() =~= more);
                }
            }
            i = i + 1;
        }
        proof {
            let log = new_calls(c0, backend.calls());
            let empty = Seq::<WatchCall>::empty();
            assert(log + empty =~= log);
            assert(all.skip(i as int).len() == 0);
        }
        None
    }

    /// The nearest existing directory above a file, other than the root of the file system.
    pub fn compute_root<B: WatchBackend>(
        backend: &mut RecordedBackend<B>,
        file: &LexicalPath,
    ) -> (r: Option<LexicalPath>)
        ensures
            calls_grow(old(backend).calls(), final(backend).calls()),
            frontier_told(file@, new_calls(old(backend).calls(), final(backend).calls())) == Some(
                (opt_path(r), Seq::<WatchCall>::empty()),
            ),
            r matches Some(root) ==> is_frontier(file@, root@),
    {
        let ghost c0 = backend.calls();
        match file.parent() {
            None => {
                proof {
                    lemma_no_calls(c0);
                }
                None
            },
            Some(dir) => {
                let r = ProviderWatchActor::nearest_non_root_ancestor(backend, &dir);
                proof {
                    lemma_nearest_has_parent(
                        path_ancestors(dir@),
                        new_calls(c0, backend.calls()),
                    );
                }
                r
            },
        }
    }

    /// Moves a file to the directory through which it can be watched now, and looks
    /// whether the file is what was known of it. Returns whether its providers were
    /// scheduled.
    #[verifier::spinoff_prover]
    #[verifier::rlimit(40)]
    pub fn reconcile_target<B: WatchBackend>(
        &mut self,
        backend: &mut RecordedBackend<B>,
        file: &LexicalPath,
        now: u64,
    ) -> (r: bool)
        requires
            now + PROVIDER_DEBOUNCE_MS <= u64::MAX,
        ensures
            calls_grow(old(backend).calls(), final(backend).calls()),
            reconcile_told(
                old(self)@,
                file@,
                now,
                new_calls(old(backend).calls(), final(backend).calls()),
            ) == Some((final(self)@, r, Seq::<WatchCall>::empty())),
            progressed(old(self)@, final(self)@, now),
    {
        let ghost start = self@;
        let ghost empty = Seq::<WatchCall>::empty();
        let ghost c0 = backend.calls();
        let old_root = match self.targets.get(file) {
            Some(state) => Some(state.current_root.clone()),
            None => None,
        };
        assert(opt_path(old_root) == root_of(start, file@));
        let found = ProviderWatchActor::compute_root(backend, file);
        let ghost c1 = backend.calls();
        let ghost log1 = new_calls(c0, c1);
        match found {
            None => {
                match old_root {
                    Some(old_dir) => {
                        self.detach(&old_dir, file);
                        let ghost apart = self@;
                        let released = self.release_watch_if_empty(backend, &old_dir);
                        let ghost c2 = backend.calls();
                        let ghost log2 = new_calls(c1, c2);
                        let nowhere = LexicalPath::parse("");
                        proof {
                            reveal_strlit("");
                            lemma_empty_path();
                        }
                        self.set_root(file, nowhere);
                        proof {
                            lemma_calls_add(c0, c1, c2);
                            lemma_frontier_goes_on(file@, log1, log2);
                            assert(empty + log2 =~= log2);
                        }
                    },
                    None => {},
                }
                proof {
                    lemma_reconciling_progresses(
                        start,
                        file@,
                        now,
                        new_calls(c0, backend.calls()),
                    );
                }
                false
            },
            Some(new_root) => {
                let watched = self.install_watch(backend, &new_root);
                let ghost c2 = backend.calls();
                let ghost log2 = new_calls(c1, c2);
                proof {
                    lemma_calls_add(c0, c1, c2);
                    lemma_frontier_goes_on(file@, log1, log2);
                    assert(empty + log2 =~= log2);
                }
                match watched {
                    Err(_) => {
                        proof {
                            lemma_reconciling_progresses(start, file@, now, new_calls(c0, c2));
                        }
                        return false;
                    },
                    Ok(_) => {},
                }
                let ghost b = self@;
                self.attach(&new_root, file);
                let ghost joined = self@;
                proof {
                    lemma_no_calls(c2);
                }
                match &old_root {
                    Some(old_dir) => {
                        if !old_dir.same_path(&new_root) {
                            self.detach(old_dir, file);
                            let released = self.release_watch_if_empty(backend, old_dir);
                        }
                    },
                    None => {},
                }
                let ghost c = self@;
                let ghost c3 = backend.calls();
                let ghost log3 = new_calls(c2, c3);
                let ghost dir = new_root@;
                assert(leave_told(joined, file@, root_of(start, file@), dir, log3) == Some(
                    (c, empty),
                ));
                self.set_root(file, new_root);
                let exists_now = backend.path_exists(file);
                let changed = self.observe(file, exists_now, now);
                proof {
                    let call = WatchCall::PathExists { path: file@, answer: exists_now };
                    let c4 = backend.calls();
                    let log4 = new_calls(c3, c4);
                    lemma_one_call(c3, call);
                    assert(log4.drop_first() =~= empty);
                    lemma_calls_add(c2, c3, c4);
                    lemma_calls_add(c1, c2, c4);
                    lemma_calls_add(c0, c1, c4);
                    let tail3 = log3 + log4;
                    let tail2 = log2 + tail3;
                    lemma_frontier_goes_on(file@, log1, tail2);
                    assert(empty + tail2 =~= tail2);
                    lemma_watch_goes_on(start, dir, log2, tail3);
                    assert(empty + tail3 =~= tail3);
                    lemma_leave_goes_on(joined, file@, root_of(start, file@), dir, log3, log4);
                    assert(empty + log4 =~= log4);
                    assert(new_calls(c0, c4) == log1 + tail2);
                    lemma_reconciling_progresses(start, file@, now, new_calls(c0, c4));
                }
                changed
            },
        }
    }
}

proof fn lemma_nearest_has_parent(dirs: Seq<PathView>, log: Seq<WatchCall>)
    ensures
        nearest_told(dirs, log) matches Some((Some(p), rest)) ==> dirs.contains(p) && parent_path(
            p,
        ) is Some,
    decreases dirs.len(),
{
    if dirs.len() > 0 {
        assert(dirs.contains(dirs[0]));
        lemma_nearest_has_parent(dirs.drop_first(), log.drop_first());
        match nearest_told(dirs.drop_first(), log.drop_first()) {
            Some((Some(p), rest)) => {
                if dirs.drop_first().contains(p) {
                    let k = choose|k: int|
                        0 <= k < dirs.drop_first().len() && dirs.drop_first()[k] == p;
                    assert(dirs[k + 1] == p);
                }
            },
            _ => {},
        }
    }
}


/// True if the provider is the only one of a known file.
pub open spec fn is_sole_provider(a: ActorView, file: PathView, provider: Seq<char>) -> bool {
    a.targets.dom().contains(file) && a.targets[file].providers.remove(provider) == Set::<
        Seq<char>,
    >::empty()
}

/// The provider is to be announced for no file.
pub open spec fn unannounced(a: ActorView, provider: Seq<char>) -> ActorView {
    ActorView { pending: a.pending.map_values(|ids: Set<Seq<char>>| ids.remove(provider)), ..a }
}

/// The provider no longer has the files in `done`. A file that had no other provider is
/// forgotten, with what was to be announced for it and its place below its directory;
/// the directories in `released` are gone from the registry.
pub open spec fn forgotten(
    a: ActorView,
    provider: Seq<char>,
    done: Set<PathView>,
    released: Set<PathView>,
) -> ActorView {
    ActorView {
        files: a.files,
        targets: Map::new(
            |f: PathView|
                a.targets.dom().contains(f) && !(done.contains(f) && is_sole_provider(
                    a,
                    f,
                    provider,
                )),
            |f: PathView|
                if done.contains(f) {
                    TargetView {
                        providers: a.targets[f].providers.remove(provider),
                        ..a.targets[f]
                    }
                } else {
                    a.targets[f]
                },
        ),
        roots: Map::new(
            |r: PathView| a.roots.dom().contains(r) && !released.contains(r),
            |r: PathView| remaining_at(a, provider, done, r),
        ),
        deadline: a.deadline,
        pending: Map::new(
            |f: PathView|
                a.pending.dom().contains(f) && !(done.contains(f) && is_sole_provider(
                    a,
                    f,
                    provider,
                )),
            |f: PathView| a.pending[f],
        ),
    }
}

/// The files that stay below a directory once the provider no longer has those in `done`.
pub open spec fn remaining_at(
    a: ActorView,
    provider: Seq<char>,
    done: Set<PathView>,
    root: PathView,
) -> Set<PathView> {
    a.roots[root].filter(
        |f: PathView|
            !(done.contains(f) && is_sole_provider(a, f, provider) && a.targets[f].root == root),
    )
}

/// The provider has no files and is to be announced for none; the directories in
/// `released` are gone from the registry.
pub open spec fn cleared(a: ActorView, provider: Seq<char>, released: Set<PathView>) -> ActorView {
    let quiet = unannounced(a, provider);
    ActorView {
        files: a.files.remove(provider),
        ..forgotten(quiet, provider, files_of(a, provider), released)
    }
}

/// What clearing a provider may lead to: only directories that no file needs any more are
/// released.
pub open spec fn clear_outcome(
    a: ActorView,
    provider: Seq<char>,
    b: ActorView,
    released: Set<PathView>,
) -> bool {
    &&& b == cleared(a, provider, released)
    &&& forall|r: PathView| #[trigger]
        released.contains(r) ==> a.roots.dom().contains(r) && remaining_at(
            a,
            provider,
            files_of(a, provider),
            r,
        ) == Set::<PathView>::empty()
}

/// A list of the paths of a set, each once.
pub open spec fn enumerates(order: Seq<PathView>, set: Set<PathView>) -> bool {
    &&& forall|f: PathView| #[trigger] order.contains(f) <==> set.contains(f)
    &&& order.no_duplicates()
}

/// A file was taken from a provider, and forgotten if nobody else has it.
pub open spec fn given_up(a: ActorView, provider: Seq<char>, file: PathView) -> ActorView {
    if is_sole_provider(a, file, provider) {
        ActorView {
            targets: a.targets.remove(file),
            pending: a.pending.remove(file),
            ..detached(a, a.targets[file].root, file)
        }
    } else if a.targets.dom().contains(file) {
        ActorView {
            targets: a.targets.insert(
                file,
                TargetView {
                    providers: a.targets[file].providers.remove(provider),
                    ..a.targets[file]
                },
            ),
            ..a
        }
    } else {
        a
    }
}

/// The registry after a file was taken from a provider, as calls tell: the directory of a
/// forgotten file is given up if no other file needs it.
pub open spec fn forget_told(
    a: ActorView,
    provider: Seq<char>,
    file: PathView,
    log: Seq<WatchCall>,
) -> Option<(ActorView, Seq<WatchCall>)> {
    if is_sole_provider(a, file, provider) {
        release_told(given_up(a, provider, file), a.targets[file].root, log)
    } else {
        Some((given_up(a, provider, file), log))
    }
}

/// The registry after several files were taken from a provider, one after the other.
pub open spec fn forget_all_told(
    a: ActorView,
    provider: Seq<char>,
    files: Seq<PathView>,
    log: Seq<WatchCall>,
) -> Option<(ActorView, Seq<WatchCall>)>
    decreases files.len(),
{
    if files.len() == 0 {
        Some((a, log))
    } else {
        match forget_all_told(a, provider, files.drop_last(), log) {
            None => None,
            Some((b, rest)) => forget_told(b, provider, files.last(), rest),
        }
    }
}

/// The registry after a provider was cleared, as calls tell; its files are taken from it in
/// some order.
pub open spec fn clear_told(
    a: ActorView,
    provider: Seq<char>,
    order: Seq<PathView>,
    log: Seq<WatchCall>,
) -> Option<(ActorView, Seq<WatchCall>)> {
    if enumerates(order, files_of(a, provider)) {
        forget_all_told(
            ActorView { files: a.files.remove(provider), ..unannounced(a, provider) },
            provider,
            order,
            log,
        )
    } else {
        None
    }
}

proof fn lemma_forget_all_goes_on(
    a: ActorView,
    provider: Seq<char>,
    files: Seq<PathView>,
    log: Seq<WatchCall>,
    more: Seq<WatchCall>,
)
    requires
        forget_all_told(a, provider, files, log) is Some,
    ensures
        forget_all_told(a, provider, files, log + more) == Some(
            (
                forget_all_told(a, provider, files, log).unwrap().0,
                forget_all_told(a, provider, files, log).unwrap().1 + more,
            ),
        ),
    decreases files.len(),
{
    if files.len() > 0 {
        lemma_forget_all_goes_on(a, provider, files.drop_last(), log, more);
        let (b, rest) = forget_all_told(a, provider, files.drop_last(), log).unwrap();
        let file = files.last();
        if is_sole_provider(b, file, provider) {
            lemma_release_goes_on(given_up(b, provider, file), b.targets[file].root, rest, more);
        }
    }
}

/// After a provider was cleared the registry is consistent and the provider occurs
/// nowhere in it: it has no file, no file has it, and it is not announced. Other
/// providers keep their files and what is to be announced of them.
pub proof fn law_cleared_provider_is_gone(a: ActorView, provider: Seq<char>, released: Set<PathView>)
    requires
        consistent(a),
    ensures
        ({
            let b = cleared(a, provider, released);
            &&& consistent(b)
            &&& files_of(b, provider) == Set::<PathView>::empty()
            &&& forall|f: PathView| !(#[trigger] providers_of(b, f)).contains(provider)
            &&& forall|f: PathView| !(#[trigger] pending_of(b, f)).contains(provider)
            &&& forall|q: Seq<char>| q != provider ==> #[trigger] files_of(b, q) == files_of(a, q)
            &&& forall|q: Seq<char>, f: PathView|
                q != provider ==> (#[trigger] providers_of(b, f).contains(q) <==> providers_of(
                    a,
                    f,
                ).contains(q))
            &&& forall|q: Seq<char>, f: PathView|
                q != provider ==> (#[trigger] pending_of(b, f).contains(q) <==> pending_of(
                    a,
                    f,
                ).contains(q))
            &&& b.deadline == a.deadline
        }),
{
    let b = cleared(a, provider, released);
    let quiet = unannounced(a, provider);
    let done = files_of(a, provider);
    assert forall|f: PathView| true implies {
        &&& !(#[trigger] providers_of(b, f)).contains(provider)
        &&& !pending_of(b, f).contains(provider)
        &&& forall|q: Seq<char>|
            q != provider ==> (providers_of(b, f).contains(q) <==> #[trigger] providers_of(
                a,
                f,
            ).contains(q))
        &&& forall|q: Seq<char>|
            q != provider ==> (pending_of(b, f).contains(q) <==> #[trigger] pending_of(
                a,
                f,
            ).contains(q))
        &&& b.targets.dom().contains(f) ==> b.targets[f].providers != Set::<Seq<char>>::empty()
        &&& b.pending.dom().contains(f) ==> b.targets.dom().contains(f) && b.pending[f].subset_of(
            b.targets[f].providers,
        )
    } by {
        assert(done.contains(f) <==> providers_of(a, f).contains(provider));
        if a.targets.dom().contains(f) {
            let ids = a.targets[f].providers;
            assert(is_sole_provider(quiet, f, provider) == is_sole_provider(a, f, provider));
            if !done.contains(f) {
                assert(ids.remove(provider) =~= ids);
            }
            if a.pending.dom().contains(f) {
                assert(a.pending[f].subset_of(ids));
            }
            if done.contains(f) && is_sole_provider(a, f, provider) {
                assert forall|q: Seq<char>| q != provider implies !ids.contains(q) by {
                    if ids.contains(q) {
                        assert(ids.remove(provider).contains(q));
                    }
                }
            }
        }
    }
    assert forall|q: Seq<char>| q != provider implies #[trigger] files_of(b, q) == files_of(a, q) by {}
    assert forall|p: Seq<char>, f: PathView|
        files_of(b, p).contains(f) <==> #[trigger] providers_of(b, f).contains(p) by {
        assert(files_of(a, p).contains(f) <==> providers_of(a, f).contains(p));
        assert(!providers_of(b, f).contains(provider));
        if p == provider {
            assert(!b.files.dom().contains(p));
        }
    }
    assert forall|f: PathView| #[trigger] b.targets.dom().contains(f) implies b.targets[f].providers
        != Set::<Seq<char>>::empty() by {
        assert(!providers_of(b, f).contains(provider));
    }
    assert forall|f: PathView| #[trigger] b.pending.dom().contains(f) implies b.targets.dom().contains(
        f,
    ) && b.pending[f].subset_of(b.targets[f].providers) by {
        assert(!providers_of(b, f).contains(provider));
    }
    assert forall|f: PathView| !(#[trigger] pending_of(b, f)).contains(provider) by {
        assert(!providers_of(b, f).contains(provider));
    }
    assert forall|q: Seq<char>, f: PathView| q != provider implies (#[trigger] pending_of(
        b,
        f,
    ).contains(q) <==> pending_of(a, f).contains(q)) by {
        assert(!providers_of(b, f).contains(provider));
    }
    assert(files_of(b, provider) =~= Set::<PathView>::empty());
    if a.deadline is None {
        assert(b.pending =~= Map::<PathView, Set<Seq<char>>>::empty());
    }
}

impl ProviderWatchActor {
    /// Makes sure that a provider is announced for no file.
    fn silence(&mut self, provider_id: &String)
        ensures
            final(self)@ == unannounced(old(self)@, provider_id@),
    {
        let ghost start = self@;
        let keys = self.pending_snapshots.keys();
        let mut i: usize = 0;
        while i < keys.len()
            invariant
                i <= keys@.len(),
                forall|k: int| 0 <= k < keys@.len() ==> start.pending.dom().contains((#[trigger] keys@[k])@),
                forall|f: PathView|
                    start.pending.dom().contains(f) ==> exists|k: int|
                        0 <= k < keys@.len() && (#[trigger] keys@[k])@ == f,
                forall|k: int, l: int|
                    0 <= k < l < keys@.len() ==> (#[trigger] keys@[k])@ != (#[trigger] keys@[l])@,
                self@ == (ActorView { pending: self@.pending, ..start }),
                self@.pending.dom() == start.pending.dom(),
                forall|k: int|
                    0 <= k < i ==> self@.pending[(#[trigger] keys@[k])@] == start.pending[keys@[k]@].remove(
                        provider_id@,
                    ),
                forall|k: int|
                    i <= k < keys@.len() ==> self@.pending[(#[trigger] keys@[k])@]
                        == start.pending[keys@[k]@],
            decreases keys@.len() - i,
        {
            let ghost before = self@;
            match self.pending_snapshots.remove(&keys[i]) {
                Some(set) => {
                    let mut ids = set;
                    ids.remove(provider_id);
                    self.pending_snapshots.insert(keys[i].clone(), ids);
                    assert(self@.pending =~= before.pending.insert(
                        keys@[i as int]@,
                        before.pending[keys@[i as int]@].remove(provider_id@),
                    ));
                },
                None => {
                    assert(before.pending.dom().contains(keys@[i as int]@));
                },
            }
            assert(self@ =~= (ActorView { pending: self@.pending, ..start }));
            assert(self@.pending.dom() =~= start.pending.dom());
            i = i + 1;
        }
        assert forall|f: PathView| start.pending.dom().contains(f) implies #[trigger] self@.pending[f]
            == start.pending[f].remove(provider_id@) by {
            let k = choose|k: int| 0 <= k < keys@.len() && (#[trigger] keys@[k])@ == f;
        }
        assert(self@ =~= unannounced(start, provider_id@));
    }

    /// Takes a file from a provider, and forgets the file if nobody else has it. Returns
    /// the directory through which a forgotten file was watched.
    fn take_file(&mut self, provider_id: &String, file: &LexicalPath) -> (r: Option<LexicalPath>)
        ensures
            final(self)@ == given_up(old(self)@, provider_id@, file@),
            r is Some == is_sole_provider(old(self)@, file@, provider_id@),
            r matches Some(root) ==> root@ == old(self)@.targets[file@].root && final(self)@ == (
            ActorView {
                targets: old(self)@.targets.remove(file@),
                pending: old(self)@.pending.remove(file@),
                ..detached(old(self)@, root@, file@)
            }),
            r is None && old(self)@.targets.dom().contains(file@) ==> final(self)@ == (ActorView {
                targets: old(self)@.targets.insert(
                    file@,
                    TargetView {
                        providers: old(self)@.targets[file@].providers.remove(provider_id@),
                        ..old(self)@.targets[file@]
                    },
                ),
                ..old(self)@
            }),
            !old(self)@.targets.dom().contains(file@) ==> final(self)@ == old(self)@,
    {
        let ghost start = self@;
        match self.targets.remove(file) {
            Some(state) => {
                let mut left = state;
                left.providers.remove(provider_id);
                if left.providers.is_empty() {
                    let dropped = self.pending_snapshots.remove(file);
                    let root = left.current_root;
                    self.detach(&root, file);
                    assert(self@ =~= (ActorView {
                        targets: start.targets.remove(file@),
                        pending: start.pending.remove(file@),
                        ..detached(start, root@, file@)
                    }));
                    Some(root)
                } else {
                    self.targets.insert(file.clone(), left);
                    assert(self@ =~= (ActorView {
                        targets: start.targets.insert(
                            file@,
                            TargetView {
                                providers: start.targets[file@].providers.remove(provider_id@),
                                ..start.targets[file@]
                            },
                        ),
                        ..start
                    }));
                    None
                }
            },
            None => {
                assert(start.targets.remove(file@) =~= start.targets);
                assert(self@ =~= start);
                None
            },
        }
    }

    /// Removes all subscriptions of a provider.
    pub fn clear_provider<B: WatchBackend>(
        &mut self,
        backend: &mut RecordedBackend<B>,
        provider_id: &String,
    )
        requires
            old(self).well_formed(),
        ensures
            final(self).well_formed(),
            calls_grow(old(backend).calls(), final(backend).calls()),
            exists|order: Seq<PathView>| #[trigger]
                clear_told(
                    old(self)@,
                    provider_id@,
                    order,
                    new_calls(old(backend).calls(), final(backend).calls()),
                ) == Some((final(self)@, Seq::<WatchCall>::empty())),
            exists|released: Set<PathView>| #[trigger]
                clear_outcome(old(self)@, provider_id@, final(self)@, released),
    {
        let ghost start = self@;
        let ghost c0 = backend.calls();
        let ghost empty = Seq::<WatchCall>::empty();
        let ghost mut order: Seq<PathView> = Seq::empty();
        proof {
            lemma_no_calls(c0);
        }
        self.silence(provider_id);
        let ghost quiet = self@;
        let ghost mut released: Set<PathView> = Set::empty();
        let ghost p = provider_id@;
        match self.provider_files.remove(provider_id) {
            Some(files) => {
                let list = files.to_list();
                let ghost base = self@;
                assert(base =~= (ActorView { files: quiet.files.remove(p), ..quiet }));
                let ghost mut done: Set<PathView> = Set::empty();
                proof {
                    order = path_views(list@);
                    assert(order.take(0) =~= Seq::<PathView>::empty());
                }
                assert(base =~= forgotten(base, p, done, released)) by {
                    assert forall|r: PathView| base.roots.dom().contains(r) implies remaining_at(
                        base,
                        p,
                        done,
                        r,
                    ) =~= base.roots[r] by {}
                }
                let mut i: usize = 0;
                while i < list.len()
                    invariant
                        i <= list@.len(),
                        p == provider_id@,
                        forall|k: int, l: int|
                            0 <= k < l < list@.len() ==> (#[trigger] list@[k])@ != (
                            #[trigger] list@[l])@,
                        forall|f: PathView|
                            done.contains(f) <==> exists|k: int|
                                0 <= k < i && (#[trigger] list@[k])@ == f,
                        self@ == forgotten(base, p, done, released),
                        order == path_views(list@),
                        empty == Seq::<WatchCall>::empty(),
                        c0 == old(backend).calls(),
                        calls_grow(c0, backend.calls()),
                        forget_all_told(
                            base,
                            p,
                            order.take(i as int),
                            new_calls(c0, backend.calls()),
                        ) == Some((self@, empty)),
                        forall|r: PathView| #[trigger]
                            released.contains(r) ==> base.roots.dom().contains(r)
                                && remaining_at(base, p, done, r) == Set::<PathView>::empty(),
                    decreases list@.len() - i,
                {
                    let ghost file = list@[i as int]@;
                    let ghost before = self@;
                    let ghost next = done.insert(file);
                    assert(!done.contains(file)) by {
                        if done.contains(file) {
                            let k = choose|k: int| 0 <= k < i && (#[trigger] list@[k])@ == file;
                            assert(list@[k]@ != list@[i as int]@);
                        }
                    }
                    assert(is_sole_provider(before, file, p) == is_sole_provider(base, file, p));
                    let ghost c1 = backend.calls();
                    let gone = self.take_file(provider_id, &list[i]);
                    proof {
                        assert forall|r: PathView| base.roots.dom().contains(r) implies (
                        #[trigger] remaining_at(base, p, next, r)) == (if is_sole_provider(
                            base,
                            file,
                            p,
                        ) && base.targets[file].root == r {
                            remaining_at(base, p, done, r).remove(file)
                        } else {
                            remaining_at(base, p, done, r)
                        }) by {
                            assert(remaining_at(base, p, next, r) =~= if is_sole_provider(
                                base,
                                file,
                                p,
                            ) && base.targets[file].root == r {
                                remaining_at(base, p, done, r).remove(file)
                            } else {
                                remaining_at(base, p, done, r)
                            });
                        }
                        assert(self@ =~= forgotten(base, p, next, released));
                        assert forall|r: PathView| #[trigger] released.contains(r) implies
                            base.roots.dom().contains(r) && remaining_at(base, p, next, r)
                            == Set::<PathView>::empty() by {
                            assert(remaining_at(base, p, next, r) =~= Set::<PathView>::empty());
                        }
                    }
                    match gone {
                        Some(root) => {
                            let dropped = self.release_watch_if_empty(backend, &root);
                            proof {
                                if dropped {
                                    let wider = released.insert(root@);
                                    assert(self@ =~= forgotten(base, p, next, wider));
                                    released = wider;
                                }
                            }
                        },
                        None => {
                            proof {
                                lemma_no_calls(c1);
                            }
                        },
                    }
                    proof {
                        let log = new_calls(c0, c1);
                        let step = new_calls(c1, backend.calls());
                        lemma_calls_add(c0, c1, backend.calls());
                        lemma_forget_all_goes_on(base, p, order.take(i as int), log, step);
                        assert(empty + step =~= step);
                        assert(order.take(i + 1).drop_last() =~= order.take(i as int));
                        assert(order.take(i + 1).last() == file);
                    }
                    proof {
                        assert forall|f: PathView| next.contains(f) <==> exists|k: int|
                            0 <= k < i + 1 && (#[trigger] list@[k])@ == f by {
                            if next.contains(f) {
                                if f == file {
                                    assert(list@[i as int]@ == f);
                                } else {
                                    let k = choose|k: int|
                                        0 <= k < i && (#[trigger] list@[k])@ == f;
                                    assert(list@[k]@ == f);
                                }
                            }
                        }
                        done = next;
                    }
                    i = i + 1;
                }
                proof {
                    assert(done =~= files_of(start, p));
                    assert(order.take(list@.len() as int) =~= order);
                    lemma_enumeration(list@, files_of(start, p));
                    assert(base =~= (ActorView {
                        files: start.files.remove(p),
                        ..unannounced(start, p)
                    }));
                    lemma_forgotten_ignores_files(base, quiet, p, done, released);
                    lemma_remaining_ignores_pending(start, quiet, base, p, done, released);
                    assert(self@ =~= cleared(start, p, released));
                }
            },
            None => {
                proof {
                    assert(self@ =~= quiet);
                    assert(start.files.remove(p) =~= start.files);
                    assert(files_of(start, p) =~= Set::<PathView>::empty());
                    assert(quiet =~= (ActorView {
                        files: start.files.remove(p),
                        ..unannounced(start, p)
                    }));
                    assert forall|r: PathView| quiet.roots.dom().contains(r) implies remaining_at(
                        quiet,
                        p,
                        Set::empty(),
                        r,
                    ) =~= quiet.roots[r] by {}
                    assert(self@ =~= cleared(start, p, released));
                }
            },
        }
        proof {
            assert(clear_told(start, p, order, new_calls(c0, backend.calls())) == Some(
                (self@, empty),
            ));
            assert(clear_outcome(start, p, self@, released));
            law_cleared_provider_is_gone(start, p, released);
        }
    }
}

proof fn lemma_clear_goes_on(
    a: ActorView,
    provider: Seq<char>,
    order: Seq<PathView>,
    log: Seq<WatchCall>,
    more: Seq<WatchCall>,
)
    requires
        clear_told(a, provider, order, log) is Some,
    ensures
        clear_told(a, provider, order, log + more) == Some(
            (
                clear_told(a, provider, order, log).unwrap().0,
                clear_told(a, provider, order, log).unwrap().1 + more,
            ),
        ),
{
    lemma_forget_all_goes_on(
        ActorView { files: a.files.remove(provider), ..unannounced(a, provider) },
        provider,
        order,
        log,
        more,
    );
}

proof fn lemma_enumeration(list: Seq<LexicalPath>, set: Set<PathView>)
    requires
        forall|i: int| 0 <= i < list.len() ==> set.contains((#[trigger] list[i])@),
        forall|f: PathView|
            set.contains(f) ==> exists|i: int| 0 <= i < list.len() && (#[trigger] list[i])@ == f,
        forall|i: int, j: int|
            0 <= i < j < list.len() ==> (#[trigger] list[i])@ != (#[trigger] list[j])@,
    ensures
        enumerates(path_views(list), set),
{
    let order = path_views(list);
    assert forall|f: PathView| #[trigger] order.contains(f) <==> set.contains(f) by {
        if order.contains(f) {
            let k = choose|k: int| 0 <= k < order.len() && order[k] == f;
            assert(list[k]@ == f);
        }
        if set.contains(f) {
            let k = choose|k: int| 0 <= k < list.len() && (#[trigger] list[k])@ == f;
            assert(order[k] == f);
        }
    }
    assert forall|i: int, j: int| 0 <= i < order.len() && 0 <= j < order.len() && i != j implies
        order[i] != order[j] by {
        if i < j {
            assert(list[i]@ != list[j]@);
        } else {
            assert(list[j]@ != list[i]@);
        }
    }
}

proof fn lemma_forgotten_ignores_files(
    a: ActorView,
    b: ActorView,
    provider: Seq<char>,
    done: Set<PathView>,
    released: Set<PathView>,
)
    requires
        b == (ActorView { files: b.files, ..a }),
    ensures
        forgotten(b, provider, done, released) == (ActorView {
            files: b.files,
            ..forgotten(a, provider, done, released)
        }),
{
    assert forall|r: PathView| remaining_at(a, provider, done, r) == #[trigger] remaining_at(
        b,
        provider,
        done,
        r,
    ) by {
        assert(remaining_at(a, provider, done, r) =~= remaining_at(b, provider, done, r));
    }
    assert(forgotten(b, provider, done, released) =~= (ActorView {
        files: b.files,
        ..forgotten(a, provider, done, released)
    }));
}

proof fn lemma_remaining_ignores_pending(
    start: ActorView,
    quiet: ActorView,
    base: ActorView,
    provider: Seq<char>,
    done: Set<PathView>,
    released: Set<PathView>,
)
    requires
        quiet == unannounced(start, provider),
        base == (ActorView { files: base.files, ..quiet }),
        forall|r: PathView| #[trigger]
            released.contains(r) ==> base.roots.dom().contains(r) && remaining_at(
                base,
                provider,
                done,
                r,
            ) == Set::<PathView>::empty(),
    ensures
        forall|r: PathView| #[trigger]
            released.contains(r) ==> start.roots.dom().contains(r) && remaining_at(
                start,
                provider,
                done,
                r,
            ) == Set::<PathView>::empty(),
{
    assert forall|r: PathView| #[trigger] released.contains(r) implies start.roots.dom().contains(r)
        && remaining_at(start, provider, done, r) == Set::<PathView>::empty() by {
        assert(remaining_at(start, provider, done, r) =~= remaining_at(base, provider, done, r));
    }
}


/// The registry after a provider subscribed to a file that can be watched through `root`.
/// What is known of a file that others have already stays; whether it existed at the time
/// of the subscription is noted unless an earlier such note still waits.
pub open spec fn subscribed(
    a: ActorView,
    provider: Seq<char>,
    file: PathView,
    root: PathView,
    exists_now: bool,
    declared: bool,
) -> ActorView {
    let state = if a.targets.dom().contains(file) {
        TargetView {
            providers: a.targets[file].providers.insert(provider),
            declared: if a.targets[file].declared is None {
                Some(declared)
            } else {
                a.targets[file].declared
            },
            ..a.targets[file]
        }
    } else {
        TargetView {
            providers: Set::empty().insert(provider),
            root,
            last_seen: exists_now,
            declared: Some(declared),
        }
    };
    attached(ActorView { targets: a.targets.insert(file, state), ..a }, root, file)
}

/// The file that a subscription speaks of.
pub open spec fn subscription_file(sub: FileSubscription, cwd: Option<PathView>) -> PathView {
    absolute_from(sub.path@, cwd)
}

/// The files among the first subscriptions that were registered.
pub open spec fn registered_files(
    subs: Seq<FileSubscription>,
    outcomes: Seq<SubscriptionOutcome>,
    cwd: Option<PathView>,
) -> Set<PathView> {
    Set::new(
        |f: PathView|
            exists|i: int|
                0 <= i < outcomes.len() && #[trigger] outcomes[i] == SubscriptionOutcome::Registered
                    && subscription_file(subs[i], cwd) == f,
    )
}

/// The registry after a provider was to subscribe to a file, as calls tell, and what became
/// of it: a file that cannot be watched is skipped.
pub open spec fn subscribe_told(
    a: ActorView,
    provider: Seq<char>,
    file: PathView,
    declared: bool,
    log: Seq<WatchCall>,
) -> Option<(ActorView, SubscriptionOutcome, Seq<WatchCall>)> {
    if parent_path(file) is None {
        Some((a, SubscriptionOutcome::NoParent, log))
    } else {
        match frontier_told(file, log) {
            None => None,
            Some((None, rest)) => Some((a, SubscriptionOutcome::NoFrontier, rest)),
            Some((Some(root), rest)) => match watch_told(a, root, rest) {
                None => None,
                Some((None, left)) => Some((a, SubscriptionOutcome::WatchFailed, left)),
                Some((Some(b), left)) => match exists_answer(left, file) {
                    None => None,
                    Some(exists_now) => Some(
                        (
                            subscribed(b, provider, file, root, exists_now, declared),
                            SubscriptionOutcome::Registered,
                            left.drop_first(),
                        ),
                    ),
                },
            },
        }
    }
}

/// The registry after a provider was to subscribe to several files, one after the other, and
/// what became of each.
pub open spec fn subscribe_all_told(
    a: ActorView,
    provider: Seq<char>,
    subs: Seq<FileSubscription>,
    cwd: Option<PathView>,
    log: Seq<WatchCall>,
) -> Option<(ActorView, Seq<SubscriptionOutcome>, Seq<WatchCall>)>
    decreases subs.len(),
{
    if subs.len() == 0 {
        Some((a, Seq::empty(), log))
    } else {
        match subscribe_all_told(a, provider, subs.drop_last(), cwd, log) {
            None => None,
            Some((b, outcomes, rest)) => match subscribe_told(
                b,
                provider,
                subscription_file(subs.last(), cwd),
                subs.last().existed_at_declaration,
                rest,
            ) {
                None => None,
                Some((c, outcome, left)) => Some((c, outcomes.push(outcome), left)),
            },
        }
    }
}

/// The provider has these files, if there are any.
pub open spec fn entered(a: ActorView, provider: Seq<char>, files: Set<PathView>) -> ActorView {
    if files == Set::<PathView>::empty() {
        a
    } else {
        ActorView { files: a.files.insert(provider, files), ..a }
    }
}

/// The registry after the subscriptions of a provider were replaced, as calls tell, and what
/// became of each: the provider is cleared, subscribes to each file, and each file that it
/// subscribed to is looked at once more. The files are taken from it, and looked at, in some
/// order.
pub open spec fn replace_told(
    a: ActorView,
    provider: Seq<char>,
    subs: Seq<FileSubscription>,
    cwd: Option<PathView>,
    now: u64,
    taken: Seq<PathView>,
    looked: Seq<PathView>,
    log: Seq<WatchCall>,
) -> Option<(ActorView, Seq<SubscriptionOutcome>, Seq<WatchCall>)> {
    match clear_told(a, provider, taken, log) {
        None => None,
        Some((base, rest)) => match subscribe_all_told(base, provider, subs, cwd, rest) {
            None => None,
            Some((b, outcomes, left)) => {
                let files = registered_files(subs, outcomes, cwd);
                if enumerates(looked, files) {
                    match reconcile_all_told(entered(b, provider, files), looked, now, left) {
                        None => None,
                        Some((c, last)) => Some((c, outcomes, last)),
                    }
                } else {
                    None
                }
            },
        },
    }
}

proof fn lemma_subscribe_goes_on(
    a: ActorView,
    provider: Seq<char>,
    file: PathView,
    declared: bool,
    log: Seq<WatchCall>,
    more: Seq<WatchCall>,
)
    requires
        subscribe_told(a, provider, file, declared, log) is Some,
    ensures
        ({
            let (b, outcome, rest) = subscribe_told(a, provider, file, declared, log).unwrap();
            subscribe_told(a, provider, file, declared, log + more) == Some(
                (b, outcome, rest + more),
            )
        }),
{
    if parent_path(file) is Some {
        lemma_frontier_goes_on(file, log, more);
        let (found, rest) = frontier_told(file, log).unwrap();
        match found {
            Some(root) => {
                lemma_watch_goes_on(a, root, rest, more);
                let (watched, left) = watch_told(a, root, rest).unwrap();
                if watched is Some {
                    lemma_first_call_stays(left, more);
                }
            },
            None => {},
        }
    }
}

proof fn lemma_subscription_told(
    a: ActorView,
    provider: Seq<char>,
    file: PathView,
    root: PathView,
    exists_now: bool,
    declared: bool,
    log1: Seq<WatchCall>,
    log2: Seq<WatchCall>,
    log3: Seq<WatchCall>,
)
    requires
        parent_path(file) is Some,
        frontier_told(file, log1) == Some((Some(root), Seq::<WatchCall>::empty())),
        watch_told(a, root, log2) == Some((Some(with_root(a, root)), Seq::<WatchCall>::empty())),
        log3 == seq![WatchCall::PathExists { path: file, answer: exists_now }],
    ensures
        subscribe_told(a, provider, file, declared, log1 + (log2 + log3)) == Some(
            (
                subscribed(with_root(a, root), provider, file, root, exists_now, declared),
                SubscriptionOutcome::Registered,
                Seq::<WatchCall>::empty(),
            ),
        ),
{
    let empty = Seq::<WatchCall>::empty();
    let tail = log2 + log3;
    assert(log3.drop_first() =~= empty);
    lemma_frontier_goes_on(file, log1, tail);
    assert(empty + tail =~= tail);
    lemma_watch_goes_on(a, root, log2, log3);
    assert(empty + log3 =~= log3);
}

proof fn lemma_subscribe_all_goes_on(
    a: ActorView,
    provider: Seq<char>,
    subs: Seq<FileSubscription>,
    cwd: Option<PathView>,
    log: Seq<WatchCall>,
    more: Seq<WatchCall>,
)
    requires
        subscribe_all_told(a, provider, subs, cwd, log) is Some,
    ensures
        ({
            let (b, outcomes, rest) = subscribe_all_told(a, provider, subs, cwd, log).unwrap();
            subscribe_all_told(a, provider, subs, cwd, log + more) == Some(
                (b, outcomes, rest + more),
            )
        }),
    decreases subs.len(),
{
    if subs.len() > 0 {
        lemma_subscribe_all_goes_on(a, provider, subs.drop_last(), cwd, log, more);
        let (b, outcomes, rest) = subscribe_all_told(
            a,
            provider,
            subs.drop_last(),
            cwd,
            log,
        ).unwrap();
        lemma_subscribe_goes_on(
            b,
            provider,
            subscription_file(subs.last(), cwd),
            subs.last().existed_at_declaration,
            rest,
            more,
        );
    }
}

/// Halfway through a replacement: the files in `added` have the provider, though the
/// provider does not have them yet; otherwise everything is as after clearing it.
spec fn partly_subscribed(
    a: ActorView,
    b: ActorView,
    provider: Seq<char>,
    added: Set<PathView>,
) -> bool {
    &&& b.files == a.files
    &&& b.pending == a.pending
    &&& b.deadline == a.deadline
    &&& forall|f: PathView| #[trigger]
        b.targets.dom().contains(f) <==> a.targets.dom().contains(f) || added.contains(f)
    &&& forall|f: PathView|
        #![trigger b.targets[f]]
        b.targets.dom().contains(f) ==> b.targets[f].providers == if added.contains(f) {
            providers_of(a, f).insert(provider)
        } else {
            providers_of(a, f)
        }
}

proof fn lemma_subscribing(
    a: ActorView,
    b: ActorView,
    provider: Seq<char>,
    added: Set<PathView>,
    file: PathView,
    root: PathView,
    exists_now: bool,
    declared: bool,
)
    requires
        partly_subscribed(a, b, provider, added),
    ensures
        partly_subscribed(
            a,
            subscribed(b, provider, file, root, exists_now, declared),
            provider,
            added.insert(file),
        ),
{
    let c = subscribed(b, provider, file, root, exists_now, declared);
    assert forall|f: PathView| c.targets.dom().contains(f) implies #[trigger] c.targets[f].providers
        == if added.insert(file).contains(f) {
        providers_of(a, f).insert(provider)
    } else {
        providers_of(a, f)
    } by {
        if f == file {
            if b.targets.dom().contains(f) {
                assert(b.targets[f].providers.insert(provider) =~= providers_of(a, f).insert(
                    provider,
                ));
            }
        } else {
            assert(c.targets[f] == b.targets[f]);
        }
    }
}

proof fn lemma_subscribed_is_consistent(
    a: ActorView,
    b: ActorView,
    provider: Seq<char>,
    added: Set<PathView>,
)
    requires
        consistent(a),
        files_of(a, provider) == Set::<PathView>::empty(),
        !a.files.dom().contains(provider),
        partly_subscribed(a, b, provider, added),
        added != Set::<PathView>::empty(),
    ensures
        consistent(ActorView { files: b.files.insert(provider, added), ..b }),
{
    let c = ActorView { files: b.files.insert(provider, added), ..b };
    assert forall|p: Seq<char>, f: PathView|
        files_of(c, p).contains(f) <==> #[trigger] providers_of(c, f).contains(p) by {
        assert(files_of(a, p).contains(f) <==> providers_of(a, f).contains(p));
        if b.targets.dom().contains(f) {
            assert(b.targets[f].providers == if added.contains(f) {
                providers_of(a, f).insert(provider)
            } else {
                providers_of(a, f)
            });
        }
    }
    assert forall|f: PathView| #[trigger] c.targets.dom().contains(f) implies c.targets[f].providers
        != Set::<Seq<char>>::empty() by {
        assert(b.targets.dom().contains(f));
        assert(b.targets[f].providers == if added.contains(f) {
            providers_of(a, f).insert(provider)
        } else {
            providers_of(a, f)
        });
        if added.contains(f) {
            assert(c.targets[f].providers.contains(provider));
        }
    }
    assert forall|f: PathView| #[trigger] c.pending.dom().contains(f) implies c.targets.dom().contains(
        f,
    ) && c.pending[f].subset_of(c.targets[f].providers) by {
        assert(a.pending.dom().contains(f));
        assert(a.targets.dom().contains(f));
        assert(b.targets.dom().contains(f));
        assert(b.targets[f].providers == if added.contains(f) {
            providers_of(a, f).insert(provider)
        } else {
            providers_of(a, f)
        });
    }
}

impl ProviderWatchActor {
    /// Enters the subscription of a provider to a file that can be watched through `root`.
    pub fn subscribe(
        &mut self,
        provider_id: &String,
        file: &LexicalPath,
        root: &LexicalPath,
        exists_now: bool,
        declared: bool,
    )
        ensures
            final(self)@ == subscribed(
                old(self)@,
                provider_id@,
                file@,
                root@,
                exists_now,
                declared,
            ),
    {
        let ghost start = self@;
        let state = match self.targets.remove(file) {
            Some(known) => {
                let mut state = known;
                state.providers.insert(provider_id.clone());
                if state.declaration_existence.is_none() {
                    state.declaration_existence = Some(declared);
                }
                state
            },
            None => {
                let mut providers: KeySet<String> = KeySet::new();
                providers.insert(provider_id.clone());
                TargetState {
                    providers,
                    current_root: root.clone(),
                    last_observed_existence: exists_now,
                    declaration_existence: Some(declared),
                }
            },
        };
        let ghost entered = state@;
        self.targets.insert(file.clone(), state);
        assert(self@ =~= (ActorView { targets: start.targets.insert(file@, entered), ..start }));
        self.attach(root, file);
        assert(self@ =~= subscribed(start, provider_id@, file@, root@, exists_now, declared));
    }

    /// Tries to enter one subscription.
    fn try_subscribe<B: WatchBackend>(
        &mut self,
        backend: &mut RecordedBackend<B>,
        provider_id: &String,
        file: &LexicalPath,
        declared: bool,
    ) -> (r: SubscriptionOutcome)
        ensures
            calls_grow(old(backend).calls(), final(backend).calls()),
            subscribe_told(
                old(self)@,
                provider_id@,
                file@,
                declared,
                new_calls(old(backend).calls(), final(backend).calls()),
            ) == Some((final(self)@, r, Seq::<WatchCall>::empty())),
            r == SubscriptionOutcome::NoParent <==> parent_path(file@) is None,
            r == SubscriptionOutcome::Registered ==> exists|root: PathView, exists_now: bool|
                is_frontier(file@, root) && final(self)@ == #[trigger] subscribed(
                    old(self)@,
                    provider_id@,
                    file@,
                    root,
                    exists_now,
                    declared,
                ),
            r != SubscriptionOutcome::Registered ==> final(self)@ == old(self)@,
    {
        let ghost start = self@;
        let ghost empty = Seq::<WatchCall>::empty();
        let ghost c0 = backend.calls();
        if file.parent().is_none() {
            proof {
                lemma_no_calls(c0);
            }
            return SubscriptionOutcome::NoParent;
        }
        let found = ProviderWatchActor::compute_root(backend, file);
        let ghost c1 = backend.calls();
        let ghost log1 = new_calls(c0, c1);
        match found {
            None => SubscriptionOutcome::NoFrontier,
            Some(root) => {
                let watched = self.install_watch(backend, &root);
                let ghost c2 = backend.calls();
                let ghost log2 = new_calls(c1, c2);
                proof {
                    lemma_calls_add(c0, c1, c2);
                    lemma_frontier_goes_on(file@, log1, log2);
                    assert(empty + log2 =~= log2);
                }
                match watched {
                    Err(_) => SubscriptionOutcome::WatchFailed,
                    Ok(_) => {
                        let exists_now = backend.path_exists(file);
                        self.subscribe(provider_id, file, &root, exists_now, declared);
                        proof {
                            let c3 = backend.calls();
                            let call = WatchCall::PathExists { path: file@, answer: exists_now };
                            let log3 = new_calls(c2, c3);
                            lemma_one_call(c2, call);
                            lemma_calls_add(c1, c2, c3);
                            lemma_calls_add(c0, c1, c3);
                            lemma_subscription_told(
                                start,
                                provider_id@,
                                file@,
                                root@,
                                exists_now,
                                declared,
                                log1,
                                log2,
                                log3,
                            );
                            assert(self@ =~= subscribed(
                                start,
                                provider_id@,
                                file@,
                                root@,
                                exists_now,
                                declared,
                            ));
                        }
                        SubscriptionOutcome::Registered
                    },
                }
            },
        }
    }

    /// Replaces the subscriptions of a provider. Returns what became of each: a file that
    /// cannot be watched is skipped. Files that are not what they were when the provider
    /// subscribed to them are scheduled.
    pub fn handle_replace_provider<B: WatchBackend>(
        &mut self,
        backend: &mut RecordedBackend<B>,
        provider_id: &String,
        files: &Vec<FileSubscription>,
        cwd: &Option<LexicalPath>,
        now: u64,
    ) -> (r: Vec<SubscriptionOutcome>)
        requires
            old(self).well_formed(),
            now + PROVIDER_DEBOUNCE_MS <= u64::MAX,
        ensures
            final(self).well_formed(),
            calls_grow(old(backend).calls(), final(backend).calls()),
            exists|taken: Seq<PathView>, looked: Seq<PathView>| #[trigger]
                replace_told(
                    old(self)@,
                    provider_id@,
                    files@,
                    opt_path(*cwd),
                    now,
                    taken,
                    looked,
                    new_calls(old(backend).calls(), final(backend).calls()),
                ) == Some((final(self)@, r@, Seq::<WatchCall>::empty())),
            r@.len() == files@.len(),
            forall|i: int|
                0 <= i < files@.len() ==> (#[trigger] r@[i] == SubscriptionOutcome::NoParent
                    <==> parent_path(subscription_file(files@[i], opt_path(*cwd))) is None),
            files_of(final(self)@, provider_id@) == registered_files(
                files@,
                r@,
                opt_path(*cwd),
            ),
            files@.len() == 0 ==> exists|released: Set<PathView>| #[trigger]
                clear_outcome(old(self)@, provider_id@, final(self)@, released),
            forall|q: Seq<char>|
                q != provider_id@ ==> #[trigger] files_of(final(self)@, q) == files_of(
                    old(self)@,
                    q,
                ),
            forall|q: Seq<char>, f: PathView|
                q != provider_id@ && pending_of(old(self)@, f).contains(q)
                    ==> #[trigger] pending_of(final(self)@, f).contains(q),
            final(self)@.deadline == old(self)@.deadline || final(self)@.deadline == Some(
                (now + PROVIDER_DEBOUNCE_MS) as u64,
            ),
    {
        let ghost start = self@;
        let ghost p = provider_id@;
        let ghost dir = opt_path(*cwd);
        let ghost empty = Seq::<WatchCall>::empty();
        let ghost c0 = backend.calls();
        self.clear_provider(backend, provider_id);
        let ghost base = self@;
        let ghost c1 = backend.calls();
        let ghost log1 = new_calls(c0, c1);
        let ghost released = choose|released: Set<PathView>| #[trigger]
            clear_outcome(start, p, base, released);
        let ghost taken = choose|taken: Seq<PathView>| #[trigger]
            clear_told(start, p, taken, log1) == Some((base, empty));
        proof {
            law_cleared_provider_is_gone(start, p, released);
        }
        let mut outcomes: Vec<SubscriptionOutcome> = Vec::new();
        if files.len() == 0 {
            proof {
                let none = Seq::<PathView>::empty();
                assert(registered_files(files@, outcomes@, dir) =~= Set::<PathView>::empty());
                assert(enumerates(none, Set::<PathView>::empty()));
                assert(outcomes@ =~= Seq::<SubscriptionOutcome>::empty());
                assert(replace_told(start, p, files@, dir, now, taken, none, log1) == Some(
                    (self@, outcomes@, empty),
                ));
            }
            return outcomes;
        }
        let mut added: KeySet<LexicalPath> = KeySet::new();
        let mut i: usize = 0;
        assert(added@ =~= registered_files(files@, outcomes@, dir));
        proof {
            lemma_no_calls(c1);
            assert(files@.take(0) =~= Seq::<FileSubscription>::empty());
            assert(outcomes@ =~= Seq::<SubscriptionOutcome>::empty());
        }
        while i < files.len()
            invariant
                i <= files@.len(),
                empty == Seq::<WatchCall>::empty(),
                calls_grow(c1, backend.calls()),
                subscribe_all_told(
                    base,
                    p,
                    files@.take(i as int),
                    dir,
                    new_calls(c1, backend.calls()),
                ) == Some((self@, outcomes@, empty)),
                p == provider_id@,
                dir == opt_path(*cwd),
                outcomes@.len() == i,
                added@ == registered_files(files@, outcomes@, dir),
                partly_subscribed(base, self@, p, added@),
                forall|k: int|
                    0 <= k < i ==> (#[trigger] outcomes@[k] == SubscriptionOutcome::NoParent
                        <==> parent_path(subscription_file(files@[k], dir)) is None),
            decreases files@.len() - i,
        {
            let ghost before = self@;
            let ghost so_far = outcomes@;
            let ghost had = added@;
            let ghost c2 = backend.calls();
            let file = normalize_file_path(&files[i].path, cwd);
            let outcome = self.try_subscribe(
                backend,
                provider_id,
                &file,
                files[i].existed_at_declaration,
            );
            outcomes.push(outcome);
            proof {
                let log = new_calls(c1, c2);
                let step = new_calls(c2, backend.calls());
                lemma_calls_add(c1, c2, backend.calls());
                lemma_subscribe_all_goes_on(base, p, files@.take(i as int), dir, log, step);
                assert(empty + step =~= step);
                assert(files@.take(i + 1).drop_last() =~= files@.take(i as int));
                assert(files@.take(i + 1).last() == files@[i as int]);
            }
            if outcome == SubscriptionOutcome::Registered {
                proof {
                    let (root, exists_now) = choose|root: PathView, exists_now: bool|
                        is_frontier(file@, root) && self@ == #[trigger] subscribed(
                            before,
                            p,
                            file@,
                            root,
                            exists_now,
                            files@[i as int].existed_at_declaration,
                        );
                    lemma_subscribing(
                        base,
                        before,
                        p,
                        had,
                        file@,
                        root,
                        exists_now,
                        files@[i as int].existed_at_declaration,
                    );
                }
                added.insert(file);
            }
            proof {
                let all = registered_files(files@, outcomes@, dir);
                assert forall|f: PathView| all.contains(f) <==> added@.contains(f) by {
                    if added@.contains(f) {
                        if had.contains(f) {
                            let k = choose|k: int|
                                0 <= k < so_far.len() && #[trigger] so_far[k]
                                    == SubscriptionOutcome::Registered && subscription_file(
                                    files@[k],
                                    dir,
                                ) == f;
                            assert(outcomes@[k] == SubscriptionOutcome::Registered);
                        } else {
                            assert(outcomes@[i as int] == SubscriptionOutcome::Registered);
                        }
                    }
                    if all.contains(f) {
                        let k = choose|k: int|
                            0 <= k < outcomes@.len() && #[trigger] outcomes@[k]
                                == SubscriptionOutcome::Registered && subscription_file(
                                files@[k],
                                dir,
                            ) == f;
                        if k < i {
                            assert(so_far[k] == SubscriptionOutcome::Registered);
                            assert(had.contains(f));
                        }
                    }
                }
                assert(added@ =~= all);
            }
            i = i + 1;
        }
        let ghost wanted = added@;
        let list = added.to_list();
        let none_added = added.is_empty();
        let ghost partly = self@;
        let ghost c3 = backend.calls();
        let ghost log2 = new_calls(c1, c3);
        proof {
            assert(files@.take(files@.len() as int) =~= files@);
        }
        if !none_added {
            self.provider_files.insert(provider_id.clone(), added);
            proof {
                assert(self@ =~= (ActorView { files: partly.files.insert(p, wanted), ..partly }));
                assert(!base.files.dom().contains(p));
                lemma_subscribed_is_consistent(base, partly, p, wanted);
            }
        } else {
            proof {
                assert forall|f: PathView| partly.targets.dom().contains(f) implies
                    #[trigger] partly.targets[f].providers == base.targets[f].providers by {
                    assert(!wanted.contains(f));
                    assert(base.targets.dom().contains(f));
                }
                assert(partly.targets.dom() =~= base.targets.dom());
                assert(progressed(base, partly, now));
                lemma_progress_is_consistent(base, partly, now);
            }
        }
        let ghost settled = self@;
        assert(settled == entered(partly, p, wanted));
        assert(files_of(settled, p) =~= wanted);
        self.reconcile_all(backend, &list, now);
        proof {
            let looked = path_views(list@);
            let c4 = backend.calls();
            let log3 = new_calls(c3, c4);
            lemma_enumeration(list@, wanted);
            lemma_calls_add(c1, c3, c4);
            lemma_calls_add(c0, c1, c4);
            let tail = log2 + log3;
            lemma_clear_goes_on(start, p, taken, log1, tail);
            assert(empty + tail =~= tail);
            lemma_subscribe_all_goes_on(base, p, files@, dir, log2, log3);
            assert(empty + log3 =~= log3);
            assert(replace_told(start, p, files@, dir, now, taken, looked, new_calls(c0, c4))
                == Some((self@, outcomes@, empty)));
            lemma_progress_is_consistent(settled, self@, now);
            assert forall|q: Seq<char>, f: PathView| q != p && pending_of(start, f).contains(
                q,
            ) implies #[trigger] pending_of(self@, f).contains(q) by {
                assert(pending_of(base, f).contains(q));
                assert(settled.pending == base.pending);
                assert(settled.pending.dom().contains(f));
                assert(self@.pending.dom().contains(f));
            }
            assert(files_of(self@, p) == files_of(settled, p));
        }
        outcomes
    }
}


/// The registry after an event that names a known file: its providers are scheduled
/// whatever the event says of the file.
pub open spec fn touched(a: ActorView, file: PathView, exists_now: bool, now: u64) -> ActorView {
    let b = scheduled(a, file, now);
    ActorView {
        targets: b.targets.insert(file, TargetView { last_seen: exists_now, ..b.targets[file] }),
        ..b
    }
}

/// An interesting event on a known file schedules all its providers.
pub open spec fn event_is_noted(a: ActorView, b: ActorView, file: PathView, now: u64) -> bool {
    a.targets.dom().contains(file) ==> providers_of(a, file).subset_of(pending_of(b, file))
        && b.deadline == Some((now + PROVIDER_DEBOUNCE_MS) as u64)
}

proof fn lemma_noted_stays(a: ActorView, b: ActorView, c: ActorView, file: PathView, now: u64)
    requires
        event_is_noted(a, b, file, now),
        progressed(b, c, now),
    ensures
        event_is_noted(a, c, file, now),
{
    if a.targets.dom().contains(file) {
        if b.pending.dom().contains(file) {
            assert(c.pending.dom().contains(file));
        } else {
            assert(providers_of(a, file) =~= Set::<Seq<char>>::empty());
        }
    }
}

/// The registry after something happened at a directory, as calls tell: each file watched
/// through it is moved and looked at, in some order. The watch of a directory that was
/// removed is gone first.
pub open spec fn root_told(
    a: ActorView,
    root: PathView,
    removed: bool,
    now: u64,
    order: Seq<PathView>,
    log: Seq<WatchCall>,
) -> Option<(ActorView, Seq<WatchCall>)> {
    if enumerates(order, targets_at(a, root)) {
        let ready = if removed {
            without_root(a, root)
        } else {
            a
        };
        reconcile_all_told(ready, order, now, log)
    } else {
        None
    }
}

/// The registry after something happened at the directory above a path, if files are watched
/// through it.
pub open spec fn parent_told(
    a: ActorView,
    path: PathView,
    removal: bool,
    now: u64,
    order: Seq<PathView>,
    log: Seq<WatchCall>,
) -> Option<(ActorView, Seq<WatchCall>)> {
    match parent_path(path) {
        Some(dir) => if a.roots.dom().contains(dir) {
            root_told(a, dir, removal && dir == path, now, order, log)
        } else {
            Some((a, log))
        },
        None => Some((a, log)),
    }
}

/// The registry after something happened at a path, as calls tell. A known file is scheduled.
/// Any other path may be one through whose parent, or through which, files are watched; the
/// two orders are those in which these files are looked at.
pub open spec fn path_told(
    a: ActorView,
    path: PathView,
    removal: bool,
    now: u64,
    orders: (Seq<PathView>, Seq<PathView>),
    log: Seq<WatchCall>,
) -> Option<(ActorView, Seq<WatchCall>)> {
    if a.targets.dom().contains(path) {
        match exists_answer(log, path) {
            None => None,
            Some(exists_now) => Some((touched(a, path, exists_now, now), log.drop_first())),
        }
    } else {
        match parent_told(a, path, removal, now, orders.0, log) {
            None => None,
            Some((b, rest)) => if a.roots.dom().contains(path) {
                root_told(b, path, removal, now, orders.1, rest)
            } else {
                Some((b, rest))
            },
        }
    }
}

/// The registry after something happened at several paths, one after the other.
pub open spec fn paths_told(
    a: ActorView,
    paths: Seq<PathView>,
    removal: bool,
    now: u64,
    orders: Seq<(Seq<PathView>, Seq<PathView>)>,
    log: Seq<WatchCall>,
) -> Option<(ActorView, Seq<WatchCall>)>
    decreases paths.len(),
{
    if paths.len() == 0 {
        Some((a, log))
    } else {
        match paths_told(a, paths.drop_last(), removal, now, orders.drop_last(), log) {
            None => None,
            Some((b, rest)) => path_told(b, paths.last(), removal, now, orders.last(), rest),
        }
    }
}

/// The registry after an event of the file system, as calls tell: errors and kinds that change
/// nothing are passed over.
pub open spec fn event_told(
    a: ActorView,
    event: Result<FileEvent, String>,
    cwd: Option<PathView>,
    now: u64,
    orders: Seq<(Seq<PathView>, Seq<PathView>)>,
    log: Seq<WatchCall>,
) -> Option<(ActorView, Seq<WatchCall>)> {
    match event {
        Err(_) => Some((a, log)),
        Ok(e) => if is_interesting(e.kind) {
            paths_told(a, event_paths(e, cwd), is_removal(e.kind), now, orders, log)
        } else {
            Some((a, log))
        },
    }
}

proof fn lemma_parent_goes_on(
    a: ActorView,
    path: PathView,
    removal: bool,
    now: u64,
    order: Seq<PathView>,
    log: Seq<WatchCall>,
    more: Seq<WatchCall>,
)
    requires
        parent_told(a, path, removal, now, order, log) is Some,
    ensures
        parent_told(a, path, removal, now, order, log + more) == Some(
            (
                parent_told(a, path, removal, now, order, log).unwrap().0,
                parent_told(a, path, removal, now, order, log).unwrap().1 + more,
            ),
        ),
{
    match parent_path(path) {
        Some(dir) => {
            if a.roots.dom().contains(dir) {
                let ready = if removal && dir == path {
                    without_root(a, dir)
                } else {
                    a
                };
                lemma_reconcile_all_goes_on(ready, order, now, log, more);
            }
        },
        None => {},
    }
}

proof fn lemma_path_goes_on(
    a: ActorView,
    path: PathView,
    removal: bool,
    now: u64,
    orders: (Seq<PathView>, Seq<PathView>),
    log: Seq<WatchCall>,
    more: Seq<WatchCall>,
)
    requires
        path_told(a, path, removal, now, orders, log) is Some,
    ensures
        path_told(a, path, removal, now, orders, log + more) == Some(
            (
                path_told(a, path, removal, now, orders, log).unwrap().0,
                path_told(a, path, removal, now, orders, log).unwrap().1 + more,
            ),
        ),
{
    if a.targets.dom().contains(path) {
        lemma_first_call_stays(log, more);
    } else {
        lemma_parent_goes_on(a, path, removal, now, orders.0, log, more);
        let (b, rest) = parent_told(a, path, removal, now, orders.0, log).unwrap();
        if a.roots.dom().contains(path) {
            let ready = if removal {
                without_root(b, path)
            } else {
                b
            };
            lemma_reconcile_all_goes_on(ready, orders.1, now, rest, more);
        }
    }
}

proof fn lemma_paths_go_on(
    a: ActorView,
    paths: Seq<PathView>,
    removal: bool,
    now: u64,
    orders: Seq<(Seq<PathView>, Seq<PathView>)>,
    log: Seq<WatchCall>,
    more: Seq<WatchCall>,
)
    requires
        paths_told(a, paths, removal, now, orders, log) is Some,
    ensures
        paths_told(a, paths, removal, now, orders, log + more) == Some(
            (
                paths_told(a, paths, removal, now, orders, log).unwrap().0,
                paths_told(a, paths, removal, now, orders, log).unwrap().1 + more,
            ),
        ),
    decreases paths.len(),
{
    if paths.len() > 0 {
        lemma_paths_go_on(a, paths.drop_last(), removal, now, orders.drop_last(), log, more);
        let (b, rest) = paths_told(
            a,
            paths.drop_last(),
            removal,
            now,
            orders.drop_last(),
            log,
        ).unwrap();
        lemma_path_goes_on(b, paths.last(), removal, now, orders.last(), rest, more);
    }
}

/// The providers to announce, over all files.
pub open spec fn pending_ids(a: ActorView) -> Set<Seq<char>> {
    Set::new(|id: Seq<char>| exists|f: PathView| #[trigger] pending_of(a, f).contains(id))
}

/// Nothing is to be announced any more.
pub open spec fn announced(a: ActorView) -> ActorView {
    ActorView { deadline: None, pending: Map::empty(), ..a }
}

impl ProviderWatchActor {
    /// Takes in an event on a known file.
    fn touch(&mut self, file: &LexicalPath, exists_now: bool, now: u64)
        requires
            old(self)@.targets.dom().contains(file@),
            now + PROVIDER_DEBOUNCE_MS <= u64::MAX,
        ensures
            final(self)@ == touched(old(self)@, file@, exists_now, now),
    {
        self.schedule(file, now);
        match self.targets.remove(file) {
            Some(state) => {
                let mut seen = state;
                seen.last_observed_existence = exists_now;
                self.targets.insert(file.clone(), seen);
            },
            None => {},
        }
        assert(self@ =~= touched(old(self)@, file@, exists_now, now));
    }

    /// The files watched through a directory, each once.
    fn files_at(&self, root: &LexicalPath) -> (r: Vec<LexicalPath>)
        ensures
            enumerates(path_views(r@), targets_at(self@, root@)),
    {
        match self.watch_roots.get(root) {
            Some(set) => {
                let list = set.to_list();
                proof {
                    lemma_enumeration(list@, targets_at(self@, root@));
                }
                list
            },
            None => {
                let none: Vec<LexicalPath> = Vec::new();
                proof {
                    lemma_enumeration(none@, targets_at(self@, root@));
                }
                none
            },
        }
    }

    /// Moves each file of a list, and looks at it.
    fn reconcile_all<B: WatchBackend>(
        &mut self,
        backend: &mut RecordedBackend<B>,
        list: &Vec<LexicalPath>,
        now: u64,
    )
        requires
            now + PROVIDER_DEBOUNCE_MS <= u64::MAX,
        ensures
            calls_grow(old(backend).calls(), final(backend).calls()),
            reconcile_all_told(
                old(self)@,
                path_views(list@),
                now,
                new_calls(old(backend).calls(), final(backend).calls()),
            ) == Some((final(self)@, Seq::<WatchCall>::empty())),
            progressed(old(self)@, final(self)@, now),
    {
        let ghost start = self@;
        let ghost empty = Seq::<WatchCall>::empty();
        let ghost c0 = backend.calls();
        let ghost all = path_views(list@);
        let mut i: usize = 0;
        proof {
            lemma_no_calls(c0);
            assert(all.take(0) =~= Seq::<PathView>::empty());
        }
        while i < list.len()
            invariant
                i <= list@.len(),
                all == path_views(list@),
                empty == Seq::<WatchCall>::empty(),
                c0 == old(backend).calls(),
                now + PROVIDER_DEBOUNCE_MS <= u64::MAX,
                calls_grow(c0, backend.calls()),
                reconcile_all_told(
                    start,
                    all.take(i as int),
                    now,
                    new_calls(c0, backend.calls()),
                ) == Some((self@, empty)),
                progressed(start, self@, now),
            decreases list@.len() - i,
        {
            let ghost before = self@;
            let ghost c1 = backend.calls();
            let changed = self.reconcile_target(backend, &list[i], now);
            proof {
                let log = new_calls(c0, c1);
                let step = new_calls(c1, backend.calls());
                lemma_progress_continues(start, before, self@, now);
                lemma_calls_add(c0, c1, backend.calls());
                lemma_reconcile_all_goes_on(start, all.take(i as int), now, log, step);
                assert(empty + step =~= step);
                assert(all.take(i + 1).drop_last() =~= all.take(i as int));
                assert(all.take(i + 1).last() == list@[i as int]@);
            }
            i = i + 1;
        }
        assert(all.take(list@.len() as int) =~= all);
    }

    /// Reconciles the files watched through a directory; after a removal of the directory
    /// itself its watch is gone first.
    fn reconcile_root<B: WatchBackend>(
        &mut self,
        backend: &mut RecordedBackend<B>,
        root: &LexicalPath,
        removed: bool,
        now: u64,
    )
        requires
            now + PROVIDER_DEBOUNCE_MS <= u64::MAX,
        ensures
            calls_grow(old(backend).calls(), final(backend).calls()),
            exists|order: Seq<PathView>| #[trigger]
                root_told(
                    old(self)@,
                    root@,
                    removed,
                    now,
                    order,
                    new_calls(old(backend).calls(), final(backend).calls()),
                ) == Some((final(self)@, Seq::<WatchCall>::empty())),
            progressed(old(self)@, final(self)@, now),
    {
        let ghost start = self@;
        let ghost c0 = backend.calls();
        let list = self.files_at(root);
        if removed {
            self.leave_root(root);
        }
        let ghost ready = self@;
        assert(progressed(start, ready, now));
        self.reconcile_all(backend, &list, now);
        proof {
            lemma_progress_continues(start, ready, self@, now);
            let log = new_calls(c0, backend.calls());
            assert(root_told(start, root@, removed, now, path_views(list@), log) == Some(
                (self@, Seq::<WatchCall>::empty()),
            ));
        }
    }

    /// Takes in what happened at one path.
    fn note_path<B: WatchBackend>(
        &mut self,
        backend: &mut RecordedBackend<B>,
        path: &LexicalPath,
        removal: bool,
        now: u64,
    )
        requires
            now + PROVIDER_DEBOUNCE_MS <= u64::MAX,
        ensures
            calls_grow(old(backend).calls(), final(backend).calls()),
            exists|orders: (Seq<PathView>, Seq<PathView>)| #[trigger]
                path_told(
                    old(self)@,
                    path@,
                    removal,
                    now,
                    orders,
                    new_calls(old(backend).calls(), final(backend).calls()),
                ) == Some((final(self)@, Seq::<WatchCall>::empty())),
            progressed(old(self)@, final(self)@, now),
            event_is_noted(old(self)@, final(self)@, path@, now),
    {
        let ghost start = self@;
        let ghost empty = Seq::<WatchCall>::empty();
        let ghost none = Seq::<PathView>::empty();
        let ghost c0 = backend.calls();
        if self.targets.contains(path) {
            let exists_now = backend.path_exists(path);
            self.touch(path, exists_now, now);
            assert(self@.targets.dom() =~= start.targets.dom());
            proof {
                let call = WatchCall::PathExists { path: path@, answer: exists_now };
                let log = new_calls(c0, backend.calls());
                lemma_one_call(c0, call);
                assert(log.drop_first() =~= empty);
                assert(path_told(start, path@, removal, now, (none, none), log) == Some(
                    (self@, empty),
                ));
            }
            return;
        }
        let parent_root = match path.parent() {
            Some(dir) => if self.watch_roots.contains(&dir) {
                Some(dir)
            } else {
                None
            },
            None => None,
        };
        let is_root = self.watch_roots.contains(path);
        proof {
            lemma_no_calls(c0);
        }
        let ghost mut first = none;
        match parent_root {
            Some(dir) => {
                let removed = removal && dir.same_path(path);
                self.reconcile_root(backend, &dir, removed, now);
                proof {
                    let log = new_calls(c0, backend.calls());
                    first = choose|order: Seq<PathView>| #[trigger]
                        root_told(start, dir@, removed, now, order, log) == Some((self@, empty));
                }
            },
            None => {},
        }
        let ghost half = self@;
        let ghost c1 = backend.calls();
        let ghost log1 = new_calls(c0, c1);
        assert(parent_told(start, path@, removal, now, first, log1) == Some((half, empty)));
        if is_root {
            self.reconcile_root(backend, path, removal, now);
            proof {
                lemma_progress_continues(start, half, self@, now);
                let c2 = backend.calls();
                let log2 = new_calls(c1, c2);
                let second = choose|order: Seq<PathView>| #[trigger]
                    root_told(half, path@, removal, now, order, log2) == Some((self@, empty));
                lemma_calls_add(c0, c1, c2);
                lemma_parent_goes_on(start, path@, removal, now, first, log1, log2);
                assert(empty + log2 =~= log2);
                assert(path_told(start, path@, removal, now, (first, second), log1 + log2)
                    == Some((self@, empty)));
            }
        } else {
            assert(path_told(start, path@, removal, now, (first, none), log1) == Some(
                (self@, empty),
            ));
        }
    }

    /// Takes in an event of the file system.
    pub fn handle_fs_event<B: WatchBackend>(
        &mut self,
        backend: &mut RecordedBackend<B>,
        event: &Result<FileEvent, String>,
        cwd: &Option<LexicalPath>,
        now: u64,
    )
        requires
            old(self).well_formed(),
            now + PROVIDER_DEBOUNCE_MS <= u64::MAX,
        ensures
            final(self).well_formed(),
            calls_grow(old(backend).calls(), final(backend).calls()),
            exists|orders: Seq<(Seq<PathView>, Seq<PathView>)>| #[trigger]
                event_told(
                    old(self)@,
                    *event,
                    opt_path(*cwd),
                    now,
                    orders,
                    new_calls(old(backend).calls(), final(backend).calls()),
                ) == Some((final(self)@, Seq::<WatchCall>::empty())),
            progressed(old(self)@, final(self)@, now),
            event is Err ==> final(self)@ == old(self)@,
            event matches Ok(e) ==> (!is_interesting(e.kind) ==> final(self)@ == old(self)@),
            event matches Ok(e) ==> (is_interesting(e.kind) ==> forall|i: int|
                0 <= i < e.paths@.len() ==> event_is_noted(
                    old(self)@,
                    final(self)@,
                    absolute_from((#[trigger] e.paths@[i])@, opt_path(*cwd)),
                    now,
                )),
    {
        let ghost start = self@;
        let ghost empty = Seq::<WatchCall>::empty();
        let ghost c0 = backend.calls();
        let ghost dir = opt_path(*cwd);
        let ghost whole = *event;
        let ghost mut orders = Seq::<(Seq<PathView>, Seq<PathView>)>::empty();
        proof {
            lemma_no_calls(c0);
        }
        let event = match event {
            Ok(event) => event,
            Err(_) => {
                assert(event_told(start, whole, dir, now, orders, empty) == Some((start, empty)));
                return;
            },
        };
        if !is_interesting_event_kind(&event.kind) {
            assert(event_told(start, whole, dir, now, orders, empty) == Some((start, empty)));
            return;
        }
        let removal = is_removal_event_kind(&event.kind);
        let ghost all = event_paths(*event, dir);
        proof {
            assert(all.take(0) =~= Seq::<PathView>::empty());
        }
        let mut i: usize = 0;
        while i < event.paths.len()
            invariant
                i <= event.paths@.len(),
                dir == opt_path(*cwd),
                all == event_paths(*event, dir),
                empty == Seq::<WatchCall>::empty(),
                c0 == old(backend).calls(),
                calls_grow(c0, backend.calls()),
                paths_told(
                    start,
                    all.take(i as int),
                    removal,
                    now,
                    orders,
                    new_calls(c0, backend.calls()),
                ) == Some((self@, empty)),
                now + PROVIDER_DEBOUNCE_MS <= u64::MAX,
                progressed(start, self@, now),
                forall|k: int|
                    0 <= k < i ==> event_is_noted(
                        start,
                        self@,
                        absolute_from((#[trigger] event.paths@[k])@, dir),
                        now,
                    ),
            decreases event.paths@.len() - i,
        {
            let ghost before = self@;
            let ghost c1 = backend.calls();
            let path = normalize_event_path(&event.paths[i], cwd);
            self.note_path(backend, &path, removal, now);
            proof {
                let log = new_calls(c0, c1);
                let step = new_calls(c1, backend.calls());
                let pair = choose|pair: (Seq<PathView>, Seq<PathView>)| #[trigger]
                    path_told(before, path@, removal, now, pair, step) == Some((self@, empty));
                lemma_calls_add(c0, c1, backend.calls());
                lemma_paths_go_on(start, all.take(i as int), removal, now, orders, log, step);
                assert(empty + step =~= step);
                assert(all.take(i + 1).drop_last() =~= all.take(i as int));
                assert(all.take(i + 1).last() == path@);
                assert(orders.push(pair).drop_last() =~= orders);
                orders = orders.push(pair);
                lemma_progress_continues(start, before, self@, now);
                assert(event_is_noted(start, self@, path@, now)) by {
                    if start.targets.dom().contains(path@) {
                        assert(before.targets[path@].providers == start.targets[path@].providers);
                    }
                }
                assert forall|k: int| 0 <= k < i implies event_is_noted(
                    start,
                    self@,
                    absolute_from((#[trigger] event.paths@[k])@, dir),
                    now,
                ) by {
                    lemma_noted_stays(
                        start,
                        before,
                        self@,
                        absolute_from(event.paths@[k]@, dir),
                        now,
                    );
                }
            }
            i = i + 1;
        }
        proof {
            lemma_progress_is_consistent(start, self@, now);
            assert(all.take(event.paths@.len() as int) =~= all);
            assert(event_told(start, whole, dir, now, orders, new_calls(c0, backend.calls()))
                == Some((self@, empty)));
        }
    }

    /// Announces the collected providers, in ascending order, each once.
    pub fn handle_deadline(&mut self) -> (r: Option<ProviderWatchEvent>)
        ensures
            final(self)@ == announced(old(self)@),
            old(self).well_formed() ==> final(self).well_formed(),
            r is None <==> pending_ids(old(self)@) == Set::<Seq<char>>::empty(),
            r matches Some(ProviderWatchEvent::ProvidersChanged(ids)) ==> ascending(views(ids@))
                && forall|id: Seq<char>|
                views(ids@).contains(id) <==> pending_ids(old(self)@).contains(id),
    {
        let ghost start = self@;
        let keys = self.pending_snapshots.keys();
        let mut all: KeySet<String> = KeySet::new();
        let mut i: usize = 0;
        while i < keys.len()
            invariant
                i <= keys@.len(),
                self@ == start,
                forall|id: Seq<char>| #[trigger]
                    all@.contains(id) <==> exists|k: int|
                        0 <= k < i && pending_of(start, (#[trigger] keys@[k])@).contains(id),
            decreases keys@.len() - i,
        {
            let ghost before = all@;
            let ghost file = keys@[i as int]@;
            match self.pending_snapshots.get(&keys[i]) {
                Some(set) => {
                    all.extend(set);
                },
                None => {},
            }
            assert(all@ =~= before.union(pending_of(start, file)));
            assert forall|id: Seq<char>| #[trigger] all@.contains(id) <==> exists|k: int|
                0 <= k < i + 1 && pending_of(start, (#[trigger] keys@[k])@).contains(id) by {
                if all@.contains(id) {
                    if before.contains(id) {
                        let k = choose|k: int|
                            0 <= k < i && pending_of(start, (#[trigger] keys@[k])@).contains(id);
                        assert(pending_of(start, keys@[k]@).contains(id));
                    } else {
                        assert(pending_of(start, keys@[i as int]@).contains(id));
                    }
                }
                if exists|k: int|
                    0 <= k < i + 1 && pending_of(start, (#[trigger] keys@[k])@).contains(id) {
                    let k = choose|k: int|
                        0 <= k < i + 1 && pending_of(start, (#[trigger] keys@[k])@).contains(id);
                    if k < i {
                        assert(before.contains(id));
                    }
                }
            }
            i = i + 1;
        }
        assert forall|id: Seq<char>| all@.contains(id) <==> pending_ids(start).contains(id) by {
            if all@.contains(id) {
                let k = choose|k: int|
                    0 <= k < keys@.len() && pending_of(start, (#[trigger] keys@[k])@).contains(id);
                assert(pending_of(start, keys@[k]@).contains(id));
            }
            if pending_ids(start).contains(id) {
                let f = choose|f: PathView| #[trigger] pending_of(start, f).contains(id);
                assert(start.pending.dom().contains(f));
                let k = choose|k: int| 0 <= k < keys@.len() && (#[trigger] keys@[k])@ == f;
                assert(pending_of(start, keys@[k]@).contains(id));
            }
        }
        assert(all@ =~= pending_ids(start));
        self.global_deadline = None;
        self.pending_snapshots = Table::new();
        assert(self@ =~= announced(start));
        proof {
            if consistent(start) {
                lemma_announced_is_consistent(start);
            }
        }
        if all.is_empty() {
            return None;
        }
        let list = all.to_list();
        let ids = sorted_distinct(&list);
        proof {
            assert forall|id: Seq<char>| views(ids@).contains(id) <==> pending_ids(start).contains(
                id,
            ) by {
                if views(list@).contains(id) {
                    let k = choose|k: int| 0 <= k < views(list@).len() && views(list@)[k] == id;
                    assert(list@[k]@ == id);
                }
                if all@.contains(id) {
                    let k = choose|k: int| 0 <= k < list@.len() && (#[trigger] list@[k])@ == id;
                    assert(views(list@)[k] == id);
                }
            }
        }
        Some(ProviderWatchEvent::ProvidersChanged(ids))
    }

    /// Carries out a command. Returns what became of each subscription of a replacement.
    pub fn handle_command<B: WatchBackend>(
        &mut self,
        backend: &mut RecordedBackend<B>,
        command: &ProviderWatchCommand,
        cwd: &Option<LexicalPath>,
        now: u64,
    ) -> (r: Vec<SubscriptionOutcome>)
        requires
            old(self).well_formed(),
            now + PROVIDER_DEBOUNCE_MS <= u64::MAX,
        ensures
            final(self).well_formed(),
            calls_grow(old(backend).calls(), final(backend).calls()),
            command matches ProviderWatchCommand::ClearProvider { provider_id } ==> {
                &&& r@.len() == 0
                &&& exists|released: Set<PathView>| #[trigger]
                    clear_outcome(old(self)@, provider_id@, final(self)@, released)
                &&& exists|order: Seq<PathView>| #[trigger]
                    clear_told(
                        old(self)@,
                        provider_id@,
                        order,
                        new_calls(old(backend).calls(), final(backend).calls()),
                    ) == Some((final(self)@, Seq::<WatchCall>::empty()))
            },
            command matches ProviderWatchCommand::ReplaceProvider { provider_id, files } ==> {
                &&& exists|taken: Seq<PathView>, looked: Seq<PathView>| #[trigger]
                    replace_told(
                        old(self)@,
                        provider_id@,
                        files@,
                        opt_path(*cwd),
                        now,
                        taken,
                        looked,
                        new_calls(old(backend).calls(), final(backend).calls()),
                    ) == Some((final(self)@, r@, Seq::<WatchCall>::empty()))
                &&& r@.len() == files@.len()
                &&& files_of(final(self)@, provider_id@) == registered_files(
                    files@,
                    r@,
                    opt_path(*cwd),
                )
                &&& forall|q: Seq<char>|
                    q != provider_id@ ==> #[trigger] files_of(final(self)@, q) == files_of(
                        old(self)@,
                        q,
                    )
            },
    {
        match command {
            ProviderWatchCommand::ClearProvider { provider_id } => {
                self.clear_provider(backend, provider_id);
                Vec::new()
            },
            ProviderWatchCommand::ReplaceProvider { provider_id, files } => {
                self.handle_replace_provider(backend, provider_id, files, cwd, now)
            },
        }
    }
}

proof fn lemma_announced_is_consistent(a: ActorView)
    requires
        consistent(a),
    ensures
        consistent(announced(a)),
{
    let b = announced(a);
    assert forall|p: Seq<char>, f: PathView|
        files_of(b, p).contains(f) <==> #[trigger] providers_of(b, f).contains(p) by {
        assert(files_of(a, p).contains(f) <==> providers_of(a, f).contains(p));
    }
}

/// Between an event on a file and the announcement, the providers of the file stay to be
/// announced, whatever other events come; clearing one of them takes only that one away.
pub proof fn law_change_is_announced(
    a: ActorView,
    b: ActorView,
    file: PathView,
    now: u64,
    cleared_provider: Seq<char>,
    released: Set<PathView>,
    id: Seq<char>,
)
    requires
        consistent(a),
        progressed(a, b, now),
        event_is_noted(a, b, file, now),
        providers_of(a, file).contains(id),
    ensures
        pending_ids(b).contains(id),
        id != cleared_provider ==> pending_ids(cleared(b, cleared_provider, released)).contains(id),
        !pending_ids(cleared(b, cleared_provider, released)).contains(cleared_provider),
{
    let c = cleared(b, cleared_provider, released);
    lemma_progress_is_consistent(a, b, now);
    law_cleared_provider_is_gone(b, cleared_provider, released);
    assert(pending_of(b, file).contains(id));
    if id != cleared_provider {
        assert(pending_of(c, file).contains(id));
    }
    assert forall|f: PathView| !(#[trigger] pending_of(c, f).contains(cleared_provider)) by {
        assert(!pending_of(c, f).contains(cleared_provider));
    }
}

} // verus!
