//! What becomes of the subscriptions of the providers, whatever the operating system answers.

use crate::event_laws::{is_change, leads_to};
use crate::lexical_path::{parent_path, path_ancestors, LexicalPath};
use crate::provider_watch::{
    attached, clear_outcome, cleared, detached, dir_answer, event_told, exists_answer, files_of,
    frontier_told, law_cleared_provider_is_gone, leave_told, nearest_told, new_calls, path_told,
    paths_told, pending_of, providers_of, reconcile_all_told, reconcile_told, registered_files,
    release_told, root_of, root_told, subscription_file, watch_told, without_root, ActorView,
    FileSubscription, PathView, ProviderWatchActor, ProviderWatchCommand, RecordedBackend,
    SubscriptionOutcome, WatchBackend, WatchCall,
};
use crate::watch_event::{FileEvent, RecursiveMode};
use vstd::prelude::*;

verus! {

/// A registry that is new knows nothing.
pub proof fn law_new_registry_is_empty(r: ProviderWatchActor)
    requires
        call_ensures(ProviderWatchActor::new, (), r),
    ensures
        forall|id: Seq<char>| !#[trigger] r@.files.dom().contains(id),
        forall|f: PathView| !#[trigger] r@.targets.dom().contains(f),
        forall|f: PathView| !#[trigger] r@.roots.dom().contains(f),
        forall|f: PathView| !#[trigger] r@.pending.dom().contains(f),
        r@.deadline is None,
{
}

/// The time of the next announcement is what the registry holds.
pub proof fn law_deadline_is_read(actor: &ProviderWatchActor, r: Option<u64>)
    requires
        call_ensures(ProviderWatchActor::deadline, (actor,), r),
    ensures
        r == actor@.deadline,
{
}

/// True if a subscription was registered and speaks of a file.
pub open spec fn is_registered_for(
    sub: FileSubscription,
    outcome: SubscriptionOutcome,
    dir: Option<LexicalPath>,
    file: PathView,
) -> bool {
    outcome is Registered && leads_to(sub.path@, dir, file)
}

/// True if a file is one that a provider depends on.
pub open spec fn depends_on(actor: ProviderWatchActor, id: Seq<char>, file: PathView) -> bool {
    actor@.files.dom().contains(id) && actor@.files[id].contains(file)
}

/// True if a provider is to be announced for a file.
pub open spec fn is_pending(actor: ProviderWatchActor, id: Seq<char>, file: PathView) -> bool {
    actor@.pending.dom().contains(file) && actor@.pending[file].contains(id)
}

/// After its subscriptions were replaced a provider depends on exactly the files of those
/// that were registered, and each of them knows it. Only a path without a parent is refused
/// as such. What the other providers depend on stays.
pub proof fn law_provider_has_what_was_registered<B: WatchBackend>(
    actor: &mut ProviderWatchActor,
    backend: &mut RecordedBackend<B>,
    provider_id: String,
    files: Vec<FileSubscription>,
    dir: &Option<LexicalPath>,
    now: u64,
    r: Vec<SubscriptionOutcome>,
)
    requires
        old(actor).well_formed(),
        now + 1000 <= u64::MAX,
        call_ensures(
            ProviderWatchActor::handle_command::<B>,
            (
                actor,
                backend,
                &ProviderWatchCommand::ReplaceProvider { provider_id, files },
                dir,
                now,
            ),
            r,
        ) || call_ensures(
            ProviderWatchActor::handle_replace_provider::<B>,
            (actor, backend, &provider_id, &files, dir, now),
            r,
        ),
    ensures
        r@.len() == files@.len(),
        forall|i: int, file: PathView|
            0 <= i < files@.len() && #[trigger] is_registered_for(files@[i], r@[i], *dir, file)
                ==> depends_on(*final(actor), provider_id@, file),
        forall|file: PathView| #[trigger]
            depends_on(*final(actor), provider_id@, file) ==> exists|i: int|
                0 <= i < files@.len() && #[trigger] is_registered_for(
                    files@[i],
                    r@[i],
                    *dir,
                    file,
                ),
        forall|id: Seq<char>, file: PathView| #[trigger]
            depends_on(*final(actor), id, file) <==> final(actor)@.targets.dom().contains(file)
                && final(actor)@.targets[file].providers.contains(id),
        forall|id: Seq<char>, file: PathView|
            id != provider_id@ ==> (#[trigger] depends_on(*final(actor), id, file) <==> depends_on(
                *old(actor),
                id,
                file,
            )),
{
    let after = final(actor)@;
    let cwd = crate::watch_event::opt_path(*dir);
    let outcomes = r@;
    let wanted = registered_files(files@, outcomes, cwd);
    assert(files_of(after, provider_id@) == wanted);
    assert forall|i: int, file: PathView|
        0 <= i < files@.len() && #[trigger] is_registered_for(
            files@[i],
            r@[i],
            *dir,
            file,
        ) implies depends_on(*final(actor), provider_id@, file) by {
        let path = files@[i].path@;
        assert(path.skip(1) =~= path.drop_first());
        assert(outcomes[i] == SubscriptionOutcome::Registered);
        assert(subscription_file(files@[i], cwd) == file);
        assert(wanted.contains(file));
    }
    assert forall|file: PathView| #[trigger]
        depends_on(*final(actor), provider_id@, file) implies exists|i: int|
        0 <= i < files@.len() && #[trigger] is_registered_for(files@[i], r@[i], *dir, file) by {
        assert(files_of(after, provider_id@).contains(file));
        assert(wanted.contains(file));
        let i = choose|i: int|
            0 <= i < outcomes.len() && #[trigger] outcomes[i] == SubscriptionOutcome::Registered
                && subscription_file(files@[i], cwd) == file;
        let path = files@[i].path@;
        assert(path.skip(1) =~= path.drop_first());
        assert(is_registered_for(files@[i], r@[i], *dir, file));
    }
    assert forall|id: Seq<char>, file: PathView| #[trigger]
        depends_on(*final(actor), id, file) <==> after.targets.dom().contains(file)
            && after.targets[file].providers.contains(id) by {
        assert(providers_of(after, file).contains(id) <==> files_of(after, id).contains(file));
    }
    assert forall|id: Seq<char>, file: PathView| id != provider_id@ implies (
    #[trigger] depends_on(*final(actor), id, file) <==> depends_on(*old(actor), id, file)) by {
        assert(files_of(after, id) == files_of(old(actor)@, id));
        assert(files_of(after, id).contains(file) <==> files_of(old(actor)@, id).contains(file));
    }
}

/// A subscription is refused for want of a parent exactly where its path has none: it is the
/// root or has no component.
pub proof fn law_only_a_path_without_parent_is_refused_as_such<B: WatchBackend>(
    actor: &mut ProviderWatchActor,
    backend: &mut RecordedBackend<B>,
    provider_id: &String,
    files: &Vec<FileSubscription>,
    dir: &Option<LexicalPath>,
    now: u64,
    r: Vec<SubscriptionOutcome>,
    i: int,
    file: PathView,
)
    requires
        old(actor).well_formed(),
        now + 1000 <= u64::MAX,
        call_ensures(
            ProviderWatchActor::handle_replace_provider::<B>,
            (actor, backend, provider_id, files, dir, now),
            r,
        ),
        0 <= i < files@.len(),
        leads_to(files@[i].path@, *dir, file),
    ensures
        r@[i] is NoParent <==> file.len() == 0 || file.last() == seq!['/'],
{
    let path = files@[i].path@;
    assert(path.skip(1) =~= path.drop_first());
    let cwd = crate::watch_event::opt_path(*dir);
    assert(subscription_file(files@[i], cwd) == file);
    assert(r@[i] == SubscriptionOutcome::NoParent <==> parent_path(file) is None);
}

/// A provider that was cleared depends on nothing, no file knows it and it is not pending.
/// What the other providers depend on, and what is pending of them, stays.
pub proof fn law_cleared_provider_depends_on_nothing<B: WatchBackend>(
    actor: &mut ProviderWatchActor,
    backend: &mut RecordedBackend<B>,
    provider_id: String,
    dir: &Option<LexicalPath>,
    now: u64,
    r: Vec<SubscriptionOutcome>,
)
    requires
        old(actor).well_formed(),
        now + 1000 <= u64::MAX,
        call_ensures(
            ProviderWatchActor::handle_command::<B>,
            (actor, backend, &ProviderWatchCommand::ClearProvider { provider_id }, dir, now),
            r,
        ) || call_ensures(
            ProviderWatchActor::clear_provider::<B>,
            (actor, backend, &provider_id),
            (),
        ),
    ensures
        forall|file: PathView| !#[trigger] depends_on(*final(actor), provider_id@, file),
        forall|file: PathView|
            final(actor)@.targets.dom().contains(file) ==> !#[trigger] final(
                actor
            )@.targets[file].providers.contains(provider_id@),
        forall|file: PathView|
            final(actor)@.pending.dom().contains(file) ==> !#[trigger] final(
                actor
            )@.pending[file].contains(provider_id@),
        forall|id: Seq<char>, file: PathView|
            id != provider_id@ ==> (#[trigger] depends_on(*final(actor), id, file) <==> depends_on(
                *old(actor),
                id,
                file,
            )),
        forall|id: Seq<char>, file: PathView|
            #![trigger is_pending(*old(actor), id, file)]
            #![trigger is_pending(*final(actor), id, file)]
            id != provider_id@ ==> (is_pending(*final(actor), id, file) <==> is_pending(
                *old(actor),
                id,
                file,
            )),
        final(actor)@.deadline == old(actor)@.deadline,
{
    let before = old(actor)@;
    let after = final(actor)@;
    let p = provider_id@;
    let released = choose|released: Set<PathView>| #[trigger]
        clear_outcome(before, p, after, released);
    assert(clear_outcome(before, p, after, released));
    law_cleared_provider_is_gone(before, p, released);
    assert(after == cleared(before, p, released));
    assert forall|file: PathView| !#[trigger] depends_on(*final(actor), p, file) by {}
    assert forall|file: PathView| after.targets.dom().contains(
        file,
    ) implies !#[trigger] after.targets[file].providers.contains(p) by {
        assert(!providers_of(after, file).contains(p));
    }
    assert forall|file: PathView| after.pending.dom().contains(
        file,
    ) implies !#[trigger] after.pending[file].contains(p) by {
        assert(!pending_of(after, file).contains(p));
    }
    assert forall|id: Seq<char>, file: PathView|
        #![trigger is_pending(*old(actor), id, file)]
        #![trigger is_pending(*final(actor), id, file)]
        id != p implies (is_pending(*final(actor), id, file) <==> is_pending(
        *old(actor),
        id,
        file,
    )) by {
        assert(pending_of(after, file).contains(id) <==> pending_of(before, file).contains(id));
    }
}

/// A look at a file that shows something else than what was known, or than what held when a
/// provider subscribed, makes its providers pending for one second later. What was seen is
/// known from now on.
pub proof fn law_surprise_makes_the_providers_pending(
    actor: &mut ProviderWatchActor,
    file: &LexicalPath,
    exists_now: bool,
    now: u64,
    r: bool,
)
    requires
        now + 1000 <= u64::MAX,
        call_ensures(ProviderWatchActor::observe, (actor, file, exists_now, now), r),
        old(actor)@.targets.dom().contains(file@),
    ensures
        r <==> old(actor)@.targets[file@].last_seen != exists_now || old(
            actor
        )@.targets[file@].declared == Some(!exists_now),
        final(actor)@.targets.dom() == old(actor)@.targets.dom(),
        final(actor)@.targets[file@].last_seen == exists_now,
        final(actor)@.targets[file@].declared is None,
        final(actor)@.targets[file@].providers == old(actor)@.targets[file@].providers,
        r ==> final(actor)@.deadline == Some((now + 1000) as u64),
        r ==> final(actor)@.pending.dom().contains(file@),
        r ==> forall|id: Seq<char>|
            old(actor)@.targets[file@].providers.contains(id) ==> #[trigger] final(
                actor
            )@.pending[file@].contains(id),
        !r ==> final(actor)@.deadline == old(actor)@.deadline && final(actor)@.pending == old(
            actor
        )@.pending,
{
    let before = old(actor)@;
    let after = final(actor)@;
    assert(after.targets.dom() =~= before.targets.dom());
    match before.targets[file@].declared {
        Some(known) => {
            assert(known == exists_now || known == !exists_now);
        },
        None => {},
    }
    if r {
        assert forall|id: Seq<char>| before.targets[file@].providers.contains(
            id,
        ) implies #[trigger] after.pending[file@].contains(id) by {}
    }
}

/// A directory has to be watched unless it is watched and still there.
pub proof fn law_missing_directories_need_a_watch(
    actor: &ProviderWatchActor,
    root: &LexicalPath,
    root_exists: bool,
    r: bool,
)
    requires
        call_ensures(ProviderWatchActor::needs_watch, (actor, root, root_exists), r),
    ensures
        !root_exists ==> r,
        !actor@.roots.dom().contains(root@) ==> r,
        actor@.roots.dom().contains(root@) && root_exists ==> !r,
{
}

/// A directory leaves the registry once its watch ended or it is gone, and else stays.
pub proof fn law_ended_watch_is_forgotten(
    actor: &mut ProviderWatchActor,
    root: &LexicalPath,
    unwatched: bool,
    root_exists: bool,
)
    requires
        call_ensures(
            ProviderWatchActor::note_unwatched,
            (actor, root, unwatched, root_exists),
            (),
        ),
    ensures
        unwatched ==> !final(actor)@.roots.dom().contains(root@),
        !root_exists ==> !final(actor)@.roots.dom().contains(root@),
        !unwatched && root_exists ==> final(actor)@.roots == old(actor)@.roots,
        forall|q: PathView|
            q != root@ ==> (#[trigger] final(actor)@.roots.dom().contains(q) <==> old(
                actor
            )@.roots.dom().contains(q)),
        final(actor)@.targets == old(actor)@.targets,
        final(actor)@.files == old(actor)@.files,
        final(actor)@.pending == old(actor)@.pending,
{
}

/// A directory that is watched newly is watched by itself, without those below it, and is in
/// the registry then. One that is watched and there is not watched again. Where watching
/// fails the registry stays.
pub proof fn law_directories_are_watched_by_themselves<B: WatchBackend>(
    actor: &mut ProviderWatchActor,
    backend: &mut RecordedBackend<B>,
    root: &LexicalPath,
    r: Result<bool, String>,
)
    requires
        call_ensures(ProviderWatchActor::install_watch::<B>, (actor, backend, root), r),
    ensures
        r is Ok ==> final(actor)@.roots.dom().contains(root@),
        r == Ok::<bool, String>(true) ==> final(backend).calls().len() > 0 && final(
            backend
        ).calls().last() == (WatchCall::Watch {
            path: root@,
            mode: RecursiveMode::NonRecursive,
            ok: true,
        }),
        r == Ok::<bool, String>(false) ==> old(actor)@.roots.dom().contains(root@) && final(
            backend
        ).calls() == old(backend).calls().push(WatchCall::PathExists { path: root@, answer: true }),
        r is Err ==> final(actor)@ == old(actor)@ && final(backend).calls().last() == (
        WatchCall::Watch { path: root@, mode: RecursiveMode::NonRecursive, ok: false }),
        r matches Err(message) ==> message@ == (if old(actor)@.roots.dom().contains(root@) {
            "cannot reinstall stale watch on '"@
        } else {
            "cannot watch root '"@
        }) + root.written() + "'"@,
        final(actor)@.targets == old(actor)@.targets,
        final(actor)@.files == old(actor)@.files,
        final(actor)@.pending == old(actor)@.pending,
{
    let c0 = old(backend).calls();
    let c1 = final(backend).calls();
    let log = new_calls(c0, c1);
    assert(c1 == c0 + log);
    let empty = Seq::<WatchCall>::empty();
    if log.len() > 0 {
        assert(log.drop_first().len() == log.len() - 1);
        assert(c1.last() == log.last());
        assert(log.len() == 2 ==> log.drop_first()[0] == log[1]);
        assert(log.len() == 2 ==> log.drop_first().drop_first() =~= empty);
        if log.drop_first().len() > 0 {
            assert(log.drop_first().drop_first().len() == log.len() - 2);
        }
        if log.len() == 1 {
            assert(c1 =~= c0.push(log[0]));
        }
    }
}

proof fn lemma_nearest_is_first(dirs: Seq<PathView>, log: Seq<WatchCall>)
    requires
        nearest_told(dirs, log) is Some,
        nearest_told(dirs, log).unwrap().1 == Seq::<WatchCall>::empty(),
    ensures
        log.len() <= dirs.len(),
        forall|k: int| 0 <= k < log.len() ==> asks_for_directory(#[trigger] log[k], dirs[k]),
        forall|k: int|
            0 <= k < log.len() - 1 ==> !(is_yes(#[trigger] log[k]) && parent_path(dirs[k]) is Some),
        nearest_told(dirs, log).unwrap().0 matches Some(found) ==> log.len() > 0 && found
            == dirs[log.len() - 1] && is_yes(log.last()) && parent_path(found) is Some,
        nearest_told(dirs, log).unwrap().0 is None ==> log.len() == dirs.len() && (log.len() > 0
            ==> !(is_yes(log.last()) && parent_path(dirs.last()) is Some)),
    decreases dirs.len(),
{
    if dirs.len() > 0 {
        assert(dir_answer(log, dirs[0]) is Some);
        if is_yes(log[0]) && parent_path(dirs[0]) is Some {
            assert(log.len() == 1) by {
                if log.len() > 1 {
                    assert(log.drop_first().len() > 0);
                }
            }
        } else {
            let rest = log.drop_first();
            lemma_nearest_is_first(dirs.drop_first(), rest);
            assert forall|k: int| 0 <= k < log.len() implies asks_for_directory(
                #[trigger] log[k],
                dirs[k],
            ) by {
                if k > 0 {
                    assert(rest[k - 1] == log[k]);
                    assert(dirs.drop_first()[k - 1] == dirs[k]);
                }
            }
            assert forall|k: int| 0 <= k < log.len() - 1 implies !(is_yes(#[trigger] log[k])
                && parent_path(dirs[k]) is Some) by {
                if k > 0 {
                    assert(rest[k - 1] == log[k]);
                    assert(dirs.drop_first()[k - 1] == dirs[k]);
                }
            }
            if rest.len() > 0 {
                assert(rest.last() == log.last());
            }
            if dirs.drop_first().len() > 0 {
                assert(dirs.drop_first().last() == dirs.last());
            }
        }
    }
}

/// True for the question whether a path leads to a directory.
pub open spec fn asks_for_directory(call: WatchCall, path: PathView) -> bool {
    call matches WatchCall::IsDir { path: asked, answer } && asked == path
}

/// True for a question that was answered with yes.
pub open spec fn is_yes(call: WatchCall) -> bool {
    call matches WatchCall::IsDir { path, answer } && answer
}

/// The directory through which something can be watched is found by asking upwards, and the
/// first that is a directory and has a parent is taken: the root of the file system never is.
pub proof fn law_nearest_directory_is_taken<B: WatchBackend>(
    backend: &mut RecordedBackend<B>,
    path: &LexicalPath,
    r: Option<LexicalPath>,
    asked: Seq<WatchCall>,
)
    requires
        call_ensures(ProviderWatchActor::nearest_non_root_ancestor::<B>, (backend, path), r),
        final(backend).calls() == old(backend).calls() + asked,
    ensures
        forall|k: int|
            0 <= k < asked.len() ==> asks_for_directory(
                #[trigger] asked[k],
                path_ancestors(path@)[k],
            ),
        r matches Some(found) ==> {
            &&& asked.len() > 0
            &&& found@ == path_ancestors(path@)[asked.len() - 1]
            &&& is_yes(asked.last())
            &&& found@.len() > 0
            &&& found@.last() != seq!['/']
        },
        r is None ==> asked.len() == path_ancestors(path@).len(),
        forall|k: int|
            #![trigger asked[k]]
            0 <= k < asked.len() && (k < asked.len() - 1 || r is None) && is_yes(asked[k]) ==> {
                ||| path_ancestors(path@)[k].len() == 0
                ||| path_ancestors(path@)[k].last() == seq!['/']
            },
{
    let c0 = old(backend).calls();
    let c1 = final(backend).calls();
    assert(new_calls(c0, c1) =~= asked);
    lemma_nearest_is_first(path_ancestors(path@), asked);
    if r is None && asked.len() > 0 {
        assert(asked.last() == asked[asked.len() - 1]);
    }
}

/// A file is watched through a directory above it: the path itself is not asked for.
pub proof fn law_file_is_watched_from_above<B: WatchBackend>(
    backend: &mut RecordedBackend<B>,
    file: &LexicalPath,
    r: Option<LexicalPath>,
    asked: Seq<WatchCall>,
)
    requires
        call_ensures(ProviderWatchActor::compute_root::<B>, (backend, file), r),
        final(backend).calls() == old(backend).calls() + asked,
    ensures
        file@.len() == 0 || file@.last() == seq!['/'] ==> r is None && asked.len() == 0,
        file@.len() > 0 && file@.last() != seq!['/'] ==> forall|k: int|
            0 <= k < asked.len() ==> asks_for_directory(
                #[trigger] asked[k],
                path_ancestors(file@.drop_last())[k],
            ),
        r matches Some(found) ==> {
            &&& asked.len() > 0
            &&& found@ == path_ancestors(file@.drop_last())[asked.len() - 1]
            &&& is_yes(asked.last())
            &&& found@.len() > 0
            &&& found@.last() != seq!['/']
        },
        r is None && file@.len() > 0 && file@.last() != seq!['/'] ==> asked.len()
            == path_ancestors(file@.drop_last()).len(),
        forall|k: int|
            #![trigger asked[k]]
            0 <= k < asked.len() && (k < asked.len() - 1 || r is None) && is_yes(asked[k]) ==> {
                ||| path_ancestors(file@.drop_last())[k].len() == 0
                ||| path_ancestors(file@.drop_last())[k].last() == seq!['/']
            },
{
    let c0 = old(backend).calls();
    let c1 = final(backend).calls();
    assert(new_calls(c0, c1) =~= asked);
    if file@.len() > 0 && file@.last() != seq!['/'] {
        lemma_nearest_is_first(path_ancestors(file@.drop_last()), asked);
        if r is None && asked.len() > 0 {
            assert(asked.last() == asked[asked.len() - 1]);
        }
    }
}

/// A directory is given up only where no file needs it. Where its watch cannot be ended it is
/// given up only if it is gone.
pub proof fn law_only_idle_directories_are_given_up<B: WatchBackend>(
    actor: &mut ProviderWatchActor,
    backend: &mut RecordedBackend<B>,
    root: &LexicalPath,
    r: bool,
    asked: Seq<WatchCall>,
)
    requires
        call_ensures(ProviderWatchActor::release_watch_if_empty::<B>, (actor, backend, root), r),
        final(backend).calls() == old(backend).calls() + asked,
    ensures
        ({
            let idle = old(actor)@.roots.dom().contains(root@) && forall|f: PathView|
                !#[trigger] old(actor)@.roots[root@].contains(f);
            &&& !idle ==> asked.len() == 0 && final(actor)@ == old(actor)@ && !r
            &&& idle ==> asked.len() > 0 && (asked[0] matches WatchCall::Unwatch { path, ok } && path
                == root@)
            &&& idle && asked[0] == (WatchCall::Unwatch { path: root@, ok: true }) ==> asked.len()
                == 1 && !final(actor)@.roots.dom().contains(root@)
            &&& idle && asked[0] == (WatchCall::Unwatch { path: root@, ok: false }) ==> asked.len()
                == 2 && asked[1] == (WatchCall::PathExists {
                path: root@,
                answer: final(actor)@.roots.dom().contains(root@),
            })
        }),
        final(actor)@.targets == old(actor)@.targets,
        final(actor)@.files == old(actor)@.files,
        final(actor)@.pending == old(actor)@.pending,
        r ==> !final(actor)@.roots.dom().contains(root@),
{
    let c0 = old(backend).calls();
    let c1 = final(backend).calls();
    assert(new_calls(c0, c1) =~= asked);
    let before = old(actor)@;
    if before.roots.dom().contains(root@) && (forall|f: PathView|
        !#[trigger] before.roots[root@].contains(f)) {
        assert(before.roots[root@] =~= Set::<PathView>::empty());
        assert(asked.drop_first().len() == asked.len() - 1);
        if asked.drop_first().len() > 0 {
            assert(asked.drop_first()[0] == asked[1]);
            assert(asked.drop_first().drop_first().len() == asked.len() - 2);
        }
    }
}

/// A subscription enters the provider at the file and the file at its directory. What is known
/// of a file that is watched already stays, and a note of whether it was there when it was
/// subscribed to is not overwritten.
pub proof fn law_subscription_is_entered(
    actor: &mut ProviderWatchActor,
    provider_id: &String,
    file: &LexicalPath,
    root: &LexicalPath,
    exists_now: bool,
    declared: bool,
)
    requires
        call_ensures(
            ProviderWatchActor::subscribe,
            (actor, provider_id, file, root, exists_now, declared),
            (),
        ),
    ensures
        final(actor)@.targets.dom().contains(file@),
        final(actor)@.targets[file@].providers.contains(provider_id@),
        final(actor)@.roots.dom().contains(root@),
        final(actor)@.roots[root@].contains(file@),
        !old(actor)@.targets.dom().contains(file@) ==> {
            let state = final(actor)@.targets[file@];
            &&& state.root == root@
            &&& state.last_seen == exists_now
            &&& state.declared == Some(declared)
            &&& forall|id: Seq<char>| #[trigger]
                state.providers.contains(id) ==> id == provider_id@
        },
        old(actor)@.targets.dom().contains(file@) ==> {
            let known = old(actor)@.targets[file@];
            let state = final(actor)@.targets[file@];
            &&& state.root == known.root
            &&& state.last_seen == known.last_seen
            &&& known.declared is Some ==> state.declared == known.declared
            &&& known.declared is None ==> state.declared == Some(declared)
            &&& forall|id: Seq<char>| #[trigger]
                state.providers.contains(id) <==> known.providers.contains(id) || id == provider_id@
        },
        final(actor)@.files == old(actor)@.files,
        final(actor)@.pending == old(actor)@.pending,
        final(actor)@.deadline == old(actor)@.deadline,
{
}

/// A file that nobody subscribed to is not scheduled, whatever is found of it.
pub proof fn law_unknown_file_is_not_scheduled<B: WatchBackend>(
    actor: &mut ProviderWatchActor,
    backend: &mut RecordedBackend<B>,
    file: &LexicalPath,
    now: u64,
    r: bool,
)
    requires
        now + 1000 <= u64::MAX,
        call_ensures(ProviderWatchActor::reconcile_target::<B>, (actor, backend, file, now), r),
        !old(actor)@.targets.dom().contains(file@),
    ensures
        !r,
        final(actor)@.targets == old(actor)@.targets,
        final(actor)@.deadline == old(actor)@.deadline,
        final(actor)@.pending == old(actor)@.pending,
{
    let before = old(actor)@;
    let after = final(actor)@;
    let asked = new_calls(old(backend).calls(), final(backend).calls());
    let told = reconcile_told(before, file@, now, asked);
    assert(told == Some((after, r, Seq::<WatchCall>::empty())));
    let (found, rest) = frontier_told(file@, asked).unwrap();
    if let Some(root) = found {
        let (watched, left) = watch_told(before, root, rest).unwrap();
        if let Some(b) = watched {
            let own = attached(b, root, file@);
            assert(own.targets =~= before.targets);
        }
    }
}

/// A file that is looked at is scheduled exactly if that shows something new: then its
/// providers are pending for one second later. Otherwise nothing is. `asked` are the calls
/// that were made, and where the last of them asked for the file its answer is what counts.
pub proof fn law_look_at_a_file_schedules_surprises<B: WatchBackend>(
    actor: &mut ProviderWatchActor,
    backend: &mut RecordedBackend<B>,
    file: &LexicalPath,
    now: u64,
    r: bool,
    asked: Seq<WatchCall>,
    answer: bool,
)
    requires
        now + 1000 <= u64::MAX,
        call_ensures(ProviderWatchActor::reconcile_target::<B>, (actor, backend, file, now), r),
        final(backend).calls() == old(backend).calls() + asked,
        old(actor)@.targets.dom().contains(file@),
    ensures
        r ==> final(actor)@.deadline == Some((now + 1000) as u64),
        r ==> forall|id: Seq<char>|
            old(actor)@.targets[file@].providers.contains(id) ==> #[trigger] is_pending(
                *final(actor),
                id,
                file@,
            ),
        !r ==> final(actor)@.deadline == old(actor)@.deadline && final(actor)@.pending == old(
            actor
        )@.pending,
        final(actor)@.files == old(actor)@.files,
        final(actor)@.targets.dom() == old(actor)@.targets.dom(),
        final(actor)@.targets[file@].providers == old(actor)@.targets[file@].providers,
        asked.len() > 0 && asked.last() == (WatchCall::PathExists { path: file@, answer })
            && final(actor)@.targets[file@].root.len() > 0 && final(actor)@.targets[file@].declared
            is None ==> final(actor)@.targets[file@].last_seen == answer && (r <==> old(
            actor
        )@.targets[file@].last_seen != answer || old(actor)@.targets[file@].declared == Some(
            !answer,
        )),
{
    let before = old(actor)@;
    let after = final(actor)@;
    let c0 = old(backend).calls();
    let c1 = final(backend).calls();
    assert(new_calls(c0, c1) =~= asked);
    let told = reconcile_told(before, file@, now, asked);
    assert(told == Some((after, r, Seq::<WatchCall>::empty())));
    let (found, rest) = frontier_told(file@, asked).unwrap();
    match found {
        None => {
            lemma_release_changes_roots(
                detached(before, before.targets[file@].root, file@),
                before.targets[file@].root,
                rest,
            );
            assert(after.targets.dom() =~= before.targets.dom());
            assert(after.targets[file@].root =~= Seq::<Seq<char>>::empty());
        },
        Some(root) => {
            let (watched, left) = watch_told(before, root, rest).unwrap();
            match watched {
                None => {
                    lemma_frontier_leaves_the_end(file@, asked);
                    lemma_failed_watch_is_last(before, root, rest);
                },
                Some(b) => {
                    let own = attached(b, root, file@);
                    let before_root = before.targets[file@].root;
                    let (c, last) = leave_told(
                        own,
                        file@,
                        root_of(before, file@),
                        root,
                        left,
                    ).unwrap();
                    lemma_release_changes_roots(detached(own, before_root, file@), before_root, left);
                    assert(c.targets == before.targets);
                    assert(c.pending == before.pending);
                    assert(exists_answer(last, file@) is Some);
                    lemma_frontier_leaves_the_end(file@, asked);
                    lemma_watch_leaves_the_end(before, root, rest);
                    lemma_release_leaves_the_end(
                        detached(own, before_root, file@),
                        before_root,
                        left,
                    );
                    assert(last.drop_first() == Seq::<WatchCall>::empty());
                    assert(last.len() == 1) by {
                        assert(last.drop_first().len() == last.len() - 1);
                    }
                    assert(asked.last() == last[0]);
                    assert(after.targets.dom() =~= before.targets.dom());
                    match before.targets[file@].declared {
                        Some(known) => {
                            assert(known == answer || known == !answer);
                        },
                        None => {},
                    }
                    if r {
                        assert forall|id: Seq<char>|
                            before.targets[file@].providers.contains(
                                id,
                            ) implies #[trigger] is_pending(*final(actor), id, file@) by {
                            assert(after.pending[file@].contains(id));
                        }
                    }
                },
            }
        },
    }
}

/// What is left of calls stands at their end.
spec fn ends_with(log: Seq<WatchCall>, rest: Seq<WatchCall>) -> bool {
    rest.len() <= log.len() && forall|k: int|
        0 <= k < rest.len() ==> #[trigger] rest[k] == log[log.len() - rest.len() + k]
}

proof fn lemma_release_changes_roots(a: ActorView, root: PathView, log: Seq<WatchCall>)
    ensures
        release_told(a, root, log) matches Some((b, rest)) ==> b.targets == a.targets && b.pending
            == a.pending && b.files == a.files && b.deadline == a.deadline,
{
}

proof fn lemma_release_leaves_the_end(a: ActorView, root: PathView, log: Seq<WatchCall>)
    ensures
        release_told(a, root, log) matches Some((b, rest)) ==> ends_with(log, rest),
{
}

proof fn lemma_watch_leaves_the_end(a: ActorView, root: PathView, log: Seq<WatchCall>)
    ensures
        watch_told(a, root, log) matches Some((b, rest)) ==> ends_with(log, rest),
{
}

proof fn lemma_failed_watch_is_last(a: ActorView, root: PathView, log: Seq<WatchCall>)
    ensures
        watch_told(a, root, log) matches Some((None, rest)) ==> log.len() > rest.len() && log[log.len()
            - rest.len() - 1] is Watch,
{
}

proof fn lemma_nearest_leaves_the_end(dirs: Seq<PathView>, log: Seq<WatchCall>)
    ensures
        nearest_told(dirs, log) matches Some((found, rest)) ==> ends_with(log, rest),
    decreases dirs.len(),
{
    if dirs.len() > 0 && log.len() > 0 {
        lemma_nearest_leaves_the_end(dirs.drop_first(), log.drop_first());
    }
}

proof fn lemma_frontier_leaves_the_end(file: PathView, log: Seq<WatchCall>)
    ensures
        frontier_told(file, log) matches Some((found, rest)) ==> ends_with(log, rest),
{
    match parent_path(file) {
        Some(dir) => {
            lemma_nearest_leaves_the_end(path_ancestors(dir), log);
        },
        None => {},
    }
}

/// True if one of some calls asked whether a path leads to a directory.
pub open spec fn was_asked_for(asked: Seq<WatchCall>, path: PathView) -> bool {
    exists|k: int| 0 <= k < asked.len() && asks_for_directory(#[trigger] asked[k], path)
}

proof fn lemma_one_path(
    a: ActorView,
    path: PathView,
    removal: bool,
    now: u64,
    orders: Seq<(Seq<PathView>, Seq<PathView>)>,
    log: Seq<WatchCall>,
)
    ensures
        paths_told(a, seq![path], removal, now, orders, log) == path_told(
            a,
            path,
            removal,
            now,
            orders.last(),
            log,
        ),
{
    let none = Seq::<PathView>::empty();
    assert(seq![path].drop_last() =~= none);
    assert(seq![path].last() == path);
    assert(paths_told(a, none, removal, now, orders.drop_last(), log) == Some((a, log)));
}

proof fn lemma_reconciling_asks(a: ActorView, file: PathView, now: u64, log: Seq<WatchCall>)
    requires
        file.len() > 0,
        file.last() != seq!['/'],
        reconcile_told(a, file, now, log) is Some,
    ensures
        log.len() > 0,
        asks_for_directory(log[0], file.drop_last()),
        ends_with(log, reconcile_told(a, file, now, log).unwrap().2),
{
    let dir = file.drop_last();
    assert(parent_path(file) == Some(dir));
    assert(path_ancestors(dir).len() > 0 && path_ancestors(dir)[0] == dir);
    assert(dir_answer(log, dir) is Some);
    lemma_reconciling_leaves_the_end(a, file, now, log);
}

proof fn lemma_reconciling_leaves_the_end(a: ActorView, file: PathView, now: u64, log: Seq<WatchCall>)
    ensures
        reconcile_told(a, file, now, log) matches Some((b, changed, rest)) ==> ends_with(log, rest),
{
    lemma_frontier_leaves_the_end(file, log);
    match frontier_told(file, log) {
        None => {},
        Some((None, rest)) => match root_of(a, file) {
            None => {},
            Some(old_root) => {
                lemma_release_leaves_the_end(detached(a, old_root, file), old_root, rest);
            },
        },
        Some((Some(root), rest)) => {
            lemma_watch_leaves_the_end(a, root, rest);
            match watch_told(a, root, rest) {
                Some((Some(b), left)) => {
                    match root_of(a, file) {
                        Some(old_root) => {
                            lemma_release_leaves_the_end(
                                detached(attached(b, root, file), old_root, file),
                                old_root,
                                left,
                            );
                        },
                        None => {},
                    }
                },
                _ => {},
            }
        },
    }
}

proof fn lemma_all_are_asked_for(a: ActorView, files: Seq<PathView>, now: u64, log: Seq<WatchCall>)
    requires
        reconcile_all_told(a, files, now, log) is Some,
    ensures
        ends_with(log, reconcile_all_told(a, files, now, log).unwrap().1),
        forall|i: int|
            0 <= i < files.len() && (#[trigger] files[i]).len() > 0 && files[i].last() != seq!['/']
                ==> was_asked_for(log, files[i].drop_last()),
    decreases files.len(),
{
    if files.len() > 0 {
        let init = files.drop_last();
        lemma_all_are_asked_for(a, init, now, log);
        let (b, rest) = reconcile_all_told(a, init, now, log).unwrap();
        lemma_reconciling_leaves_the_end(b, files.last(), now, rest);
        assert forall|i: int|
            0 <= i < files.len() && (#[trigger] files[i]).len() > 0 && files[i].last()
                != seq!['/'] implies was_asked_for(log, files[i].drop_last()) by {
            if i < init.len() {
                assert(init[i] == files[i]);
            } else {
                lemma_reconciling_asks(b, files.last(), now, rest);
                assert(rest[0] == log[log.len() - rest.len()]);
                assert(asks_for_directory(log[log.len() - rest.len()], files[i].drop_last()));
            }
        }
    }
}

proof fn lemma_root_is_looked_through(
    a: ActorView,
    root: PathView,
    removed: bool,
    now: u64,
    order: Seq<PathView>,
    log: Seq<WatchCall>,
    file: PathView,
)
    requires
        root_told(a, root, removed, now, order, log) is Some,
        a.roots.dom().contains(root),
        a.roots[root].contains(file),
        file.len() > 0,
        file.last() != seq!['/'],
    ensures
        was_asked_for(log, file.drop_last()),
{
    assert(order.contains(file));
    let i = choose|i: int| 0 <= i < order.len() && order[i] == file;
    let ready = if removed {
        without_root(a, root)
    } else {
        a
    };
    lemma_all_are_asked_for(ready, order, now, log);
    assert(order[i] == file);
}

/// An event at a path that is no file of a provider may still concern such files: those that
/// are watched through the directory above the path, and those that are watched through the
/// path itself, are looked at. It is asked again through which directory they can be watched.
pub proof fn law_files_below_are_looked_at<B: WatchBackend>(
    actor: &mut ProviderWatchActor,
    backend: &mut RecordedBackend<B>,
    event: FileEvent,
    dir: &Option<LexicalPath>,
    now: u64,
    path: PathView,
    file: PathView,
    asked: Seq<WatchCall>,
)
    requires
        old(actor).well_formed(),
        now + 1000 <= u64::MAX,
        call_ensures(
            ProviderWatchActor::handle_fs_event::<B>,
            (actor, backend, &Ok::<FileEvent, String>(event), dir, now),
            (),
        ),
        final(backend).calls() == old(backend).calls() + asked,
        is_change(event.kind),
        event.paths@.len() == 1,
        leads_to(event.paths@[0]@, *dir, path),
        !old(actor)@.targets.dom().contains(path),
        file.len() > 0,
        file.last() != seq!['/'],
    ensures
        path.len() > 0 && path.last() != seq!['/'] && old(actor)@.roots.dom().contains(
            path.drop_last(),
        ) && old(actor)@.roots[path.drop_last()].contains(file) ==> was_asked_for(
            asked,
            file.drop_last(),
        ),
        (path.len() == 0 || path.last() == seq!['/'] || !old(actor)@.roots.dom().contains(
            path.drop_last(),
        )) && old(actor)@.roots.dom().contains(path) && old(actor)@.roots[path].contains(file)
            ==> was_asked_for(asked, file.drop_last()),
{
    let before = old(actor)@;
    let after = final(actor)@;
    let c0 = old(backend).calls();
    let c1 = final(backend).calls();
    assert(new_calls(c0, c1) =~= asked);
    let cwd = crate::watch_event::opt_path(*dir);
    let orders = choose|orders: Seq<(Seq<PathView>, Seq<PathView>)>| #[trigger]
        event_told(before, Ok::<FileEvent, String>(event), cwd, now, orders, asked) == Some(
            (after, Seq::<WatchCall>::empty()),
        );
    let own = event.paths@[0]@;
    assert(own.skip(1) =~= own.drop_first());
    assert(crate::watch_event::event_paths(event, cwd) =~= seq![path]);
    let removal = crate::watch_event::is_removal(event.kind);
    lemma_one_path(before, path, removal, now, orders, asked);
    let told = path_told(before, path, removal, now, orders.last(), asked);
    assert(told is Some);
    if path.len() > 0 && path.last() != seq!['/'] && before.roots.dom().contains(path.drop_last())
        && before.roots[path.drop_last()].contains(file) {
        let above = path.drop_last();
        assert(parent_path(path) == Some(above));
        lemma_root_is_looked_through(
            before,
            above,
            removal && above == path,
            now,
            orders.last().0,
            asked,
            file,
        );
    }
    if (path.len() == 0 || path.last() == seq!['/'] || !before.roots.dom().contains(
        path.drop_last(),
    )) && before.roots.dom().contains(path) && before.roots[path].contains(file) {
        lemma_root_is_looked_through(
            before,
            path,
            removal,
            now,
            orders.last().1,
            asked,
            file,
        );
    }
}

/// After an event at a file of a provider it is known whether the file is there: that, and
/// nothing else, is asked.
pub proof fn law_file_of_an_event_is_looked_at<B: WatchBackend>(
    actor: &mut ProviderWatchActor,
    backend: &mut RecordedBackend<B>,
    event: FileEvent,
    dir: &Option<LexicalPath>,
    now: u64,
    file: PathView,
    asked: Seq<WatchCall>,
)
    requires
        old(actor).well_formed(),
        now + 1000 <= u64::MAX,
        call_ensures(
            ProviderWatchActor::handle_fs_event::<B>,
            (actor, backend, &Ok::<FileEvent, String>(event), dir, now),
            (),
        ),
        final(backend).calls() == old(backend).calls() + asked,
        is_change(event.kind),
        event.paths@.len() == 1,
        leads_to(event.paths@[0]@, *dir, file),
        old(actor)@.targets.dom().contains(file),
    ensures
        asked.len() == 1,
        asked[0] == (WatchCall::PathExists {
            path: file,
            answer: final(actor)@.targets[file].last_seen,
        }),
        final(actor)@.targets[file].root == old(actor)@.targets[file].root,
        final(actor)@.targets[file].declared == old(actor)@.targets[file].declared,
        final(actor)@.roots == old(actor)@.roots,
{
    let before = old(actor)@;
    let after = final(actor)@;
    let c0 = old(backend).calls();
    let c1 = final(backend).calls();
    assert(new_calls(c0, c1) =~= asked);
    let cwd = crate::watch_event::opt_path(*dir);
    let orders = choose|orders: Seq<(Seq<PathView>, Seq<PathView>)>| #[trigger]
        event_told(before, Ok::<FileEvent, String>(event), cwd, now, orders, asked) == Some(
            (after, Seq::<WatchCall>::empty()),
        );
    let own = event.paths@[0]@;
    assert(own.skip(1) =~= own.drop_first());
    assert(crate::watch_event::event_paths(event, cwd) =~= seq![file]);
    let removal = crate::watch_event::is_removal(event.kind);
    lemma_one_path(before, file, removal, now, orders, asked);
    assert(asked.drop_first().len() == asked.len() - 1);
}

} // verus!
