//! What holds of the registry of files across several commands.

use crate::lexical_path::{parent_path, path_ancestors};
use crate::provider_watch::{
    attached, clear_told, cleared, consistent, detached, entered, exists_answer, files_of,
    forget_all_told, forgotten, frontier_told, given_up, is_idle_root, is_sole_provider,
    law_cleared_provider_is_gone, leave_told, look_told, nearest_told, pending_ids, pending_of,
    providers_of, reconcile_all_told, reconcile_told, registered_files, release_told, remaining_at,
    replace_told, root_of, subscribe_all_told, subscribe_told, subscribed, subscription_file,
    targets_at, unannounced, watch_told, ActorView, FileSubscription, PathView,
    SubscriptionOutcome, TargetView, WatchCall,
};
use vstd::prelude::*;

verus! {

/// True if watching a directory was ended by one of the calls.
pub open spec fn unwatched(log: Seq<WatchCall>, root: PathView) -> bool {
    exists|k: int| 0 <= k < log.len() && #[trigger] log[k] == (WatchCall::Unwatch {
        path: root,
        ok: true,
    })
}

/// True if no call to end watching a directory failed.
pub open spec fn unwatching_succeeds(log: Seq<WatchCall>) -> bool {
    forall|k: int|
        0 <= k < log.len() ==> (#[trigger] log[k] matches WatchCall::Unwatch { path, ok } ==> ok)
}

/// True if a file has the provider alone and is watched through the directory.
pub open spec fn owns_at(a: ActorView, provider: Seq<char>, file: PathView, root: PathView) -> bool {
    is_sole_provider(a, file, provider) && a.targets[file].root == root
}

/// True if the provider has a file to itself that is watched through the directory.
pub open spec fn has_own_file_at(a: ActorView, provider: Seq<char>, root: PathView) -> bool {
    exists|f: PathView| files_of(a, provider).contains(f) && #[trigger] owns_at(a, provider, f, root)
}

/// True if every file that is entered at a directory is known to be watched through it.
pub open spec fn anchors_agree(a: ActorView) -> bool {
    forall|r: PathView, f: PathView| #[trigger]
        targets_at(a, r).contains(f) ==> root_of(a, f) == Some(r)
}

/// True if a file at the directory has another provider.
pub open spec fn others_at(a: ActorView, provider: Seq<char>, root: PathView) -> bool {
    exists|f: PathView, q: Seq<char>|
        targets_at(a, root).contains(f) && q != provider && #[trigger] providers_of(a, f).contains(
            q,
        )
}

/// The paths in a list.
spec fn listed(files: Seq<PathView>) -> Set<PathView> {
    Set::new(|f: PathView| files.contains(f))
}

proof fn lemma_one_file_less(
    base: ActorView,
    provider: Seq<char>,
    done: Set<PathView>,
    released: Set<PathView>,
    file: PathView,
)
    requires
        !done.contains(file),
    ensures
        is_sole_provider(forgotten(base, provider, done, released), file, provider)
            == is_sole_provider(base, file, provider),
        given_up(forgotten(base, provider, done, released), provider, file) == forgotten(
            base,
            provider,
            done.insert(file),
            released,
        ),
        forall|r: PathView| #[trigger]
            remaining_at(base, provider, done.insert(file), r) == if owns_at(
                base,
                provider,
                file,
                r,
            ) {
                remaining_at(base, provider, done, r).remove(file)
            } else {
                remaining_at(base, provider, done, r)
            },
{
    let before = forgotten(base, provider, done, released);
    let next = done.insert(file);
    assert forall|r: PathView| #[trigger] remaining_at(base, provider, next, r) == if owns_at(
        base,
        provider,
        file,
        r,
    ) {
        remaining_at(base, provider, done, r).remove(file)
    } else {
        remaining_at(base, provider, done, r)
    } by {
        assert(remaining_at(base, provider, next, r) =~= if owns_at(base, provider, file, r) {
            remaining_at(base, provider, done, r).remove(file)
        } else {
            remaining_at(base, provider, done, r)
        });
    }
    assert(given_up(before, provider, file) =~= forgotten(base, provider, next, released));
}

/// What taking files from a provider, one after the other, comes to: the directories that are
/// released. Where no unwatching fails, they are those whose watching the calls ended, and
/// these are the directories of the files that are forgotten at which nothing stays.
proof fn lemma_forgetting(
    base: ActorView,
    provider: Seq<char>,
    files: Seq<PathView>,
    log: Seq<WatchCall>,
    b: ActorView,
    rest: Seq<WatchCall>,
) -> (released: Set<PathView>)
    requires
        files.no_duplicates(),
        forget_all_told(base, provider, files, log) == Some((b, rest)),
    ensures
        b == forgotten(base, provider, listed(files), released),
        rest.len() <= log.len(),
        rest == log.skip(log.len() - rest.len()),
        unwatching_succeeds(log) ==> {
            &&& forall|r: PathView| #[trigger]
                released.contains(r) <==> unwatched(log.take(log.len() - rest.len()), r)
            &&& forall|r: PathView| #[trigger]
                released.contains(r) <==> base.roots.dom().contains(r) && (exists|i: int|
                    0 <= i < files.len() && #[trigger] owns_at(base, provider, files[i], r))
                    && remaining_at(base, provider, listed(files), r) == Set::<PathView>::empty()
        },
    decreases files.len(),
{
    if files.len() == 0 {
        let released = Set::<PathView>::empty();
        assert forall|r: PathView| base.roots.dom().contains(r) implies remaining_at(
            base,
            provider,
            listed(files),
            r,
        ) =~= base.roots[r] by {}
        assert(base =~= forgotten(base, provider, listed(files), released));
        assert(log.skip(0) =~= log);
        released
    } else {
        let init = files.drop_last();
        let file = files.last();
        let (c, mid) = forget_all_told(base, provider, init, log).unwrap();
        let before = lemma_forgetting(base, provider, init, log, c, mid);
        let done = listed(init);
        let next = done.insert(file);
        let m = log.len() - mid.len();
        assert(!init.contains(file)) by {
            if init.contains(file) {
                let k = choose|k: int| 0 <= k < init.len() && init[k] == file;
                assert(files[k] == files[files.len() - 1]);
            }
        }
        assert(next =~= listed(files)) by {
            assert forall|f: PathView| next.contains(f) <==> files.contains(f) by {
                if init.contains(f) {
                    let k = choose|k: int| 0 <= k < init.len() && init[k] == f;
                    assert(files[k] == f);
                }
                if files.contains(f) && f != file {
                    let k = choose|k: int| 0 <= k < files.len() && files[k] == f;
                    assert(init[k] == f);
                }
                assert(files[files.len() - 1] == file);
            }
        }
        lemma_one_file_less(base, provider, done, before, file);
        let d = given_up(c, provider, file);
        let sole = is_sole_provider(base, file, provider);
        let root = base.targets[file].root;
        let dropped = sole && d.roots.dom().contains(root) && !b.roots.dom().contains(root);
        let released = if dropped {
            before.insert(root)
        } else {
            before
        };
        if sole {
            assert(c.targets[file].root == root);
            if is_idle_root(d, root) {
                assert(mid[0] == log[m]);
                if dropped {
                    assert(b =~= forgotten(base, provider, next, released));
                }
                assert(rest =~= log.skip(log.len() - rest.len()));
            }
        }
        if unwatching_succeeds(log) {
            let n = log.len() - rest.len();
            assert forall|r: PathView| #[trigger] released.contains(r) <==> unwatched(
                log.take(n),
                r,
            ) by {
                assert(before.contains(r) <==> unwatched(log.take(m), r));
                if unwatched(log.take(m), r) {
                    let k = choose|k: int|
                        0 <= k < m && #[trigger] log.take(m)[k] == (WatchCall::Unwatch {
                            path: r,
                            ok: true,
                        });
                    assert(log.take(n)[k] == log.take(m)[k]);
                }
                if unwatched(log.take(n), r) {
                    let k = choose|k: int|
                        0 <= k < n && #[trigger] log.take(n)[k] == (WatchCall::Unwatch {
                            path: r,
                            ok: true,
                        });
                    if k < m {
                        assert(log.take(m)[k] == log.take(n)[k]);
                    }
                }
                if dropped {
                    assert(log.take(n)[m] == log[m]);
                }
            }
            assert forall|r: PathView| #[trigger] released.contains(r) <==> base.roots.dom().contains(
                r,
            ) && (exists|i: int| 0 <= i < files.len() && #[trigger] owns_at(
                base,
                provider,
                files[i],
                r,
            )) && remaining_at(base, provider, next, r) == Set::<PathView>::empty() by {
                let owned_before = exists|i: int|
                    0 <= i < init.len() && #[trigger] owns_at(base, provider, init[i], r);
                let owned = exists|i: int|
                    0 <= i < files.len() && #[trigger] owns_at(base, provider, files[i], r);
                if owned_before {
                    let i = choose|i: int|
                        0 <= i < init.len() && #[trigger] owns_at(base, provider, init[i], r);
                    assert(owns_at(base, provider, files[i], r));
                }
                if owned && !owned_before {
                    let i = choose|i: int|
                        0 <= i < files.len() && #[trigger] owns_at(base, provider, files[i], r);
                    if i < init.len() {
                        assert(owns_at(base, provider, init[i], r));
                    }
                }
                if owns_at(base, provider, file, r) {
                    assert(owns_at(base, provider, files[files.len() - 1], r));
                }
                assert(before.contains(r) ==> remaining_at(base, provider, next, r) =~= Set::<
                    PathView,
                >::empty());
            }
        }
        released
    }
}

/// Where clearing a provider meets no failure, exactly those directories are unwatched at
/// which the provider had a file to itself and nothing stays; all others stay in the registry.
/// Where each file is entered just at the directory through which it is watched, nothing stays
/// at such a directory exactly if no other provider has a file there.
pub proof fn law_unwatched_where_nothing_stays(
    a: ActorView,
    provider: Seq<char>,
    order: Seq<PathView>,
    log: Seq<WatchCall>,
    b: ActorView,
)
    requires
        consistent(a),
        clear_told(a, provider, order, log) == Some((b, Seq::<WatchCall>::empty())),
        unwatching_succeeds(log),
    ensures
        forall|r: PathView| #[trigger]
            unwatched(log, r) <==> a.roots.dom().contains(r) && has_own_file_at(a, provider, r)
                && remaining_at(a, provider, files_of(a, provider), r) == Set::<PathView>::empty(),
        forall|r: PathView| #[trigger]
            b.roots.dom().contains(r) <==> a.roots.dom().contains(r) && !unwatched(log, r),
        anchors_agree(a) ==> forall|r: PathView| #[trigger]
            unwatched(log, r) <==> a.roots.dom().contains(r) && has_own_file_at(a, provider, r)
                && !others_at(a, provider, r),
{
    let base = ActorView { files: a.files.remove(provider), ..unannounced(a, provider) };
    let done = files_of(a, provider);
    let released = lemma_forgetting(base, provider, order, log, b, Seq::empty());
    assert(listed(order) =~= done);
    assert(log.take(log.len() as int) =~= log);
    assert forall|r: PathView| #[trigger] unwatched(log, r) <==> a.roots.dom().contains(r)
        && has_own_file_at(a, provider, r) && remaining_at(a, provider, done, r) == Set::<
        PathView,
    >::empty() by {
        assert(released.contains(r) <==> unwatched(log, r));
        assert(remaining_at(base, provider, done, r) =~= remaining_at(a, provider, done, r));
        if has_own_file_at(a, provider, r) {
            let f = choose|f: PathView|
                files_of(a, provider).contains(f) && #[trigger] owns_at(a, provider, f, r);
            assert(order.contains(f));
            let i = choose|i: int| 0 <= i < order.len() && order[i] == f;
            assert(owns_at(base, provider, order[i], r));
        }
        if exists|i: int| 0 <= i < order.len() && #[trigger] owns_at(base, provider, order[i], r) {
            let i = choose|i: int|
                0 <= i < order.len() && #[trigger] owns_at(base, provider, order[i], r);
            assert(order.contains(order[i]));
            assert(owns_at(a, provider, order[i], r));
        }
    }
    assert forall|r: PathView| #[trigger] b.roots.dom().contains(r) <==> a.roots.dom().contains(r)
        && !unwatched(log, r) by {
        assert(released.contains(r) <==> unwatched(log, r));
    }
    if anchors_agree(a) {
        assert forall|r: PathView| #[trigger] unwatched(log, r) <==> a.roots.dom().contains(r)
            && has_own_file_at(a, provider, r) && !others_at(a, provider, r) by {
            if a.roots.dom().contains(r) {
                lemma_others_stay(a, provider, r);
            }
        }
    }
}

proof fn lemma_others_stay(a: ActorView, provider: Seq<char>, root: PathView)
    requires
        consistent(a),
        anchors_agree(a),
        a.roots.dom().contains(root),
    ensures
        remaining_at(a, provider, files_of(a, provider), root) == Set::<PathView>::empty()
            <==> !others_at(a, provider, root),
{
    let stays = remaining_at(a, provider, files_of(a, provider), root);
    assert forall|f: PathView| #[trigger] stays.contains(f) implies others_at(a, provider, root) by {
        assert(targets_at(a, root).contains(f));
        let ids = a.targets[f].providers;
        assert(a.targets.dom().contains(f));
        assert(files_of(a, provider).contains(f) <==> providers_of(a, f).contains(provider));
        if ids.remove(provider) =~= Set::<Seq<char>>::empty() {
            assert(is_sole_provider(a, f, provider));
            assert(!providers_of(a, f).contains(provider));
            assert(ids =~= Set::<Seq<char>>::empty());
        } else {
            let q = choose|q: Seq<char>| ids.remove(provider).contains(q);
            assert(providers_of(a, f).contains(q));
        }
    }
    if others_at(a, provider, root) {
        let (f, q) = choose|f: PathView, q: Seq<char>|
            targets_at(a, root).contains(f) && q != provider && #[trigger] providers_of(
                a,
                f,
            ).contains(q);
        assert(a.targets[f].providers.remove(provider).contains(q));
        assert(stays.contains(f));
    } else {
        assert(stays =~= Set::<PathView>::empty());
    }
}

/// True if every answer to whether something exists at a path is what is on disk.
pub open spec fn answers_are(log: Seq<WatchCall>, disk: spec_fn(PathView) -> bool) -> bool {
    forall|k: int|
        0 <= k < log.len() ==> (#[trigger] log[k] matches WatchCall::PathExists { path, answer }
            ==> answer == disk(path))
}

/// True if what is known of a file is what is on disk.
pub open spec fn is_settled_at(target: TargetView, there: bool) -> bool {
    target.last_seen == there && (target.declared is None || target.declared == Some(there))
}

/// True if some files are what the registry knows of them, as far as it knows them.
pub open spec fn all_settled(
    a: ActorView,
    files: Set<PathView>,
    disk: spec_fn(PathView) -> bool,
) -> bool {
    forall|f: PathView|
        files.contains(f) && #[trigger] a.targets.dom().contains(f) ==> is_settled_at(
            a.targets[f],
            disk(f),
        )
}

/// The files that subscriptions speak of.
pub open spec fn subscription_files(subs: Seq<FileSubscription>, cwd: Option<PathView>) -> Set<
    PathView,
> {
    Set::new(
        |f: PathView|
            exists|i: int| 0 <= i < subs.len() && #[trigger] subscription_file(subs[i], cwd) == f,
    )
}

/// True if the files of the subscriptions are what they were when the subscriptions were made.
pub open spec fn as_declared(
    subs: Seq<FileSubscription>,
    cwd: Option<PathView>,
    disk: spec_fn(PathView) -> bool,
) -> bool {
    forall|i: int|
        0 <= i < subs.len() ==> (#[trigger] subs[i]).existed_at_declaration == disk(
            subscription_file(subs[i], cwd),
        )
}

/// A step that touches neither what is to be announced nor, for the files, what is settled.
spec fn quiet_step(
    a: ActorView,
    b: ActorView,
    files: Set<PathView>,
    disk: spec_fn(PathView) -> bool,
) -> bool {
    &&& b.pending == a.pending
    &&& b.deadline == a.deadline
    &&& all_settled(b, files, disk)
}

proof fn lemma_nearest_answers(
    dirs: Seq<PathView>,
    log: Seq<WatchCall>,
    disk: spec_fn(PathView) -> bool,
)
    requires
        answers_are(log, disk),
        nearest_told(dirs, log) is Some,
    ensures
        answers_are(nearest_told(dirs, log).unwrap().1, disk),
    decreases dirs.len(),
{
    if dirs.len() > 0 {
        lemma_fewer_answers(log, disk);
        if !(nearest_told(dirs, log).unwrap().1 =~= log.drop_first()) {
            lemma_nearest_answers(dirs.drop_first(), log.drop_first(), disk);
        }
    }
}

proof fn lemma_fewer_answers(log: Seq<WatchCall>, disk: spec_fn(PathView) -> bool)
    requires
        answers_are(log, disk),
        log.len() > 0,
    ensures
        answers_are(log.drop_first(), disk),
{
    let rest = log.drop_first();
    assert forall|k: int| 0 <= k < rest.len() implies (
    #[trigger] rest[k] matches WatchCall::PathExists { path, answer } ==> answer == disk(path)) by {
        assert(rest[k] == log[k + 1]);
    }
}

proof fn lemma_frontier_answers(
    file: PathView,
    log: Seq<WatchCall>,
    disk: spec_fn(PathView) -> bool,
)
    requires
        answers_are(log, disk),
        frontier_told(file, log) is Some,
    ensures
        answers_are(frontier_told(file, log).unwrap().1, disk),
{
    match parent_path(file) {
        Some(dir) => lemma_nearest_answers(path_ancestors(dir), log, disk),
        None => {},
    }
}

proof fn lemma_watch_is_quiet(
    a: ActorView,
    root: PathView,
    log: Seq<WatchCall>,
    files: Set<PathView>,
    disk: spec_fn(PathView) -> bool,
)
    requires
        answers_are(log, disk),
        all_settled(a, files, disk),
        watch_told(a, root, log) is Some,
    ensures
        answers_are(watch_told(a, root, log).unwrap().1, disk),
        watch_told(a, root, log).unwrap().0 matches Some(b) ==> b.targets == a.targets && quiet_step(
            a,
            b,
            files,
            disk,
        ),
{
    if log.len() > 0 {
        lemma_fewer_answers(log, disk);
        if log.drop_first().len() > 0 {
            lemma_fewer_answers(log.drop_first(), disk);
        }
    }
}

proof fn lemma_release_is_quiet(
    a: ActorView,
    root: PathView,
    log: Seq<WatchCall>,
    files: Set<PathView>,
    disk: spec_fn(PathView) -> bool,
)
    requires
        answers_are(log, disk),
        all_settled(a, files, disk),
        release_told(a, root, log) is Some,
    ensures
        answers_are(release_told(a, root, log).unwrap().1, disk),
        release_told(a, root, log).unwrap().0.targets == a.targets,
        quiet_step(a, release_told(a, root, log).unwrap().0, files, disk),
{
    if log.len() > 0 {
        lemma_fewer_answers(log, disk);
        if log.drop_first().len() > 0 {
            lemma_fewer_answers(log.drop_first(), disk);
        }
    }
}

proof fn lemma_reconcile_is_quiet(
    a: ActorView,
    file: PathView,
    now: u64,
    log: Seq<WatchCall>,
    files: Set<PathView>,
    disk: spec_fn(PathView) -> bool,
)
    requires
        answers_are(log, disk),
        all_settled(a, files, disk),
        files.contains(file),
        reconcile_told(a, file, now, log) is Some,
    ensures
        answers_are(reconcile_told(a, file, now, log).unwrap().2, disk),
        quiet_step(a, reconcile_told(a, file, now, log).unwrap().0, files, disk),
{
    lemma_frontier_answers(file, log, disk);
    let (found, rest) = frontier_told(file, log).unwrap();
    match found {
        None => match root_of(a, file) {
            None => {},
            Some(old_root) => {
                lemma_release_is_quiet(detached(a, old_root, file), old_root, rest, files, disk);
            },
        },
        Some(root) => {
            lemma_watch_is_quiet(a, root, rest, files, disk);
            let (entered_root, left) = watch_told(a, root, rest).unwrap();
            match entered_root {
                None => {},
                Some(b) => {
                    let c = attached(b, root, file);
                    assert(all_settled(c, files, disk));
                    match root_of(a, file) {
                        Some(old_root) => if old_root != root {
                            let d = detached(c, old_root, file);
                            assert(all_settled(d, files, disk));
                            lemma_release_is_quiet(d, old_root, left, files, disk);
                        },
                        None => {},
                    }
                    let (e, last) = leave_told(c, file, root_of(a, file), root, left).unwrap();
                    assert(e.targets == a.targets);
                    lemma_look_is_quiet(e, file, root, now, last, files, disk);
                },
            }
        },
    }
}

proof fn lemma_look_is_quiet(
    a: ActorView,
    file: PathView,
    root: PathView,
    now: u64,
    log: Seq<WatchCall>,
    files: Set<PathView>,
    disk: spec_fn(PathView) -> bool,
)
    requires
        answers_are(log, disk),
        all_settled(a, files, disk),
        files.contains(file),
        look_told(a, file, root, now, log) is Some,
    ensures
        answers_are(look_told(a, file, root, now, log).unwrap().2, disk),
        quiet_step(a, look_told(a, file, root, now, log).unwrap().0, files, disk),
{
    lemma_fewer_answers(log, disk);
    assert(exists_answer(log, file) == Some(disk(file)));
    if a.targets.dom().contains(file) {
        assert(is_settled_at(a.targets[file], disk(file)));
    }
}

proof fn lemma_reconcile_all_is_quiet(
    a: ActorView,
    looked: Seq<PathView>,
    now: u64,
    log: Seq<WatchCall>,
    files: Set<PathView>,
    disk: spec_fn(PathView) -> bool,
)
    requires
        answers_are(log, disk),
        all_settled(a, files, disk),
        forall|i: int| 0 <= i < looked.len() ==> files.contains(#[trigger] looked[i]),
        reconcile_all_told(a, looked, now, log) is Some,
    ensures
        answers_are(reconcile_all_told(a, looked, now, log).unwrap().1, disk),
        quiet_step(a, reconcile_all_told(a, looked, now, log).unwrap().0, files, disk),
    decreases looked.len(),
{
    if looked.len() > 0 {
        let init = looked.drop_last();
        assert forall|i: int| 0 <= i < init.len() implies files.contains(#[trigger] init[i]) by {
            assert(init[i] == looked[i]);
        }
        lemma_reconcile_all_is_quiet(a, init, now, log, files, disk);
        let (b, rest) = reconcile_all_told(a, init, now, log).unwrap();
        assert(files.contains(looked[looked.len() - 1]));
        lemma_reconcile_is_quiet(b, looked.last(), now, rest, files, disk);
    }
}

proof fn lemma_subscribe_is_quiet(
    a: ActorView,
    provider: Seq<char>,
    file: PathView,
    log: Seq<WatchCall>,
    files: Set<PathView>,
    disk: spec_fn(PathView) -> bool,
)
    requires
        answers_are(log, disk),
        all_settled(a, files, disk),
        subscribe_told(a, provider, file, disk(file), log) is Some,
    ensures
        answers_are(subscribe_told(a, provider, file, disk(file), log).unwrap().2, disk),
        quiet_step(a, subscribe_told(a, provider, file, disk(file), log).unwrap().0, files, disk),
{
    if parent_path(file) is Some {
        lemma_frontier_answers(file, log, disk);
        let (found, rest) = frontier_told(file, log).unwrap();
        match found {
            None => {},
            Some(root) => {
                lemma_watch_is_quiet(a, root, rest, files, disk);
                let (entered_root, left) = watch_told(a, root, rest).unwrap();
                match entered_root {
                    None => {},
                    Some(b) => {
                        lemma_fewer_answers(left, disk);
                        let c = subscribed(b, provider, file, root, disk(file), disk(file));
                        assert(exists_answer(left, file) == Some(disk(file)));
                        assert forall|f: PathView|
                            files.contains(f) && #[trigger] c.targets.dom().contains(
                                f,
                            ) implies is_settled_at(c.targets[f], disk(f)) by {
                            if b.targets.dom().contains(f) {
                                assert(is_settled_at(b.targets[f], disk(f)));
                            }
                        }
                    },
                }
            },
        }
    }
}

proof fn lemma_subscribe_all_is_quiet(
    a: ActorView,
    provider: Seq<char>,
    subs: Seq<FileSubscription>,
    cwd: Option<PathView>,
    log: Seq<WatchCall>,
    files: Set<PathView>,
    disk: spec_fn(PathView) -> bool,
)
    requires
        answers_are(log, disk),
        all_settled(a, files, disk),
        as_declared(subs, cwd, disk),
        subscribe_all_told(a, provider, subs, cwd, log) is Some,
    ensures
        subscribe_all_told(a, provider, subs, cwd, log).unwrap().1.len() == subs.len(),
        answers_are(subscribe_all_told(a, provider, subs, cwd, log).unwrap().2, disk),
        quiet_step(
            a,
            subscribe_all_told(a, provider, subs, cwd, log).unwrap().0,
            files,
            disk,
        ),
    decreases subs.len(),
{
    if subs.len() > 0 {
        let init = subs.drop_last();
        assert forall|i: int| 0 <= i < init.len() implies (
        #[trigger] init[i]).existed_at_declaration == disk(subscription_file(init[i], cwd)) by {
            assert(init[i] == subs[i]);
        }
        lemma_subscribe_all_is_quiet(a, provider, init, cwd, log, files, disk);
        let (b, outcomes, rest) = subscribe_all_told(a, provider, init, cwd, log).unwrap();
        assert(subs[subs.len() - 1] == subs.last());
        lemma_subscribe_is_quiet(
            b,
            provider,
            subscription_file(subs.last(), cwd),
            rest,
            files,
            disk,
        );
    }
}

/// A provider that was cleared and then registered again, with files that are what they were
/// and what the registry knows of them, is not announced for what happened before; all else
/// that was to be announced still is, at the time it was to be.
pub proof fn law_cleared_provider_stays_silent(
    a: ActorView,
    b: ActorView,
    c: ActorView,
    provider: Seq<char>,
    order: Seq<PathView>,
    log: Seq<WatchCall>,
    subs: Seq<FileSubscription>,
    cwd: Option<PathView>,
    now: u64,
    taken: Seq<PathView>,
    looked: Seq<PathView>,
    later_log: Seq<WatchCall>,
    outcomes: Seq<SubscriptionOutcome>,
    disk: spec_fn(PathView) -> bool,
)
    requires
        consistent(a),
        clear_told(a, provider, order, log) == Some((b, Seq::<WatchCall>::empty())),
        replace_told(b, provider, subs, cwd, now, taken, looked, later_log) == Some(
            (c, outcomes, Seq::<WatchCall>::empty()),
        ),
        answers_are(later_log, disk),
        as_declared(subs, cwd, disk),
        all_settled(b, subscription_files(subs, cwd), disk),
    ensures
        !pending_ids(b).contains(provider),
        !pending_ids(c).contains(provider),
        forall|q: Seq<char>|
            q != provider ==> (#[trigger] pending_ids(c).contains(q) <==> pending_ids(a).contains(
                q,
            )),
        forall|q: Seq<char>, f: PathView|
            q != provider ==> (#[trigger] pending_of(c, f).contains(q) <==> pending_of(
                a,
                f,
            ).contains(q)),
        c.deadline == a.deadline,
{
    let files = subscription_files(subs, cwd);
    let base = ActorView { files: a.files.remove(provider), ..unannounced(a, provider) };
    let released = lemma_forgetting(base, provider, order, log, b, Seq::empty());
    assert(listed(order) =~= files_of(a, provider));
    assert(b =~= cleared(a, provider, released)) by {
        let quiet = unannounced(a, provider);
        assert forall|r: PathView| #[trigger] remaining_at(
            base,
            provider,
            files_of(a, provider),
            r,
        ) == remaining_at(quiet, provider, files_of(a, provider), r) by {
            assert(remaining_at(base, provider, files_of(a, provider), r) =~= remaining_at(
                quiet,
                provider,
                files_of(a, provider),
                r,
            ));
        }
    }
    law_cleared_provider_is_gone(a, provider, released);
    assert(taken.len() == 0) by {
        if taken.len() > 0 {
            assert(taken.contains(taken[0]));
        }
    }
    let (again, rest) = clear_told(b, provider, taken, later_log).unwrap();
    assert(again == (ActorView { files: b.files.remove(provider), ..unannounced(b, provider) }));
    assert(again.pending =~= b.pending) by {
        assert forall|f: PathView| b.pending.dom().contains(f) implies again.pending[f]
            =~= b.pending[f] by {
            assert(!pending_of(b, f).contains(provider));
        }
    }
    assert(all_settled(again, files, disk));
    lemma_subscribe_all_is_quiet(again, provider, subs, cwd, later_log, files, disk);
    let (d, results, left) = subscribe_all_told(again, provider, subs, cwd, later_log).unwrap();
    let registered = registered_files(subs, results, cwd);
    let e = entered(d, provider, registered);
    assert(all_settled(e, files, disk));
    assert forall|i: int| 0 <= i < looked.len() implies files.contains(#[trigger] looked[i]) by {
        assert(looked.contains(looked[i]));
        assert(registered.contains(looked[i]));
        let k = choose|k: int|
            0 <= k < results.len() && #[trigger] results[k] == SubscriptionOutcome::Registered
                && subscription_file(subs[k], cwd) == looked[i];
        assert(subscription_file(subs[k], cwd) == looked[i]);
    }
    lemma_reconcile_all_is_quiet(e, looked, now, left, files, disk);
    assert(c.pending == b.pending);
    assert forall|q: Seq<char>, f: PathView| q != provider implies (#[trigger] pending_of(
        c,
        f,
    ).contains(q) <==> pending_of(a, f).contains(q)) by {
        assert(pending_of(c, f) == pending_of(b, f));
    }
    assert forall|f: PathView| !(#[trigger] pending_of(c, f).contains(provider)) by {
        assert(pending_of(c, f) == pending_of(b, f));
    }
    assert forall|q: Seq<char>| q != provider implies (#[trigger] pending_ids(c).contains(q)
        <==> pending_ids(a).contains(q)) by {
        if pending_ids(c).contains(q) {
            let f = choose|f: PathView| #[trigger] pending_of(c, f).contains(q);
            assert(pending_of(a, f).contains(q));
        }
        if pending_ids(a).contains(q) {
            let f = choose|f: PathView| #[trigger] pending_of(a, f).contains(q);
            assert(pending_of(c, f).contains(q));
        }
    }
}

} // verus!
