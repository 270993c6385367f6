//! What makes the daemon restart, and what is watched for it.

use crate::event_laws::{is_change, leads_to};
use crate::lexical_path::{opt_written, path_ancestors, path_views, LexicalPath};
use crate::plugin_engine::run_laws::law_first_yes_is_taken;
use crate::provider_watch::PathView;
use crate::restart_watcher::{
    add_watch_root, build_restart_registration, changes_noted, classify_path_for_registration,
    concerns, file_aliases, file_watch, first_concerned, format_event_paths, handle_event_general,
    lemma_index_finds, next_deadline, normalize_absolute_path, normalize_existing_path, opt_paths,
    path_matches_aliases, root_index, root_views, take_due_action, with_watch_root, DirectoryFacts,
    FileFacts, RestartWatchInputs, WatchAction, WatchRegistration, WatchRoot,
};
use crate::text::views;
use crate::watch_event::{event_paths, event_texts, opt_path, FileEvent, RecursiveMode};
use vstd::prelude::*;

verus! {

/// True if a registration speaks of a file: one of its directories is the file or stands above
/// it, or one of its aliases is the file, or is where the file really is.
pub open spec fn speaks_of(
    reg: WatchRegistration,
    file: PathView,
    really: Option<LexicalPath>,
) -> bool {
    ||| exists|d: int| 0 <= d < reg.dir_roots@.len() && is_at_or_above(#[trigger] reg.dir_roots@[d]@, file)
    ||| exists|d: int| 0 <= d < reg.file_aliases@.len() && (#[trigger] reg.file_aliases@[d])@ == file
    ||| really matches Some(place) && exists|d: int|
        0 <= d < reg.file_aliases@.len() && (#[trigger] reg.file_aliases@[d])@ == place@
}

/// True if a directory is a path, or stands above it.
pub open spec fn is_at_or_above(dir: PathView, path: PathView) -> bool {
    dir.len() <= path.len() && forall|k: int| 0 <= k < dir.len() ==> dir[k] == #[trigger] path[k]
}

proof fn lemma_prefix(dir: PathView, path: PathView)
    ensures
        dir.is_prefix_of(path) <==> is_at_or_above(dir, path),
{
    if dir.is_prefix_of(path) {
        assert forall|k: int| 0 <= k < dir.len() implies dir[k] == #[trigger] path[k] by {
            assert(path.subrange(0, dir.len() as int)[k] == path[k]);
        }
    }
    if is_at_or_above(dir, path) {
        assert(dir =~= path.subrange(0, dir.len() as int));
    }
}

proof fn lemma_concerns(reg: WatchRegistration, file: PathView, really: Option<LexicalPath>)
    ensures
        concerns(reg@, file, opt_path(really)) <==> speaks_of(reg, file, really),
{
    let dirs = reg@.dirs;
    let aliases = reg@.aliases;
    assert(dirs.len() == reg.dir_roots@.len());
    assert(aliases.len() == reg.file_aliases@.len());
    if concerns(reg@, file, opt_path(really)) {
        if exists|i: int| 0 <= i < dirs.len() && #[trigger] dirs[i].is_prefix_of(file) {
            let i = choose|i: int| 0 <= i < dirs.len() && #[trigger] dirs[i].is_prefix_of(file);
            lemma_prefix(dirs[i], file);
            assert(is_at_or_above(reg.dir_roots@[i]@, file));
        } else if aliases.contains(file) {
            let i = choose|i: int| 0 <= i < aliases.len() && aliases[i] == file;
            assert(reg.file_aliases@[i]@ == file);
        } else {
            let place = really.unwrap();
            let i = choose|i: int| 0 <= i < aliases.len() && aliases[i] == place@;
            assert(reg.file_aliases@[i]@ == place@);
        }
    }
    if speaks_of(reg, file, really) {
        if exists|d: int|
            0 <= d < reg.dir_roots@.len() && is_at_or_above(#[trigger] reg.dir_roots@[d]@, file) {
            let d = choose|d: int|
                0 <= d < reg.dir_roots@.len() && is_at_or_above(
                    #[trigger] reg.dir_roots@[d]@,
                    file,
                );
            lemma_prefix(dirs[d], file);
            assert(dirs[d].is_prefix_of(file));
        } else if exists|d: int|
            0 <= d < reg.file_aliases@.len() && (#[trigger] reg.file_aliases@[d])@ == file {
            let d = choose|d: int|
                0 <= d < reg.file_aliases@.len() && (#[trigger] reg.file_aliases@[d])@ == file;
            assert(aliases[d] == file);
        } else {
            let place = really.unwrap();
            let d = choose|d: int|
                0 <= d < reg.file_aliases@.len() && (#[trigger] reg.file_aliases@[d])@ == place@;
            assert(aliases[d] == place@);
        }
    }
}

/// A change is described where the registration speaks of the path, and only there, with the
/// words of the registration and the path.
pub proof fn law_change_is_described_where_it_counts(
    path: &LexicalPath,
    really: &Option<LexicalPath>,
    reg: &WatchRegistration,
    r: Option<String>,
)
    requires
        call_ensures(classify_path_for_registration, (path, really, reg), r),
    ensures
        r is Some <==> speaks_of(*reg, path@, *really),
        r matches Some(text) ==> text@ == reg.description@ + ": "@ + path.written(),
{
    lemma_concerns(*reg, path@, *really);
}

/// True if a registration speaks of a path of an event.
pub open spec fn event_concerns(
    event: FileEvent,
    i: int,
    reg: WatchRegistration,
    dir: Option<LexicalPath>,
    really: Seq<Option<LexicalPath>>,
) -> bool {
    0 <= i < event.paths@.len() && exists|file: PathView| #[trigger]
        leads_to(event.paths@[i]@, dir, file) && speaks_of(reg, file, really[i])
}

proof fn lemma_event_concerns(
    event: FileEvent,
    i: int,
    reg: WatchRegistration,
    dir: Option<LexicalPath>,
    really: Seq<Option<LexicalPath>>,
)
    requires
        0 <= i < event.paths@.len(),
        really.len() == event.paths@.len(),
    ensures
        concerns(reg@, event_paths(event, opt_path(dir))[i], opt_paths(really)[i])
            <==> event_concerns(event, i, reg, dir, really),
{
    let path = event.paths@[i]@;
    let file = event_paths(event, opt_path(dir))[i];
    assert(path.skip(1) =~= path.drop_first());
    assert(leads_to(path, dir, file));
    assert(opt_paths(really)[i] == opt_path(really[i]));
    lemma_concerns(reg, file, really[i]);
    if event_concerns(event, i, reg, dir, really) {
        let other = choose|other: PathView| #[trigger]
            leads_to(path, dir, other) && speaks_of(reg, other, really[i]);
        assert(other =~= file);
    }
}

proof fn lemma_first_concerned(
    reg: WatchRegistration,
    paths: Seq<PathView>,
    canonical: Seq<Option<PathView>>,
)
    ensures
        match first_concerned(reg@, paths, canonical) {
            Some(i) => 0 <= i < paths.len() && concerns(reg@, paths[i], canonical[i]) && forall|k: int|
                0 <= k < i ==> !concerns(reg@, #[trigger] paths[k], canonical[k]),
            None => forall|k: int|
                0 <= k < paths.len() ==> !concerns(reg@, #[trigger] paths[k], canonical[k]),
        },
    decreases paths.len(),
{
    if paths.len() > 0 {
        let init = paths.drop_last();
        lemma_first_concerned(reg, init, canonical);
        match first_concerned(reg@, init, canonical) {
            Some(i) => {
                assert(init[i] == paths[i]);
                assert forall|k: int| 0 <= k < i implies !concerns(
                    reg@,
                    #[trigger] paths[k],
                    canonical[k],
                ) by {
                    assert(init[k] == paths[k]);
                }
            },
            None => {
                assert forall|k: int| 0 <= k < paths.len() - 1 implies !concerns(
                    reg@,
                    #[trigger] paths[k],
                    canonical[k],
                ) by {
                    assert(init[k] == paths[k]);
                }
            },
        }
    }
}

/// True if a registration speaks of some path of an event.
pub open spec fn is_concerned(
    event: FileEvent,
    reg: WatchRegistration,
    dir: Option<LexicalPath>,
    really: Seq<Option<LexicalPath>>,
) -> bool {
    exists|i: int| #[trigger] event_concerns(event, i, reg, dir, really)
}

proof fn lemma_is_concerned(
    event: FileEvent,
    reg: WatchRegistration,
    dir: Option<LexicalPath>,
    really: Seq<Option<LexicalPath>>,
)
    requires
        really.len() == event.paths@.len(),
    ensures
        first_concerned(reg@, event_paths(event, opt_path(dir)), opt_paths(really)) is Some
            <==> is_concerned(event, reg, dir, really),
        first_concerned(reg@, event_paths(event, opt_path(dir)), opt_paths(really)) matches Some(i)
            ==> event_concerns(event, i, reg, dir, really) && forall|k: int|
            0 <= k < i ==> !#[trigger] event_concerns(event, k, reg, dir, really),
{
    let paths = event_paths(event, opt_path(dir));
    lemma_first_concerned(reg, paths, opt_paths(really));
    match first_concerned(reg@, paths, opt_paths(really)) {
        Some(i) => {
            lemma_event_concerns(event, i, reg, dir, really);
            assert forall|k: int| 0 <= k < i implies !#[trigger] event_concerns(
                event,
                k,
                reg,
                dir,
                really,
            ) by {
                lemma_event_concerns(event, k, reg, dir, really);
                assert(!concerns(reg@, paths[k], opt_paths(really)[k]));
            }
        },
        None => {
            assert forall|k: int| !#[trigger] event_concerns(event, k, reg, dir, really) by {
                if 0 <= k < event.paths@.len() {
                    lemma_event_concerns(event, k, reg, dir, really);
                    assert(!concerns(reg@, paths[k], opt_paths(really)[k]));
                }
            }
        },
    }
}

proof fn lemma_deadline(
    event: FileEvent,
    regs: Seq<WatchRegistration>,
    dir: Option<LexicalPath>,
    really: Seq<Option<LexicalPath>>,
    deadline: Option<u64>,
    now: u64,
)
    requires
        really.len() == event.paths@.len(),
    ensures
        ({
            let next = next_deadline(
                regs,
                event_paths(event, opt_path(dir)),
                opt_paths(really),
                deadline,
                now,
            );
            &&& forall|j: int|
                0 <= j < regs.len() && is_concerned(event, #[trigger] regs[j], dir, really) && (
                forall|k: int|
                    j < k < regs.len() ==> !is_concerned(event, #[trigger] regs[k], dir, really))
                    ==> next == Some((now + regs[j].debounce) as u64)
            &&& (forall|j: int|
                0 <= j < regs.len() ==> !is_concerned(event, #[trigger] regs[j], dir, really))
                ==> next == deadline
        }),
    decreases regs.len(),
{
    if regs.len() > 0 {
        let init = regs.drop_last();
        let last = regs.len() - 1;
        lemma_deadline(event, init, dir, really, deadline, now);
        lemma_is_concerned(event, regs.last(), dir, really);
        assert forall|j: int|
            0 <= j < regs.len() && is_concerned(event, #[trigger] regs[j], dir, really) && (forall|
                k: int,
            |
                j < k < regs.len() ==> !is_concerned(
                    event,
                    #[trigger] regs[k],
                    dir,
                    really,
                )) implies next_deadline(
            regs,
            event_paths(event, opt_path(dir)),
            opt_paths(really),
            deadline,
            now,
        ) == Some((now + regs[j].debounce) as u64) by {
            if j < last {
                assert(!is_concerned(event, regs[last], dir, really));
                assert(init[j] == regs[j]);
                assert forall|k: int| j < k < init.len() implies !is_concerned(
                    event,
                    #[trigger] init[k],
                    dir,
                    really,
                ) by {
                    assert(init[k] == regs[k]);
                }
            }
        }
        if forall|j: int|
            0 <= j < regs.len() ==> !is_concerned(event, #[trigger] regs[j], dir, really) {
            assert(!is_concerned(event, regs[last], dir, really));
            assert forall|j: int| 0 <= j < init.len() implies !is_concerned(
                event,
                #[trigger] init[j],
                dir,
                really,
            ) by {
                assert(init[j] == regs[j]);
            }
        }
    }
}

/// A change at a path that a registration speaks of sets the time of the restart: the time
/// for which the last such registration collects changes, from now on. Where none speaks of
/// it, and after an event that is not taken in, the time stays.
pub proof fn law_change_sets_the_time_of_the_restart(
    event: &Result<FileEvent, String>,
    regs: &Vec<WatchRegistration>,
    deadline: &mut Option<u64>,
    dir: &Option<LexicalPath>,
    really: &Vec<Option<LexicalPath>>,
    now: u64,
    r: Vec<String>,
)
    requires
        call_ensures(handle_event_general, (event, regs, deadline, dir, really, now), r),
        *event matches Ok(e) ==> really@.len() == e.paths@.len(),
        forall|j: int| 0 <= j < regs@.len() ==> now + (#[trigger] regs@[j]).debounce <= u64::MAX,
    ensures
        *event matches Ok(e) ==> is_change(e.kind) ==> forall|j: int|
            0 <= j < regs@.len() && is_concerned(e, #[trigger] regs@[j], *dir, really@) && (forall|
                k: int,
            |
                j < k < regs@.len() ==> !is_concerned(e, #[trigger] regs@[k], *dir, really@))
                ==> *final(deadline) == Some((now + regs@[j].debounce) as u64),
        *event matches Ok(e) ==> (forall|j: int|
            0 <= j < regs@.len() ==> !is_concerned(e, #[trigger] regs@[j], *dir, really@))
            ==> *final(deadline) == *old(deadline),
        *event matches Ok(e) ==> !is_change(e.kind) ==> *final(deadline) == *old(deadline)
            && r@.len() == 0,
        *event is Err ==> *final(deadline) == *old(deadline) && r@.len() == 0,
{
    match *event {
        Ok(e) => {
            lemma_deadline(e, regs@, *dir, really@, *old(deadline), now);
        },
        Err(_) => {},
    }
}

/// In particular the restart is due when the one registration of the daemon speaks of the
/// path, whatever the change was.
pub proof fn law_restart_is_due_after_a_change(
    event: FileEvent,
    reg: WatchRegistration,
    deadline: &mut Option<u64>,
    dir: &Option<LexicalPath>,
    really: &Vec<Option<LexicalPath>>,
    now: u64,
    r: Vec<String>,
    regs: &Vec<WatchRegistration>,
    i: int,
)
    requires
        regs@ == seq![reg],
        call_ensures(
            handle_event_general,
            (&Ok::<FileEvent, String>(event), regs, deadline, dir, really, now),
            r,
        ),
        really@.len() == event.paths@.len(),
        now + reg.debounce <= u64::MAX,
        is_change(event.kind),
        0 <= i < event.paths@.len(),
        event.paths@[i]@.len() > 0 && event.paths@[i]@[0] == seq!['/'],
        speaks_of(reg, event.paths@[i]@, really@[i]),
    ensures
        *final(deadline) == Some((now + reg.debounce) as u64),
{
    let file = event.paths@[i]@;
    assert(leads_to(event.paths@[i]@, *dir, file));
    assert(event_concerns(event, i, reg, *dir, really@));
    assert(regs@[0] == reg);
    assert(is_concerned(event, regs@[0], *dir, really@));
    law_change_sets_the_time_of_the_restart(
        &Ok::<FileEvent, String>(event),
        regs,
        deadline,
        dir,
        really,
        now,
        r,
    );
}

/// A text of how a change is described.
pub open spec fn describes(
    text: Seq<char>,
    event: FileEvent,
    reg: WatchRegistration,
    dir: Option<LexicalPath>,
    really: Seq<Option<LexicalPath>>,
) -> bool {
    exists|i: int| #[trigger]
        event_concerns(event, i, reg, dir, really) && (forall|k: int|
            0 <= k < i ==> !#[trigger] event_concerns(event, k, reg, dir, really)) && text
            == reg.description@ + ": "@ + event_texts(event, opt_written(dir))[i]
}

proof fn lemma_noted(
    event: FileEvent,
    regs: Seq<WatchRegistration>,
    dir: Option<LexicalPath>,
    really: Seq<Option<LexicalPath>>,
)
    requires
        really.len() == event.paths@.len(),
    ensures
        ({
            let noted = changes_noted(
                regs,
                event_paths(event, opt_path(dir)),
                event_texts(event, opt_written(dir)),
                opt_paths(really),
            );
            &&& forall|j: int|
                0 <= j < regs.len() && is_concerned(event, #[trigger] regs[j], dir, really)
                    ==> exists|k: int|
                    0 <= k < noted.len() && describes(#[trigger] noted[k], event, regs[j], dir, really)
            &&& forall|k: int|
                0 <= k < noted.len() ==> exists|j: int|
                    0 <= j < regs.len() && describes(
                        #[trigger] noted[k],
                        event,
                        #[trigger] regs[j],
                        dir,
                        really,
                    )
            &&& noted.len() <= regs.len()
        }),
    decreases regs.len(),
{
    let paths = event_paths(event, opt_path(dir));
    let texts = event_texts(event, opt_written(dir));
    let canonical = opt_paths(really);
    let noted = changes_noted(regs, paths, texts, canonical);
    if regs.len() > 0 {
        let init = regs.drop_last();
        let last = regs.len() - 1;
        let before = changes_noted(init, paths, texts, canonical);
        lemma_noted(event, init, dir, really);
        lemma_is_concerned(event, regs.last(), dir, really);
        assert(regs.last() == regs[last]);
        match first_concerned(regs.last()@, paths, canonical) {
            Some(i) => {
                assert(event_concerns(event, i, regs[last], dir, really));
                assert(describes(noted.last(), event, regs[last], dir, really));
                assert(noted[noted.len() - 1] == noted.last());
            },
            None => {},
        }
        assert forall|j: int|
            0 <= j < regs.len() && is_concerned(
                event,
                #[trigger] regs[j],
                dir,
                really,
            ) implies exists|k: int|
            0 <= k < noted.len() && describes(#[trigger] noted[k], event, regs[j], dir, really) by {
            if j < last {
                assert(init[j] == regs[j]);
                let k = choose|k: int|
                    0 <= k < before.len() && describes(
                        #[trigger] before[k],
                        event,
                        init[j],
                        dir,
                        really,
                    );
                assert(noted[k] == before[k]);
            }
        }
        assert forall|k: int| 0 <= k < noted.len() implies exists|j: int|
            0 <= j < regs.len() && describes(
                #[trigger] noted[k],
                event,
                #[trigger] regs[j],
                dir,
                really,
            ) by {
            if k < before.len() {
                assert(noted[k] == before[k]);
                let j = choose|j: int|
                    0 <= j < init.len() && describes(
                        before[k],
                        event,
                        #[trigger] init[j],
                        dir,
                        really,
                    );
                assert(init[j] == regs[j]);
            } else {
                assert(describes(noted[k], event, regs[last], dir, really));
            }
        }
    }
}

/// Each registration that speaks of a change describes it by the first path that it speaks
/// of, and nothing else is described.
pub proof fn law_changes_are_described(
    event: FileEvent,
    regs: &Vec<WatchRegistration>,
    deadline: &mut Option<u64>,
    dir: &Option<LexicalPath>,
    really: &Vec<Option<LexicalPath>>,
    now: u64,
    r: Vec<String>,
)
    requires
        call_ensures(
            handle_event_general,
            (&Ok::<FileEvent, String>(event), regs, deadline, dir, really, now),
            r,
        ),
        is_change(event.kind),
        really@.len() == event.paths@.len(),
    ensures
        forall|j: int|
            0 <= j < regs@.len() && is_concerned(event, #[trigger] regs@[j], *dir, really@)
                ==> exists|k: int|
                0 <= k < r@.len() && describes((#[trigger] r@[k])@, event, regs@[j], *dir, really@),
        forall|k: int|
            0 <= k < r@.len() ==> exists|j: int|
                0 <= j < regs@.len() && describes(
                    (#[trigger] r@[k])@,
                    event,
                    #[trigger] regs@[j],
                    *dir,
                    really@,
                ),
{
    lemma_noted(event, regs@, *dir, really@);
    let noted = views(r@);
    assert(noted.len() == r@.len());
    assert forall|j: int|
        0 <= j < regs@.len() && is_concerned(
            event,
            #[trigger] regs@[j],
            *dir,
            really@,
        ) implies exists|k: int|
        0 <= k < r@.len() && describes((#[trigger] r@[k])@, event, regs@[j], *dir, really@) by {
        let k = choose|k: int|
            0 <= k < noted.len() && describes(#[trigger] noted[k], event, regs@[j], *dir, really@);
        assert(r@[k]@ == noted[k]);
    }
    assert forall|k: int| 0 <= k < r@.len() implies exists|j: int|
        0 <= j < regs@.len() && describes(
            (#[trigger] r@[k])@,
            event,
            #[trigger] regs@[j],
            *dir,
            really@,
        ) by {
        assert(noted[k] == r@[k]@);
        let j = choose|j: int|
            0 <= j < regs@.len() && describes(noted[k], event, #[trigger] regs@[j], *dir, really@);
        assert(describes(r@[k]@, event, regs@[j], *dir, really@));
    }
}

/// The restart is due from its time on, and then no time is set any more. Before that, and
/// where none is set, nothing is due.
pub proof fn law_restart_is_due_at_its_time(
    deadline: &mut Option<u64>,
    now: u64,
    r: Option<WatchAction>,
)
    requires
        call_ensures(take_due_action, (deadline, now), r),
    ensures
        *old(deadline) is None ==> r is None && *final(deadline) is None,
        *old(deadline) matches Some(at) ==> now < at ==> r is None && *final(deadline) == Some(at),
        *old(deadline) matches Some(at) ==> now >= at ==> r == Some(WatchAction::Restart) && *final(
            deadline
        ) is None,
{
}

/// True if a list of directories to watch covers a directory, and those below it if so wanted.
pub open spec fn covers(roots: Seq<WatchRoot>, path: PathView, mode: RecursiveMode) -> bool {
    exists|i: int|
        0 <= i < roots.len() && (#[trigger] roots[i]).path@ == path && (mode is Recursive
            ==> roots[i].recursive is Recursive)
}

/// True if a list of directories to watch has an entry for a directory.
pub open spec fn lists(roots: Seq<WatchRoot>, path: PathView) -> bool {
    exists|i: int| 0 <= i < roots.len() && (#[trigger] roots[i]).path@ == path
}

proof fn lemma_root_is_added(
    before: Seq<WatchRoot>,
    after: Seq<WatchRoot>,
    path: PathView,
    mode: RecursiveMode,
)
    requires
        root_views(after) == with_watch_root(root_views(before), path, mode),
    ensures
        covers(after, path, mode),
        forall|q: PathView, m: RecursiveMode|
            covers(before, q, m) ==> #[trigger] covers(after, q, m),
        forall|q: PathView| #[trigger] lists(after, q) ==> lists(before, q) || q == path,
        lists(before, path) ==> after.len() == before.len(),
        !lists(before, path) ==> after.len() == before.len() + 1 && after.last().path@ == path
            && after.last().recursive == mode,
{
    let old_views = root_views(before);
    let new_views = root_views(after);
    let at = root_index(old_views, path);
    lemma_index_finds(old_views, path);
    assert(old_views.len() == before.len());
    assert(new_views.len() == after.len());
    assert forall|i: int| 0 <= i < before.len() implies #[trigger] old_views[i] == (
        before[i].path@,
        before[i].recursive,
    ) by {}
    assert forall|i: int| 0 <= i < after.len() implies #[trigger] new_views[i] == (
        after[i].path@,
        after[i].recursive,
    ) by {}
    if at < before.len() {
        assert(old_views[at].0 == path);
        assert(before[at].path@ == path);
        assert(new_views[at].0 == path);
        assert(after[at].path@ == path);
    } else {
        assert(new_views[at] == (path, mode));
        assert(after[at].path@ == path);
        if lists(before, path) {
            let i = choose|i: int| 0 <= i < before.len() && (#[trigger] before[i]).path@ == path;
            assert(old_views[i].0 == path);
        }
    }
    assert forall|q: PathView, m: RecursiveMode| covers(before, q, m) implies #[trigger] covers(
        after,
        q,
        m,
    ) by {
        let i = choose|i: int|
            0 <= i < before.len() && (#[trigger] before[i]).path@ == q && (m is Recursive
                ==> before[i].recursive is Recursive);
        assert(old_views[i] == (before[i].path@, before[i].recursive));
        assert(new_views[i].0 == old_views[i].0);
        assert(after[i].path@ == q);
    }
    assert forall|q: PathView| #[trigger] lists(after, q) implies lists(before, q) || q == path by {
        let i = choose|i: int| 0 <= i < after.len() && (#[trigger] after[i]).path@ == q;
        assert(new_views[i].0 == q);
        if i < before.len() {
            assert(old_views[i].0 == new_views[i].0);
            assert(before[i].path@ == q);
        }
    }
}

/// A directory that is added is covered as wanted, what was covered stays covered, and no
/// other directory is added. A directory stands in the list only once.
pub proof fn law_added_directory_is_covered(
    roots: &mut Vec<WatchRoot>,
    path: LexicalPath,
    mode: RecursiveMode,
)
    requires
        call_ensures(add_watch_root, (roots, path, mode), ()),
    ensures
        covers(final(roots)@, path@, mode),
        forall|q: PathView, m: RecursiveMode|
            covers(old(roots)@, q, m) ==> #[trigger] covers(final(roots)@, q, m),
        forall|q: PathView| #[trigger]
            lists(final(roots)@, q) ==> lists(old(roots)@, q) || q == path@,
        lists(old(roots)@, path@) ==> final(roots)@.len() == old(roots)@.len(),
        !lists(old(roots)@, path@) ==> final(roots)@.len() == old(roots)@.len() + 1 && final(
            roots
        )@.last().path@ == path@ && final(roots)@.last().recursive == mode,
{
    lemma_root_is_added(old(roots)@, final(roots)@, path@, mode);
}

/// A file is known by its path and, where that differs, by the place where it really is.
pub proof fn law_file_is_known_by_both_paths(
    path: &LexicalPath,
    really: &Option<LexicalPath>,
    r: Vec<LexicalPath>,
)
    requires
        call_ensures(file_aliases, (path, really), r),
    ensures
        r@.len() > 0,
        r@[0]@ == path@,
        *really is None ==> r@.len() == 1,
        *really matches Some(place) ==> place@ == path@ ==> r@.len() == 1,
        *really matches Some(place) ==> place@ != path@ ==> r@.len() == 2 && r@[1]@ == place@,
{
    let seen = path_views(r@);
    assert(seen.len() == r@.len());
    assert(seen[0] == r@[0]@);
    assert(seen.len() > 1 ==> seen[1] == r@[1]@);
}

/// A path is found among aliases where one of them is the path or the place it leads to.
pub proof fn law_alias_is_found(
    path: &LexicalPath,
    really: &Option<LexicalPath>,
    aliases: &Vec<LexicalPath>,
    r: bool,
)
    requires
        call_ensures(path_matches_aliases, (path, really, aliases), r),
    ensures
        r <==> exists|i: int|
            0 <= i < aliases@.len() && is_one_of_both(#[trigger] aliases@[i], *path, *really),
{
    let seen = path_views(aliases@);
    assert(seen.len() == aliases@.len());
    if r {
        if seen.contains(path@) {
            let i = choose|i: int| 0 <= i < seen.len() && seen[i] == path@;
            assert(is_one_of_both(aliases@[i], *path, *really));
        } else {
            let place = really.unwrap();
            let i = choose|i: int| 0 <= i < seen.len() && seen[i] == place@;
            assert(is_one_of_both(aliases@[i], *path, *really));
        }
    }
    if exists|i: int|
        0 <= i < aliases@.len() && is_one_of_both(#[trigger] aliases@[i], *path, *really) {
        let i = choose|i: int|
            0 <= i < aliases@.len() && is_one_of_both(#[trigger] aliases@[i], *path, *really);
        assert(seen[i] == aliases@[i]@);
    }
}

/// True if an alias is a path or the place where it leads to.
pub open spec fn is_one_of_both(
    alias: LexicalPath,
    path: LexicalPath,
    really: Option<LexicalPath>,
) -> bool {
    alias@ == path@ || (really matches Some(place) && alias@ == place@)
}

/// A path is taken as the place where it really is, where that is known, and else seen from
/// the current directory.
pub proof fn law_real_place_goes_first(
    path: &LexicalPath,
    dir: &LexicalPath,
    really: &Option<LexicalPath>,
    r: LexicalPath,
)
    requires
        call_ensures(normalize_existing_path, (path, dir, really), r),
    ensures
        *really matches Some(place) ==> r@ == place@ && r.written() == place.written(),
        *really is None ==> leads_to(path@, Some(*dir), r@),
{
    assert(path@.skip(1) =~= path@.drop_first());
}

/// A path that does not begin at the root is seen from the current directory.
pub proof fn law_path_is_made_absolute(path: &LexicalPath, dir: &LexicalPath, r: LexicalPath)
    requires
        call_ensures(normalize_absolute_path, (path, dir), r),
    ensures
        leads_to(path@, Some(*dir), r@),
        path@.len() > 0 && path@[0] == seq!['/'] ==> r@ == path@,
{
    assert(path@.skip(1) =~= path@.drop_first());
}

/// A registration that is new watches nothing.
pub proof fn law_new_registration_watches_nothing(
    action: WatchAction,
    debounce: u64,
    description: &str,
    r: WatchRegistration,
)
    requires
        call_ensures(WatchRegistration::new, (action, debounce, description), r),
    ensures
        r.action == action,
        r.debounce == debounce,
        r.description@ == description@,
        r.dir_roots@.len() == 0,
        r.file_aliases@.len() == 0,
        r.watch_roots@.len() == 0,
{
    assert(r@.dirs.len() == r.dir_roots@.len());
    assert(r@.aliases.len() == r.file_aliases@.len());
    assert(r@.roots.len() == r.watch_roots@.len());
}

/// True if two registrations tell the same of a change.
pub open spec fn tells_the_same(a: WatchRegistration, b: WatchRegistration) -> bool {
    a.action == b.action && a.debounce == b.debounce && a.description@ == b.description@
}

/// A directory that is added to a registration is one it speaks of, and is covered.
pub proof fn law_added_directory_is_spoken_of(
    reg: &mut WatchRegistration,
    path: LexicalPath,
    mode: RecursiveMode,
)
    requires
        call_ensures(WatchRegistration::add_dir_root, (reg, path, mode), ()),
    ensures
        tells_the_same(*old(reg), *final(reg)),
        path_views(final(reg).dir_roots@) == path_views(old(reg).dir_roots@).push(path@),
        path_views(final(reg).file_aliases@) == path_views(old(reg).file_aliases@),
        covers(final(reg).watch_roots@, path@, mode),
        forall|q: PathView, m: RecursiveMode|
            covers(old(reg).watch_roots@, q, m) ==> #[trigger] covers(
                final(reg).watch_roots@,
                q,
                m,
            ),
        forall|file: PathView, really: Option<LexicalPath>|
            is_at_or_above(path@, file) ==> #[trigger] speaks_of(*final(reg), file, really),
{
    lemma_root_is_added(old(reg).watch_roots@, final(reg).watch_roots@, path@, mode);
    let n = old(reg).dir_roots@.len() as int;
    assert(path_views(final(reg).dir_roots@).len() == final(reg).dir_roots@.len());
    assert(path_views(old(reg).dir_roots@).len() == n);
    assert(path_views(final(reg).dir_roots@)[n] == path@);
    assert(final(reg).dir_roots@[n]@ == path@);
}

/// A file that is added to a registration is one it speaks of. It is watched through its
/// directory alone where that is there, and else through everything below the nearest
/// directory above it that is. Where none is there, or the path has no parent, it is refused
/// and the reason is given.
pub proof fn law_added_file_is_watched(
    reg: &mut WatchRegistration,
    path: &LexicalPath,
    facts: &FileFacts,
    r: Result<(), String>,
    n: int,
)
    requires
        call_ensures(WatchRegistration::add_file, (reg, path, facts), r),
    ensures
        tells_the_same(*old(reg), *final(reg)),
        path_views(final(reg).dir_roots@) == path_views(old(reg).dir_roots@),
        forall|really: Option<LexicalPath>| #[trigger] speaks_of(*final(reg), path@, really),
        facts.canonical matches Some(place) ==> forall|really: Option<LexicalPath>| #[trigger]
            speaks_of(*final(reg), place@, really),
        path@.len() == 0 || path@.last() == seq!['/'] ==> r is Err,
        path@.len() == 0 || path@.last() == seq!['/'] ==> (r matches Err(message) ==> message@
            == "cannot monitor file "@ + path.written() + " because it has no parent directory"@),
        path@.len() > 0 && path@.last() != seq!['/'] && facts.existing@.len() > 0
            && facts.existing@[0] ==> r is Ok && covers(
            final(reg).watch_roots@,
            path@.drop_last(),
            RecursiveMode::NonRecursive,
        ),
        path@.len() > 0 && path@.last() != seq!['/'] && 0 < n < facts.existing@.len() && n
            < path_ancestors(path@.drop_last()).len() && facts.existing@[n] && (forall|k: int|
            0 <= k < n ==> !#[trigger] facts.existing@[k]) ==> r is Ok && covers(
            final(reg).watch_roots@,
            path_ancestors(path@.drop_last())[n],
            RecursiveMode::Recursive,
        ),
        path@.len() > 0 && path@.last() != seq!['/'] && (forall|k: int|
            0 <= k < facts.existing@.len() ==> !#[trigger] facts.existing@[k]) ==> (
        r matches Err(message) && message@ == "cannot monitor file "@ + path.written()
            + " because no existing ancestor directory was found"@),
        r is Err ==> root_views(final(reg).watch_roots@) == root_views(old(reg).watch_roots@),
        forall|q: PathView, m: RecursiveMode|
            covers(old(reg).watch_roots@, q, m) ==> #[trigger] covers(
                final(reg).watch_roots@,
                q,
                m,
            ),
{
    let before = *old(reg);
    let after = *final(reg);
    let watch = file_watch(path@, facts.existing@);
    if path@.len() > 0 && path@.last() != seq!['/'] {
        let up = path_ancestors(path@.drop_last());
        law_first_yes_is_taken(up, facts.existing@, n);
    }
    match watch {
        Some(w) => {
            lemma_root_is_added(before.watch_roots@, after.watch_roots@, w.0, w.1);
        },
        None => {
            assert forall|q: PathView, m: RecursiveMode|
                covers(before.watch_roots@, q, m) implies #[trigger] covers(
                after.watch_roots@,
                q,
                m,
            ) by {
                let i = choose|i: int|
                    0 <= i < before.watch_roots@.len() && (#[trigger] before.watch_roots@[i]).path@
                        == q && (m is Recursive ==> before.watch_roots@[i].recursive is Recursive);
                let b = root_views(before.watch_roots@);
                let a = root_views(after.watch_roots@);
                assert(b.len() == before.watch_roots@.len());
                assert(a.len() == after.watch_roots@.len());
                assert(b[i] == (before.watch_roots@[i].path@, before.watch_roots@[i].recursive));
                assert(a[i] == (after.watch_roots@[i].path@, after.watch_roots@[i].recursive));
                assert(after.watch_roots@[i].path@ == q);
            }
        },
    }
    let old_aliases = path_views(before.file_aliases@);
    let new_aliases = path_views(after.file_aliases@);
    let m = old_aliases.len() as int;
    assert(new_aliases.len() == after.file_aliases@.len());
    assert(new_aliases[m] == path@);
    assert(after.file_aliases@[m]@ == path@);
    match facts.canonical {
        Some(place) => {
            if place@ != path@ {
                assert(new_aliases[m + 1] == place@);
                assert(after.file_aliases@[m + 1]@ == place@);
            }
        },
        None => {},
    }
}

/// The paths of an event are listed with commas between them, in their order.
pub proof fn law_event_paths_are_listed(
    event: &FileEvent,
    dir: &Option<LexicalPath>,
    r: String,
    rest: &FileEvent,
    before: String,
)
    requires
        call_ensures(format_event_paths, (event, dir), r),
        call_ensures(format_event_paths, (rest, dir), before),
        event.paths@.len() > 0,
        rest.paths@ == event.paths@.drop_last(),
        *dir is None,
    ensures
        r@ == if event.paths@.len() == 1 {
            event.paths@[0].written()
        } else {
            before@ + ", "@ + event.paths@.last().written()
        },
{
    let texts = event_texts(*event, None);
    let fewer = event_texts(*rest, None);
    assert(texts.drop_last() =~= fewer);
    assert(texts.last() == event.paths@.last().written());
    crate::text_laws::law_joining_adds_a_part(fewer, texts.last(), ", "@);
    assert(fewer.push(texts.last()) =~= texts);
}

/// True if a directory is what a path stands for: the place where it really is, where that is
/// known, and else the path seen from the current directory.
pub open spec fn stands_for(
    path: LexicalPath,
    cwd: LexicalPath,
    really: Option<LexicalPath>,
    place: PathView,
) -> bool {
    &&& really matches Some(known) ==> place == known@
    &&& really is None ==> leads_to(path@, Some(cwd), place)
}

/// True if a file can be watched: some directory above it is there.
pub open spec fn can_be_watched(file: PathView, existing: Seq<bool>) -> bool {
    &&& file.len() > 0
    &&& file.last() != seq!['/']
    &&& exists|k: int|
        0 <= k < existing.len() && k < path_ancestors(file.drop_last()).len()
            && #[trigger] existing[k]
}

proof fn lemma_some_yes(paths: Seq<PathView>, answers: Seq<bool>)
    ensures
        crate::watch_event::first_accepted(paths, answers) is Some <==> exists|k: int|
            0 <= k < answers.len() && k < paths.len() && #[trigger] answers[k],
    decreases paths.len(),
{
    if paths.len() > 0 && answers.len() > 0 && !answers[0] {
        let rest = answers.drop_first();
        lemma_some_yes(paths.drop_first(), rest);
        if exists|k: int| 0 <= k < answers.len() && k < paths.len() && #[trigger] answers[k] {
            let k = choose|k: int|
                0 <= k < answers.len() && k < paths.len() && #[trigger] answers[k];
            assert(rest[k - 1] == answers[k]);
        }
        if exists|k: int|
            0 <= k < rest.len() && k < paths.drop_first().len() && #[trigger] rest[k] {
            let k = choose|k: int|
                0 <= k < rest.len() && k < paths.drop_first().len() && #[trigger] rest[k];
            assert(answers[k + 1] == rest[k]);
        }
    }
}

proof fn lemma_can_be_watched(file: PathView, existing: Seq<bool>)
    ensures
        file_watch(file, existing) is Some <==> can_be_watched(file, existing),
{
    if file.len() > 0 && file.last() != seq!['/'] {
        lemma_some_yes(path_ancestors(file.drop_last()), existing);
        assert(path_ancestors(file.drop_last()).len() > 0);
    }
}

proof fn lemma_full_path(path: LexicalPath, cwd: LexicalPath, file: PathView)
    requires
        leads_to(path@, Some(cwd), file),
    ensures
        crate::watch_event::absolute_from(path@, Some(cwd@)) == file,
{
    assert(path@.skip(1) =~= path@.drop_first());
}

/// The daemon can watch for its restart exactly if its directories are there and its files
/// can be watched. `config_file` and `binary_file` are its files, seen from the current
/// directory.
pub proof fn law_watch_needs_every_place(
    inputs: &RestartWatchInputs,
    cwd: &LexicalPath,
    plugins: &DirectoryFacts,
    overrides: &DirectoryFacts,
    config: &FileFacts,
    binary: &FileFacts,
    config_file: PathView,
    binary_file: PathView,
    r: Result<WatchRegistration, String>,
)
    requires
        call_ensures(
            build_restart_registration,
            (inputs, cwd, plugins, overrides, config, binary),
            r,
        ),
        inputs.config_file matches Some(raw) ==> leads_to(raw@, Some(*cwd), config_file),
        leads_to(inputs.binary_file@, Some(*cwd), binary_file),
    ensures
        r is Ok <==> {
            &&& plugins.is_dir
            &&& inputs.plugin_overrides_dir is Some ==> overrides.is_dir
            &&& inputs.config_file is Some ==> can_be_watched(config_file, config.existing@)
            &&& can_be_watched(binary_file, binary.existing@)
        },
        !plugins.is_dir ==> (plugins.canonical matches Some(place) ==> (r matches Err(message)
            && message@ == "plugins directory is not readable: "@ + place.written())),
        plugins.is_dir && inputs.plugin_overrides_dir is Some && !overrides.is_dir ==> (
        overrides.canonical matches Some(place) ==> (r matches Err(message) && message@
            == "plugin overrides directory is not readable: "@ + place.written())),
{
    match inputs.config_file {
        Some(raw) => {
            lemma_full_path(raw, *cwd, config_file);
        },
        None => {},
    }
    lemma_full_path(inputs.binary_file, *cwd, binary_file);
    lemma_can_be_watched(config_file, config.existing@);
    lemma_can_be_watched(binary_file, binary.existing@);
}

proof fn lemma_speaks(
    reg: WatchRegistration,
    dirs: Seq<PathView>,
    aliases: Seq<PathView>,
    file: PathView,
)
    requires
        path_views(reg.dir_roots@) == dirs,
        path_views(reg.file_aliases@) == aliases,
    ensures
        speaks_of(reg, file, None) <==> aliases.contains(file) || exists|d: int|
            0 <= d < dirs.len() && is_at_or_above(#[trigger] dirs[d], file),
{
    assert(dirs.len() == reg.dir_roots@.len());
    assert(aliases.len() == reg.file_aliases@.len());
    if aliases.contains(file) {
        let i = choose|i: int| 0 <= i < aliases.len() && aliases[i] == file;
        assert(reg.file_aliases@[i]@ == file);
    }
    if exists|d: int| 0 <= d < dirs.len() && is_at_or_above(#[trigger] dirs[d], file) {
        let d = choose|d: int| 0 <= d < dirs.len() && is_at_or_above(#[trigger] dirs[d], file);
        assert(is_at_or_above(reg.dir_roots@[d]@, file));
    }
    if speaks_of(reg, file, None) {
        if exists|d: int|
            0 <= d < reg.dir_roots@.len() && is_at_or_above(#[trigger] reg.dir_roots@[d]@, file) {
            let d = choose|d: int|
                0 <= d < reg.dir_roots@.len() && is_at_or_above(
                    #[trigger] reg.dir_roots@[d]@,
                    file,
                );
            assert(is_at_or_above(dirs[d], file));
        } else {
            let d = choose|d: int|
                0 <= d < reg.file_aliases@.len() && (#[trigger] reg.file_aliases@[d])@ == file;
            assert(aliases[d] == file);
        }
    }
}

/// True if a file is the one at a path, or where that file really is.
pub open spec fn is_file_of(file: PathView, path: PathView, facts: FileFacts) -> bool {
    file == path || (facts.canonical matches Some(place) && file == place@)
}

/// The daemon restarts for changes below its directories and at its files, and for no other
/// changes, one second after the last of them. `plugins_dir`, `overrides_dir`, `config_file`
/// and `binary_file` are what the paths that the daemon was started with stand for.
pub proof fn law_daemon_restarts_for_its_own_places(
    inputs: &RestartWatchInputs,
    cwd: &LexicalPath,
    plugins: &DirectoryFacts,
    overrides: &DirectoryFacts,
    config: &FileFacts,
    binary: &FileFacts,
    plugins_dir: PathView,
    overrides_dir: PathView,
    config_file: PathView,
    binary_file: PathView,
    file: PathView,
    r: Result<WatchRegistration, String>,
)
    requires
        call_ensures(
            build_restart_registration,
            (inputs, cwd, plugins, overrides, config, binary),
            r,
        ),
        stands_for(inputs.plugins_dir, *cwd, plugins.canonical, plugins_dir),
        inputs.plugin_overrides_dir matches Some(raw) ==> stands_for(
            raw,
            *cwd,
            overrides.canonical,
            overrides_dir,
        ),
        inputs.config_file matches Some(raw) ==> leads_to(raw@, Some(*cwd), config_file),
        leads_to(inputs.binary_file@, Some(*cwd), binary_file),
    ensures
        r matches Ok(reg) ==> {
            &&& reg.action is Restart
            &&& reg.debounce == 1000
            &&& reg.description@ == "daemon restart (plugins, overrides, config, binary)"@
            &&& speaks_of(reg, file, None) <==> {
                ||| is_at_or_above(plugins_dir, file)
                ||| inputs.plugin_overrides_dir is Some && is_at_or_above(overrides_dir, file)
                ||| inputs.config_file is Some && is_file_of(file, config_file, *config)
                ||| is_file_of(file, binary_file, *binary)
            }
        },
{
    match inputs.config_file {
        Some(raw) => {
            lemma_full_path(raw, *cwd, config_file);
        },
        None => {},
    }
    lemma_full_path(inputs.binary_file, *cwd, binary_file);
    if plugins.canonical is None {
        lemma_full_path(inputs.plugins_dir, *cwd, plugins_dir);
    }
    match inputs.plugin_overrides_dir {
        Some(raw) => {
            if overrides.canonical is None {
                lemma_full_path(raw, *cwd, overrides_dir);
            }
        },
        None => {},
    }
    match r {
        Ok(reg) => {
            let none = Seq::<PathView>::empty();
            let own_dirs = if inputs.plugin_overrides_dir is Some {
                none.push(plugins_dir).push(overrides_dir)
            } else {
                none.push(plugins_dir)
            };
            let from_config = if inputs.config_file is Some {
                crate::restart_watcher::aliases_of(config_file, opt_path(config.canonical))
            } else {
                none
            };
            let from_binary = crate::restart_watcher::aliases_of(
                binary_file,
                opt_path(binary.canonical),
            );
            let own_files = from_config + from_binary;
            assert(path_views(reg.dir_roots@) =~= own_dirs);
            assert(path_views(reg.file_aliases@) =~= own_files);
            lemma_speaks(reg, own_dirs, own_files, file);
            lemma_aliases(config_file, *config, file);
            lemma_aliases(binary_file, *binary, file);
            assert(own_files.contains(file) <==> from_config.contains(file)
                || from_binary.contains(file)) by {
                if from_config.contains(file) {
                    let i = choose|i: int| 0 <= i < from_config.len() && from_config[i] == file;
                    assert(own_files[i] == file);
                }
                if from_binary.contains(file) {
                    let i = choose|i: int| 0 <= i < from_binary.len() && from_binary[i] == file;
                    assert(own_files[from_config.len() + i] == file);
                }
            }
            assert(own_dirs[0] == plugins_dir);
            if inputs.plugin_overrides_dir is Some {
                assert(own_dirs[1] == overrides_dir);
            }
        },
        Err(_) => {},
    }
}

proof fn lemma_aliases(path: PathView, facts: FileFacts, file: PathView)
    ensures
        crate::restart_watcher::aliases_of(path, opt_path(facts.canonical)).contains(file)
            <==> is_file_of(file, path, facts),
{
    let all = crate::restart_watcher::aliases_of(path, opt_path(facts.canonical));
    assert(all[0] == path);
    match facts.canonical {
        Some(place) => {
            if place@ != path {
                assert(all[1] == place@);
            }
        },
        None => {},
    }
}

/// The directories of the daemon are watched with everything below them.
pub proof fn law_directories_are_watched_with_what_is_below(
    inputs: &RestartWatchInputs,
    cwd: &LexicalPath,
    plugins: &DirectoryFacts,
    overrides: &DirectoryFacts,
    config: &FileFacts,
    binary: &FileFacts,
    plugins_dir: PathView,
    overrides_dir: PathView,
    r: Result<WatchRegistration, String>,
)
    requires
        call_ensures(
            build_restart_registration,
            (inputs, cwd, plugins, overrides, config, binary),
            r,
        ),
        stands_for(inputs.plugins_dir, *cwd, plugins.canonical, plugins_dir),
        inputs.plugin_overrides_dir matches Some(raw) ==> stands_for(
            raw,
            *cwd,
            overrides.canonical,
            overrides_dir,
        ),
    ensures
        r matches Ok(reg) ==> {
            &&& covers(reg.watch_roots@, plugins_dir, RecursiveMode::Recursive)
            &&& inputs.plugin_overrides_dir is Some ==> covers(
                reg.watch_roots@,
                overrides_dir,
                RecursiveMode::Recursive,
            )
        },
{
    if plugins.canonical is None {
        lemma_full_path(inputs.plugins_dir, *cwd, plugins_dir);
    }
    match inputs.plugin_overrides_dir {
        Some(raw) => {
            if overrides.canonical is None {
                lemma_full_path(raw, *cwd, overrides_dir);
            }
        },
        None => {},
    }
    match r {
        Ok(reg) => {
            let recursive = RecursiveMode::Recursive;
            let none = Seq::<(PathView, RecursiveMode)>::empty();
            let first = with_watch_root(none, plugins_dir, recursive);
            lemma_covered(none, plugins_dir, recursive, plugins_dir);
            let second = if inputs.plugin_overrides_dir is Some {
                with_watch_root(first, overrides_dir, recursive)
            } else {
                first
            };
            lemma_covered(first, overrides_dir, recursive, plugins_dir);
            let config_at = match inputs.config_file {
                Some(raw) => file_watch(
                    crate::watch_event::absolute_from(raw@, Some(cwd@)),
                    config.existing@,
                ),
                None => None,
            };
            let third = match config_at {
                Some(w) => {
                    lemma_covered(second, w.0, w.1, plugins_dir);
                    lemma_covered(second, w.0, w.1, overrides_dir);
                    with_watch_root(second, w.0, w.1)
                },
                None => second,
            };
            let binary_at = file_watch(
                crate::watch_event::absolute_from(inputs.binary_file@, Some(cwd@)),
                binary.existing@,
            );
            match binary_at {
                Some(w) => {
                    lemma_covered(third, w.0, w.1, plugins_dir);
                    lemma_covered(third, w.0, w.1, overrides_dir);
                },
                None => {},
            }
            lemma_covers(reg.watch_roots@, plugins_dir);
            lemma_covers(reg.watch_roots@, overrides_dir);
        },
        Err(_) => {},
    }
}

spec fn covered(roots: Seq<(PathView, RecursiveMode)>, path: PathView) -> bool {
    exists|i: int| 0 <= i < roots.len() && #[trigger] roots[i] == (path, RecursiveMode::Recursive)
}

proof fn lemma_covered(
    roots: Seq<(PathView, RecursiveMode)>,
    path: PathView,
    mode: RecursiveMode,
    other: PathView,
)
    ensures
        covered(roots, other) ==> covered(with_watch_root(roots, path, mode), other),
        mode is Recursive ==> covered(with_watch_root(roots, path, mode), path),
{
    let next = with_watch_root(roots, path, mode);
    let at = root_index(roots, path);
    lemma_index_finds(roots, path);
    if mode is Recursive {
        assert(next[at] == (path, RecursiveMode::Recursive));
    }
    if covered(roots, other) {
        let i = choose|i: int|
            0 <= i < roots.len() && #[trigger] roots[i] == (other, RecursiveMode::Recursive);
        assert(next[i] == (other, RecursiveMode::Recursive));
    }
}

proof fn lemma_covers(roots: Seq<WatchRoot>, path: PathView)
    ensures
        covered(root_views(roots), path) ==> covers(roots, path, RecursiveMode::Recursive),
{
    let seen = root_views(roots);
    assert(seen.len() == roots.len());
    if covered(seen, path) {
        let i = choose|i: int|
            0 <= i < seen.len() && #[trigger] seen[i] == (path, RecursiveMode::Recursive);
        assert(roots[i].path@ == path);
    }
}

} // verus!
