//! What an event of the file system leads to, whatever else is watched.

use crate::lexical_path::LexicalPath;
use crate::provider_watch::{
    event_is_noted, pending_of, providers_of, PathView, ProviderWatchActor, ProviderWatchEvent,
    RecordedBackend, WatchBackend,
};
use crate::text::views;
use crate::text_order::text_less;
use crate::watch_event::{
    is_interesting_event_kind, is_removal_event_kind, normalize_event_path, normalize_file_path,
    EventKind, FileEvent, ModifyKind,
};
use vstd::prelude::*;

verus! {

/// Everything that may change what a file holds, or whether it exists, is taken in. Only a
/// mere access and a change of metadata are not.
pub proof fn law_changes_are_taken_in(kind: &EventKind, r: bool)
    requires
        call_ensures(is_interesting_event_kind, (kind,), r),
    ensures
        *kind is Create ==> r,
        *kind is Remove ==> r,
        *kind is Any ==> r,
        *kind is Other ==> r,
        *kind matches EventKind::Modify(what) ==> (r <==> what !is Metadata),
        *kind is Access ==> !r,
{
}

/// After a removal, and after a change of name, a path may name nothing; after anything else
/// it names what it named.
pub proof fn law_removals_are_known(kind: &EventKind, r: bool)
    requires
        call_ensures(is_removal_event_kind, (kind,), r),
    ensures
        *kind is Remove ==> r,
        *kind matches EventKind::Modify(what) ==> (r <==> what is Name),
        *kind is Create || *kind is Any || *kind is Other || *kind is Access ==> !r,
{
}

/// True for the events that are taken in.
pub open spec fn is_change(kind: EventKind) -> bool {
    match kind {
        EventKind::Create | EventKind::Remove | EventKind::Any | EventKind::Other => true,
        EventKind::Modify(what) => what == ModifyKind::Any || what == ModifyKind::Data || what
            == ModifyKind::Name || what == ModifyKind::Other,
        EventKind::Access => false,
    }
}

/// True if a file is what a path stands for: a path from the root stands for itself, and any
/// other is seen from the directory, if there is one.
pub open spec fn leads_to(path: PathView, dir: Option<LexicalPath>, file: PathView) -> bool {
    let from_root = path.len() > 0 && path[0] == seq!['/'];
    &&& from_root || dir is None ==> file == path
    &&& dir matches Some(d) ==> !from_root ==> if d@.len() > 0 && path.len() > 0 && path[0]
        == seq!['.'] {
        file == d@ + path.skip(1)
    } else {
        file == d@ + path
    }
}

/// A path is seen from the current directory where it does not begin at the root. Its text is
/// put behind that of the directory, with one slash between them.
pub proof fn law_path_is_seen_from_the_directory(
    path: &LexicalPath,
    dir: &Option<LexicalPath>,
    r: LexicalPath,
)
    requires
        call_ensures(normalize_file_path, (path, dir), r) || call_ensures(
            normalize_event_path,
            (path, dir),
            r,
        ),
    ensures
        leads_to(path@, *dir, r@),
        *dir is None || (path.written().len() > 0 && path.written()[0] == '/') ==> r.written()
            == path.written(),
        *dir matches Some(d) ==> path.written().len() > 0 ==> path.written()[0] != '/'
            ==> d.written().len() > 0 ==> r.written() == if d.written().last() == '/' {
            d.written() + path.written()
        } else {
            d.written() + seq!['/'] + path.written()
        },
{
    assert(path@.skip(1) =~= path@.drop_first());
}

/// An event that is taken in makes all the providers of each file that it names pending, and
/// they are announced one second later; nothing that was pending is lost and no subscription
/// changes. Any other event, and an error, change nothing, and nothing is asked of the
/// operating system.
pub proof fn law_event_makes_the_providers_pending<B: WatchBackend>(
    actor: &mut ProviderWatchActor,
    backend: &mut RecordedBackend<B>,
    event: &Result<FileEvent, String>,
    dir: &Option<LexicalPath>,
    now: u64,
    i: int,
    file: PathView,
)
    requires
        old(actor).well_formed(),
        now + 1000 <= u64::MAX,
        call_ensures(
            ProviderWatchActor::handle_fs_event::<B>,
            (actor, backend, event, dir, now),
            (),
        ),
    ensures
        *event matches Ok(e) ==> is_change(e.kind) ==> 0 <= i < e.paths@.len() ==> leads_to(
            e.paths@[i]@,
            *dir,
            file,
        ) ==> old(actor)@.targets.dom().contains(file) ==> {
            &&& final(actor)@.deadline == Some((now + 1000) as u64)
            &&& forall|id: Seq<char>|
                old(actor)@.targets[file].providers.contains(id)
                    ==> final(actor)@.pending.dom().contains(file) && (
                #[trigger] final(actor)@.pending[file].contains(id))
        },
        forall|f: PathView, id: Seq<char>|
            old(actor)@.pending.dom().contains(f) && old(actor)@.pending[f].contains(id)
                ==> final(actor)@.pending.dom().contains(f) && #[trigger] final(actor)@.pending[f].contains(id),
        final(actor)@.files == old(actor)@.files,
        *event is Err || (*event matches Ok(e) && !is_change(e.kind)) ==> final(actor)@ == old(actor)@ && final(backend).calls() == old(backend).calls(),
{
    let before = old(actor)@;
    let after = final(actor)@;
    assert(crate::provider_watch::progressed(before, after, now));
    match *event {
        Ok(e) => {
            if is_change(e.kind) && 0 <= i < e.paths@.len() && leads_to(e.paths@[i]@, *dir, file) {
                let path = e.paths@[i]@;
                assert(path.skip(1) =~= path.drop_first());
                assert(event_is_noted(before, after, file, now));
                assert forall|id: Seq<char>|
                    before.targets.dom().contains(file) && before.targets[file].providers.contains(
                        id,
                    ) implies after.pending.dom().contains(file) && (
                #[trigger] after.pending[file].contains(id)) by {
                    assert(providers_of(before, file).contains(id));
                    assert(pending_of(after, file).contains(id));
                }
            }
        },
        Err(_) => {},
    }
    assert forall|f: PathView, id: Seq<char>|
        before.pending.dom().contains(f) && before.pending[f].contains(
            id,
        ) implies after.pending.dom().contains(f) && #[trigger] after.pending[f].contains(id) by {
        assert(pending_of(before, f).contains(id));
    }
    let c0 = old(backend).calls();
    let c1 = final(backend).calls();
    if *event is Err || (*event matches Ok(e) && !is_change(e.kind)) {
        assert(crate::provider_watch::new_calls(c0, c1) == Seq::<
            crate::provider_watch::WatchCall,
        >::empty());
        assert(c1 =~= c0);
    }
}

/// When the time has come, exactly the pending providers are announced, each once and in
/// ascending order. After that nothing is pending and no time is set; the subscriptions stay.
pub proof fn law_pending_providers_are_announced(
    actor: &mut ProviderWatchActor,
    r: Option<ProviderWatchEvent>,
)
    requires
        call_ensures(ProviderWatchActor::handle_deadline, (actor,), r),
    ensures
        forall|f: PathView, id: Seq<char>| #[trigger]
            old(actor)@.pending[f].contains(id) && old(actor)@.pending.dom().contains(f)
                ==> names_provider(r, id),
        forall|id: Seq<char>| #[trigger]
            names_provider(r, id) ==> exists|f: PathView|
                old(actor)@.pending.dom().contains(f) && #[trigger] old(actor)@.pending[f].contains(id),
        r matches Some(ProviderWatchEvent::ProvidersChanged(ids)) ==> ids@.len() > 0 && forall|
            j: int,
            k: int,
        |
            0 <= j < k < ids@.len() ==> text_less(#[trigger] ids@[j]@, #[trigger] ids@[k]@),
        final(actor)@.deadline is None,
        final(actor)@.pending == Map::<PathView, Set<Seq<char>>>::empty(),
        final(actor)@.files == old(actor)@.files,
        final(actor)@.targets == old(actor)@.targets,
        final(actor)@.roots == old(actor)@.roots,
{
    let before = old(actor)@;
    let all = crate::provider_watch::pending_ids(before);
    match r {
        Some(ProviderWatchEvent::ProvidersChanged(ids)) => {
            let texts = views(ids@);
            assert(texts.len() == ids@.len());
            assert(crate::text_order::ascending(texts));
            assert forall|j: int, k: int| 0 <= j < k < ids@.len() implies text_less(
                #[trigger] ids@[j]@,
                #[trigger] ids@[k]@,
            ) by {
                assert(texts[j] == ids@[j]@);
                assert(texts[k] == ids@[k]@);
            }
            if ids@.len() == 0 {
                assert(all =~= Set::<Seq<char>>::empty()) by {
                    assert forall|id: Seq<char>| !all.contains(id) by {
                        if all.contains(id) {
                            assert(texts.contains(id));
                        }
                    }
                }
            }
        },
        None => {},
    }
    assert forall|f: PathView, id: Seq<char>| #[trigger]
        before.pending[f].contains(id) && before.pending.dom().contains(f) implies names_provider(
        r,
        id,
    ) by {
        assert(pending_of(before, f).contains(id));
        assert(all.contains(id));
        match r {
            Some(ProviderWatchEvent::ProvidersChanged(ids)) => {
                let texts = views(ids@);
                assert(texts.contains(id));
                let k = choose|k: int| 0 <= k < texts.len() && texts[k] == id;
                assert(ids@[k]@ == id);
            },
            None => {},
        }
    }
    assert forall|id: Seq<char>| #[trigger] names_provider(r, id) implies exists|f: PathView|
        before.pending.dom().contains(f) && #[trigger] before.pending[f].contains(id) by {
        match r {
            Some(ProviderWatchEvent::ProvidersChanged(ids)) => {
                let texts = views(ids@);
                let k = choose|k: int| 0 <= k < ids@.len() && (#[trigger] ids@[k])@ == id;
                assert(texts[k] == id);
                assert(texts.contains(id));
                assert(all.contains(id));
                let f = choose|f: PathView| #[trigger] pending_of(before, f).contains(id);
                assert(before.pending[f].contains(id));
            },
            None => {},
        }
    }
}

/// True if an announcement speaks of a provider.
pub open spec fn names_provider(event: Option<ProviderWatchEvent>, id: Seq<char>) -> bool {
    match event {
        Some(ProviderWatchEvent::ProvidersChanged(ids)) => exists|k: int|
            0 <= k < ids@.len() && (#[trigger] ids@[k])@ == id,
        None => false,
    }
}

/// A change of a file that a provider subscribed to is announced: after the event a time is
/// set, and at that time the provider is among those that are named.
pub proof fn law_change_of_a_file_is_announced<B: WatchBackend>(
    actor: &mut ProviderWatchActor,
    backend: &mut RecordedBackend<B>,
    event: &Result<FileEvent, String>,
    dir: &Option<LexicalPath>,
    now: u64,
    i: int,
    id: Seq<char>,
    later: &mut ProviderWatchActor,
    r: Option<ProviderWatchEvent>,
)
    requires
        old(actor).well_formed(),
        now + 1000 <= u64::MAX,
        call_ensures(
            ProviderWatchActor::handle_fs_event::<B>,
            (actor, backend, event, dir, now),
            (),
        ),
        old(later)@ == final(actor)@,
        call_ensures(ProviderWatchActor::handle_deadline, (later,), r),
    ensures
        *event matches Ok(e) ==> is_change(e.kind) ==> 0 <= i < e.paths@.len() ==> e.paths@[i]@.len()
            > 0 ==> e.paths@[i]@[0] == seq!['/'] ==> old(actor)@.files.dom().contains(id) ==> old(actor)@.files[id].contains(e.paths@[i]@) ==> final(actor)@.deadline == Some(
            (now + 1000) as u64,
        ) && names_provider(r, id),
{
    match *event {
        Ok(e) => {
            if is_change(e.kind) && 0 <= i < e.paths@.len() && e.paths@[i]@.len() > 0
                && e.paths@[i]@[0] == seq!['/'] && old(actor)@.files.dom().contains(id) && old(actor)@.files[id].contains(e.paths@[i]@) {
                let file = e.paths@[i]@;
                law_event_makes_the_providers_pending(actor, backend, event, dir, now, i, file);
                law_pending_providers_are_announced(later, r);
                assert(crate::provider_watch::files_of(old(actor)@, id).contains(file));
                assert(providers_of(old(actor)@, file).contains(id));
                assert(old(actor)@.targets[file].providers.contains(id));
                assert(final(actor)@.pending[file].contains(id));
                assert(old(later)@.pending[file].contains(id));
            }
        },
        Err(_) => {},
    }
}

} // verus!
