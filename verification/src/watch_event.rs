//! File-system events and the paths they speak of.

use crate::lexical_path::{
    is_absolute_path, join_path, joined_text, opt_written, path_ancestors, path_views, LexicalPath,
};
use vstd::prelude::*;

verus! {

/// Whether a watch covers the directories below its root too.
#[derive(Debug, Clone, Copy, PartialEq, Eq, Structural)]
pub enum RecursiveMode {
    Recursive,
    NonRecursive,
}

/// What was modified.
#[derive(Debug, Clone, Copy, PartialEq, Eq, Structural)]
pub enum ModifyKind {
    Any,
    Data,
    Metadata,
    Name,
    Other,
}

/// What happened to the paths of an event.
#[derive(Debug, Clone, Copy, PartialEq, Eq, Structural)]
pub enum EventKind {
    Any,
    Access,
    Create,
    Modify(ModifyKind),
    Remove,
    Other,
}

/// An event that the file system reported.
#[derive(Debug)]
pub struct FileEvent {
    pub kind: EventKind,
    pub paths: Vec<LexicalPath>,
}

/// True for events that may change what a file holds or whether it exists.
pub open spec fn is_interesting(kind: EventKind) -> bool {
    kind !is Access && kind != EventKind::Modify(ModifyKind::Metadata)
}

/// True for events after which a path may no longer name what it named.
pub open spec fn is_removal(kind: EventKind) -> bool {
    kind is Remove || kind == EventKind::Modify(ModifyKind::Name)
}

/// True for events that may change what a file holds or whether it exists.
pub fn is_interesting_event_kind(kind: &EventKind) -> (r: bool)
    ensures
        r == is_interesting(*kind),
{
    match kind {
        EventKind::Create | EventKind::Remove | EventKind::Any | EventKind::Other => true,
        EventKind::Modify(ModifyKind::Metadata) => false,
        EventKind::Modify(_) => true,
        EventKind::Access => false,
    }
}

/// True for events after which a path may no longer name what it named.
pub fn is_removal_event_kind(kind: &EventKind) -> (r: bool)
    ensures
        r == is_removal(*kind),
{
    match kind {
        EventKind::Remove => true,
        EventKind::Modify(ModifyKind::Name) => true,
        _ => false,
    }
}

/// A path seen from the current directory, if that is known.
pub open spec fn absolute_from(
    path: Seq<Seq<char>>,
    cwd: Option<Seq<Seq<char>>>,
) -> Seq<Seq<char>> {
    if is_absolute_path(path) {
        path
    } else {
        match cwd {
            Some(dir) => join_path(dir, path),
            None => path,
        }
    }
}

/// How a path is written that is seen from the current directory, if that is known.
pub open spec fn absolute_text(text: Seq<char>, cwd: Option<Seq<char>>) -> Seq<char> {
    match cwd {
        Some(dir) => joined_text(dir, text),
        None => text,
    }
}

/// The view of an optional path.
pub open spec fn opt_path(path: Option<LexicalPath>) -> Option<Seq<Seq<char>>> {
    match path {
        Some(p) => Some(p@),
        None => None,
    }
}

/// A path seen from the current directory, if that is known. Links are not
/// followed: two paths to one file stay two paths.
pub fn normalize_file_path(path: &LexicalPath, cwd: &Option<LexicalPath>) -> (r: LexicalPath)
    ensures
        r@ == absolute_from(path@, opt_path(*cwd)),
        r.written() == absolute_text(path.written(), opt_written(*cwd)),
{
    if path.is_absolute() {
        path.clone()
    } else {
        match cwd {
            Some(dir) => dir.join(path),
            None => path.clone(),
        }
    }
}

/// The path of an event, seen from the current directory.
pub fn normalize_event_path(path: &LexicalPath, cwd: &Option<LexicalPath>) -> (r: LexicalPath)
    ensures
        r@ == absolute_from(path@, opt_path(*cwd)),
        r.written() == absolute_text(path.written(), opt_written(*cwd)),
{
    normalize_file_path(path, cwd)
}

/// An event path and a subscription path that name the same file relative to one
/// directory are normalized to the same path, however each is written.
pub proof fn law_normalization_is_symmetric(
    file: Seq<Seq<char>>,
    dir: Seq<Seq<char>>,
)
    requires
        is_absolute_path(dir),
    ensures
        absolute_from(absolute_from(file, Some(dir)), Some(dir)) == absolute_from(file, Some(dir)),
{
    let once = absolute_from(file, Some(dir));
    if !is_absolute_path(file) {
        assert(once[0] == dir[0]);
    }
}

/// The paths of an event, seen from the current directory.
pub open spec fn event_paths(event: FileEvent, cwd: Option<Seq<Seq<char>>>) -> Seq<Seq<Seq<char>>> {
    event.paths@.map_values(|p: LexicalPath| absolute_from(p@, cwd))
}

/// How the paths of an event are written, seen from the current directory.
pub open spec fn event_texts(event: FileEvent, cwd: Option<Seq<char>>) -> Seq<Seq<char>> {
    event.paths@.map_values(|p: LexicalPath| absolute_text(p.written(), cwd))
}

/// The first path for which the answer is yes.
pub open spec fn first_accepted<A>(paths: Seq<A>, answers: Seq<bool>) -> Option<A>
    decreases paths.len(),
{
    if paths.len() == 0 || answers.len() == 0 {
        None
    } else if answers[0] {
        Some(paths[0])
    } else {
        first_accepted(paths.drop_first(), answers.drop_first())
    }
}

/// Among a path and its ancestors, the nearest that exists; `found` says of each of
/// them, in turn, whether it does.
pub fn nearest_existing_ancestor(path: &LexicalPath, found: &Vec<bool>) -> (r: Option<
    LexicalPath,
>)
    ensures
        opt_path(r) == first_accepted(path_ancestors(path@), found@),
{
    let list = path.ancestors();
    assert(path_views(list@).len() == list@.len());
    let ghost all = path_ancestors(path@);
    let mut i: usize = 0;
    assert(all.skip(0) =~= all);
    assert(found@.skip(0) =~= found@);
    while i < list.len() && i < found.len()
        invariant
            i <= list@.len(),
            i <= found@.len(),
            all == path_views(list@),
            all == path_ancestors(path@),
            first_accepted(all, found@) == first_accepted(all.skip(i as int), found@.skip(i as int)),
        decreases list@.len() - i,
    {
        assert(all.skip(i as int)[0] == list@[i as int]@);
        assert(all.skip(i as int).drop_first() =~= all.skip(i + 1));
        assert(found@.skip(i as int).drop_first() =~= found@.skip(i + 1));
        if found[i] {
            return Some(list[i].clone());
        }
        i = i + 1;
    }
    None
}

} // verus!
