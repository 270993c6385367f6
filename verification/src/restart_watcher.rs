//! What has to be watched so that the daemon restarts when its files change.

use crate::lexical_path::{
    contains_path, opt_written, parent_path, path_ancestors, path_views, written_texts, LexicalPath,
};
use crate::text::{join, joined, views};
use crate::watch_event::{
    absolute_from, absolute_text, event_paths, event_texts, first_accepted, is_interesting,
    is_interesting_event_kind, nearest_existing_ancestor, normalize_event_path, opt_path,
    FileEvent, RecursiveMode,
};
use vstd::prelude::*;

verus! {

/// How long changes are collected before the daemon restarts, in milliseconds.
pub const RESTART_DEBOUNCE_DELAY: u64 = 1000;

/// What a watched change leads to.
#[derive(Debug, Clone, Copy, PartialEq, Eq, Hash, Structural)]
pub enum WatchAction {
    /// Restart the daemon process.
    Restart,
}

/// A directory to watch.
#[derive(Debug)]
pub struct WatchRoot {
    pub path: LexicalPath,
    pub recursive: RecursiveMode,
}

/// What to watch, and what a change there leads to.
#[derive(Debug)]
pub struct WatchRegistration {
    pub action: WatchAction,
    /// How long changes are collected, in milliseconds.
    pub debounce: u64,
    pub description: String,
    pub dir_roots: Vec<LexicalPath>,
    pub file_aliases: Vec<LexicalPath>,
    pub watch_roots: Vec<WatchRoot>,
}

/// The places that the daemon was started from.
#[derive(Debug)]
pub struct RestartWatchInputs {
    pub plugins_dir: LexicalPath,
    pub plugin_overrides_dir: Option<LexicalPath>,
    pub config_file: Option<LexicalPath>,
    pub binary_file: LexicalPath,
}

/// What the file system says of a directory: its canonical path, and whether that leads
/// to a directory.
#[derive(Debug)]
pub struct DirectoryFacts {
    pub canonical: Option<LexicalPath>,
    pub is_dir: bool,
}

/// What the file system says of a file: its canonical path, and which of the directory
/// it stands in and the ancestors of that directory exist.
#[derive(Debug)]
pub struct FileFacts {
    pub canonical: Option<LexicalPath>,
    pub existing: Vec<bool>,
}

/// A registration as values.
#[verifier::ext_equal]
pub struct RegistrationView {
    pub action: WatchAction,
    pub debounce: u64,
    pub description: Seq<char>,
    pub dirs: Seq<Seq<Seq<char>>>,
    pub aliases: Seq<Seq<Seq<char>>>,
    pub roots: Seq<(Seq<Seq<char>>, RecursiveMode)>,
}

impl View for WatchRegistration {
    type V = RegistrationView;

    open spec fn view(&self) -> RegistrationView {
        RegistrationView {
            action: self.action,
            debounce: self.debounce,
            description: self.description@,
            dirs: path_views(self.dir_roots@),
            aliases: path_views(self.file_aliases@),
            roots: root_views(self.watch_roots@),
        }
    }
}

/// Directories to watch as pairs of a path and a mode.
pub open spec fn root_views(roots: Seq<WatchRoot>) -> Seq<(Seq<Seq<char>>, RecursiveMode)> {
    roots.map_values(|r: WatchRoot| (r.path@, r.recursive))
}

/// The place of the first entry for a path, or the length of the list.
pub open spec fn root_index(
    roots: Seq<(Seq<Seq<char>>, RecursiveMode)>,
    path: Seq<Seq<char>>,
) -> int
    decreases roots.len(),
{
    if roots.len() == 0 {
        0
    } else if roots[0].0 == path {
        0
    } else {
        1 + root_index(roots.drop_first(), path)
    }
}

/// The list with a directory to watch: a new one is added at the end, and one that is
/// there already becomes recursive if either entry is.
pub open spec fn with_watch_root(
    roots: Seq<(Seq<Seq<char>>, RecursiveMode)>,
    path: Seq<Seq<char>>,
    recursive: RecursiveMode,
) -> Seq<(Seq<Seq<char>>, RecursiveMode)> {
    let i = root_index(roots, path);
    if i < roots.len() {
        if recursive is Recursive {
            roots.update(i, (roots[i].0, RecursiveMode::Recursive))
        } else {
            roots
        }
    } else {
        roots.push((path, recursive))
    }
}

/// The paths under which a file is known: its own, and its canonical one if that differs.
pub open spec fn aliases_of(
    path: Seq<Seq<char>>,
    canonical: Option<Seq<Seq<char>>>,
) -> Seq<Seq<Seq<char>>> {
    match canonical {
        Some(resolved) => if resolved == path {
            seq![path]
        } else {
            seq![path, resolved]
        },
        None => seq![path],
    }
}

/// How to watch a file: through its directory, or, as long as that does not exist,
/// through everything below the nearest ancestor that does.
pub open spec fn file_watch(path: Seq<Seq<char>>, existing: Seq<bool>) -> Option<
    (Seq<Seq<char>>, RecursiveMode),
> {
    match parent_path(path) {
        None => None,
        Some(dir) => if existing.len() > 0 && existing[0] {
            Some((dir, RecursiveMode::NonRecursive))
        } else {
            match first_accepted(path_ancestors(dir), existing) {
                None => None,
                Some(root) => Some((root, RecursiveMode::Recursive)),
            }
        },
    }
}

/// The registration with a directory added.
pub open spec fn with_dir(
    reg: RegistrationView,
    path: Seq<Seq<char>>,
    recursive: RecursiveMode,
) -> RegistrationView {
    RegistrationView {
        dirs: reg.dirs.push(path),
        roots: with_watch_root(reg.roots, path, recursive),
        ..reg
    }
}

/// The registration with a file added that is watched as given.
pub open spec fn with_file(
    reg: RegistrationView,
    path: Seq<Seq<char>>,
    canonical: Option<Seq<Seq<char>>>,
    watch: (Seq<Seq<char>>, RecursiveMode),
) -> RegistrationView {
    RegistrationView {
        aliases: reg.aliases + aliases_of(path, canonical),
        roots: with_watch_root(reg.roots, watch.0, watch.1),
        ..reg
    }
}

proof fn lemma_root_index(
    roots: Seq<(Seq<Seq<char>>, RecursiveMode)>,
    path: Seq<Seq<char>>,
    i: int,
)
    requires
        0 <= i <= roots.len(),
        forall|j: int| 0 <= j < i ==> (#[trigger] roots[j]).0 != path,
        i < roots.len() ==> roots[i].0 == path,
    ensures
        root_index(roots, path) == i,
    decreases roots.len(),
{
    if i > 0 {
        let rest = roots.drop_first();
        assert forall|j: int| 0 <= j < i - 1 implies (#[trigger] rest[j]).0 != path by {
            assert(rest[j] == roots[j + 1]);
        }
        assert(i < roots.len() ==> rest[i - 1] == roots[i]);
        assert(roots[0].0 != path);
        lemma_root_index(rest, path, i - 1);
    }
}

/// Adds a directory to watch.
pub fn add_watch_root(watch_roots: &mut Vec<WatchRoot>, path: LexicalPath, recursive: RecursiveMode)
    ensures
        root_views(final(watch_roots)@) == with_watch_root(
            root_views(old(watch_roots)@),
            path@,
            recursive,
        ),
{
    let ghost start = root_views(watch_roots@);
    let mut i: usize = 0;
    while i < watch_roots.len()
        invariant
            i <= watch_roots@.len(),
            root_views(watch_roots@) == start,
            root_views(old(watch_roots)@) == start,
            forall|j: int| 0 <= j < i ==> (#[trigger] start[j]).0 != path@,
        decreases watch_roots@.len() - i,
    {
        assert(start[i as int] == (watch_roots@[i as int].path@, watch_roots@[i as int].recursive));
        if watch_roots[i].path.same_path(&path) {
            proof {
                lemma_root_index(start, path@, i as int);
            }
            if watch_roots[i].recursive == RecursiveMode::NonRecursive && recursive
                == RecursiveMode::Recursive {
                let kept = watch_roots[i].path.clone();
                watch_roots.set(i, WatchRoot { path: kept, recursive: RecursiveMode::Recursive });
                assert(root_views(watch_roots@) =~= start.update(
                    i as int,
                    (path@, RecursiveMode::Recursive),
                ));
            } else {
                assert(recursive is Recursive ==> start.update(
                    i as int,
                    (path@, RecursiveMode::Recursive),
                ) =~= start);
            }
            return;
        }
        i = i + 1;
    }
    proof {
        lemma_root_index(start, path@, i as int);
    }
    watch_roots.push(WatchRoot { path, recursive });
    assert(root_views(watch_roots@) =~= start.push((path@, recursive)));
}

/// The paths under which a file is known.
pub fn file_aliases(path: &LexicalPath, canonical: &Option<LexicalPath>) -> (r: Vec<LexicalPath>)
    ensures
        path_views(r@) == aliases_of(path@, opt_path(*canonical)),
{
    let mut aliases: Vec<LexicalPath> = Vec::new();
    aliases.push(path.clone());
    assert(path_views(aliases@) =~= seq![path@]);
    match canonical {
        Some(resolved) => {
            if !resolved.same_path(path) {
                aliases.push(resolved.clone());
                assert(path_views(aliases@) =~= seq![path@, resolved@]);
            }
        },
        None => {},
    }
    aliases
}

/// True if a path, or the canonical path it leads to, is among the aliases.
pub fn path_matches_aliases(
    path: &LexicalPath,
    canonical: &Option<LexicalPath>,
    aliases: &Vec<LexicalPath>,
) -> (r: bool)
    ensures
        r == (path_views(aliases@).contains(path@) || (canonical matches Some(resolved) && path_views(
            aliases@,
        ).contains(resolved@))),
{
    if contains_path(aliases, path) {
        return true;
    }
    match canonical {
        Some(resolved) => contains_path(aliases, resolved),
        None => false,
    }
}

impl WatchRegistration {
    /// A registration that watches nothing yet.
    pub fn new(action: WatchAction, debounce: u64, description: &str) -> (r: Self)
        ensures
            r@ == (RegistrationView {
                action,
                debounce,
                description: description@,
                dirs: Seq::empty(),
                aliases: Seq::empty(),
                roots: Seq::empty(),
            }),
    {
        let r = WatchRegistration {
            action,
            debounce,
            description: description.to_string(),
            dir_roots: Vec::new(),
            file_aliases: Vec::new(),
            watch_roots: Vec::new(),
        };
        assert(r@ =~= (RegistrationView {
            action,
            debounce,
            description: description@,
            dirs: Seq::empty(),
            aliases: Seq::empty(),
            roots: Seq::empty(),
        }));
        r
    }

    /// Adds a directory to watch.
    pub fn add_dir_root(&mut self, path: LexicalPath, recursive: RecursiveMode)
        ensures
            final(self)@ == with_dir(old(self)@, path@, recursive),
    {
        let ghost before = self.dir_roots@;
        add_watch_root(&mut self.watch_roots, path.clone(), recursive);
        self.dir_roots.push(path);
        assert(path_views(self.dir_roots@) =~= path_views(before).push(path@));
        assert(self@ =~= with_dir(old(self)@, path@, recursive));
    }

    /// Adds a file to watch. Its aliases are entered even if it cannot be watched.
    pub fn add_file(&mut self, path: &LexicalPath, facts: &FileFacts) -> (r: Result<(), String>)
        ensures
            r is Ok <==> file_watch(path@, facts.existing@) is Some,
            file_watch(path@, facts.existing@) matches Some(watch) ==> final(self)@ == with_file(
                old(self)@,
                path@,
                opt_path(facts.canonical),
                watch,
            ),
            r is Err ==> final(self)@ == (RegistrationView {
                aliases: old(self)@.aliases + aliases_of(path@, opt_path(facts.canonical)),
                ..old(self)@
            }),
            r matches Err(message) ==> message@ == file_complaint(path@, path.written()),
    {
        let ghost start = self@;
        let mut aliases = file_aliases(path, &facts.canonical);
        let ghost before = self.file_aliases@;
        let ghost more = aliases@;
        self.file_aliases.append(&mut aliases);
        assert(path_views(self.file_aliases@) =~= path_views(before) + path_views(more));
        assert(self@ =~= (RegistrationView {
            aliases: start.aliases + aliases_of(path@, opt_path(facts.canonical)),
            ..start
        }));
        let mut message = "cannot monitor file ".to_string();
        let shown = path.to_text();
        message.append(shown.as_str());
        match path.parent() {
            None => {
                message.append(" because it has no parent directory");
                Err(message)
            },
            Some(dir) => {
                if facts.existing.len() > 0 && facts.existing[0] {
                    add_watch_root(&mut self.watch_roots, dir, RecursiveMode::NonRecursive);
                    return Ok(());
                }
                match nearest_existing_ancestor(&dir, &facts.existing) {
                    None => {
                        message.append(" because no existing ancestor directory was found");
                        Err(message)
                    },
                    Some(root) => {
                        add_watch_root(&mut self.watch_roots, root, RecursiveMode::Recursive);
                        Ok(())
                    },
                }
            },
        }
    }
}

/// The complaint about a file that cannot be watched.
pub open spec fn file_complaint(path: Seq<Seq<char>>, shown: Seq<char>) -> Seq<char> {
    "cannot monitor file "@ + shown + (if parent_path(path) is None {
        " because it has no parent directory"@
    } else {
        " because no existing ancestor directory was found"@
    })
}

/// A path seen from the current directory.
pub fn normalize_absolute_path(path: &LexicalPath, cwd: &LexicalPath) -> (r: LexicalPath)
    ensures
        r@ == absolute_from(path@, Some(cwd@)),
        r.written() == absolute_text(path.written(), Some(cwd.written())),
{
    if path.is_absolute() {
        path.clone()
    } else {
        cwd.join(path)
    }
}

/// A path by its canonical form, or else seen from the current directory.
pub open spec fn existing_from(
    path: Seq<Seq<char>>,
    cwd: Seq<Seq<char>>,
    canonical: Option<Seq<Seq<char>>>,
) -> Seq<Seq<char>> {
    match canonical {
        Some(resolved) => resolved,
        None => absolute_from(path, Some(cwd)),
    }
}

/// How such a path is written.
pub open spec fn existing_text(
    path: LexicalPath,
    cwd: LexicalPath,
    canonical: Option<LexicalPath>,
) -> Seq<char> {
    match canonical {
        Some(resolved) => resolved.written(),
        None => absolute_text(path.written(), Some(cwd.written())),
    }
}

/// A path by its canonical form, or else seen from the current directory.
pub fn normalize_existing_path(
    path: &LexicalPath,
    cwd: &LexicalPath,
    canonical: &Option<LexicalPath>,
) -> (r: LexicalPath)
    ensures
        r@ == existing_from(path@, cwd@, opt_path(*canonical)),
        r.written() == existing_text(*path, *cwd, *canonical),
{
    match canonical {
        Some(resolved) => resolved.clone(),
        None => normalize_absolute_path(path, cwd),
    }
}

/// A restart registration that watches nothing yet.
pub open spec fn blank_restart_registration() -> RegistrationView {
    RegistrationView {
        action: WatchAction::Restart,
        debounce: RESTART_DEBOUNCE_DELAY,
        description: "daemon restart (plugins, overrides, config, binary)"@,
        dirs: Seq::empty(),
        aliases: Seq::empty(),
        roots: Seq::empty(),
    }
}

/// The registration, or the complaint about the first place that cannot be watched.
pub open spec fn restart_registration(
    inputs: RestartWatchInputs,
    cwd: LexicalPath,
    plugins: DirectoryFacts,
    overrides: DirectoryFacts,
    config: FileFacts,
    binary: FileFacts,
) -> Result<RegistrationView, Seq<char>> {
    let plugins_dir = existing_from(inputs.plugins_dir@, cwd@, opt_path(plugins.canonical));
    if !plugins.is_dir {
        Err(
            "plugins directory is not readable: "@ + existing_text(
                inputs.plugins_dir,
                cwd,
                plugins.canonical,
            ),
        )
    } else {
        let with_plugins = with_dir(
            blank_restart_registration(),
            plugins_dir,
            RecursiveMode::Recursive,
        );
        match inputs.plugin_overrides_dir {
            None => restart_files(inputs, cwd, config, binary, with_plugins),
            Some(raw) => {
                let overrides_dir = existing_from(raw@, cwd@, opt_path(overrides.canonical));
                if !overrides.is_dir {
                    Err(
                        "plugin overrides directory is not readable: "@ + existing_text(
                            raw,
                            cwd,
                            overrides.canonical,
                        ),
                    )
                } else {
                    restart_files(
                        inputs,
                        cwd,
                        config,
                        binary,
                        with_dir(with_plugins, overrides_dir, RecursiveMode::Recursive),
                    )
                }
            },
        }
    }
}

/// The registration with a file, or the complaint that it cannot be watched.
pub open spec fn try_with_file(
    reg: RegistrationView,
    file: LexicalPath,
    cwd: LexicalPath,
    facts: FileFacts,
) -> Result<RegistrationView, Seq<char>> {
    let path = absolute_from(file@, Some(cwd@));
    match file_watch(path, facts.existing@) {
        Some(watch) => Ok(with_file(reg, path, opt_path(facts.canonical), watch)),
        None => Err(file_complaint(path, absolute_text(file.written(), Some(cwd.written())))),
    }
}

/// The registration with the configuration file, if there is one, and the binary.
pub open spec fn restart_files(
    inputs: RestartWatchInputs,
    cwd: LexicalPath,
    config: FileFacts,
    binary: FileFacts,
    reg: RegistrationView,
) -> Result<RegistrationView, Seq<char>> {
    match inputs.config_file {
        None => try_with_file(reg, inputs.binary_file, cwd, binary),
        Some(raw) => match try_with_file(reg, raw, cwd, config) {
            Err(message) => Err(message),
            Ok(next) => try_with_file(next, inputs.binary_file, cwd, binary),
        },
    }
}

/// What to watch so that the daemon restarts when its files change.
pub fn build_restart_registration(
    inputs: &RestartWatchInputs,
    cwd: &LexicalPath,
    plugins: &DirectoryFacts,
    overrides: &DirectoryFacts,
    config: &FileFacts,
    binary: &FileFacts,
) -> (r: Result<WatchRegistration, String>)
    ensures
        match (r, restart_registration(*inputs, *cwd, *plugins, *overrides, *config, *binary)) {
            (Ok(reg), Ok(expected)) => reg@ == expected,
            (Err(message), Err(expected)) => message@ == expected,
            _ => false,
        },
{
    let mut reg = WatchRegistration::new(
        WatchAction::Restart,
        RESTART_DEBOUNCE_DELAY,
        "daemon restart (plugins, overrides, config, binary)",
    );
    let plugins_dir = normalize_existing_path(&inputs.plugins_dir, cwd, &plugins.canonical);
    if !plugins.is_dir {
        let mut message = "plugins directory is not readable: ".to_string();
        let shown = plugins_dir.to_text();
        message.append(shown.as_str());
        return Err(message);
    }
    reg.add_dir_root(plugins_dir, RecursiveMode::Recursive);
    match &inputs.plugin_overrides_dir {
        Some(raw) => {
            let overrides_dir = normalize_existing_path(raw, cwd, &overrides.canonical);
            if !overrides.is_dir {
                let mut message = "plugin overrides directory is not readable: ".to_string();
                let shown = overrides_dir.to_text();
                message.append(shown.as_str());
                return Err(message);
            }
            reg.add_dir_root(overrides_dir, RecursiveMode::Recursive);
        },
        None => {},
    }
    match &inputs.config_file {
        Some(raw) => {
            let config_file = normalize_absolute_path(raw, cwd);
            match reg.add_file(&config_file, config) {
                Err(message) => {
                    return Err(message);
                },
                Ok(_) => {},
            }
        },
        None => {},
    }
    let binary_file = normalize_absolute_path(&inputs.binary_file, cwd);
    match reg.add_file(&binary_file, binary) {
        Err(message) => Err(message),
        Ok(_) => Ok(reg),
    }
}

/// True if a change at the path, or at the canonical path it leads to, is one that the
/// registration speaks of.
pub open spec fn concerns(
    reg: RegistrationView,
    path: Seq<Seq<char>>,
    canonical: Option<Seq<Seq<char>>>,
) -> bool {
    ||| exists|i: int| 0 <= i < reg.dirs.len() && #[trigger] reg.dirs[i].is_prefix_of(path)
    ||| reg.aliases.contains(path)
    ||| (canonical matches Some(resolved) && reg.aliases.contains(resolved))
}

/// How a change is described.
pub open spec fn change_text(reg: RegistrationView, shown: Seq<char>) -> Seq<char> {
    reg.description + ": "@ + shown
}

/// The description of a change at a path, if the registration speaks of it.
pub fn classify_path_for_registration(
    path: &LexicalPath,
    canonical: &Option<LexicalPath>,
    registration: &WatchRegistration,
) -> (r: Option<String>)
    ensures
        r is Some <==> concerns(registration@, path@, opt_path(*canonical)),
        r matches Some(text) ==> text@ == change_text(registration@, path.written()),
{
    let mut found = path_matches_aliases(path, canonical, &registration.file_aliases);
    let ghost by_alias = found;
    let ghost dirs = registration@.dirs;
    let mut i: usize = 0;
    while i < registration.dir_roots.len()
        invariant
            i <= registration.dir_roots@.len(),
            dirs == path_views(registration.dir_roots@),
            found <==> by_alias || exists|j: int| 0 <= j < i && #[trigger] dirs[j].is_prefix_of(path@),
        decreases registration.dir_roots@.len() - i,
    {
        assert(dirs[i as int] == registration.dir_roots@[i as int]@);
        if path.starts_with(&registration.dir_roots[i]) {
            assert(dirs[i as int].is_prefix_of(path@));
            found = true;
        }
        i = i + 1;
    }
    if !found {
        return None;
    }
    let mut text = registration.description.clone();
    text.append(": ");
    let shown = path.to_text();
    text.append(shown.as_str());
    Some(text)
}

/// The place of the first of the paths that the registration speaks of.
pub open spec fn first_concerned(
    reg: RegistrationView,
    paths: Seq<Seq<Seq<char>>>,
    canonical: Seq<Option<Seq<Seq<char>>>>,
) -> Option<int>
    decreases paths.len(),
{
    if paths.len() == 0 {
        None
    } else {
        match first_concerned(reg, paths.drop_last(), canonical) {
            Some(i) => Some(i),
            None => if concerns(reg, paths.last(), canonical[paths.len() - 1]) {
                Some(paths.len() - 1)
            } else {
                None
            },
        }
    }
}

/// The views of optional paths.
pub open spec fn opt_paths(paths: Seq<Option<LexicalPath>>) -> Seq<Option<Seq<Seq<char>>>> {
    paths.map_values(|p: Option<LexicalPath>| opt_path(p))
}

/// The descriptions of the changes that the registrations speak of, in their order.
pub open spec fn changes_noted(
    regs: Seq<WatchRegistration>,
    paths: Seq<Seq<Seq<char>>>,
    shown: Seq<Seq<char>>,
    canonical: Seq<Option<Seq<Seq<char>>>>,
) -> Seq<Seq<char>>
    decreases regs.len(),
{
    if regs.len() == 0 {
        Seq::empty()
    } else {
        let before = changes_noted(regs.drop_last(), paths, shown, canonical);
        match first_concerned(regs.last()@, paths, canonical) {
            Some(i) => before.push(change_text(regs.last()@, shown[i])),
            None => before,
        }
    }
}

/// The time of the restart: the debounce time of the last registration that speaks of the
/// event, counted from `now`, or what it was.
pub open spec fn next_deadline(
    regs: Seq<WatchRegistration>,
    paths: Seq<Seq<Seq<char>>>,
    canonical: Seq<Option<Seq<Seq<char>>>>,
    deadline: Option<u64>,
    now: u64,
) -> Option<u64>
    decreases regs.len(),
{
    if regs.len() == 0 {
        deadline
    } else if first_concerned(regs.last()@, paths, canonical) is Some {
        Some((now + regs.last().debounce) as u64)
    } else {
        next_deadline(regs.drop_last(), paths, canonical, deadline, now)
    }
}

/// The description of the first of the paths that the registration speaks of.
fn classify_paths(
    paths: &Vec<LexicalPath>,
    canonical: &Vec<Option<LexicalPath>>,
    registration: &WatchRegistration,
) -> (r: Option<String>)
    requires
        paths@.len() == canonical@.len(),
    ensures
        match (r, first_concerned(registration@, path_views(paths@), opt_paths(canonical@))) {
            (Some(text), Some(i)) => text@ == change_text(
                registration@,
                written_texts(paths@)[i],
            ),
            (None, None) => true,
            _ => false,
        },
{
    let ghost all = path_views(paths@);
    let ghost resolved = opt_paths(canonical@);
    let mut i: usize = 0;
    assert(all.take(0) =~= Seq::<Seq<Seq<char>>>::empty());
    while i < paths.len()
        invariant
            i <= paths@.len(),
            paths@.len() == canonical@.len(),
            all == path_views(paths@),
            resolved == opt_paths(canonical@),
            first_concerned(registration@, all.take(i as int), resolved) is None,
        decreases paths@.len() - i,
    {
        let ghost next = all.take(i + 1);
        assert(next.drop_last() =~= all.take(i as int));
        assert(next.last() == paths@[i as int]@);
        assert(resolved[i as int] == opt_path(canonical@[i as int]));
        match classify_path_for_registration(&paths[i], &canonical[i], registration) {
            Some(text) => {
                proof {
                    assert(first_concerned(registration@, next, resolved) == Some(i as int));
                    lemma_first_concerned_stays(registration@, all, resolved, i + 1);
                    assert(written_texts(paths@)[i as int] == paths@[i as int].written());
                }
                return Some(text);
            },
            None => {},
        }
        i = i + 1;
    }
    assert(all.take(all.len() as int) =~= all);
    None
}

proof fn lemma_first_concerned_stays(
    reg: RegistrationView,
    paths: Seq<Seq<Seq<char>>>,
    canonical: Seq<Option<Seq<Seq<char>>>>,
    n: int,
)
    requires
        0 <= n <= paths.len(),
        first_concerned(reg, paths.take(n), canonical) is Some,
    ensures
        first_concerned(reg, paths, canonical) == first_concerned(reg, paths.take(n), canonical),
    decreases paths.len() - n,
{
    if n < paths.len() {
        assert(paths.take(n + 1).drop_last() =~= paths.take(n));
        lemma_first_concerned_stays(reg, paths, canonical, n + 1);
    } else {
        assert(paths.take(n) =~= paths);
    }
}

/// The paths of an event, seen from the current directory.
pub fn normalized_event_paths(event: &FileEvent, cwd: &Option<LexicalPath>) -> (r: Vec<LexicalPath>)
    ensures
        path_views(r@) == event_paths(*event, opt_path(*cwd)),
        written_texts(r@) == event_texts(*event, opt_written(*cwd)),
{
    let ghost all = event_paths(*event, opt_path(*cwd));
    let ghost shown = event_texts(*event, opt_written(*cwd));
    let mut out: Vec<LexicalPath> = Vec::new();
    let mut i: usize = 0;
    assert(written_texts(out@) =~= shown.take(0));
    while i < event.paths.len()
        invariant
            i <= event.paths@.len(),
            all == event_paths(*event, opt_path(*cwd)),
            shown == event_texts(*event, opt_written(*cwd)),
            path_views(out@) == all.take(i as int),
            written_texts(out@) == shown.take(i as int),
        decreases event.paths@.len() - i,
    {
        let ghost before = out@;
        out.push(normalize_event_path(&event.paths[i], cwd));
        assert(path_views(out@) =~= path_views(before).push(all[i as int]));
        assert(all.take(i + 1) =~= all.take(i as int).push(all[i as int]));
        assert(written_texts(out@) =~= written_texts(before).push(shown[i as int]));
        assert(shown.take(i + 1) =~= shown.take(i as int).push(shown[i as int]));
        i = i + 1;
    }
    assert(all.take(all.len() as int) =~= all);
    assert(shown.take(shown.len() as int) =~= shown);
    out
}

/// The paths of an event as text, separated by commas.
pub fn format_event_paths(event: &FileEvent, cwd: &Option<LexicalPath>) -> (r: String)
    ensures
        r@ == joined(event_texts(*event, opt_written(*cwd)), ", "@),
{
    let paths = normalized_event_paths(event, cwd);
    let ghost all = event_texts(*event, opt_written(*cwd));
    let mut texts: Vec<String> = Vec::new();
    let mut i: usize = 0;
    assert(views(texts@) =~= all.take(0));
    while i < paths.len()
        invariant
            i <= paths@.len(),
            written_texts(paths@) == all,
            views(texts@) == all.take(i as int),
        decreases paths@.len() - i,
    {
        let ghost before = texts@;
        assert(all[i as int] == paths@[i as int].written());
        texts.push(paths[i].to_text());
        assert(views(texts@) =~= views(before).push(all[i as int]));
        assert(all.take(i + 1) =~= all.take(i as int).push(all[i as int]));
        i = i + 1;
    }
    assert(written_texts(paths@).len() == paths@.len());
    assert(all.take(all.len() as int) =~= all);
    join(&texts, ", ")
}

/// Takes in an event: each registration that speaks of it sets the time of the restart
/// anew. `canonical` holds the canonical path of each path of the event, where it has
/// one. Returns the descriptions of the changes.
pub fn handle_event_general(
    event: &Result<FileEvent, String>,
    registrations: &Vec<WatchRegistration>,
    restart_deadline: &mut Option<u64>,
    cwd: &Option<LexicalPath>,
    canonical: &Vec<Option<LexicalPath>>,
    now: u64,
) -> (r: Vec<String>)
    requires
        forall|i: int|
            0 <= i < registrations@.len() ==> now + (#[trigger] registrations@[i]).debounce
                <= u64::MAX,
        event matches Ok(e) ==> (is_interesting(e.kind) ==> canonical@.len() == e.paths@.len()),
    ensures
        event is Err ==> r@.len() == 0 && *final(restart_deadline) == *old(restart_deadline),
        event matches Ok(e) ==> (!is_interesting(e.kind) ==> r@.len() == 0
            && *final(restart_deadline) == *old(restart_deadline)),
        event matches Ok(e) ==> (is_interesting(e.kind) ==> {
            &&& views(r@) == changes_noted(
                registrations@,
                event_paths(*e, opt_path(*cwd)),
                event_texts(*e, opt_written(*cwd)),
                opt_paths(canonical@),
            )
            &&& *final(restart_deadline) == next_deadline(
                registrations@,
                event_paths(*e, opt_path(*cwd)),
                opt_paths(canonical@),
                *old(restart_deadline),
                now,
            )
        }),
{
    let mut noted: Vec<String> = Vec::new();
    let event = match event {
        Ok(event) => event,
        Err(_) => {
            return noted;
        },
    };
    if !is_interesting_event_kind(&event.kind) {
        return noted;
    }
    let paths = normalized_event_paths(event, cwd);
    let ghost all = path_views(paths@);
    let ghost shown = written_texts(paths@);
    let ghost resolved = opt_paths(canonical@);
    assert(path_views(paths@).len() == paths@.len());
    let ghost start = *restart_deadline;
    let mut i: usize = 0;
    assert(views(noted@) =~= Seq::<Seq<char>>::empty());
    assert(registrations@.take(0) =~= Seq::<WatchRegistration>::empty());
    while i < registrations.len()
        invariant
            i <= registrations@.len(),
            all == path_views(paths@),
            shown == written_texts(paths@),
            paths@.len() == canonical@.len(),
            resolved == opt_paths(canonical@),
            forall|i: int|
                0 <= i < registrations@.len() ==> now + (#[trigger] registrations@[i]).debounce
                    <= u64::MAX,
            views(noted@) == changes_noted(registrations@.take(i as int), all, shown, resolved),
            *restart_deadline == next_deadline(
                registrations@.take(i as int),
                all,
                resolved,
                start,
                now,
            ),
        decreases registrations@.len() - i,
    {
        let ghost next = registrations@.take(i + 1);
        assert(next.drop_last() =~= registrations@.take(i as int));
        assert(next.last() == registrations@[i as int]);
        let ghost before = noted@;
        match classify_paths(&paths, canonical, &registrations[i]) {
            Some(text) => {
                noted.push(text);
                assert(views(noted@) =~= views(before).push(text@));
                *restart_deadline = Some(now + registrations[i].debounce);
            },
            None => {},
        }
        i = i + 1;
    }
    assert(registrations@.take(registrations@.len() as int) =~= registrations@);
    noted
}

/// The action that is due, if its time has come.
pub fn take_due_action(restart_deadline: &mut Option<u64>, now: u64) -> (r: Option<WatchAction>)
    ensures
        r is Some <==> (*old(restart_deadline) matches Some(at) && at <= now),
        r is Some ==> r == Some(WatchAction::Restart) && *final(restart_deadline) is None,
        r is None ==> *final(restart_deadline) == *old(restart_deadline),
{
    match *restart_deadline {
        Some(at) => {
            if at <= now {
                *restart_deadline = None;
                Some(WatchAction::Restart)
            } else {
                None
            }
        },
        None => None,
    }
}

/// Adding a directory twice changes nothing more than adding it once.
pub proof fn law_watch_root_is_added_once(
    roots: Seq<(Seq<Seq<char>>, RecursiveMode)>,
    path: Seq<Seq<char>>,
    recursive: RecursiveMode,
)
    ensures
        with_watch_root(with_watch_root(roots, path, recursive), path, recursive)
            == with_watch_root(roots, path, recursive),
{
    let once = with_watch_root(roots, path, recursive);
    let i = root_index(roots, path);
    lemma_index_finds(roots, path);
    lemma_root_index(once, path, i);
    assert(once.update(i, (once[i].0, RecursiveMode::Recursive)) =~= once || !(
    recursive is Recursive));
}

pub(crate) proof fn lemma_index_finds(roots: Seq<(Seq<Seq<char>>, RecursiveMode)>, path: Seq<Seq<char>>)
    ensures
        0 <= root_index(roots, path) <= roots.len(),
        root_index(roots, path) < roots.len() ==> roots[root_index(roots, path)].0 == path,
        forall|j: int| 0 <= j < root_index(roots, path) ==> (#[trigger] roots[j]).0 != path,
    decreases roots.len(),
{
    if roots.len() > 0 && roots[0].0 != path {
        let rest = roots.drop_first();
        lemma_index_finds(rest, path);
        let i = root_index(rest, path);
        assert(i < rest.len() ==> rest[i] == roots[i + 1]);
        assert forall|j: int| 0 <= j < root_index(roots, path) implies (#[trigger] roots[j]).0
            != path by {
            if j > 0 {
                assert(rest[j - 1] == roots[j]);
            }
        }
    }
}

} // verus!
