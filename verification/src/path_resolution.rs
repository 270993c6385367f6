//! Where the program looks for its files.

use crate::complaint::{plain, Complaint, ComplaintView};
use crate::config::{no_current_directory, unknown_current_directory, ProjectLocations};
use crate::lexical_path::{
    components, contains_path, join_path, joined_text, law_name_is_one_component,
    law_parent_of_join, opt_written, parent_path, parent_text, path_file_name, path_views,
    root_part, written_texts, LexicalPath,
};
use crate::text::same;
use crate::watch_event::{first_accepted, opt_path};
use vstd::prelude::*;

verus! {

pub const SYSTEM_PLUGINS_DIR: &'static str = "/usr/share/openusage-cli/openusage-plugins";

pub const SYSTEM_PLUGIN_OVERRIDES_DIR: &'static str = "/usr/share/openusage-cli/plugin-overrides";

/// A list of paths with one more, unless it is there already.
pub open spec fn with_unique(list: Seq<Seq<Seq<char>>>, path: Seq<Seq<char>>) -> Seq<
    Seq<Seq<char>>,
> {
    if list.contains(path) {
        list
    } else {
        list.push(path)
    }
}

/// A list of paths without those that occurred before.
pub open spec fn uniques(paths: Seq<Seq<Seq<char>>>) -> Seq<Seq<Seq<char>>>
    decreases paths.len(),
{
    if paths.len() == 0 {
        Seq::empty()
    } else {
        with_unique(uniques(paths.drop_last()), paths.last())
    }
}

/// How the paths of a list are written, without those that occurred before.
pub open spec fn unique_texts(paths: Seq<Seq<Seq<char>>>, texts: Seq<Seq<char>>) -> Seq<Seq<char>>
    decreases paths.len(),
{
    if paths.len() == 0 {
        Seq::empty()
    } else {
        let before = unique_texts(paths.drop_last(), texts.drop_last());
        if uniques(paths.drop_last()).contains(paths.last()) {
            before
        } else {
            before.push(texts.last())
        }
    }
}

/// No path occurs twice in such a list, and none is lost.
pub proof fn law_uniques_are_distinct(paths: Seq<Seq<Seq<char>>>)
    ensures
        uniques(paths).no_duplicates(),
        forall|p: Seq<Seq<char>>| #[trigger] uniques(paths).contains(p) <==> paths.contains(p),
    decreases paths.len(),
{
    if paths.len() > 0 {
        let init = paths.drop_last();
        let before = uniques(init);
        let all = uniques(paths);
        law_uniques_are_distinct(init);
        assert forall|p: Seq<Seq<char>>| #[trigger] all.contains(p) <==> paths.contains(p) by {
            assert(before.contains(p) <==> init.contains(p));
            if all.contains(p) {
                let k = choose|k: int| 0 <= k < all.len() && all[k] == p;
                if k < before.len() {
                    assert(before[k] == p);
                    assert(before.contains(p));
                    let j = choose|j: int| 0 <= j < init.len() && init[j] == p;
                    assert(paths[j] == p);
                } else {
                    assert(paths[paths.len() - 1] == p);
                }
            }
            if paths.contains(p) {
                let j = choose|j: int| 0 <= j < paths.len() && paths[j] == p;
                if j < init.len() {
                    assert(init[j] == p);
                    assert(before.contains(p));
                }
                if before.contains(p) {
                    let k = choose|k: int| 0 <= k < before.len() && before[k] == p;
                    assert(all[k] == p);
                } else {
                    assert(all.last() == p);
                }
            }
        }
        assert forall|i: int, j: int| 0 <= i < all.len() && 0 <= j < all.len() && i
            != j implies all[i] != all[j] by {
            if i < before.len() && j < before.len() {
                assert(before[i] != before[j]);
            } else if i < before.len() {
                assert(before.contains(before[i]));
            } else {
                assert(before.contains(before[j]));
            }
        }
    }
}

/// Adds a path to a list, unless it is there already.
pub fn push_unique_path(candidates: &mut Vec<LexicalPath>, candidate: LexicalPath)
    ensures
        path_views(final(candidates)@) == with_unique(path_views(old(candidates)@), candidate@),
        written_texts(final(candidates)@) == if path_views(old(candidates)@).contains(candidate@) {
            written_texts(old(candidates)@)
        } else {
            written_texts(old(candidates)@).push(candidate.written())
        },
{
    if !contains_path(candidates, &candidate) {
        let ghost before = candidates@;
        candidates.push(candidate);
        assert(path_views(candidates@) =~= path_views(before).push(candidate@));
        assert(written_texts(candidates@) =~= written_texts(before).push(candidate.written()));
    }
}

/// True for the names of build profiles.
pub open spec fn is_profile(name: Option<Seq<char>>) -> bool {
    name == Some("debug"@) || name == Some("release"@)
}

/// The directory of the sources that a program was built from, if it lies in a build
/// directory: below `target` in the directory of a profile, or in that of a platform and a
/// profile.
pub open spec fn source_root(exec_dir: Seq<Seq<char>>) -> Option<Seq<Seq<char>>> {
    if !is_profile(path_file_name(exec_dir)) {
        None
    } else {
        match parent_path(exec_dir) {
            None => None,
            Some(above) => if path_file_name(above) == Some("target"@) {
                parent_path(above)
            } else {
                match parent_path(above) {
                    None => None,
                    Some(higher) => if path_file_name(higher) == Some("target"@) {
                        parent_path(higher)
                    } else {
                        None
                    },
                }
            },
        }
    }
}

/// How that directory is written, given how the directory of the program is.
pub open spec fn source_root_text(exec_dir: Seq<Seq<char>>, exec_text: Seq<char>) -> Seq<char> {
    let higher = parent_text(parent_text(exec_text));
    if path_file_name(exec_dir.drop_last()) == Some("target"@) {
        higher
    } else {
        parent_text(higher)
    }
}

fn is_named(path: &LexicalPath, name: &str) -> (r: bool)
    ensures
        r == (path_file_name(path@) == Some(name@)),
{
    match path.file_name() {
        Some(own) => same(own.as_str(), name),
        None => false,
    }
}

/// The directory of the sources that a program was built from, if it lies in a build
/// directory.
pub fn source_checkout_root_from_exec_dir(exec_dir: &LexicalPath) -> (r: Option<LexicalPath>)
    ensures
        opt_path(r) == source_root(exec_dir@),
        r matches Some(root) ==> root.written() == source_root_text(
            exec_dir@,
            exec_dir.written(),
        ),
{
    if !is_named(exec_dir, "debug") && !is_named(exec_dir, "release") {
        return None;
    }
    let above = match exec_dir.parent() {
        Some(dir) => dir,
        None => {
            return None;
        },
    };
    if is_named(&above, "target") {
        return above.parent();
    }
    match above.parent() {
        Some(higher) => if is_named(&higher, "target") {
            higher.parent()
        } else {
            None
        },
        None => None,
    }
}

/// A directory that is installed beside the program, under its prefix.
pub open spec fn packaged_dir(exec_dir: Seq<Seq<char>>, name: Seq<char>) -> Seq<Seq<Seq<char>>> {
    match parent_path(exec_dir) {
        Some(prefix) => seq![join_path(prefix, components(name))],
        None => Seq::empty(),
    }
}

/// How such a directory is written, given how the directory of the program is.
pub open spec fn packaged_text(
    exec_dir: Seq<Seq<char>>,
    exec_text: Seq<char>,
    name: Seq<char>,
) -> Seq<Seq<char>> {
    match parent_path(exec_dir) {
        Some(_) => seq![joined_text(parent_text(exec_text), name)],
        None => Seq::empty(),
    }
}

/// The directories that may hold the plugins, in order, some of them perhaps twice: those
/// of a source directory only where the program was built there.
pub open spec fn plugins_dirs(cwd: Seq<Seq<char>>, exec_dir: Seq<Seq<char>>) -> Seq<
    Seq<Seq<char>>,
> {
    (match source_root(exec_dir) {
        Some(root) => seq![
            join_path(root, components("vendor/openusage/plugins"@)),
            join_path(root, components("plugins"@)),
            join_path(cwd, components("vendor/openusage/plugins"@)),
            join_path(cwd, components("plugins"@)),
            join_path(exec_dir, components("vendor/openusage/plugins"@)),
            join_path(exec_dir, components("plugins"@)),
        ],
        None => Seq::empty(),
    }) + packaged_dir(exec_dir, "share/openusage-cli/openusage-plugins"@) + seq![
        components(SYSTEM_PLUGINS_DIR@),
    ]
}

/// How those directories are written.
pub open spec fn plugins_dir_texts(cwd: LexicalPath, exec_dir: LexicalPath) -> Seq<Seq<char>> {
    let root = source_root_text(exec_dir@, exec_dir.written());
    (match source_root(exec_dir@) {
        Some(_) => seq![
            joined_text(root, "vendor/openusage/plugins"@),
            joined_text(root, "plugins"@),
            joined_text(cwd.written(), "vendor/openusage/plugins"@),
            joined_text(cwd.written(), "plugins"@),
            joined_text(exec_dir.written(), "vendor/openusage/plugins"@),
            joined_text(exec_dir.written(), "plugins"@),
        ],
        None => Seq::empty(),
    }) + packaged_text(
        exec_dir@,
        exec_dir.written(),
        "share/openusage-cli/openusage-plugins"@,
    ) + seq![SYSTEM_PLUGINS_DIR@]
}

/// The directories that may hold the overrides, in order, some of them perhaps twice.
pub open spec fn overrides_dirs(cwd: Seq<Seq<char>>, exec_dir: Seq<Seq<char>>) -> Seq<
    Seq<Seq<char>>,
> {
    (match source_root(exec_dir) {
        Some(root) => seq![
            join_path(root, components("plugin-overrides"@)),
            join_path(cwd, components("plugin-overrides"@)),
            join_path(exec_dir, components("plugin-overrides"@)),
        ],
        None => Seq::empty(),
    }) + packaged_dir(exec_dir, "share/openusage-cli/plugin-overrides"@) + seq![
        components(SYSTEM_PLUGIN_OVERRIDES_DIR@),
    ]
}

/// How those directories are written.
pub open spec fn overrides_dir_texts(cwd: LexicalPath, exec_dir: LexicalPath) -> Seq<Seq<char>> {
    (match source_root(exec_dir@) {
        Some(_) => seq![
            joined_text(source_root_text(exec_dir@, exec_dir.written()), "plugin-overrides"@),
            joined_text(cwd.written(), "plugin-overrides"@),
            joined_text(exec_dir.written(), "plugin-overrides"@),
        ],
        None => Seq::empty(),
    }) + packaged_text(
        exec_dir@,
        exec_dir.written(),
        "share/openusage-cli/plugin-overrides"@,
    ) + seq![SYSTEM_PLUGIN_OVERRIDES_DIR@]
}

/// The directory of plugins that is installed beside the program.
pub fn packaged_plugins_dir_from_exec_dir(exec_dir: &LexicalPath) -> (r: Option<LexicalPath>)
    ensures
        match r {
            Some(dir) => packaged_dir(exec_dir@, "share/openusage-cli/openusage-plugins"@)
                == seq![dir@] && packaged_text(
                exec_dir@,
                exec_dir.written(),
                "share/openusage-cli/openusage-plugins"@,
            ) == seq![dir.written()],
            None => parent_path(exec_dir@) is None,
        },
{
    match exec_dir.parent() {
        Some(prefix) => Some(prefix.join_text("share/openusage-cli/openusage-plugins")),
        None => None,
    }
}

/// The directory of overrides that is installed beside the program.
pub fn packaged_overrides_dir_from_exec_dir(exec_dir: &LexicalPath) -> (r: Option<LexicalPath>)
    ensures
        match r {
            Some(dir) => packaged_dir(exec_dir@, "share/openusage-cli/plugin-overrides"@)
                == seq![dir@] && packaged_text(
                exec_dir@,
                exec_dir.written(),
                "share/openusage-cli/plugin-overrides"@,
            ) == seq![dir.written()],
            None => parent_path(exec_dir@) is None,
        },
{
    match exec_dir.parent() {
        Some(prefix) => Some(prefix.join_text("share/openusage-cli/plugin-overrides")),
        None => None,
    }
}

/// The paths of a list, without those that occurred before.
fn deduplicated(list: Vec<LexicalPath>) -> (r: Vec<LexicalPath>)
    ensures
        path_views(r@) == uniques(path_views(list@)),
        written_texts(r@) == unique_texts(path_views(list@), written_texts(list@)),
{
    let ghost all = path_views(list@);
    let ghost texts = written_texts(list@);
    let mut out: Vec<LexicalPath> = Vec::new();
    let mut i: usize = 0;
    assert(all.take(0) =~= Seq::<Seq<Seq<char>>>::empty());
    assert(path_views(out@) =~= Seq::<Seq<Seq<char>>>::empty());
    assert(written_texts(out@) =~= Seq::<Seq<char>>::empty());
    while i < list.len()
        invariant
            i <= list@.len(),
            all == path_views(list@),
            texts == written_texts(list@),
            path_views(out@) == uniques(all.take(i as int)),
            written_texts(out@) == unique_texts(all.take(i as int), texts.take(i as int)),
        decreases list@.len() - i,
    {
        let ghost next = all.take(i + 1);
        assert(next.drop_last() =~= all.take(i as int));
        assert(next.last() == list@[i as int]@);
        assert(texts.take(i + 1).drop_last() =~= texts.take(i as int));
        assert(texts.take(i + 1).last() == list@[i as int].written());
        push_unique_path(&mut out, list[i].clone());
        i = i + 1;
    }
    assert(all.take(all.len() as int) =~= all);
    assert(texts.take(texts.len() as int) =~= texts);
    out
}

/// The directories that may hold the plugins, in order, each once.
pub fn plugins_dir_candidates(cwd: &LexicalPath, exec_dir: &LexicalPath) -> (r: Vec<LexicalPath>)
    ensures
        path_views(r@) == uniques(plugins_dirs(cwd@, exec_dir@)),
        written_texts(r@) == unique_texts(
            plugins_dirs(cwd@, exec_dir@),
            plugins_dir_texts(*cwd, *exec_dir),
        ),
{
    let mut list: Vec<LexicalPath> = Vec::new();
    match source_checkout_root_from_exec_dir(exec_dir) {
        Some(root) => {
            list.push(root.join_text("vendor/openusage/plugins"));
            list.push(root.join_text("plugins"));
            list.push(cwd.join_text("vendor/openusage/plugins"));
            list.push(cwd.join_text("plugins"));
            list.push(exec_dir.join_text("vendor/openusage/plugins"));
            list.push(exec_dir.join_text("plugins"));
        },
        None => {},
    }
    match packaged_plugins_dir_from_exec_dir(exec_dir) {
        Some(dir) => {
            list.push(dir);
        },
        None => {},
    }
    list.push(LexicalPath::parse(SYSTEM_PLUGINS_DIR));
    assert(path_views(list@) =~= plugins_dirs(cwd@, exec_dir@));
    assert(written_texts(list@) =~= plugins_dir_texts(*cwd, *exec_dir));
    deduplicated(list)
}

/// The directories that may hold the overrides, in order, each once.
pub fn plugin_overrides_dir_candidates(cwd: &LexicalPath, exec_dir: &LexicalPath) -> (r: Vec<
    LexicalPath,
>)
    ensures
        path_views(r@) == uniques(overrides_dirs(cwd@, exec_dir@)),
        written_texts(r@) == unique_texts(
            overrides_dirs(cwd@, exec_dir@),
            overrides_dir_texts(*cwd, *exec_dir),
        ),
{
    let mut list: Vec<LexicalPath> = Vec::new();
    match source_checkout_root_from_exec_dir(exec_dir) {
        Some(root) => {
            list.push(root.join_text("plugin-overrides"));
            list.push(cwd.join_text("plugin-overrides"));
            list.push(exec_dir.join_text("plugin-overrides"));
        },
        None => {},
    }
    match packaged_overrides_dir_from_exec_dir(exec_dir) {
        Some(dir) => {
            list.push(dir);
        },
        None => {},
    }
    list.push(LexicalPath::parse(SYSTEM_PLUGIN_OVERRIDES_DIR));
    assert(path_views(list@) =~= overrides_dirs(cwd@, exec_dir@));
    assert(written_texts(list@) =~= overrides_dir_texts(*cwd, *exec_dir));
    deduplicated(list)
}

/// The directory for the data of plugins, or the complaint that none is known: the one that
/// was asked for, or else that of the platform, or else one below the current directory.
pub open spec fn app_data_dir(
    asked: Option<Seq<Seq<char>>>,
    test_mode: bool,
    locations: Option<ProjectLocations>,
    cwd: Result<LexicalPath, String>,
) -> Result<Seq<Seq<char>>, ComplaintView> {
    match asked {
        Some(path) => Ok(path),
        None => if test_mode {
            Err(plain("--app-data-dir is required when --test-mode is enabled"@))
        } else {
            match locations {
                Some(known) => Ok(known.data_local_dir@),
                None => match cwd {
                    Ok(here) => Ok(join_path(here@, components(".openusage-cli"@))),
                    Err(reason) => Err(no_current_directory(reason@)),
                },
            }
        },
    }
}

/// How that directory is written, where it is known.
pub open spec fn app_data_text(
    asked: Option<LexicalPath>,
    locations: Option<ProjectLocations>,
    cwd: Result<LexicalPath, String>,
) -> Seq<char> {
    match asked {
        Some(path) => path.written(),
        None => match locations {
            Some(known) => known.data_local_dir.written(),
            None => joined_text(cwd->Ok_0.written(), ".openusage-cli"@),
        },
    }
}

/// The directory for the data of plugins.
pub fn resolve_app_data_dir(
    cli_value: Option<LexicalPath>,
    test_mode: bool,
    locations: &Option<ProjectLocations>,
    cwd: &Result<LexicalPath, String>,
) -> (r: Result<LexicalPath, Complaint>)
    ensures
        match (r, app_data_dir(opt_path(cli_value), test_mode, *locations, *cwd)) {
            (Ok(dir), Ok(path)) => dir@ == path && dir.written() == app_data_text(
                cli_value,
                *locations,
                *cwd,
            ),
            (Err(complaint), Err(owed)) => complaint@ == owed,
            _ => false,
        },
        cli_value matches Some(path) ==> r == Ok::<LexicalPath, Complaint>(path),
{
    match cli_value {
        Some(path) => Ok(path),
        None => {
            if test_mode {
                return Err(
                    Complaint::new(
                        "--app-data-dir is required when --test-mode is enabled".to_string(),
                    ),
                );
            }
            match locations {
                Some(known) => Ok(known.data_local_dir.clone()),
                None => match cwd {
                    Ok(here) => Ok(here.join_text(".openusage-cli")),
                    Err(reason) => Err(unknown_current_directory(reason.as_str())),
                },
            }
        },
    }
}

/// What a search among directories knows: the current directory and that of the program,
/// or why one of them is not known, and which of the candidates are directories.
#[derive(Debug)]
pub struct SearchFacts {
    pub places: Result<(LexicalPath, LexicalPath), Complaint>,
    pub is_dir: Vec<bool>,
}

/// The first directory among candidates, given which of them are directories.
pub open spec fn first_dir(candidates: Seq<Seq<Seq<char>>>, is_dir: Seq<bool>) -> Option<
    Seq<Seq<char>>,
> {
    first_accepted(candidates, is_dir)
}

fn pick_dir(candidates: &Vec<LexicalPath>, is_dir: &Vec<bool>) -> (r: Option<LexicalPath>)
    ensures
        opt_path(r) == first_dir(path_views(candidates@), is_dir@),
        opt_written(r) == first_accepted(written_texts(candidates@), is_dir@),
{
    let ghost all = path_views(candidates@);
    let ghost texts = written_texts(candidates@);
    let mut i: usize = 0;
    assert(all.skip(0) =~= all);
    assert(texts.skip(0) =~= texts);
    assert(is_dir@.skip(0) =~= is_dir@);
    while i < candidates.len() && i < is_dir.len()
        invariant
            i <= candidates@.len(),
            i <= is_dir@.len(),
            all == path_views(candidates@),
            texts == written_texts(candidates@),
            first_accepted(all, is_dir@) == first_accepted(
                all.skip(i as int),
                is_dir@.skip(i as int),
            ),
            first_accepted(texts, is_dir@) == first_accepted(
                texts.skip(i as int),
                is_dir@.skip(i as int),
            ),
        decreases candidates@.len() - i,
    {
        assert(all.skip(i as int)[0] == candidates@[i as int]@);
        assert(all.skip(i as int).drop_first() =~= all.skip(i + 1));
        assert(texts.skip(i as int)[0] == candidates@[i as int].written());
        assert(texts.skip(i as int).drop_first() =~= texts.skip(i + 1));
        assert(is_dir@.skip(i as int).drop_first() =~= is_dir@.skip(i + 1));
        if is_dir[i] {
            return Some(candidates[i].clone());
        }
        i = i + 1;
    }
    None
}

/// The directory of the plugins: the one that was asked for, or else the first candidate
/// that is a directory.
pub fn resolve_plugins_dir(
    cli_value: Option<LexicalPath>,
    test_mode: bool,
    facts: &SearchFacts,
) -> (r: Result<LexicalPath, Complaint>)
    ensures
        match cli_value {
            Some(path) => r matches Ok(dir) && dir == path,
            None => if test_mode {
                r matches Err(complaint) && complaint@ == plain(
                    "--plugins-dir is required when --test-mode is enabled"@,
                )
            } else {
                match facts.places {
                    Err(reason) => r matches Err(complaint) && complaint@ == reason@,
                    Ok((cwd, exec_dir)) => match first_dir(
                        uniques(plugins_dirs(cwd@, exec_dir@)),
                        facts.is_dir@,
                    ) {
                        Some(found) => r matches Ok(dir) && dir@ == found && Some(dir.written())
                            == first_accepted(
                            unique_texts(
                                plugins_dirs(cwd@, exec_dir@),
                                plugins_dir_texts(cwd, exec_dir),
                            ),
                            facts.is_dir@,
                        ),
                        None => r matches Err(complaint) && complaint@ == plain(
                            "plugins directory not found"@,
                        ),
                    },
                }
            },
        },
{
    match cli_value {
        Some(path) => Ok(path),
        None => {
            if test_mode {
                return Err(
                    Complaint::new(
                        "--plugins-dir is required when --test-mode is enabled".to_string(),
                    ),
                );
            }
            match &facts.places {
                Err(reason) => Err(reason.clone()),
                Ok(places) => {
                    let candidates = plugins_dir_candidates(&places.0, &places.1);
                    match pick_dir(&candidates, &facts.is_dir) {
                        Some(dir) => Ok(dir),
                        None => Err(Complaint::new("plugins directory not found".to_string())),
                    }
                },
            }
        },
    }
}

/// The directory of the overrides, if there is one: the one that was asked for, which has
/// to be a directory, or else the first candidate that is one. `exists_now` and `is_dir`
/// speak of the one that was asked for.
pub fn resolve_plugin_overrides_dir(
    cli_value: Option<LexicalPath>,
    exists_now: bool,
    is_dir: bool,
    test_mode: bool,
    facts: &SearchFacts,
) -> (r: Result<Option<LexicalPath>, Complaint>)
    ensures
        match cli_value {
            Some(path) => if !exists_now {
                r matches Err(complaint) && complaint@ == plain(
                    "plugin overrides dir does not exist: "@ + path.written(),
                )
            } else if !is_dir {
                r matches Err(complaint) && complaint@ == plain(
                    "plugin overrides path is not a directory: "@ + path.written(),
                )
            } else {
                r matches Ok(Some(dir)) && dir == path
            },
            None => if test_mode {
                r matches Ok(None)
            } else {
                match facts.places {
                    Err(reason) => r matches Err(complaint) && complaint@ == reason@,
                    Ok((cwd, exec_dir)) => r matches Ok(found) && opt_path(found) == first_dir(
                        uniques(overrides_dirs(cwd@, exec_dir@)),
                        facts.is_dir@,
                    ) && opt_written(found) == first_accepted(
                        unique_texts(
                            overrides_dirs(cwd@, exec_dir@),
                            overrides_dir_texts(cwd, exec_dir),
                        ),
                        facts.is_dir@,
                    ),
                }
            },
        },
{
    match cli_value {
        Some(path) => {
            let shown = path.to_text();
            if !exists_now {
                let mut message = "plugin overrides dir does not exist: ".to_string();
                message.append(shown.as_str());
                return Err(Complaint::new(message));
            }
            if !is_dir {
                let mut message = "plugin overrides path is not a directory: ".to_string();
                message.append(shown.as_str());
                return Err(Complaint::new(message));
            }
            Ok(Some(path))
        },
        None => {
            if test_mode {
                return Ok(None);
            }
            match &facts.places {
                Err(reason) => Err(reason.clone()),
                Ok(places) => {
                    let candidates = plugin_overrides_dir_candidates(&places.0, &places.1);
                    Ok(pick_dir(&candidates, &facts.is_dir))
                },
            }
        },
    }
}

/// A program that was not built in a source directory never looks for plugins or overrides
/// below the current directory.
pub proof fn law_installed_program_ignores_current_directory(
    cwd: Seq<Seq<char>>,
    other: Seq<Seq<char>>,
    exec_dir: Seq<Seq<char>>,
)
    requires
        source_root(exec_dir) is None,
    ensures
        plugins_dirs(cwd, exec_dir) == plugins_dirs(other, exec_dir),
        overrides_dirs(cwd, exec_dir) == overrides_dirs(other, exec_dir),
{
}

proof fn lemma_last_stays_last(paths: Seq<Seq<Seq<char>>>)
    requires
        paths.len() > 0,
        forall|j: int| 0 <= j < paths.len() - 2 ==> #[trigger] paths[j] != paths.last(),
    ensures
        uniques(paths).len() > 0,
        uniques(paths).last() == paths.last(),
{
    let init = paths.drop_last();
    law_uniques_are_distinct(init);
    if init.contains(paths.last()) {
        let before = init.drop_last();
        assert(init.last() == paths.last());
        law_uniques_are_distinct(before);
        assert(!before.contains(paths.last()));
    }
}

/// The directory that the system-wide ones lie in.
pub open spec fn system_share_dir() -> Seq<Seq<char>> {
    components("/usr/share/openusage-cli"@)
}

/// The system-wide directory of the plugins is looked at last.
pub proof fn law_system_plugins_come_last(cwd: Seq<Seq<char>>, exec_dir: Seq<Seq<char>>)
    ensures
        uniques(plugins_dirs(cwd, exec_dir)).len() > 0,
        uniques(plugins_dirs(cwd, exec_dir)).last() == components(SYSTEM_PLUGINS_DIR@),
{
    let dirs = plugins_dirs(cwd, exec_dir);
    reveal_strlit("/usr/share/openusage-cli/openusage-plugins");
    reveal_strlit("/usr/share/openusage-cli");
    reveal_strlit("openusage-plugins");
    reveal_strlit("vendor/openusage/plugins");
    reveal_strlit("vendor/openusage");
    reveal_strlit("plugins");
    assert(SYSTEM_PLUGINS_DIR@ =~= "/usr/share/openusage-cli"@ + root_part()
        + "openusage-plugins"@);
    assert("vendor/openusage/plugins"@ =~= "vendor/openusage"@ + root_part() + "plugins"@);
    law_name_is_one_component("/usr/share/openusage-cli"@, "openusage-plugins"@);
    law_name_is_one_component("vendor/openusage"@, "plugins"@);
    let vendored = components("vendor/openusage/plugins"@);
    assert forall|j: int| 0 <= j < dirs.len() - 2 implies #[trigger] dirs[j] != dirs.last() by {
        assert(dirs[j].last() == "plugins"@);
        assert("plugins"@.len() != "openusage-plugins"@.len());
    }
    lemma_last_stays_last(dirs);
}

/// The system-wide directory of the overrides is looked at last, unless the program was built
/// in a source directory and that or the current directory is the one that the system-wide
/// ones lie in.
pub proof fn law_system_overrides_come_last(cwd: Seq<Seq<char>>, exec_dir: Seq<Seq<char>>)
    requires
        source_root(exec_dir) matches Some(root) ==> root != system_share_dir() && cwd
            != system_share_dir(),
    ensures
        uniques(overrides_dirs(cwd, exec_dir)).len() > 0,
        uniques(overrides_dirs(cwd, exec_dir)).last() == components(SYSTEM_PLUGIN_OVERRIDES_DIR@),
{
    let dirs = overrides_dirs(cwd, exec_dir);
    let share = system_share_dir();
    let name = "plugin-overrides"@;
    reveal_strlit("/usr/share/openusage-cli/plugin-overrides");
    reveal_strlit("/usr/share/openusage-cli");
    reveal_strlit("/usr/share");
    reveal_strlit("openusage-cli");
    reveal_strlit("plugin-overrides");
    reveal_strlit("debug");
    reveal_strlit("release");
    assert(SYSTEM_PLUGIN_OVERRIDES_DIR@ =~= "/usr/share/openusage-cli"@ + root_part() + name);
    assert("/usr/share/openusage-cli"@ =~= "/usr/share"@ + root_part() + "openusage-cli"@);
    law_name_is_one_component("/usr/share/openusage-cli"@, name);
    law_name_is_one_component("/usr/share"@, "openusage-cli"@);
    assert(share.last() == "openusage-cli"@);
    assert(dirs.last() == share.push(name));
    assert(share.push(name).drop_last() =~= share);
    assert forall|j: int| 0 <= j < dirs.len() - 2 implies #[trigger] dirs[j] != dirs.last() by {
        assert(name[0] != '/' && name[0] != '.');
        law_parent_of_join(source_root(exec_dir).unwrap(), name);
        law_parent_of_join(cwd, name);
        law_parent_of_join(exec_dir, name);
        assert("openusage-cli"@ != "debug"@ && "openusage-cli"@ != "release"@) by {
            assert("openusage-cli"@.len() == 13);
        }
        assert(exec_dir != share);
    }
    lemma_last_stays_last(dirs);
}

} // verus!
