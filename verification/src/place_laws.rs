//! Where plugins and overrides are looked for, and which plugins are used.

use crate::complaint::Complaint;
use crate::config::ProjectLocations;
use crate::daemon::{plugin_ids, DaemonState};
use crate::enabled_plugins::{
    enabled_only, enables, first_bad_mask, keep_enabled, masks_of, select_plugins,
    EnabledPluginsMatcher,
};
use crate::http_api::parse_plugin_ids;
use crate::http_laws::lemma_behind_separator;
use crate::lexical_path::{
    components, law_name_is_one_component, named_pieces, path_views, written_texts, LexicalPath,
};
use crate::option_laws::{is_lost, is_written_below};
use crate::outside::{debug_list_text, glob_matches, glob_problem, masks_compile};
use crate::path_resolution::{
    packaged_overrides_dir_from_exec_dir, packaged_plugins_dir_from_exec_dir,
    plugin_overrides_dir_candidates, plugins_dir_candidates, push_unique_path, resolve_app_data_dir,
    resolve_plugin_overrides_dir, resolve_plugins_dir, source_checkout_root_from_exec_dir, uniques,
    SearchFacts,
};
use crate::plugin_engine::manifest::LoadedPlugin;
use crate::plugin_engine::run_laws::law_first_yes_is_taken;
use crate::provider_watch::PathView;
use crate::runtime_cli::SharedRuntimeCli;
use crate::runtime_context::initial_state;
use crate::startup_laws::{came_of, is_same_path};
use crate::text::{split_on, views};
use vstd::prelude::*;

verus! {

/// A path is added to a list at its end, unless one with the same components is there.
pub proof fn law_path_is_added_once(list: &mut Vec<LexicalPath>, path: LexicalPath)
    requires
        call_ensures(push_unique_path, (list, path), ()),
    ensures
        (exists|i: int| 0 <= i < old(list)@.len() && (#[trigger] old(list)@[i])@ == path@)
            ==> path_views(final(list)@) == path_views(old(list)@),
        (forall|i: int| 0 <= i < old(list)@.len() ==> (#[trigger] old(list)@[i])@ != path@)
            ==> path_views(final(list)@) == path_views(old(list)@).push(path@),
{
    let seen = path_views(old(list)@);
    assert(seen.len() == old(list)@.len());
    if exists|i: int| 0 <= i < old(list)@.len() && (#[trigger] old(list)@[i])@ == path@ {
        let i = choose|i: int| 0 <= i < old(list)@.len() && (#[trigger] old(list)@[i])@ == path@;
        assert(seen[i] == path@);
    }
    if forall|i: int| 0 <= i < old(list)@.len() ==> (#[trigger] old(list)@[i])@ != path@ {
        if seen.contains(path@) {
            let i = choose|i: int| 0 <= i < seen.len() && seen[i] == path@;
            assert(old(list)@[i]@ == path@);
        }
    }
}

/// Of several equal paths the first stays in its place.
pub proof fn law_first_of_equal_paths_stays(paths: Seq<PathView>, path: PathView)
    ensures
        uniques(Seq::empty()) == Seq::<PathView>::empty(),
        paths.contains(path) ==> uniques(paths.push(path)) == uniques(paths),
        !paths.contains(path) ==> uniques(paths.push(path)) == uniques(paths).push(path),
{
    assert(paths.push(path).drop_last() =~= paths);
    crate::path_resolution::law_uniques_are_distinct(paths);
    assert(uniques(paths).contains(path) <==> paths.contains(path));
    assert(uniques(Seq::empty()) =~= Seq::<PathView>::empty());
}

/// True for the names of the directories that a compiler fills.
pub open spec fn is_build_name(name: Seq<char>) -> bool {
    name == "debug"@ || name == "release"@
}

/// A program that lies in `target/debug` or `target/release`, or there below the name of a
/// platform, was built from the sources beside `target`; any other was not.
pub proof fn law_build_directory_tells_the_sources(
    exec_dir: &LexicalPath,
    root: PathView,
    platform: Seq<char>,
    name: Seq<char>,
    r: Option<LexicalPath>,
)
    requires
        call_ensures(source_checkout_root_from_exec_dir, (exec_dir,), r),
    ensures
        is_build_name(name) && exec_dir@ == root.push("target"@).push(name) ==> (r matches Some(
            found,
        ) && found@ == root),
        is_build_name(name) && platform != "target"@ && platform != seq!['/'] && exec_dir@
            == root.push("target"@).push(platform).push(name) ==> (r matches Some(found) && found@
            == root),
        exec_dir@.len() == 0 || !is_build_name(exec_dir@.last()) ==> r is None,
        exec_dir@.len() >= 2 && exec_dir@[exec_dir@.len() - 2] != "target"@ && (exec_dir@.len() < 3
            || exec_dir@[exec_dir@.len() - 3] != "target"@) ==> r is None,
{
    reveal_strlit("target");
    reveal_strlit("debug");
    reveal_strlit("release");
    assert("target"@.len() == 6 && "debug"@.len() == 5 && "release"@.len() == 7);
    if exec_dir@ == root.push("target"@).push(name) {
        assert(exec_dir@.drop_last() =~= root.push("target"@));
        assert(root.push("target"@).drop_last() =~= root);
    }
    if exec_dir@ == root.push("target"@).push(platform).push(name) {
        assert(exec_dir@.drop_last() =~= root.push("target"@).push(platform));
        assert(root.push("target"@).push(platform).drop_last() =~= root.push("target"@));
        assert(root.push("target"@).drop_last() =~= root);
    }
    if exec_dir@.len() >= 2 {
        let above = exec_dir@.drop_last();
        assert(above.last() == exec_dir@[exec_dir@.len() - 2]);
        if exec_dir@.len() >= 3 {
            assert(above.drop_last().last() == exec_dir@[exec_dir@.len() - 3]);
        }
    }
}

proof fn lemma_plugin_parts()
    ensures
        components("plugins"@) == seq!["plugins"@],
        components("vendor/openusage/plugins"@) == seq!["vendor"@, "openusage"@, "plugins"@],
        components("share/openusage-cli/openusage-plugins"@) == seq![
            "share"@,
            "openusage-cli"@,
            "openusage-plugins"@,
        ],
{
    reveal_strlit("plugins");
    reveal_strlit("vendor");
    reveal_strlit("openusage");
    reveal_strlit("vendor/openusage");
    reveal_strlit("vendor/openusage/plugins");
    reveal_strlit("share");
    reveal_strlit("openusage-cli");
    reveal_strlit("openusage-plugins");
    reveal_strlit("share/openusage-cli");
    reveal_strlit("share/openusage-cli/openusage-plugins");
    let slash = seq!['/'];
    assert("vendor/openusage"@ =~= "vendor"@ + slash + "openusage"@);
    assert("vendor/openusage/plugins"@ =~= "vendor/openusage"@ + slash + "plugins"@);
    assert("share/openusage-cli"@ =~= "share"@ + slash + "openusage-cli"@);
    assert("share/openusage-cli/openusage-plugins"@ =~= "share/openusage-cli"@ + slash
        + "openusage-plugins"@);
    assert("vendor"@.len() == 6 && "openusage"@.len() == 9 && "plugins"@.len() == 7
        && "share"@.len() == 5 && "openusage-cli"@.len() == 13 && "openusage-plugins"@.len()
        == 17);
    law_name_is_one_component("vendor"@, "vendor"@);
    law_name_is_one_component("vendor"@, "openusage"@);
    law_name_is_one_component("vendor/openusage"@, "plugins"@);
    law_name_is_one_component("share"@, "share"@);
    law_name_is_one_component("share"@, "openusage-cli"@);
    law_name_is_one_component("share/openusage-cli"@, "openusage-plugins"@);
    assert(seq!["vendor"@].push("openusage"@).push("plugins"@) =~= seq![
        "vendor"@,
        "openusage"@,
        "plugins"@,
    ]);
    assert(seq!["share"@].push("openusage-cli"@).push("openusage-plugins"@) =~= seq![
        "share"@,
        "openusage-cli"@,
        "openusage-plugins"@,
    ]);
}

proof fn lemma_override_parts()
    ensures
        components("plugin-overrides"@) == seq!["plugin-overrides"@],
        components("share/openusage-cli/plugin-overrides"@) == seq![
            "share"@,
            "openusage-cli"@,
            "plugin-overrides"@,
        ],
{
    reveal_strlit("share");
    reveal_strlit("openusage-cli");
    reveal_strlit("plugin-overrides");
    reveal_strlit("share/openusage-cli");
    reveal_strlit("share/openusage-cli/plugin-overrides");
    let slash = seq!['/'];
    assert("share/openusage-cli"@ =~= "share"@ + slash + "openusage-cli"@);
    assert("share/openusage-cli/plugin-overrides"@ =~= "share/openusage-cli"@ + slash
        + "plugin-overrides"@);
    assert("share"@.len() == 5 && "openusage-cli"@.len() == 13 && "plugin-overrides"@.len() == 16);
    law_name_is_one_component("share"@, "share"@);
    law_name_is_one_component("share"@, "openusage-cli"@);
    law_name_is_one_component("share/openusage-cli"@, "plugin-overrides"@);
    assert(seq!["share"@].push("openusage-cli"@).push("plugin-overrides"@) =~= seq![
        "share"@,
        "openusage-cli"@,
        "plugin-overrides"@,
    ]);
}

proof fn lemma_system_share()
    ensures
        components("/usr/share/openusage-cli"@) == seq![
            seq!['/'],
            "usr"@,
            "share"@,
            "openusage-cli"@,
        ],
{
    reveal_strlit("usr");
    reveal_strlit("/usr");
    reveal_strlit("share");
    reveal_strlit("/usr/share");
    reveal_strlit("openusage-cli");
    reveal_strlit("/usr/share/openusage-cli");
    let slash = seq!['/'];
    let empty = Seq::<char>::empty();
    let none = Seq::<Seq<char>>::empty();
    assert("/usr"@ =~= empty + slash + "usr"@);
    lemma_behind_separator(empty, "usr"@, '/');
    let pieces = split_on("/usr"@, '/');
    assert(split_on(empty, '/') =~= seq![empty]);
    assert(pieces =~= seq![empty, "usr"@]);
    assert(pieces.drop_last() =~= seq![empty]);
    assert(seq![empty].drop_last() =~= none);
    assert("usr"@.len() == 3);
    reveal_with_fuel(named_pieces, 3);
    assert(named_pieces(pieces) =~= seq!["usr"@]);
    assert(components("/usr"@) =~= seq![slash, "usr"@]);
    assert("/usr/share"@ =~= "/usr"@ + slash + "share"@);
    assert("/usr/share/openusage-cli"@ =~= "/usr/share"@ + slash + "openusage-cli"@);
    assert("share"@.len() == 5 && "openusage-cli"@.len() == 13);
    law_name_is_one_component("/usr"@, "share"@);
    law_name_is_one_component("/usr/share"@, "openusage-cli"@);
    assert(seq![slash, "usr"@].push("share"@).push("openusage-cli"@) =~= seq![
        slash,
        "usr"@,
        "share"@,
        "openusage-cli"@,
    ]);
}

proof fn lemma_system_dirs()
    ensures
        components("/usr/share/openusage-cli/openusage-plugins"@) == seq![
            seq!['/'],
            "usr"@,
            "share"@,
            "openusage-cli"@,
            "openusage-plugins"@,
        ],
        components("/usr/share/openusage-cli/plugin-overrides"@) == seq![
            seq!['/'],
            "usr"@,
            "share"@,
            "openusage-cli"@,
            "plugin-overrides"@,
        ],
{
    lemma_system_share();
    reveal_strlit("/usr/share/openusage-cli");
    reveal_strlit("openusage-plugins");
    reveal_strlit("plugin-overrides");
    reveal_strlit("/usr/share/openusage-cli/openusage-plugins");
    reveal_strlit("/usr/share/openusage-cli/plugin-overrides");
    let slash = seq!['/'];
    let share = seq![slash, "usr"@, "share"@, "openusage-cli"@];
    assert("openusage-plugins"@.len() == 17 && "plugin-overrides"@.len() == 16);
    assert("/usr/share/openusage-cli/openusage-plugins"@ =~= "/usr/share/openusage-cli"@ + slash
        + "openusage-plugins"@);
    assert("/usr/share/openusage-cli/plugin-overrides"@ =~= "/usr/share/openusage-cli"@ + slash
        + "plugin-overrides"@);
    law_name_is_one_component("/usr/share/openusage-cli"@, "openusage-plugins"@);
    law_name_is_one_component("/usr/share/openusage-cli"@, "plugin-overrides"@);
    assert(share.push("openusage-plugins"@) =~= seq![
        slash,
        "usr"@,
        "share"@,
        "openusage-cli"@,
        "openusage-plugins"@,
    ]);
    assert(share.push("plugin-overrides"@) =~= seq![
        slash,
        "usr"@,
        "share"@,
        "openusage-cli"@,
        "plugin-overrides"@,
    ]);
}

/// What is installed with a program lies below `share/openusage-cli`, beside the directory of
/// the program.
pub proof fn law_installed_data_lies_beside_the_program(
    exec_dir: &LexicalPath,
    plugins: Option<LexicalPath>,
    overrides: Option<LexicalPath>,
)
    requires
        call_ensures(packaged_plugins_dir_from_exec_dir, (exec_dir,), plugins),
        call_ensures(packaged_overrides_dir_from_exec_dir, (exec_dir,), overrides),
    ensures
        exec_dir@.len() == 0 || exec_dir@.last() == seq!['/'] ==> plugins is None
            && overrides is None,
        exec_dir@.len() > 0 && exec_dir@.last() != seq!['/'] ==> (plugins matches Some(dir) && dir@
            == exec_dir@.drop_last() + seq!["share"@, "openusage-cli"@, "openusage-plugins"@]),
        exec_dir@.len() > 0 && exec_dir@.last() != seq!['/'] ==> (overrides matches Some(dir)
            && dir@ == exec_dir@.drop_last() + seq![
            "share"@,
            "openusage-cli"@,
            "plugin-overrides"@,
        ]),
{
    reveal_strlit("share");
    assert("share"@.len() == 5);
    lemma_plugin_parts();
    lemma_override_parts();
    match plugins {
        Some(dir) => {
            assert(seq![dir@][0] == dir@);
        },
        None => {},
    }
    match overrides {
        Some(dir) => {
            assert(seq![dir@][0] == dir@);
        },
        None => {},
    }
    if exec_dir@.len() > 0 && exec_dir@.last() != seq!['/'] {
        let prefix = exec_dir@.drop_last();
        let a = crate::path_resolution::packaged_dir(
            exec_dir@,
            "share/openusage-cli/openusage-plugins"@,
        );
        let b = crate::path_resolution::packaged_dir(
            exec_dir@,
            "share/openusage-cli/plugin-overrides"@,
        );
        assert(a[0] == prefix + seq!["share"@, "openusage-cli"@, "openusage-plugins"@]);
        assert(b[0] == prefix + seq!["share"@, "openusage-cli"@, "plugin-overrides"@]);
    }
}

/// The places where plugins are looked for, in order: where the program was built from
/// sources, below these, below the current directory and below that of the program; then what
/// is installed with the program; and last what is installed for the system. Each is looked
/// at once.
pub proof fn law_plugins_are_looked_for_in_order(
    cwd: &LexicalPath,
    exec_dir: &LexicalPath,
    root: Option<LexicalPath>,
    r: Vec<LexicalPath>,
)
    requires
        call_ensures(plugins_dir_candidates, (cwd, exec_dir), r),
        call_ensures(source_checkout_root_from_exec_dir, (exec_dir,), root),
        exec_dir@.len() > 0,
        exec_dir@.last() != seq!['/'],
    ensures
        ({
            let vendored = seq!["vendor"@, "openusage"@, "plugins"@];
            let plain = seq!["plugins"@];
            let installed = exec_dir@.drop_last() + seq![
                "share"@,
                "openusage-cli"@,
                "openusage-plugins"@,
            ];
            let system = seq![
                seq!['/'],
                "usr"@,
                "share"@,
                "openusage-cli"@,
                "openusage-plugins"@,
            ];
            path_views(r@) == uniques(
                match root {
                    Some(sources) => seq![
                        sources@ + vendored,
                        sources@ + plain,
                        cwd@ + vendored,
                        cwd@ + plain,
                        exec_dir@ + vendored,
                        exec_dir@ + plain,
                        installed,
                        system,
                    ],
                    None => seq![installed, system],
                },
            )
        }),
{
    lemma_plugin_parts();
    lemma_system_dirs();
    reveal_strlit("vendor");
    reveal_strlit("plugins");
    reveal_strlit("share");
    assert("vendor"@.len() == 6 && "plugins"@.len() == 7 && "share"@.len() == 5);
    let vendored = seq!["vendor"@, "openusage"@, "plugins"@];
    let plain = seq!["plugins"@];
    let installed = exec_dir@.drop_last() + seq!["share"@, "openusage-cli"@, "openusage-plugins"@];
    let system = seq![seq!['/'], "usr"@, "share"@, "openusage-cli"@, "openusage-plugins"@];
    let all = crate::path_resolution::plugins_dirs(cwd@, exec_dir@);
    match root {
        Some(sources) => {
            assert(all =~= seq![
                sources@ + vendored,
                sources@ + plain,
                cwd@ + vendored,
                cwd@ + plain,
                exec_dir@ + vendored,
                exec_dir@ + plain,
                installed,
                system,
            ]);
        },
        None => {
            assert(all =~= seq![installed, system]);
        },
    }
}

/// So are the overrides.
pub proof fn law_overrides_are_looked_for_in_order(
    cwd: &LexicalPath,
    exec_dir: &LexicalPath,
    root: Option<LexicalPath>,
    r: Vec<LexicalPath>,
)
    requires
        call_ensures(plugin_overrides_dir_candidates, (cwd, exec_dir), r),
        call_ensures(source_checkout_root_from_exec_dir, (exec_dir,), root),
        exec_dir@.len() > 0,
        exec_dir@.last() != seq!['/'],
    ensures
        ({
            let plain = seq!["plugin-overrides"@];
            let installed = exec_dir@.drop_last() + seq![
                "share"@,
                "openusage-cli"@,
                "plugin-overrides"@,
            ];
            let system = seq![
                seq!['/'],
                "usr"@,
                "share"@,
                "openusage-cli"@,
                "plugin-overrides"@,
            ];
            path_views(r@) == uniques(
                match root {
                    Some(sources) => seq![
                        sources@ + plain,
                        cwd@ + plain,
                        exec_dir@ + plain,
                        installed,
                        system,
                    ],
                    None => seq![installed, system],
                },
            )
        }),
{
    lemma_override_parts();
    lemma_system_dirs();
    reveal_strlit("plugin-overrides");
    reveal_strlit("share");
    assert("plugin-overrides"@.len() == 16 && "share"@.len() == 5);
    let plain = seq!["plugin-overrides"@];
    let installed = exec_dir@.drop_last() + seq!["share"@, "openusage-cli"@, "plugin-overrides"@];
    let system = seq![seq!['/'], "usr"@, "share"@, "openusage-cli"@, "plugin-overrides"@];
    let all = crate::path_resolution::overrides_dirs(cwd@, exec_dir@);
    match root {
        Some(sources) => {
            assert(all =~= seq![
                sources@ + plain,
                cwd@ + plain,
                exec_dir@ + plain,
                installed,
                system,
            ]);
        },
        None => {
            assert(all =~= seq![installed, system]);
        },
    }
}

/// The data of plugins is kept where that was asked for, else where the platform keeps such
/// data, else in `.openusage-cli` below the current directory. In test mode it has to be
/// asked for.
pub proof fn law_data_has_its_place(
    asked: Option<LexicalPath>,
    test_mode: bool,
    locations: &Option<ProjectLocations>,
    cwd: &Result<LexicalPath, String>,
    r: Result<LexicalPath, Complaint>,
)
    requires
        call_ensures(resolve_app_data_dir, (asked, test_mode, locations, cwd), r),
    ensures
        asked matches Some(path) ==> (r matches Ok(dir) && is_same_path(Some(dir), Some(path))),
        asked is None && test_mode ==> (r matches Err(complaint) && complaint.message@
            == "--app-data-dir is required when --test-mode is enabled"@),
        asked is None && !test_mode ==> (*locations matches Some(known) ==> (r matches Ok(dir)
            && is_same_path(Some(dir), Some(known.data_local_dir)))),
        asked is None && !test_mode && *locations is None ==> (*cwd matches Ok(here)
            ==> here.written().len() > 0 ==> (r matches Ok(dir) && is_written_below(
            dir,
            here.written(),
            ".openusage-cli"@,
        ))),
        asked is None && !test_mode && *locations is None ==> (*cwd matches Err(reason) ==> (
        r matches Err(complaint) && is_lost(complaint, reason@))),
{
    reveal_strlit(".openusage-cli");
    match (r, *cwd) {
        (Err(complaint), Err(reason)) => {
            if asked is None && !test_mode && *locations is None {
                assert(views(complaint.causes@).len() == complaint.causes@.len());
                assert(views(complaint.causes@)[0] == complaint.causes@[0]@);
            }
        },
        _ => {},
    }
}

/// The directory of the plugins is the one that was asked for, else the first of the
/// candidates that is a directory. In test mode it has to be asked for.
pub proof fn law_plugins_are_found(
    asked: Option<LexicalPath>,
    test_mode: bool,
    facts: &SearchFacts,
    candidates: Vec<LexicalPath>,
    i: int,
    r: Result<LexicalPath, Complaint>,
)
    requires
        call_ensures(resolve_plugins_dir, (asked, test_mode, facts), r),
        facts.places matches Ok(places) ==> call_ensures(
            plugins_dir_candidates,
            (&places.0, &places.1),
            candidates,
        ),
    ensures
        asked matches Some(path) ==> (r matches Ok(dir) && is_same_path(Some(dir), Some(path))),
        asked is None && test_mode ==> (r matches Err(complaint) && complaint.message@
            == "--plugins-dir is required when --test-mode is enabled"@),
        asked is None && !test_mode ==> (facts.places matches Err(reason) ==> (r matches Err(
            complaint,
        ) && complaint@ == reason@)),
        asked is None && !test_mode && facts.places is Ok && 0 <= i < candidates@.len() && i
            < facts.is_dir@.len() && facts.is_dir@[i] && (forall|k: int|
            0 <= k < i ==> !#[trigger] facts.is_dir@[k]) ==> (r matches Ok(dir) && is_same_path(
            Some(dir),
            Some(candidates@[i]),
        )),
        asked is None && !test_mode && facts.places is Ok && (forall|k: int|
            0 <= k < facts.is_dir@.len() ==> !#[trigger] facts.is_dir@[k]) ==> (r matches Err(
            complaint,
        ) && complaint.message@ == "plugins directory not found"@),
{
    let paths = path_views(candidates@);
    let texts = written_texts(candidates@);
    law_first_yes_is_taken(paths, facts.is_dir@, i);
    law_first_yes_is_taken(texts, facts.is_dir@, i);
    assert(paths.len() == candidates@.len());
    assert(texts.len() == candidates@.len());
    if 0 <= i < candidates@.len() {
        assert(paths[i] == candidates@[i]@);
        assert(texts[i] == candidates@[i].written());
    }
}

/// The directory of the overrides is the one that was asked for, which has to be there and be
/// a directory, else the first of the candidates that is one, if any is. In test mode there
/// is none unless it is asked for.
pub proof fn law_overrides_are_found(
    asked: Option<LexicalPath>,
    there: bool,
    is_dir: bool,
    test_mode: bool,
    facts: &SearchFacts,
    candidates: Vec<LexicalPath>,
    i: int,
    r: Result<Option<LexicalPath>, Complaint>,
)
    requires
        call_ensures(
            resolve_plugin_overrides_dir,
            (asked, there, is_dir, test_mode, facts),
            r,
        ),
        facts.places matches Ok(places) ==> call_ensures(
            plugin_overrides_dir_candidates,
            (&places.0, &places.1),
            candidates,
        ),
    ensures
        asked matches Some(path) ==> there && is_dir ==> (r matches Ok(dir) && is_same_path(
            dir,
            Some(path),
        )),
        asked matches Some(path) ==> !there ==> (r matches Err(complaint) && complaint.message@
            == "plugin overrides dir does not exist: "@ + path.written()),
        asked matches Some(path) ==> there && !is_dir ==> (r matches Err(complaint)
            && complaint.message@ == "plugin overrides path is not a directory: "@
            + path.written()),
        asked is None && test_mode ==> (r matches Ok(dir) && dir is None),
        asked is None && !test_mode ==> (facts.places matches Err(reason) ==> (r matches Err(
            complaint,
        ) && complaint@ == reason@)),
        asked is None && !test_mode && facts.places is Ok && 0 <= i < candidates@.len() && i
            < facts.is_dir@.len() && facts.is_dir@[i] && (forall|k: int|
            0 <= k < i ==> !#[trigger] facts.is_dir@[k]) ==> (r matches Ok(dir) && is_same_path(
            dir,
            Some(candidates@[i]),
        )),
        asked is None && !test_mode && facts.places is Ok && (forall|k: int|
            0 <= k < facts.is_dir@.len() ==> !#[trigger] facts.is_dir@[k]) ==> (r matches Ok(dir)
            && dir is None),
{
    let paths = path_views(candidates@);
    let texts = written_texts(candidates@);
    law_first_yes_is_taken(paths, facts.is_dir@, i);
    law_first_yes_is_taken(texts, facts.is_dir@, i);
    assert(paths.len() == candidates@.len());
    assert(texts.len() == candidates@.len());
    if 0 <= i < candidates@.len() {
        assert(paths[i] == candidates@[i]@);
        assert(texts[i] == candidates@[i].written());
    }
}

proof fn lemma_bad_mask(masks: Seq<Seq<char>>, i: int)
    ensures
        0 <= i < masks.len() && glob_problem(masks[i]) is Some && (forall|k: int|
            0 <= k < i ==> glob_problem(#[trigger] masks[k]) is None) ==> first_bad_mask(masks)
            == Some(masks[i]),
        (forall|k: int| 0 <= k < masks.len() ==> glob_problem(#[trigger] masks[k]) is None)
            ==> first_bad_mask(masks) is None,
    decreases masks.len(),
{
    if masks.len() > 0 {
        let rest = masks.drop_first();
        assert forall|k: int| 0 <= k < rest.len() implies rest[k] == #[trigger] masks[k + 1] by {}
        lemma_bad_mask(rest, i - 1);
        if 0 < i < masks.len() && glob_problem(masks[i]) is Some && (forall|k: int|
            0 <= k < i ==> glob_problem(#[trigger] masks[k]) is None) {
            assert(glob_problem(masks[0]) is None);
            assert(rest[i - 1] == masks[i]);
            assert forall|k: int| 0 <= k < i - 1 implies glob_problem(
                #[trigger] rest[k],
            ) is None by {
                assert(glob_problem(masks[k + 1]) is None);
            }
        }
        if forall|k: int| 0 <= k < masks.len() ==> glob_problem(#[trigger] masks[k]) is None {
            assert(glob_problem(masks[0]) is None);
            assert forall|k: int| 0 <= k < rest.len() implies glob_problem(
                #[trigger] rest[k],
            ) is None by {
                assert(glob_problem(masks[k + 1]) is None);
            }
        }
    }
}

/// The masks of a text are its names between commas. They are refused where there is none, or
/// at the first that is no mask, with what is wrong with it.
pub proof fn law_masks_are_those_between_commas(
    raw: &str,
    whole: &Option<String>,
    listed: Option<Vec<String>>,
    i: int,
    r: Result<EnabledPluginsMatcher, Complaint>,
)
    requires
        call_ensures(EnabledPluginsMatcher::from_csv, (raw,), r),
        *whole matches Some(text) && text@ == raw@,
        call_ensures(parse_plugin_ids, (whole,), listed),
    ensures
        listed is None ==> (r matches Err(complaint) && complaint.message@
            == "enabled plugin mask list is empty"@),
        listed matches Some(masks) ==> 0 <= i < masks@.len() ==> glob_problem(
            masks@[i]@,
        ) is Some ==> (forall|k: int|
            0 <= k < i ==> glob_problem((#[trigger] masks@[k])@) is None) ==> (r matches Err(
            complaint,
        ) && complaint.message@ == "invalid enabled plugin glob mask '"@ + masks@[i]@ + "'"@
            && complaint.causes@.len() == 1 && Some(complaint.causes@[0]@) == glob_problem(
            masks@[i]@,
        )),
        listed matches Some(masks) ==> (forall|k: int|
            0 <= k < masks@.len() ==> glob_problem((#[trigger] masks@[k])@) is None) ==> (r is Ok
            <==> masks_compile(views(masks@), usize::BITS as int)),
        listed matches Some(masks) ==> (r matches Ok(matcher) ==> matcher.masks() == views(masks@)),
{
    match listed {
        Some(masks) => {
            let all = views(masks@);
            assert(all.len() == masks@.len());
            assert(all == masks_of(raw@));
            lemma_bad_mask(all, i);
            if forall|k: int| 0 <= k < masks@.len() ==> glob_problem((#[trigger] masks@[k])@) is None {
                assert forall|k: int| 0 <= k < all.len() implies glob_problem(
                    #[trigger] all[k],
                ) is None by {
                    assert(all[k] == masks@[k]@);
                }
            }
            if 0 <= i < masks@.len() && glob_problem(masks@[i]@) is Some && (forall|k: int|
                0 <= k < i ==> glob_problem((#[trigger] masks@[k])@) is None) {
                assert(all[i] == masks@[i]@);
                assert forall|k: int| 0 <= k < i implies glob_problem(
                    #[trigger] all[k],
                ) is None by {
                    assert(all[k] == masks@[k]@);
                }
            }
        },
        None => {},
    }
    match r {
        Err(complaint) => {
            assert(views(complaint.causes@).len() == complaint.causes@.len());
            if complaint.causes@.len() > 0 {
                assert(views(complaint.causes@)[0] == complaint.causes@[0]@);
            }
        },
        Ok(_) => {},
    }
}

/// A plugin is enabled where one of the masks matches its name, and only there.
pub proof fn law_any_mask_enables(matcher: &EnabledPluginsMatcher, id: &str, r: bool)
    requires
        call_ensures(EnabledPluginsMatcher::is_enabled, (matcher, id), r),
    ensures
        (exists|i: int|
            0 <= i < matcher.masks().len() && glob_matches(#[trigger] matcher.masks()[i], id@))
            ==> r,
        (forall|i: int|
            0 <= i < matcher.masks().len() ==> !glob_matches(#[trigger] matcher.masks()[i], id@))
            ==> !r,
{
}

proof fn lemma_enabled_adds(plugins: Seq<LoadedPlugin>, plugin: LoadedPlugin, masks: Seq<Seq<char>>)
    ensures
        enabled_only(plugins.push(plugin), masks) == if enables(masks, plugin.manifest.id@) {
            enabled_only(plugins, masks).push(plugin)
        } else {
            enabled_only(plugins, masks)
        },
    decreases plugins.len(),
{
    let all = plugins.push(plugin);
    if plugins.len() == 0 {
        assert(all.drop_first() =~= plugins);
        assert(enabled_only(plugins, masks) =~= Seq::<LoadedPlugin>::empty());
        assert(all[0] == plugin);
        assert(enabled_only(all, masks) =~= if enables(masks, plugin.manifest.id@) {
            seq![plugin]
        } else {
            Seq::<LoadedPlugin>::empty()
        });
        assert(enabled_only(plugins, masks).push(plugin) =~= seq![plugin]);
    } else {
        let tail = plugins.drop_first();
        assert(all.drop_first() =~= tail.push(plugin));
        assert(all[0] == plugins[0]);
        lemma_enabled_adds(tail, plugin, masks);
        let rest = enabled_only(tail, masks);
        assert(seq![plugins[0]] + rest.push(plugin) =~= (seq![plugins[0]] + rest).push(plugin));
    }
}

/// The plugins that are used are those that are enabled, in their order: with one more plugin
/// behind the others it is used exactly if it is enabled, and the others are as before.
pub proof fn law_enabled_plugins_are_kept_in_order(
    loaded: Vec<LoadedPlugin>,
    fewer: Vec<LoadedPlugin>,
    matcher: &EnabledPluginsMatcher,
    text: &str,
    id: &str,
    enabled: bool,
    r: Result<Vec<LoadedPlugin>, String>,
    before: Result<Vec<LoadedPlugin>, String>,
)
    requires
        call_ensures(keep_enabled, (loaded, matcher, text), r),
        call_ensures(keep_enabled, (fewer, matcher, text), before),
        loaded@.len() > 0,
        fewer@ == loaded@.drop_last(),
        id@ == loaded@.last().manifest.id@,
        call_ensures(EnabledPluginsMatcher::is_enabled, (matcher, id), enabled),
    ensures
        enabled ==> (r matches Ok(kept) && kept@ == (match before {
            Ok(known) => known@,
            Err(_) => Seq::empty(),
        }).push(loaded@.last())),
        !enabled ==> (r is Ok <==> before is Ok),
        !enabled ==> (r matches Ok(kept) ==> kept@ == before->Ok_0@),
        r matches Err(message) ==> message@
            == "no plugins enabled after applying enabled_plugins='"@ + text@
            + "'. loaded plugin ids: "@ + debug_list_text(plugin_ids(loaded@)),
{
    let masks = matcher.masks();
    assert(fewer@.push(loaded@.last()) =~= loaded@);
    lemma_enabled_adds(fewer@, loaded@.last(), masks);
    if before is Err {
        assert(enabled_only(fewer@, masks) =~= Seq::<LoadedPlugin>::empty());
    }
}

/// Plugins are selected by the masks of a text. Where there are no plugins, where the masks
/// cannot be used, and where none is left, it is said so, in this order.
pub proof fn law_plugins_are_selected(
    loaded: Vec<LoadedPlugin>,
    dir: &LexicalPath,
    text: &str,
    matcher: Result<EnabledPluginsMatcher, Complaint>,
    kept: Result<Vec<LoadedPlugin>, String>,
    r: Result<Vec<LoadedPlugin>, Complaint>,
)
    requires
        call_ensures(select_plugins, (loaded, dir, text), r),
        call_ensures(EnabledPluginsMatcher::from_csv, (text,), matcher),
        matcher matches Ok(masks) ==> call_ensures(keep_enabled, (loaded, &masks, text), kept),
    ensures
        loaded@.len() == 0 ==> (r matches Err(complaint) && complaint.message@
            == "no plugins found in "@ + dir.written()
            + " (set --plugins-dir or install plugin data under <prefix>/share/openusage-cli/openusage-plugins)"@
            && complaint.causes@.len() == 0),
        loaded@.len() > 0 && matcher is Err ==> (r matches Err(complaint) && complaint.message@
            == "invalid enabled_plugins value '"@ + text@
            + "' (expected comma-separated glob masks)"@ && complaint.causes@.len() > 0
            && complaint.causes@[0]@ == matcher->Err_0.message@),
        loaded@.len() > 0 && matcher is Ok ==> (r is Ok <==> kept is Ok),
        loaded@.len() > 0 && matcher is Ok ==> (r matches Ok(plugins) ==> plugins@ == kept->Ok_0@),
        loaded@.len() > 0 && matcher is Ok ==> (r matches Err(complaint) ==> complaint.message@
            == kept->Err_0@),
{
    match r {
        Err(complaint) => {
            assert(views(complaint.causes@).len() == complaint.causes@.len());
            if complaint.causes@.len() > 0 {
                assert(views(complaint.causes@)[0] == complaint.causes@[0]@);
            }
        },
        Ok(_) => {},
    }
}

/// A process begins with the plugins that are selected, the places that it is given and no
/// answers. Where the plugins or the overrides cannot be had it does not begin.
pub proof fn law_process_begins_with_its_plugins(
    shared: &SharedRuntimeCli,
    version: &str,
    data_dir: &LexicalPath,
    plugins_dir: &LexicalPath,
    loaded: Vec<LoadedPlugin>,
    overrides: Result<Option<LexicalPath>, Complaint>,
    text: &str,
    selected: Result<Vec<LoadedPlugin>, Complaint>,
    r: Result<DaemonState, Complaint>,
)
    requires
        call_ensures(
            initial_state,
            (shared, version, data_dir, plugins_dir, loaded, overrides),
            r,
        ),
        text@ == shared.enabled_plugins@,
        call_ensures(select_plugins, (loaded, plugins_dir, text), selected),
    ensures
        r is Ok <==> selected is Ok && overrides is Ok,
        r matches Ok(state) ==> {
            &&& state.spec_plugins() == selected->Ok_0@
            &&& state.spec_app_data_dir()@ == data_dir@
            &&& state.spec_app_version()@ == version@
            &&& is_same_path(state.spec_plugin_overrides_dir(), overrides->Ok_0)
            &&& forall|id: Seq<char>| !#[trigger] state.spec_cache().dom().contains(id)
        },
        selected is Ok ==> (overrides matches Err(cause) ==> (r matches Err(complaint) && came_of(
            complaint,
            "failed to resolve plugin overrides directory"@,
            cause,
        ))),
{
    match (r, overrides) {
        (Err(complaint), Err(cause)) => {
            if selected is Ok {
                let own = views(complaint.causes@);
                let known = views(cause.causes@);
                assert(own.len() == complaint.causes@.len());
                assert(known.len() == cause.causes@.len());
                assert(own[0] == complaint.causes@[0]@);
                assert forall|k: int|
                    0 <= k < cause.causes@.len() implies complaint.causes@[k + 1]@ == (
                #[trigger] cause.causes@[k])@ by {
                    assert(own[k + 1] == complaint.causes@[k + 1]@);
                    assert(known[k] == cause.causes@[k]@);
                }
            }
        },
        _ => {},
    }
}

/// A set that was built is used with its masks; where none was built the reason is given.
pub proof fn law_built_set_is_used(
    built: Result<globset::GlobSet, String>,
    r: Result<EnabledPluginsMatcher, Complaint>,
)
    requires
        call_ensures(EnabledPluginsMatcher::from_built, (built,), r),
    ensures
        built matches Ok(set) ==> (r matches Ok(matcher) && matcher.masks()
            == crate::outside::set_masks(set)),
        built matches Err(problem) ==> (r matches Err(complaint) && complaint.message@
            == "failed to compile enabled plugin glob masks"@ && complaint.causes@.len() == 1
            && complaint.causes@[0]@ == problem@),
{
    match r {
        Err(complaint) => {
            assert(views(complaint.causes@).len() == complaint.causes@.len());
            assert(views(complaint.causes@)[0] == complaint.causes@[0]@);
        },
        Ok(_) => {},
    }
}

} // verus!
