use openusage_cli::lexical_path::LexicalPath;
use openusage_cli::provider_watch::{
    FileSubscription, ProviderWatchActor, ProviderWatchCommand, ProviderWatchEvent,
    RecordedBackend, SubscriptionOutcome, WatchBackend, PROVIDER_DEBOUNCE_MS,
};
use openusage_cli::restart_watcher::{
    add_watch_root, build_restart_registration, classify_path_for_registration, file_aliases,
    format_event_paths, handle_event_general, take_due_action, DirectoryFacts, FileFacts,
    RestartWatchInputs, WatchAction, WatchRegistration, WatchRoot, RESTART_DEBOUNCE_DELAY,
};
use openusage_cli::watch_event::{
    normalize_event_path, normalize_file_path, EventKind, FileEvent, ModifyKind, RecursiveMode,
};

fn path(text: &str) -> LexicalPath {
    LexicalPath::parse(text)
}

fn event_with_path(kind: EventKind, text: &str) -> Result<FileEvent, String> {
    Ok(FileEvent { kind, paths: vec![path(text)] })
}

fn registration() -> WatchRegistration {
    WatchRegistration::new(WatchAction::Restart, RESTART_DEBOUNCE_DELAY, "test")
}

fn directory(text: &str) -> DirectoryFacts {
    DirectoryFacts { canonical: Some(path(text)), is_dir: true }
}

fn file_in_existing_directory(text: &str) -> FileFacts {
    FileFacts { canonical: Some(path(text)), existing: vec![true, true, true, true] }
}

fn restart_inputs() -> RestartWatchInputs {
    RestartWatchInputs {
        plugins_dir: path("/t/plugins"),
        plugin_overrides_dir: Some(path("/t/plugin-overrides")),
        config_file: Some(path("/t/config/config.yaml")),
        binary_file: path("/t/bin/openusage-cli"),
    }
}

fn full_registration() -> WatchRegistration {
    build_restart_registration(
        &restart_inputs(),
        &path("/t"),
        &directory("/t/plugins"),
        &directory("/t/plugin-overrides"),
        &file_in_existing_directory("/t/config/config.yaml"),
        &file_in_existing_directory("/t/bin/openusage-cli"),
    )
    .expect("build restart registration")
}

#[test]
fn build_restart_registration_tracks_plugins_overrides_config_and_binary() {
    let reg = full_registration();

    assert_eq!(reg.action, WatchAction::Restart);
    assert_eq!(reg.debounce, RESTART_DEBOUNCE_DELAY);
    assert!(reg.dir_roots.contains(&path("/t/plugins")));
    assert!(reg.dir_roots.contains(&path("/t/plugin-overrides")));
    assert!(reg.file_aliases.contains(&path("/t/config/config.yaml")));
    assert!(reg.file_aliases.contains(&path("/t/bin/openusage-cli")));
}

#[test]
fn build_restart_registration_fails_without_plugins_dir() {
    let result = build_restart_registration(
        &RestartWatchInputs {
            plugins_dir: path("/t/nonexistent-plugins"),
            plugin_overrides_dir: None,
            config_file: None,
            binary_file: path("/t/binary"),
        },
        &path("/t"),
        &DirectoryFacts { canonical: None, is_dir: false },
        &DirectoryFacts { canonical: None, is_dir: false },
        &FileFacts { canonical: None, existing: vec![] },
        &FileFacts { canonical: None, existing: vec![true, true] },
    );
    assert!(result.is_err());
}

#[test]
fn build_restart_registration_preserves_watch_plan_semantics() {
    let reg = full_registration();

    assert!(reg.dir_roots.contains(&path("/t/plugins")));
    assert!(reg.dir_roots.contains(&path("/t/plugin-overrides")));
    assert!(reg.file_aliases.contains(&path("/t/config/config.yaml")));
    assert!(reg.file_aliases.contains(&path("/t/bin/openusage-cli")));
    let has = |dir: &str, mode: RecursiveMode| {
        reg.watch_roots.iter().any(|root| root.path == path(dir) && root.recursive == mode)
    };
    assert!(
        has("/t/config", RecursiveMode::NonRecursive),
        "config parent should be watched non-recursively"
    );
    assert!(
        has("/t/bin", RecursiveMode::NonRecursive),
        "binary parent should be watched non-recursively"
    );
    assert!(has("/t/plugins", RecursiveMode::Recursive));
}

#[test]
fn classify_path_for_registration_matches_dir_roots() {
    let mut reg = registration();
    reg.add_dir_root(path("/tmp/plugins"), RecursiveMode::Recursive);

    let desc = classify_path_for_registration(&path("/tmp/plugins/codex/plugin.js"), &None, &reg);
    assert!(desc.expect("should match dir root").contains("test"));
}

#[test]
fn classify_path_for_registration_matches_file_aliases() {
    let mut reg = registration();
    reg.file_aliases.push(path("/tmp/config.yaml"));

    let desc = classify_path_for_registration(&path("/tmp/config.yaml"), &None, &reg);
    assert!(desc.is_some(), "should match file alias");
    let through_link =
        classify_path_for_registration(&path("/tmp/link"), &Some(path("/tmp/config.yaml")), &reg);
    assert!(through_link.is_some());
}

#[test]
fn classify_path_for_registration_returns_none_for_unwatched_path() {
    let desc =
        classify_path_for_registration(&path("/tmp/unrelated/file.txt"), &None, &registration());
    assert!(desc.is_none());
}

#[test]
fn handle_event_general_ignores_access_events() {
    let mut restart_deadline = None;
    let event = event_with_path(EventKind::Access, "/tmp/plugins/codex/plugin.js");

    handle_event_general(&event, &vec![registration()], &mut restart_deadline, &None, &vec![], 0);

    assert!(restart_deadline.is_none());
}

#[test]
fn handle_event_general_ignores_metadata_only_changes() {
    let mut restart_deadline = None;
    let event =
        event_with_path(EventKind::Modify(ModifyKind::Metadata), "/tmp/plugins/codex/plugin.js");

    handle_event_general(&event, &vec![registration()], &mut restart_deadline, &None, &vec![], 0);

    assert!(restart_deadline.is_none());
}

#[test]
fn restart_path_changes_remain_restart_only() {
    let mut reg = registration();
    reg.add_dir_root(path("/tmp/plugins"), RecursiveMode::Recursive);
    let mut restart_deadline = None;
    let event = event_with_path(EventKind::Create, "/tmp/plugins/codex/plugin.js");

    handle_event_general(&event, &vec![reg], &mut restart_deadline, &None, &vec![None], 500);

    assert_eq!(restart_deadline, Some(1500), "restart deadline should be set");
    assert_eq!(take_due_action(&mut restart_deadline, 1499), None);
    assert_eq!(take_due_action(&mut restart_deadline, 1500), Some(WatchAction::Restart));
    assert_eq!(restart_deadline, None);
}

#[test]
fn add_watch_root_upgrades_non_recursive_to_recursive() {
    let mut roots =
        vec![WatchRoot { path: path("/tmp/config"), recursive: RecursiveMode::NonRecursive }];

    add_watch_root(&mut roots, path("/tmp/config"), RecursiveMode::Recursive);

    assert_eq!(roots.len(), 1);
    assert_eq!(roots[0].recursive, RecursiveMode::Recursive);
    add_watch_root(&mut roots, path("/tmp/config"), RecursiveMode::NonRecursive);
    assert_eq!(roots.len(), 1);
    assert_eq!(roots[0].recursive, RecursiveMode::Recursive);
}

#[test]
fn files_are_known_by_their_canonical_paths_too() {
    assert_eq!(
        file_aliases(&path("/a/link"), &Some(path("/b/file"))),
        vec![path("/a/link"), path("/b/file")]
    );
    assert_eq!(file_aliases(&path("/a/file"), &Some(path("/a/file"))), vec![path("/a/file")]);
    assert_eq!(file_aliases(&path("/a/file"), &None), vec![path("/a/file")]);
    let event = FileEvent { kind: EventKind::Create, paths: vec![path("a"), path("/b")] };
    assert_eq!(format_event_paths(&event, &Some(path("/w"))), "/w/a, /b");
}

#[test]
fn frontier_is_the_nearest_directory_but_never_the_root() {
    let mut backend = RecordedBackend::new(FakeBackend::new(vec![path("/")]));
    assert_eq!(
        ProviderWatchActor::nearest_non_root_ancestor(&mut backend, &path("/a/b")),
        None
    );
    backend.backend.dirs.push(path("/a"));
    assert_eq!(
        ProviderWatchActor::nearest_non_root_ancestor(&mut backend, &path("/a/b")),
        Some(path("/a"))
    );
    assert_eq!(
        ProviderWatchActor::compute_root(&mut backend, &path("/a/b/c.json")),
        Some(path("/a"))
    );
}

#[test]
fn watch_complaint_tells_new_roots_from_stale_ones() {
    let mut backend = RecordedBackend::new(FakeBackend::new(vec![path("/d")]));
    let mut actor = ProviderWatchActor::new();
    backend.backend.fail_next_watch = true;
    assert_eq!(
        actor.install_watch(&mut backend, &path("/d")),
        Err("cannot watch root '/d'".to_string())
    );
    assert_eq!(actor.install_watch(&mut backend, &path("/d")), Ok(true));
    assert_eq!(actor.install_watch(&mut backend, &path("/d")), Ok(false));
    backend.backend.dirs.clear();
    backend.backend.fail_next_watch = true;
    assert_eq!(
        actor.install_watch(&mut backend, &path("/d")),
        Err("cannot reinstall stale watch on '/d'".to_string())
    );
    assert_eq!(actor.install_watch(&mut backend, &path("/d")), Ok(true));
}

/// A backend over a disk that only exists in memory.
struct FakeBackend {
    files: Vec<LexicalPath>,
    dirs: Vec<LexicalPath>,
    watched: Vec<LexicalPath>,
    watch_calls: usize,
    fail_next_watch: bool,
    fail_next_unwatch: bool,
}

impl FakeBackend {
    fn new(dirs: Vec<LexicalPath>) -> Self {
        FakeBackend {
            files: vec![],
            dirs,
            watched: vec![],
            watch_calls: 0,
            fail_next_watch: false,
            fail_next_unwatch: false,
        }
    }
}

impl WatchBackend for FakeBackend {
    fn watch(&mut self, path: &LexicalPath, mode: RecursiveMode) -> Result<(), String> {
        assert_eq!(mode, RecursiveMode::NonRecursive);
        self.watch_calls += 1;
        if self.fail_next_watch {
            self.fail_next_watch = false;
            return Err("injected failure".to_string());
        }
        if !self.watched.contains(path) {
            self.watched.push(path.clone());
        }
        Ok(())
    }

    fn unwatch(&mut self, path: &LexicalPath) -> Result<(), String> {
        if self.fail_next_unwatch {
            self.fail_next_unwatch = false;
            return Err("injected unwatch failure".to_string());
        }
        self.watched.retain(|watched| watched != path);
        Ok(())
    }

    fn path_exists(&mut self, path: &LexicalPath) -> bool {
        self.files.contains(path) || self.dirs.contains(path)
    }

    fn is_dir(&mut self, path: &LexicalPath) -> bool {
        self.dirs.contains(path)
    }
}

struct Fixture {
    actor: ProviderWatchActor,
    recorded: RecordedBackend<FakeBackend>,
    now: u64,
}

impl Fixture {
    fn new() -> Self {
        Fixture {
            actor: ProviderWatchActor::new(),
            recorded: RecordedBackend::new(FakeBackend::new(vec![
                path("/"),
                path("/tmp"),
                path("/tmp/d"),
            ])),
            now: 0,
        }
    }

    fn write(&mut self, text: &str) {
        self.recorded.backend.files.push(path(text));
    }

    fn make_dir(&mut self, text: &str) {
        self.recorded.backend.dirs.push(path(text));
    }

    fn remove(&mut self, text: &str) {
        let gone = path(text);
        self.recorded.backend.files.retain(|file| !file.starts_with(&gone));
        self.recorded.backend.dirs.retain(|dir| !dir.starts_with(&gone));
    }

    fn replace(&mut self, provider: &str, files: &[(&str, bool)]) -> Vec<SubscriptionOutcome> {
        let command = ProviderWatchCommand::ReplaceProvider {
            provider_id: provider.to_string(),
            files: files
                .iter()
                .map(|(file, existed)| FileSubscription {
                    path: path(file),
                    existed_at_declaration: *existed,
                })
                .collect(),
        };
        self.actor.handle_command(&mut self.recorded, &command, &None, self.now)
    }

    fn clear(&mut self, provider: &str) {
        let command =
            ProviderWatchCommand::ClearProvider { provider_id: provider.to_string() };
        self.actor.handle_command(&mut self.recorded, &command, &None, self.now);
    }

    fn event(&mut self, kind: EventKind, text: &str) {
        let event = event_with_path(kind, text);
        self.actor.handle_fs_event(&mut self.recorded, &event, &None, self.now);
    }

    /// What is announced once the collection of changes ends.
    fn announcement(&mut self) -> Option<Vec<String>> {
        match self.actor.deadline() {
            Some(deadline) => {
                self.now = deadline;
                match self.actor.handle_deadline() {
                    Some(ProviderWatchEvent::ProvidersChanged(ids)) => Some(ids),
                    None => None,
                }
            }
            None => None,
        }
    }
}

fn ids(list: &[&str]) -> Option<Vec<String>> {
    Some(list.iter().map(|id| id.to_string()).collect())
}

#[test]
fn shared_subscription_installed_once() {
    let mut fixture = Fixture::new();
    fixture.write("/tmp/d/auth.json");
    fixture.write("/tmp/d/config.json");
    let outcomes =
        fixture.replace("p1", &[("/tmp/d/auth.json", true), ("/tmp/d/config.json", true)]);
    assert_eq!(outcomes, vec![SubscriptionOutcome::Registered, SubscriptionOutcome::Registered]);
    assert_eq!(fixture.recorded.backend.watched, vec![path("/tmp/d")]);
    assert_eq!(fixture.recorded.backend.watch_calls, 1);
}

#[test]
fn repeated_registration_adds_more_files() {
    let mut fixture = Fixture::new();
    fixture.write("/tmp/d/a.json");
    fixture.write("/tmp/d/b.json");
    fixture.replace("p1", &[("/tmp/d/a.json", true)]);
    fixture.replace("p1", &[("/tmp/d/a.json", true), ("/tmp/d/b.json", true)]);
    assert_eq!(fixture.recorded.backend.watched.len(), 1);
}

#[test]
fn multiple_files_share_parent() {
    let mut fixture = Fixture::new();
    fixture.write("/tmp/d/a.json");
    fixture.write("/tmp/d/b.json");
    fixture.replace("p1", &[("/tmp/d/a.json", true)]);
    fixture.replace("p2", &[("/tmp/d/b.json", true)]);
    assert_eq!(fixture.recorded.backend.watched.len(), 1);
}

#[test]
fn clear_one_provider_keeps_shared_watch() {
    let mut fixture = Fixture::new();
    fixture.write("/tmp/d/a.json");
    fixture.replace("p1", &[("/tmp/d/a.json", true)]);
    fixture.replace("p2", &[("/tmp/d/a.json", true)]);
    fixture.clear("p1");
    assert_eq!(fixture.recorded.backend.watched.len(), 1);
}

#[test]
fn clear_last_provider_removes_watch() {
    let mut fixture = Fixture::new();
    fixture.write("/tmp/d/a.json");
    fixture.replace("p1", &[("/tmp/d/a.json", true)]);
    fixture.clear("p1");
    assert!(fixture.recorded.backend.watched.is_empty());
}

#[test]
fn clearing_unwatches_where_nothing_stays() {
    let mut fixture = Fixture::new();
    fixture.make_dir("/tmp/d/own");
    fixture.make_dir("/tmp/d/shared");
    fixture.write("/tmp/d/own/a.json");
    fixture.write("/tmp/d/shared/a.json");
    fixture.write("/tmp/d/shared/b.json");
    fixture.replace("p1", &[("/tmp/d/own/a.json", true), ("/tmp/d/shared/a.json", true)]);
    fixture.replace("p2", &[("/tmp/d/shared/b.json", true)]);
    fixture.clear("p1");
    assert_eq!(fixture.recorded.backend.watched, vec![path("/tmp/d/shared")]);
    fixture.clear("p2");
    assert!(fixture.recorded.backend.watched.is_empty());
}

#[test]
fn changes_are_described_as_their_paths_are_written() {
    let reg = full_registration();
    let found = classify_path_for_registration(&path("/t/plugins//x/./y.js"), &None, &reg);
    assert!(found.is_some_and(|text| text.ends_with(": /t/plugins//x/./y.js")));
    let event = FileEvent { kind: EventKind::Create, paths: vec![path("a//b"), path("/c/")] };
    assert_eq!(format_event_paths(&event, &Some(path("/w/"))), "/w/a//b, /c/");
}

#[test]
fn replacement_atomically_replaces_state() {
    let mut fixture = Fixture::new();
    fixture.write("/tmp/d/a.json");
    fixture.write("/tmp/d/b.json");
    fixture.replace("p1", &[("/tmp/d/a.json", true)]);
    fixture.replace("p1", &[("/tmp/d/b.json", true)]);
    assert_eq!(fixture.recorded.backend.watched, vec![path("/tmp/d")]);
    fixture.event(EventKind::Modify(ModifyKind::Any), "/tmp/d/a.json");
    assert_eq!(fixture.announcement(), None);
    fixture.event(EventKind::Modify(ModifyKind::Any), "/tmp/d/b.json");
    assert_eq!(fixture.announcement(), ids(&["p1"]));
}

#[test]
fn empty_replacement_clears_all() {
    let mut fixture = Fixture::new();
    fixture.write("/tmp/d/a.json");
    fixture.replace("p1", &[("/tmp/d/a.json", true)]);
    fixture.replace("p1", &[]);
    assert!(fixture.recorded.backend.watched.is_empty());
}

#[test]
fn missing_parent_directory_establishes_frontier_watch() {
    let mut fixture = Fixture::new();
    fixture.replace("p1", &[("/tmp/d/nonexistent/opencode/auth.json", true)]);
    assert_eq!(fixture.recorded.backend.watched, vec![path("/tmp/d")]);
}

#[test]
fn watch_failure_skips_file() {
    let mut fixture = Fixture::new();
    fixture.write("/tmp/d/a.json");
    fixture.recorded.backend.fail_next_watch = true;
    let outcomes = fixture.replace("p1", &[("/tmp/d/a.json", true)]);
    assert_eq!(outcomes, vec![SubscriptionOutcome::WatchFailed]);
    assert!(fixture.recorded.backend.watched.is_empty());
}

#[test]
fn debounce_fan_out_unions_providers() {
    let mut fixture = Fixture::new();
    fixture.write("/tmp/d/a.json");
    fixture.write("/tmp/d/b.json");
    fixture.replace("p2", &[("/tmp/d/b.json", true)]);
    fixture.replace("p1", &[("/tmp/d/a.json", true)]);
    fixture.event(EventKind::Modify(ModifyKind::Any), "/tmp/d/a.json");
    fixture.now = 400;
    fixture.event(EventKind::Modify(ModifyKind::Any), "/tmp/d/b.json");
    assert_eq!(fixture.actor.deadline(), Some(400 + PROVIDER_DEBOUNCE_MS));
    assert_eq!(fixture.announcement(), ids(&["p1", "p2"]));
    assert_eq!(fixture.announcement(), None);
}

#[test]
fn clear_provider_removes_pending_event() {
    let mut fixture = Fixture::new();
    fixture.write("/tmp/d/a.json");
    fixture.replace("p1", &[("/tmp/d/a.json", true)]);
    fixture.event(EventKind::Modify(ModifyKind::Any), "/tmp/d/a.json");
    fixture.clear("p1");
    assert_eq!(fixture.announcement(), None, "no event should be emitted after clearing");
}

#[test]
fn ignored_event_kinds_do_not_trigger_debounce() {
    let mut fixture = Fixture::new();
    fixture.write("/tmp/d/a.json");
    fixture.replace("p1", &[("/tmp/d/a.json", true)]);
    fixture.event(EventKind::Access, "/tmp/d/a.json");
    fixture.event(EventKind::Modify(ModifyKind::Metadata), "/tmp/d/a.json");
    assert_eq!(fixture.actor.deadline(), None, "no event should be emitted for ignored kinds");
}

#[test]
fn clear_and_replace_does_not_resurrect_pending_provider() {
    let mut fixture = Fixture::new();
    fixture.write("/tmp/d/a.json");
    fixture.replace("p1", &[("/tmp/d/a.json", true)]);
    fixture.replace("p2", &[("/tmp/d/a.json", true)]);
    fixture.event(EventKind::Modify(ModifyKind::Any), "/tmp/d/a.json");
    fixture.clear("p1");
    fixture.replace("p1", &[("/tmp/d/a.json", true)]);
    assert_eq!(fixture.announcement(), ids(&["p2"]), "only p2 should be emitted");
}

#[test]
fn unwatch_failure_retains_installed_root_for_resubscribe() {
    let mut fixture = Fixture::new();
    fixture.write("/tmp/d/a.json");
    fixture.replace("p1", &[("/tmp/d/a.json", true)]);
    fixture.recorded.backend.fail_next_unwatch = true;
    fixture.clear("p1");
    assert_eq!(fixture.recorded.backend.watched, vec![path("/tmp/d")]);
    fixture.replace("p1", &[("/tmp/d/a.json", true)]);
    assert_eq!(fixture.recorded.backend.watched.len(), 1);
    assert_eq!(fixture.recorded.backend.watch_calls, 1, "should reuse existing watch root");
}

#[test]
fn normalization_uses_lexical_absolute_paths() {
    let link = path("/tmp/d/link.json");
    assert_eq!(normalize_file_path(&link, &None), link);
    assert_eq!(normalize_event_path(&link, &None), link);
    assert_eq!(normalize_file_path(&path("x/y"), &Some(path("/w"))), path("/w/x/y"));
    assert_eq!(normalize_event_path(&path("x/y"), &Some(path("/w"))), path("/w/x/y"));
}

#[test]
fn frontier_missing_parent_dir_created_then_file_created() {
    let mut fixture = Fixture::new();
    fixture.replace("p1", &[("/tmp/d/a/b.json", false)]);
    assert_eq!(fixture.recorded.backend.watched, vec![path("/tmp/d")]);

    fixture.make_dir("/tmp/d/a");
    fixture.event(EventKind::Create, "/tmp/d/a");
    assert_eq!(
        fixture.recorded.backend.watched,
        vec![path("/tmp/d/a")],
        "the watch should move to the direct parent"
    );
    assert_eq!(fixture.announcement(), None, "no refresh before target file exists");

    fixture.write("/tmp/d/a/b.json");
    fixture.event(EventKind::Create, "/tmp/d/a/b.json");
    assert_eq!(fixture.announcement(), ids(&["p1"]));
}

#[test]
fn frontier_populated_directory_atomic_arrival() {
    let mut fixture = Fixture::new();
    fixture.replace("p1", &[("/tmp/d/a/b/c/data.json", false)]);
    fixture.make_dir("/tmp/d/a");
    fixture.make_dir("/tmp/d/a/b");
    fixture.make_dir("/tmp/d/a/b/c");
    fixture.write("/tmp/d/a/b/c/data.json");
    fixture.event(EventKind::Create, "/tmp/d/a");
    assert_eq!(fixture.announcement(), ids(&["p1"]));
}

#[test]
fn frontier_create_delete_recreate_distinct_refreshes() {
    let mut fixture = Fixture::new();
    fixture.write("/tmp/d/watch.json");
    fixture.replace("p1", &[("/tmp/d/watch.json", true)]);
    assert_eq!(fixture.announcement(), None);
    fixture.remove("/tmp/d/watch.json");
    fixture.event(EventKind::Remove, "/tmp/d/watch.json");
    assert_eq!(fixture.announcement(), ids(&["p1"]));
    fixture.write("/tmp/d/watch.json");
    fixture.event(EventKind::Create, "/tmp/d/watch.json");
    assert_eq!(fixture.announcement(), ids(&["p1"]));
    assert_eq!(fixture.announcement(), None, "no third refresh after deletion+recreation");
}

#[test]
fn frontier_parent_deleted_then_recreated_with_file() {
    let mut fixture = Fixture::new();
    fixture.make_dir("/tmp/d/sub");
    fixture.write("/tmp/d/sub/data.json");
    fixture.replace("p1", &[("/tmp/d/sub/data.json", true)]);
    fixture.remove("/tmp/d/sub");
    fixture.event(EventKind::Remove, "/tmp/d/sub");
    assert_eq!(fixture.announcement(), ids(&["p1"]));
    fixture.make_dir("/tmp/d/sub");
    fixture.write("/tmp/d/sub/data.json");
    fixture.event(EventKind::Create, "/tmp/d/sub");
    assert_eq!(fixture.announcement(), ids(&["p1"]));
}

#[test]
fn frontier_two_providers_share_missing_target() {
    let mut fixture = Fixture::new();
    fixture.replace("p1", &[("/tmp/d/shared.json", false)]);
    fixture.replace("p2", &[("/tmp/d/shared.json", false)]);
    fixture.write("/tmp/d/shared.json");
    fixture.event(EventKind::Create, "/tmp/d/shared.json");
    assert_eq!(fixture.announcement(), ids(&["p1", "p2"]));
    fixture.clear("p1");
    fixture.remove("/tmp/d/shared.json");
    fixture.event(EventKind::Remove, "/tmp/d/shared.json");
    assert_eq!(fixture.announcement(), ids(&["p2"]));
}

#[test]
fn frontier_direct_and_frontier_share_root() {
    let mut fixture = Fixture::new();
    fixture.write("/tmp/d/a.json");
    fixture.replace("p1", &[("/tmp/d/a.json", true), ("/tmp/d/missing/b.json", false)]);
    assert_eq!(fixture.recorded.backend.watched, vec![path("/tmp/d")]);
}

#[test]
fn frontier_deeper_watch_failure_retains_old_root() {
    let mut fixture = Fixture::new();
    fixture.replace("p1", &[("/tmp/d/a/b/data.json", false)]);
    assert_eq!(fixture.recorded.backend.watched, vec![path("/tmp/d")]);
    fixture.make_dir("/tmp/d/a");
    fixture.recorded.backend.fail_next_watch = true;
    fixture.event(EventKind::Create, "/tmp/d/a");
    assert_eq!(fixture.announcement(), None, "no refresh after failed migration");
    assert_eq!(fixture.recorded.backend.watched, vec![path("/tmp/d")]);
    fixture.make_dir("/tmp/d/a/b");
    fixture.write("/tmp/d/a/b/data.json");
    fixture.event(EventKind::Modify(ModifyKind::Any), "/tmp/d/a");
    assert_eq!(fixture.announcement(), ids(&["p1"]));
}

#[test]
fn race_declared_missing_present_at_install() {
    let mut fixture = Fixture::new();
    fixture.write("/tmp/d/race.json");
    fixture.replace("p1", &[("/tmp/d/race.json", false)]);
    assert_eq!(fixture.announcement(), ids(&["p1"]));
    assert_eq!(fixture.announcement(), None, "no duplicate race refresh");
}

#[test]
fn race_declared_present_missing_at_install() {
    let mut fixture = Fixture::new();
    fixture.replace("p1", &[("/tmp/d/race2.json", true)]);
    assert_eq!(fixture.announcement(), ids(&["p1"]));
    assert_eq!(fixture.announcement(), None, "no duplicate race refresh");
}

#[test]
fn files_without_a_parent_are_not_registered() {
    let mut fixture = Fixture::new();
    let outcomes = fixture.replace("p1", &[("/", true), ("/gone/x.json", true)]);
    assert_eq!(outcomes[0], SubscriptionOutcome::NoParent);
    assert_eq!(outcomes[1], SubscriptionOutcome::NoFrontier);
}
