use openusage_cli::daemon::{CachedPluginSnapshot, DaemonState, PluginRun};
use openusage_cli::http_api::{begin_single_usage, single_usage, Refusal};
use openusage_cli::lexical_path::LexicalPath;
use openusage_cli::log_summary::{
    plugin_initialization_failure_summary, plugin_initialization_summary, snapshot_error,
    truncate_for_log,
};
use openusage_cli::plugin_engine::js_value::Number;
use openusage_cli::plugin_engine::manifest::{
    LoadedPlugin, ManifestLine, PluginLink, PluginManifest,
};
use openusage_cli::plugin_engine::output::{
    error_output, AccountRef, MetricLine, PluginOutput, ProbeResult, ProgressFormat,
};
use openusage_cli::provider_watch::{FileSubscription, ProviderWatchCommand};
use openusage_cli::refresh::RefreshStep;

const NOW_SECS: i64 = 1_800_000_000;

fn now() -> i128 {
    NOW_SECS as i128 * 1_000_000_000
}

fn path(text: &str) -> LexicalPath {
    LexicalPath::parse(text)
}

fn plugin(id: &str) -> LoadedPlugin {
    LoadedPlugin {
        manifest: PluginManifest {
            schema_version: 1,
            id: id.to_string(),
            name: id.to_string(),
            version: "0.0.0".to_string(),
            entry: "plugin.js".to_string(),
            icon: "icon.svg".to_string(),
            brand_color: None,
            lines: vec![],
            links: vec![],
        },
        plugin_dir: path("."),
        entry_script: String::new(),
        icon_data_url: "data:image/svg+xml;base64,".to_string(),
    }
}

fn iso_from_now(offset_secs: i64) -> String {
    time::OffsetDateTime::from_unix_timestamp(NOW_SECS + offset_secs)
        .expect("a time")
        .format(&time::format_description::well_known::Rfc3339)
        .expect("rfc3339 timestamp")
}

fn number(value: f64) -> Number {
    Number { bits: value.to_bits(), text: format!("{}", value) }
}

fn progress_line(resets_at: Option<String>) -> MetricLine {
    MetricLine::Progress {
        label: "Limit".to_string(),
        used: number(10.0),
        limit: number(100.0),
        format: ProgressFormat::Percent,
        resets_at,
        period_duration_ms: None,
        color: None,
    }
}

fn text_line() -> MetricLine {
    MetricLine::Text {
        label: "Info".to_string(),
        value: "ok".to_string(),
        color: None,
        subtitle: None,
    }
}

fn account(id: &str) -> AccountRef {
    AccountRef {
        id: id.to_string(),
        origin: "native".to_string(),
        is_active: true,
        name: None,
    }
}

fn snapshot_of(provider_id: &str, lines: Vec<MetricLine>, account: AccountRef) -> CachedPluginSnapshot {
    CachedPluginSnapshot {
        provider_id: provider_id.to_string(),
        display_name: provider_id.to_string(),
        plan: None,
        lines,
        fetched_at: iso_from_now(0),
        account,
    }
}

fn snapshot(provider_id: &str, lines: Vec<MetricLine>) -> CachedPluginSnapshot {
    snapshot_of(provider_id, lines, AccountRef::default_account())
}

fn output(provider_id: &str, account: AccountRef, lines: Vec<MetricLine>) -> PluginOutput {
    PluginOutput {
        provider_id: provider_id.to_string(),
        display_name: provider_id.to_string(),
        plan: None,
        lines,
        icon_url: String::new(),
        account,
    }
}

fn state_with_plugins_and_cache(
    plugin_ids: Vec<&str>,
    snapshots: Vec<CachedPluginSnapshot>,
) -> DaemonState {
    let mut state = DaemonState::new(
        plugin_ids.into_iter().map(plugin).collect(),
        path("."),
        "0.0.0-test".to_string(),
        None,
    );
    let mut providers: Vec<String> = vec![];
    for item in &snapshots {
        if !providers.contains(&item.provider_id) {
            providers.push(item.provider_id.clone());
        }
    }
    for provider in providers {
        let own = snapshots.iter().filter(|s| s.provider_id == provider).cloned().collect();
        state.replace_provider_cache(&provider, own);
    }
    state
}

fn state_with_cache(snapshots: Vec<CachedPluginSnapshot>) -> DaemonState {
    state_with_plugins_and_cache(vec![], snapshots)
}

fn run(plugin_id: &str, outputs: Vec<PluginOutput>) -> PluginRun {
    PluginRun { plugin_id: plugin_id.to_string(), outputs, fetched_at: iso_from_now(0) }
}

#[test]
fn reset_helpers_return_none_for_empty_cache() {
    let state = state_with_cache(vec![]);

    assert_eq!(state.time_until_next_reset(5, now()), None);
    assert!(!state.has_past_resets(5, now()));
}

#[test]
fn time_until_next_reset_picks_earliest_future_with_margin() {
    let state = state_with_cache(vec![
        snapshot("later", vec![progress_line(Some(iso_from_now(120)))]),
        snapshot(
            "earlier",
            vec![
                progress_line(Some(iso_from_now(25))),
                progress_line(Some("not-a-date".to_string())),
            ],
        ),
    ]);

    let delay = state.time_until_next_reset(5, now()).expect("next reset should exist");

    assert_eq!(delay, 30_000);
}

#[test]
fn next_reset_with_delay_returns_earliest_raw_resets_at() {
    let earliest = iso_from_now(25);
    let state = state_with_cache(vec![
        snapshot("later", vec![progress_line(Some(iso_from_now(120)))]),
        snapshot("earlier", vec![progress_line(Some(earliest.clone()))]),
    ]);

    let (resets_at, delay) =
        state.next_reset_with_delay(5, now()).expect("next reset should exist");

    assert_eq!(resets_at, earliest);
    assert_eq!(delay, 30_000);
}

#[test]
fn has_past_resets_true_when_any_effective_reset_is_past() {
    let state = state_with_cache(vec![
        snapshot("past", vec![progress_line(Some(iso_from_now(-20)))]),
        snapshot("future", vec![progress_line(Some(iso_from_now(50)))]),
    ]);

    assert!(state.has_past_resets(5, now()));
}

#[test]
fn provider_ids_with_past_resets_returns_only_stale_ids_sorted() {
    let state = state_with_cache(vec![
        snapshot("future", vec![progress_line(Some(iso_from_now(120)))]),
        snapshot("past-b", vec![progress_line(Some(iso_from_now(-20)))]),
        snapshot("past-a", vec![progress_line(Some(iso_from_now(-40)))]),
        snapshot(
            "invalid",
            vec![
                text_line(),
                progress_line(None),
                progress_line(Some("bad-timestamp".to_string())),
            ],
        ),
    ]);

    assert_eq!(
        state.provider_ids_with_past_resets(5, now()),
        vec!["past-a".to_string(), "past-b".to_string()]
    );
}

#[test]
fn margin_can_prevent_recent_reset_from_being_considered_past() {
    let state = state_with_cache(vec![snapshot(
        "recently-past",
        vec![progress_line(Some(iso_from_now(-2)))],
    )]);

    let delay = state
        .time_until_next_reset(5, now())
        .expect("effective reset should still be in the future");

    assert_eq!(delay, 3_000);
    assert!(!state.has_past_resets(5, now()));
}

#[test]
fn margin_of_any_size_lies_ahead() {
    let state = state_with_cache(vec![snapshot(
        "past",
        vec![progress_line(Some(iso_from_now(-20)))],
    )]);

    assert_eq!(state.time_until_next_reset(1 << 63, now()), Some(u64::MAX));
    assert!(!state.has_past_resets(1 << 63, now()));
}

#[test]
fn reset_helpers_ignore_non_progress_and_invalid_lines() {
    let state = state_with_cache(vec![snapshot(
        "mixed",
        vec![
            text_line(),
            progress_line(None),
            progress_line(Some("bad-timestamp".to_string())),
        ],
    )]);

    assert_eq!(state.time_until_next_reset(5, now()), None);
    assert!(!state.has_past_resets(5, now()));
}

#[test]
fn time_until_next_reset_ignores_only_past_resets() {
    let state = state_with_cache(vec![
        snapshot("past-a", vec![progress_line(Some(iso_from_now(-120)))]),
        snapshot("past-b", vec![progress_line(Some(iso_from_now(-15)))]),
    ]);

    assert_eq!(state.time_until_next_reset(5, now()), None);
    assert!(state.has_past_resets(5, now()));
}

#[test]
fn reset_that_is_due_now_is_past() {
    let state =
        state_with_cache(vec![snapshot("due", vec![progress_line(Some(iso_from_now(-5)))])]);
    assert_eq!(state.time_until_next_reset(5, now()), None);
    assert!(state.has_past_resets(5, now()));
}

#[test]
fn refresh_sends_clear_before_probe_and_replace_after() {
    let mut state = state_with_plugins_and_cache(vec!["test"], vec![]);
    let mut refresh = state.begin_refresh(&None, true);

    match refresh.next_step() {
        RefreshStep::Watch(ProviderWatchCommand::ClearProvider { provider_id }) => {
            assert_eq!(provider_id, "test", "ClearProvider should target test plugin");
        }
        other => panic!("expected ClearProvider, got {:?}", other),
    }
    assert!(matches!(refresh.next_step(), RefreshStep::Probe(0)));
    assert!(matches!(refresh.next_step(), RefreshStep::Probe(0)));
    assert!(refresh.awaits_result());
    refresh.probed(
        ProbeResult {
            outputs: vec![output("test", AccountRef::default_account(), vec![text_line()])],
            subscriptions: vec![FileSubscription {
                path: path("/tmp/test-dep.json"),
                existed_at_declaration: false,
            }],
        },
        iso_from_now(0),
    );
    assert!(!refresh.awaits_result());
    match refresh.next_step() {
        RefreshStep::Watch(ProviderWatchCommand::ReplaceProvider { provider_id, files }) => {
            assert_eq!(provider_id, "test", "ReplaceProvider should target test plugin");
            assert_eq!(files.len(), 1, "expected 1 subscribed file");
            assert_eq!(files[0].path, path("/tmp/test-dep.json"));
        }
        other => panic!("expected ReplaceProvider, got {:?}", other),
    }
    assert!(matches!(refresh.next_step(), RefreshStep::Finished));
    assert!(matches!(refresh.next_step(), RefreshStep::Finished));

    let snapshots = state.finish_refresh(refresh.into_runs());
    assert_eq!(snapshots.len(), 1);
    assert_eq!(snapshots[0].provider_id, "test");
    assert_eq!(snapshots[0].lines.len(), 1);
    assert!(state.cached_one(&"test".to_string()).is_some(), "snapshot should be cached");
}

#[test]
fn refresh_sends_replace_with_empty_files_when_no_subscriptions() {
    let state = state_with_plugins_and_cache(vec!["test"], vec![]);
    let mut refresh = state.begin_refresh(&None, true);
    refresh.next_step();
    refresh.next_step();
    refresh.probed(
        ProbeResult {
            outputs: vec![output("test", AccountRef::default_account(), vec![text_line()])],
            subscriptions: vec![],
        },
        iso_from_now(0),
    );
    match refresh.next_step() {
        RefreshStep::Watch(ProviderWatchCommand::ReplaceProvider { provider_id, files }) => {
            assert_eq!(provider_id, "test");
            assert!(files.is_empty(), "expected empty files when probe calls no subscribeFile");
        }
        other => panic!("expected ReplaceProvider, got {:?}", other),
    }
}

#[test]
fn refresh_replace_provider_carries_existence_metadata() {
    let state = state_with_plugins_and_cache(vec!["test"], vec![]);
    let mut refresh = state.begin_refresh(&None, true);
    refresh.next_step();
    refresh.next_step();
    refresh.probed(
        ProbeResult {
            outputs: vec![output("test", AccountRef::default_account(), vec![text_line()])],
            subscriptions: vec![
                FileSubscription { path: path("/t/present.json"), existed_at_declaration: true },
                FileSubscription { path: path("/t/absent.json"), existed_at_declaration: false },
            ],
        },
        iso_from_now(0),
    );
    match refresh.next_step() {
        RefreshStep::Watch(ProviderWatchCommand::ReplaceProvider { provider_id, files }) => {
            assert_eq!(provider_id, "test");
            assert_eq!(files.len(), 2, "expected 2 subscribed files");
            assert!(files[0].existed_at_declaration);
            assert_eq!(files[1].path, path("/t/absent.json"));
            assert!(!files[1].existed_at_declaration);
        }
        other => panic!("expected ReplaceProvider, got {:?}", other),
    }
}

#[test]
fn refresh_without_a_registry_only_probes() {
    let state = state_with_plugins_and_cache(vec!["a", "b", "c"], vec![]);
    let mut refresh =
        state.begin_refresh(&Some(vec!["c".to_string(), "a".to_string(), "x".to_string()]), false);
    let mut probed: Vec<usize> = vec![];
    while let RefreshStep::Probe(place) = refresh.next_step() {
        probed.push(place);
        refresh.probed(ProbeResult { outputs: vec![], subscriptions: vec![] }, iso_from_now(0));
    }
    assert_eq!(probed, vec![0, 2]);
    let ids: Vec<String> = refresh.into_runs().into_iter().map(|r| r.plugin_id).collect();
    assert_eq!(ids, vec!["a".to_string(), "c".to_string()]);
}

#[test]
fn refresh_preserves_custom_account_from_plugin() {
    let mut state = state_with_plugins_and_cache(vec!["test"], vec![]);
    let snapshots = state
        .finish_refresh(vec![run("test", vec![output("test", account("custom-id"), vec![text_line()])])]);
    assert_eq!(snapshots.len(), 1);
    assert_eq!(snapshots[0].provider_id, "test");
    assert_eq!(snapshots[0].account, account("custom-id"));
    let cached = state.cached(&Some(vec!["test".to_string()]));
    assert_eq!(cached.len(), 1, "snapshot should be cached");
    assert_eq!(cached[0].account, account("custom-id"));
}

#[test]
fn cache_replacement_removes_stale_account() {
    let mut state = state_with_plugins_and_cache(
        vec!["test-provider"],
        vec![
            snapshot("test-provider", vec![text_line()]),
            snapshot_of("test-provider", vec![text_line()], account("secondary")),
        ],
    );
    assert_eq!(state.cached(&None).len(), 2, "should have two account snapshots before replacement");

    state.replace_provider_cache(
        &"test-provider".to_string(),
        vec![snapshot("test-provider", vec![text_line()])],
    );

    let snapshots = state.cached(&None);
    assert_eq!(snapshots.len(), 1, "stale account should be removed after replacement");
    assert_eq!(snapshots[0].account.id, "default");
}

#[test]
fn cached_flattened_collection_respects_plugin_order_then_stored_account_order() {
    let state = state_with_plugins_and_cache(
        vec!["alpha", "beta"],
        vec![
            snapshot("alpha", vec![text_line()]),
            snapshot_of("alpha", vec![text_line()], account("secondary")),
            snapshot("beta", vec![text_line()]),
        ],
    );

    let cached = state.cached(&None);

    assert_eq!(cached.len(), 3, "should have 3 total snapshots");
    assert_eq!(cached[0].provider_id, "alpha");
    assert_eq!(cached[1].provider_id, "alpha");
    assert_eq!(cached[2].provider_id, "beta");
    assert_eq!(cached[0].account.id, "default");
    assert_eq!(cached[1].account.id, "secondary");
}

#[test]
fn cached_with_provider_filter_returns_only_that_providers_accounts() {
    let state = state_with_plugins_and_cache(
        vec!["alpha", "beta"],
        vec![
            snapshot("alpha", vec![text_line()]),
            snapshot_of("alpha", vec![text_line()], account("secondary")),
            snapshot("beta", vec![text_line()]),
        ],
    );

    let alpha_only = state.cached(&Some(vec!["alpha".to_string()]));

    assert_eq!(alpha_only.len(), 2, "should return both alpha accounts, not beta");
    assert_eq!(alpha_only[0].provider_id, "alpha");
    assert_eq!(alpha_only[1].provider_id, "alpha");
    assert_eq!(alpha_only[0].account.id, "default");
    assert_eq!(alpha_only[1].account.id, "secondary");
}

#[test]
fn cached_one_selects_default_irrespective_of_vector_order() {
    let state = state_with_cache(vec![
        snapshot_of("test-provider", vec![text_line()], account("secondary")),
        snapshot("test-provider", vec![text_line()]),
    ]);

    let result = state.cached_one(&"test-provider".to_string());
    assert_eq!(result.expect("cached_one should find a snapshot").account.id, "default");
}

#[test]
fn cached_one_returns_sole_non_default_account() {
    let state = state_with_cache(vec![snapshot_of(
        "custom-provider",
        vec![text_line()],
        account("custom-account"),
    )]);

    let result = state.cached_one(&"custom-provider".to_string());
    assert_eq!(
        result.expect("cached_one should return the sole non-default snapshot").account.id,
        "custom-account"
    );
}

#[test]
fn cached_one_returns_none_for_multiple_non_default_accounts() {
    let state = state_with_cache(vec![
        snapshot_of("multi-provider", vec![text_line()], account("account-a")),
        snapshot_of("multi-provider", vec![text_line()], account("account-b")),
    ]);

    assert!(state.cached_one(&"multi-provider".to_string()).is_none());
}

#[test]
fn cached_one_default_preferred_over_sole_non_default() {
    let state = state_with_cache(vec![
        snapshot_of("mixed", vec![text_line()], account("other")),
        snapshot("mixed", vec![text_line()]),
    ]);

    let result = state.cached_one(&"mixed".to_string());
    assert_eq!(result.expect("cached_one should find default").account.id, "default");
}

#[test]
fn reset_sees_all_accounts_and_deduplicates_provider() {
    let state = state_with_cache(vec![
        snapshot("stale-provider", vec![progress_line(Some(iso_from_now(-20)))]),
        snapshot_of(
            "stale-provider",
            vec![progress_line(Some(iso_from_now(-10)))],
            account("secondary"),
        ),
        snapshot("fresh-provider", vec![progress_line(Some(iso_from_now(120)))]),
    ]);

    assert_eq!(
        state.provider_ids_with_past_resets(5, now()),
        vec!["stale-provider".to_string()],
        "should return each stale provider once, not per-account"
    );
}

#[test]
fn refresh_with_discovery_stores_two_accounts_then_empty_discovery_clears() {
    let mut state = state_with_plugins_and_cache(vec!["test"], vec![]);

    let snapshots = state.finish_refresh(vec![run(
        "test",
        vec![
            output("test", account("work"), vec![text_line()]),
            output("test", account("personal"), vec![text_line()]),
        ],
    )]);
    assert_eq!(snapshots.len(), 2, "should have two account snapshots");
    assert_eq!(snapshots[0].account.id, "work");
    assert_eq!(snapshots[1].account.id, "personal");
    assert_eq!(state.cached(&None).len(), 2);

    state.set_plugins(vec![plugin("test")]);
    let snapshots2 = state.finish_refresh(vec![run("test", vec![])]);
    assert!(snapshots2.is_empty(), "empty discovery should produce zero snapshots");
    assert!(state.cached(&None).is_empty(), "cache should be empty after empty discovery");
    assert!(!state.has_cached_for(&None));
}

#[test]
fn refresh_with_discovery_exception_replaces_two_accounts_with_provider_error() {
    let mut state = state_with_plugins_and_cache(vec!["test"], vec![]);
    state.finish_refresh(vec![run(
        "test",
        vec![
            output("test", account("work"), vec![text_line()]),
            output("test", account("personal"), vec![text_line()]),
        ],
    )]);
    assert_eq!(state.cached(&None).len(), 2);

    let failed = error_output(&plugin("test"), "discovery-exception".to_string());
    let snapshots2 = state.finish_refresh(vec![run("test", vec![failed])]);
    assert_eq!(snapshots2.len(), 1, "exception should produce one error output");
    assert_eq!(snapshots2[0].account, AccountRef::default_account());
    assert!(snapshots2[0].lines[0].display().contains("discovery-exception"));
    let cached2 = state.cached(&None);
    assert_eq!(cached2.len(), 1, "cache should have one error snapshot");
    assert_eq!(cached2[0].account, AccountRef::default_account());
}

#[test]
fn refresh_leaves_other_providers_alone() {
    let mut state = state_with_plugins_and_cache(
        vec!["a", "b"],
        vec![snapshot("a", vec![text_line()]), snapshot("b", vec![text_line()])],
    );
    state.finish_refresh(vec![run("a", vec![output("a", account("x"), vec![])])]);
    assert_eq!(state.cached_one(&"a".to_string()).expect("a").account.id, "x");
    assert_eq!(state.cached_one(&"b".to_string()).expect("b").account.id, "default");
    assert!(state.has_cached_for(&None));
}

#[test]
fn requested_plugins_are_known_and_named_once() {
    let state = state_with_plugins_and_cache(vec!["a", "b", "c"], vec![]);
    let ids = |list: &[&str]| Some(list.iter().map(|s| s.to_string()).collect::<Vec<String>>());
    assert_eq!(
        state.resolve_plugin_ids(&ids(&["c", "x", "a", "c"])),
        vec!["c".to_string(), "a".to_string()]
    );
    assert_eq!(state.resolve_plugin_ids(&None).len(), 3);
    assert_eq!(state.resolve_plugins(&ids(&["c", "x", "a", "c"])), vec![0, 2]);
    assert!(state.has_plugin("b"));
    assert!(!state.has_plugin("x"));
    assert_eq!(state.plugin_count(), 3);
}

#[test]
fn one_provider_is_answered_for() {
    let state = state_with_plugins_and_cache(vec!["a", "b"], vec![snapshot("a", vec![])]);
    assert_eq!(
        begin_single_usage(&state, &"x".to_string(), Some(true)),
        Err(Refusal { status: 404, error: "provider_not_found".to_string() })
    );
    assert_eq!(
        begin_single_usage(&state, &"a".to_string(), Some(true)),
        Ok(Some(vec!["a".to_string()]))
    );
    assert_eq!(begin_single_usage(&state, &"a".to_string(), Some(false)), Ok(None));
    assert_eq!(begin_single_usage(&state, &"b".to_string(), None), Ok(None));
    let known = single_usage(&state, &"a".to_string());
    assert_eq!(known.status, 200);
    assert_eq!(known.snapshot, Some(snapshot("a", vec![])));
    let unknown = single_usage(&state, &"b".to_string());
    assert_eq!(unknown.status, 204);
    assert_eq!(unknown.snapshot, None);
}

#[test]
fn primary_lines_are_ordered_by_rank() {
    let line = |label: &str, line_type: &str, primary_order: Option<u32>| ManifestLine {
        line_type: line_type.to_string(),
        label: label.to_string(),
        scope: "overview".to_string(),
        primary_order,
    };
    let mut with_lines = plugin("p");
    with_lines.manifest.lines = vec![
        line("Second", "progress", Some(2)),
        line("None", "progress", None),
        line("First", "progress", Some(1)),
        line("Text", "text", Some(0)),
        line("Also second", "progress", Some(2)),
    ];
    with_lines.manifest.links =
        vec![PluginLink { label: "Status".to_string(), url: "https://example.com".to_string() }];
    let state =
        DaemonState::new(vec![with_lines], path("."), "0.0.0-test".to_string(), None);
    let meta = state.plugins_meta();
    assert_eq!(meta.len(), 1);
    assert_eq!(
        meta[0].primary_candidates,
        vec!["First".to_string(), "Second".to_string(), "Also second".to_string()]
    );
    assert_eq!(meta[0].links[0].url, "https://example.com");
    assert_eq!(meta[0].lines.len(), 5);
}

#[test]
fn logged_texts_are_cut() {
    assert_eq!(truncate_for_log("abc", 0), "");
    assert_eq!(truncate_for_log("", 3), "-");
    assert_eq!(truncate_for_log("abc", 3), "abc");
    assert_eq!(truncate_for_log("abcd", 3), "abc...");
    assert_eq!(truncate_for_log("äöü!", 3), "äöü...");
}

#[test]
fn first_run_is_summed_up_in_the_order_of_the_providers() {
    let mut planned = snapshot("b", vec![text_line(), text_line()]);
    planned.plan = Some("Pro".to_string());
    let failed = snapshot(
        "a",
        vec![MetricLine::Badge {
            label: "ERROR".to_string(),
            text: "no token".to_string(),
            color: None,
            subtitle: None,
        }],
    );
    assert_eq!(snapshot_error(&failed).as_deref(), Some("no token"));
    assert_eq!(snapshot_error(&planned), None);
    assert_eq!(
        plugin_initialization_summary(&vec![planned, snapshot("b", vec![]), failed]),
        vec![
            "plugin initialization summary: total=3 (one line per plugin follows)".to_string(),
            "plugin init: plugin=a status=ERROR lines=1 info=no token".to_string(),
            "plugin init: plugin=b status=OK lines=2 info=plan=Pro".to_string(),
            "plugin init: plugin=b status=OK lines=0 info=ready".to_string(),
        ]
    );
    assert_eq!(
        plugin_initialization_failure_summary(&vec!["b".to_string(), "a".to_string()], "broken"),
        vec![
            "plugin initialization summary: initial refresh failed before per-plugin results: broken".to_string(),
            "plugin init: plugin=a status=REFRESH_NOT_AVAILABLE info=initial refresh failed: broken".to_string(),
            "plugin init: plugin=b status=REFRESH_NOT_AVAILABLE info=initial refresh failed: broken".to_string(),
        ]
    );
}
