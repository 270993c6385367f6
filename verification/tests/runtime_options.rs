use openusage_cli::config::{
    AppConfig, DEFAULT_ENABLED_PLUGINS, DEFAULT_HOST, DEFAULT_LOG_LEVEL, DEFAULT_PORT,
    DEFAULT_REFRESH_INTERVAL_SECS,
};
use openusage_cli::daemon_mode::{
    bind_failure, bind_text, build_restart_watch_inputs, daemon_child_args, final_outcome,
    phase_text, publishes_endpoint, refresh_wait, restart_outcome_for_service_mode, retry_step,
    runtime_config, should_spawn_daemon_parent, startup_step, strip_flags_for_daemon_child,
    startup_step_after, DaemonPhase, RefreshWait, RetryStep, RunOutcome, StartupStep,
};
use openusage_cli::complaint::Complaint;
use openusage_cli::daemon_plan::{daemon_plan, step_failure, DaemonAction};
use openusage_cli::enabled_plugins::{select_plugins, EnabledPluginsMatcher};
use openusage_cli::http_api::LifecycleCommand;
use openusage_cli::instance_control::{ExistingInstancePolicy, RunningInstance, ServiceMode};
use openusage_cli::lexical_path::LexicalPath;
use openusage_cli::net::{IpAddress, SocketAddress};
use openusage_cli::plugin_engine::manifest::{LoadedPlugin, PluginManifest};
use openusage_cli::query::{
    checked_payload, daemon_answer, query_step, query_url, QueryStep,
};
use openusage_cli::runtime_cli::{
    normalize_log_level, resolve_log_level, resolve_runtime_directories, Cli, DaemonRuntimeArgs,
    DaemonRuntimeCli, EnvOverrides, EnvValues, LogLevel, ModeCommand, QueryArgs, QueryRuntimeCli,
    QueryType, RunDaemonArgs, RuntimeCli, SharedRuntimeArgs, SharedRuntimeCli,
};
use openusage_cli::runtime_context::initial_state;
use openusage_cli::systemd::{
    build_systemd_unit, http_readiness_probe_addr, plan_unit_install, quote_systemd_argument,
    readiness_step_after, readiness_step_at, readiness_url, required_unit_dirs,
    socket_address_text, systemd_exec_start, systemd_unit_install_message,
    systemd_watchdog_ping_interval, ReadinessStep, SYSTEMD_RESTART_EXIT_CODE,
    USER_SYSTEMD_SERVICE_NAME,
};

fn path(text: &str) -> LexicalPath {
    LexicalPath::parse(text)
}

fn args(list: &[&str]) -> Vec<String> {
    list.iter().map(|arg| arg.to_string()).collect()
}

fn complaint(message: &str, causes: &[&str]) -> Complaint {
    Complaint { message: message.to_string(), causes: args(causes) }
}

fn empty_cli() -> Cli {
    Cli {
        log_level: None,
        test_mode: false,
        command: Some(ModeCommand::Query(QueryArgs::default())),
    }
}

fn cli_without_mode() -> Cli {
    Cli { command: None, ..empty_cli() }
}

fn run_daemon_cli() -> Cli {
    Cli {
        command: Some(ModeCommand::RunDaemon(RunDaemonArgs {
            runtime: DaemonRuntimeArgs::default(),
            foreground: None,
            existing_instance: None,
            service_mode: None,
            daemon_child: false,
        })),
        ..empty_cli()
    }
}

fn expect_query_runtime(runtime: RuntimeCli) -> QueryRuntimeCli {
    match runtime {
        RuntimeCli::Query(query_runtime) => query_runtime,
        RuntimeCli::RunDaemon(_) => panic!("expected query runtime"),
    }
}

fn expect_daemon_runtime(runtime: RuntimeCli) -> DaemonRuntimeCli {
    match runtime {
        RuntimeCli::RunDaemon(daemon_runtime) => daemon_runtime,
        RuntimeCli::Query(_) => panic!("expected run-daemon runtime"),
    }
}

fn daemon_runtime() -> DaemonRuntimeCli {
    DaemonRuntimeCli {
        shared: SharedRuntimeCli {
            plugins_dir: None,
            enabled_plugins: DEFAULT_ENABLED_PLUGINS.to_string(),
            app_data_dir: None,
            plugin_overrides_dir: None,
            test_mode: false,
            log_level: DEFAULT_LOG_LEVEL.to_string(),
        },
        foreground: false,
        host: DEFAULT_HOST.to_string(),
        port: DEFAULT_PORT,
        refresh_interval_secs: DEFAULT_REFRESH_INTERVAL_SECS,
        existing_instance_policy: ExistingInstancePolicy::Error,
        service_mode: ServiceMode::Standalone,
        daemon_child: false,
    }
}

fn v4(octets: [u8; 4], port: u16) -> SocketAddress {
    SocketAddress { ip: IpAddress::V4 { octets }, port }
}

fn plugin(id: &str) -> LoadedPlugin {
    LoadedPlugin {
        manifest: PluginManifest {
            schema_version: 1,
            id: id.to_string(),
            name: id.to_string(),
            version: "0.0.1".to_string(),
            entry: "plugin.js".to_string(),
            icon: "icon.svg".to_string(),
            brand_color: None,
            lines: vec![],
            links: vec![],
        },
        plugin_dir: path("."),
        entry_script: String::new(),
        icon_data_url: String::new(),
    }
}

#[test]
fn runtime_cli_uses_defaults_when_no_input_values() {
    let runtime = expect_query_runtime(
        RuntimeCli::from_sources(cli_without_mode(), EnvOverrides::default(), AppConfig::default())
            .expect("runtime defaults should resolve"),
    );

    assert_eq!(runtime.shared.plugins_dir, None);
    assert_eq!(runtime.shared.app_data_dir, None);
    assert_eq!(runtime.shared.plugin_overrides_dir, None);
    assert_eq!(runtime.shared.enabled_plugins, DEFAULT_ENABLED_PLUGINS);
    assert_eq!(runtime.query_type, QueryType::Usage);
    assert_eq!(runtime.shared.log_level, DEFAULT_LOG_LEVEL);
}

#[test]
fn runtime_cli_query_mode_uses_selected_query_type() {
    let cli = Cli {
        command: Some(ModeCommand::Query(QueryArgs {
            shared: SharedRuntimeArgs::default(),
            query_type: QueryType::Plugins,
        })),
        ..empty_cli()
    };

    let runtime = expect_query_runtime(
        RuntimeCli::from_sources(cli, EnvOverrides::default(), AppConfig::default())
            .expect("query type should resolve"),
    );

    assert_eq!(runtime.query_type, QueryType::Plugins);
}

#[test]
fn runtime_cli_uses_config_values_when_cli_is_empty() {
    let app_config = AppConfig {
        host: Some("0.0.0.0".to_string()),
        port: Some(9000),
        plugins_dir: Some(path("/tmp/plugins")),
        enabled_plugins: Some(args(&["codex", "cur*"])),
        app_data_dir: Some(path("/tmp/data")),
        plugin_overrides_dir: Some(path("/tmp/overrides")),
        refresh_interval_secs: Some(42),
        daemon: None,
        foreground: Some(true),
        existing_instance: Some("ignore".to_string()),
        log_level: Some("debug".to_string()),
        proxy: None,
    };
    let runtime = expect_query_runtime(
        RuntimeCli::from_sources(empty_cli(), EnvOverrides::default(), app_config)
            .expect("runtime config values should resolve"),
    );

    assert_eq!(runtime.shared.plugins_dir, Some(path("/tmp/plugins")));
    assert_eq!(runtime.shared.enabled_plugins, "codex,cur*");
    assert_eq!(runtime.shared.app_data_dir, Some(path("/tmp/data")));
    assert_eq!(runtime.shared.plugin_overrides_dir, Some(path("/tmp/overrides")));
    assert_eq!(runtime.shared.log_level, "debug");
}

#[test]
fn runtime_cli_prioritizes_cli_values_over_config() {
    let cli = Cli {
        log_level: Some(LogLevel::Trace),
        test_mode: false,
        command: Some(ModeCommand::RunDaemon(RunDaemonArgs {
            runtime: DaemonRuntimeArgs {
                host: Some("127.0.0.2".to_string()),
                port: Some(7001),
                shared: SharedRuntimeArgs {
                    plugins_dir: Some(path("/cli/plugins")),
                    enabled_plugins: Some("mock".to_string()),
                    app_data_dir: Some(path("/cli/data")),
                    plugin_overrides_dir: Some(path("/cli/overrides")),
                },
                refresh_interval_secs: Some(7),
            },
            foreground: Some(true),
            existing_instance: Some(ExistingInstancePolicy::Replace),
            service_mode: Some(ServiceMode::Systemd),
            daemon_child: false,
        })),
    };
    let app_config = AppConfig {
        host: Some("0.0.0.0".to_string()),
        port: Some(9000),
        plugins_dir: Some(path("/cfg/plugins")),
        enabled_plugins: Some(args(&["codex"])),
        app_data_dir: Some(path("/cfg/data")),
        plugin_overrides_dir: Some(path("/cfg/overrides")),
        refresh_interval_secs: Some(60),
        daemon: None,
        foreground: Some(false),
        existing_instance: Some("error".to_string()),
        log_level: Some("debug".to_string()),
        proxy: None,
    };

    let runtime = expect_daemon_runtime(
        RuntimeCli::from_sources(cli, EnvOverrides::default(), app_config)
            .expect("runtime CLI values should resolve"),
    );

    assert_eq!(runtime.host, "127.0.0.2");
    assert_eq!(runtime.port, 7001);
    assert_eq!(runtime.shared.plugins_dir, Some(path("/cli/plugins")));
    assert_eq!(runtime.shared.enabled_plugins, "mock");
    assert_eq!(runtime.shared.app_data_dir, Some(path("/cli/data")));
    assert_eq!(runtime.shared.plugin_overrides_dir, Some(path("/cli/overrides")));
    assert_eq!(runtime.refresh_interval_secs, 7);
    assert_eq!(runtime.shared.log_level, "trace");
    assert!(runtime.foreground);
    assert_eq!(runtime.existing_instance_policy, ExistingInstancePolicy::Replace);
    assert_eq!(runtime.service_mode, ServiceMode::Systemd);
}

#[test]
fn runtime_cli_defaults_to_query_mode_without_explicit_command() {
    let runtime =
        RuntimeCli::from_sources(cli_without_mode(), EnvOverrides::default(), AppConfig::default())
            .expect("runtime mode should resolve");

    assert!(matches!(runtime, RuntimeCli::Query(_)));
}

#[test]
fn runtime_cli_uses_run_daemon_mode_when_selected() {
    let runtime =
        RuntimeCli::from_sources(run_daemon_cli(), EnvOverrides::default(), AppConfig::default())
            .expect("runtime mode should resolve");

    assert!(matches!(runtime, RuntimeCli::RunDaemon(_)));
}

#[test]
fn daemon_options_have_defaults_and_configured_values() {
    let defaults = expect_daemon_runtime(
        RuntimeCli::from_sources(run_daemon_cli(), EnvOverrides::default(), AppConfig::default())
            .expect("defaults"),
    );
    assert_eq!(defaults.host, "127.0.0.1");
    assert_eq!(defaults.port, 0);
    assert_eq!(defaults.refresh_interval_secs, 300);
    assert!(!defaults.foreground);
    assert_eq!(defaults.existing_instance_policy, ExistingInstancePolicy::Error);
    assert_eq!(defaults.service_mode, ServiceMode::Standalone);

    let config = AppConfig {
        host: Some("0.0.0.0".to_string()),
        port: Some(9000),
        refresh_interval_secs: Some(60),
        foreground: Some(true),
        existing_instance: Some(" Replace ".to_string()),
        ..AppConfig::default()
    };
    let configured = expect_daemon_runtime(
        RuntimeCli::from_sources(run_daemon_cli(), EnvOverrides::default(), config)
            .expect("configured"),
    );
    assert_eq!(configured.host, "0.0.0.0");
    assert_eq!(configured.port, 9000);
    assert_eq!(configured.refresh_interval_secs, 60);
    assert!(configured.foreground);
    assert_eq!(configured.existing_instance_policy, ExistingInstancePolicy::Replace);
}

#[test]
fn runtime_cli_rejects_invalid_config_existing_instance_value_for_run_daemon() {
    let app_config =
        AppConfig { existing_instance: Some("invalid".to_string()), ..AppConfig::default() };

    let err = RuntimeCli::from_sources(run_daemon_cli(), EnvOverrides::default(), app_config)
        .expect_err("invalid existing_instance value must be rejected in run-daemon mode");
    assert!(err.message.contains("invalid existing_instance"));
    assert_eq!(
        err.causes,
        args(&["invalid existing_instance value 'invalid'; expected one of: error, ignore, replace"])
    );
}

#[test]
fn runtime_cli_query_mode_ignores_existing_instance_config() {
    let app_config =
        AppConfig { existing_instance: Some("invalid".to_string()), ..AppConfig::default() };

    let runtime = RuntimeCli::from_sources(empty_cli(), EnvOverrides::default(), app_config)
        .expect("query mode should ignore existing_instance config");
    assert!(matches!(runtime, RuntimeCli::Query(_)));
}

#[test]
fn commands_without_a_runtime_are_refused() {
    for command in [
        ModeCommand::ShowDefaultConfig,
        ModeCommand::InstallSystemdUnit,
        ModeCommand::Version,
    ] {
        let cli = Cli { command: Some(command), ..empty_cli() };
        assert_eq!(
            RuntimeCli::from_sources(cli, EnvOverrides::default(), AppConfig::default())
                .expect_err("no runtime")
                .message,
            "internal error: non-runtime command reached runtime option resolver"
        );
    }
}

#[test]
fn should_spawn_daemon_parent_respects_foreground_and_child() {
    let mut runtime = daemon_runtime();

    assert!(should_spawn_daemon_parent(&runtime));
    runtime.foreground = true;
    assert!(!should_spawn_daemon_parent(&runtime));
    runtime.foreground = false;
    runtime.daemon_child = true;
    assert!(!should_spawn_daemon_parent(&runtime));
}

#[test]
fn restart_outcome_for_systemd_requests_exit_code_75() {
    assert_eq!(
        restart_outcome_for_service_mode(ServiceMode::Systemd),
        RunOutcome::ExitWithCode(SYSTEMD_RESTART_EXIT_CODE)
    );
    assert_eq!(SYSTEMD_RESTART_EXIT_CODE, 75);
}

#[test]
fn restart_outcome_for_standalone_requests_self_restart() {
    assert_eq!(
        restart_outcome_for_service_mode(ServiceMode::Standalone),
        RunOutcome::RestartSelf
    );
}

#[test]
fn only_a_restart_changes_how_a_run_ends() {
    assert_eq!(
        final_outcome(Some(LifecycleCommand::Restart), ServiceMode::Systemd),
        RunOutcome::ExitWithCode(75)
    );
    assert_eq!(
        final_outcome(Some(LifecycleCommand::Shutdown), ServiceMode::Systemd),
        RunOutcome::Completed
    );
    assert_eq!(final_outcome(None, ServiceMode::Standalone), RunOutcome::Completed);
}

#[test]
fn env_overrides_parse_expected_runtime_variables() {
    let env = EnvOverrides::from_values(&EnvValues {
        plugins_dir: Some("/env/plugins".to_string()),
        enabled_plugins: Some("mock,codex".to_string()),
        app_data_dir: Some("/env/data".to_string()),
        plugin_overrides_dir: Some("/env/overrides".to_string()),
        log_level: Some("warn".to_string()),
    });

    assert_eq!(env.plugins_dir, Some(path("/env/plugins")));
    assert_eq!(env.enabled_plugins.as_deref(), Some("mock,codex"));
    assert_eq!(env.app_data_dir, Some(path("/env/data")));
    assert_eq!(env.plugin_overrides_dir, Some(path("/env/overrides")));
    assert_eq!(env.log_level.as_deref(), Some("warn"));
}

#[test]
fn empty_variables_set_nothing() {
    let env = EnvOverrides::from_values(&EnvValues {
        plugins_dir: Some(String::new()),
        enabled_plugins: Some("  ".to_string()),
        app_data_dir: None,
        plugin_overrides_dir: Some(" ".to_string()),
        log_level: Some(" warn\n".to_string()),
    });
    assert_eq!(env.plugins_dir, None);
    assert_eq!(env.enabled_plugins, None);
    assert_eq!(env.app_data_dir, None);
    assert_eq!(env.plugin_overrides_dir, Some(path(" ")));
    assert_eq!(env.log_level.as_deref(), Some("warn"));
}

#[test]
fn runtime_cli_uses_env_overrides_between_cli_and_config() {
    let env = EnvOverrides {
        plugins_dir: Some(path("/env/plugins")),
        enabled_plugins: Some("mock".to_string()),
        app_data_dir: Some(path("/env/data")),
        plugin_overrides_dir: Some(path("/env/overrides")),
        log_level: Some("info".to_string()),
    };
    let app_config = AppConfig {
        plugins_dir: Some(path("/cfg/plugins")),
        enabled_plugins: Some(args(&["codex"])),
        app_data_dir: Some(path("/cfg/data")),
        plugin_overrides_dir: Some(path("/cfg/overrides")),
        log_level: Some("debug".to_string()),
        ..AppConfig::default()
    };

    let runtime = expect_query_runtime(
        RuntimeCli::from_sources(empty_cli(), env, app_config)
            .expect("runtime env values should resolve"),
    );

    assert_eq!(runtime.shared.plugins_dir, Some(path("/env/plugins")));
    assert_eq!(runtime.shared.enabled_plugins, "mock");
    assert_eq!(runtime.shared.app_data_dir, Some(path("/env/data")));
    assert_eq!(runtime.shared.plugin_overrides_dir, Some(path("/env/overrides")));
    assert_eq!(runtime.shared.log_level, "info");
}

#[test]
fn runtime_cli_rejects_invalid_env_log_level() {
    let env = EnvOverrides { log_level: Some("inof".to_string()), ..EnvOverrides::default() };

    let err = RuntimeCli::from_sources(empty_cli(), env, AppConfig::default())
        .expect_err("invalid env log level must be rejected");
    assert!(err.message.contains("invalid log level"));
}

#[test]
fn runtime_cli_rejects_invalid_config_log_level() {
    let app_config = AppConfig { log_level: Some("loud".to_string()), ..AppConfig::default() };

    let err = RuntimeCli::from_sources(empty_cli(), EnvOverrides::default(), app_config)
        .expect_err("invalid config log level must be rejected");
    assert!(err.message.contains("invalid log level"));
}

#[test]
fn log_levels_are_normalized() {
    assert_eq!(normalize_log_level(" WARN ".to_string()), Ok("warn".to_string()));
    assert_eq!(normalize_log_level("trace".to_string()), Ok("trace".to_string()));
    assert_eq!(
        normalize_log_level("Loud".to_string()),
        Err("invalid log level 'Loud'; expected one of: error, warn, info, debug, trace"
            .to_string())
    );
    let test_cli = Cli { test_mode: true, ..empty_cli() };
    assert_eq!(
        resolve_log_level(&test_cli, &EnvOverrides::default(), &Some("debug".to_string())),
        Ok("error".to_string())
    );
    assert_eq!(
        resolve_log_level(&empty_cli(), &EnvOverrides::default(), &Some("debug".to_string())),
        Ok("debug".to_string())
    );
}

#[test]
fn test_runs_publish_below_their_data() {
    let mut runtime = daemon_runtime();
    runtime.shared.test_mode = true;
    runtime.shared.app_data_dir = Some(path("/tmp/data"));
    let cwd = Err("gone".to_string());
    let dirs = resolve_runtime_directories(&runtime.shared, &None, &cwd).expect("dirs");
    assert_eq!(dirs.app_data_dir, path("/tmp/data"));
    assert_eq!(dirs.test_runtime_dir, Some(path("/tmp/data/runtime")));
    runtime.shared.app_data_dir = None;
    assert!(resolve_runtime_directories(&runtime.shared, &None, &cwd).is_err());
    runtime.shared.test_mode = false;
    assert_eq!(
        resolve_runtime_directories(&runtime.shared, &None, &cwd).expect_err("no place"),
        complaint("cannot get current directory", &["gone"])
    );
}

#[test]
fn enabled_plugins_matcher_supports_multiple_globs() {
    let matcher = EnabledPluginsMatcher::from_csv("codex,cur*").expect("matcher should parse");

    assert!(matcher.is_enabled("codex"));
    assert!(matcher.is_enabled("cursor"));
    assert!(!matcher.is_enabled("gemini"));
}

#[test]
fn enabled_plugins_matcher_rejects_empty_list() {
    let err = EnabledPluginsMatcher::from_csv(" , , ").expect_err("must reject empty list");
    assert!(err.message.contains("empty"));
    assert!(err.causes.is_empty());
}

#[test]
fn enabled_plugins_matcher_rejects_invalid_glob() {
    let err = EnabledPluginsMatcher::from_csv("[").expect_err("must reject invalid mask");
    assert!(err.message.contains("invalid enabled plugin glob mask"));
    assert_eq!(
        err.causes,
        args(&["error parsing glob '[': unclosed character class; missing ']'"])
    );
}

#[test]
fn plugins_are_selected_by_their_masks() {
    let dir = path("/plugins");
    let all = || vec![plugin("codex"), plugin("cursor"), plugin("gemini")];
    let ids = |list: Vec<LoadedPlugin>| -> Vec<String> {
        list.into_iter().map(|p| p.manifest.id).collect()
    };
    assert_eq!(
        ids(select_plugins(all(), &dir, "*").expect("all")),
        args(&["codex", "cursor", "gemini"])
    );
    assert_eq!(
        ids(select_plugins(all(), &dir, "ge*, codex").expect("two")),
        args(&["codex", "gemini"])
    );
    assert_eq!(
        select_plugins(all(), &dir, "mock").expect_err("none").message,
        "no plugins enabled after applying enabled_plugins='mock'. loaded plugin ids: [\"codex\", \"cursor\", \"gemini\"]"
    );
    assert_eq!(
        select_plugins(all(), &dir, "[").expect_err("bad mask"),
        complaint(
            "invalid enabled_plugins value '[' (expected comma-separated glob masks)",
            &[
                "invalid enabled plugin glob mask '['",
                "error parsing glob '[': unclosed character class; missing ']'",
            ]
        )
    );
    assert_eq!(
        select_plugins(vec![], &path("/plugins/"), "*").expect_err("no plugins").message,
        "no plugins found in /plugins/ (set --plugins-dir or install plugin data under <prefix>/share/openusage-cli/openusage-plugins)"
    );
}

#[test]
fn initial_state_has_the_enabled_plugins() {
    let mut shared = daemon_runtime().shared;
    shared.enabled_plugins = "c*".to_string();
    let all = || vec![plugin("codex"), plugin("gemini")];
    let started = |shared: &SharedRuntimeCli, loaded, overrides| {
        initial_state(shared, "1.0.0", &path("/data"), &path("/plugins"), loaded, overrides)
    };

    let state = match started(&shared, all(), Ok(Some(path("/overrides")))) {
        Ok(state) => state,
        Err(complaint) => panic!("no state: {:?}", complaint),
    };
    assert_eq!(state.resolve_plugin_ids(&None), args(&["codex"]));
    assert_eq!(state.app_data_dir().to_text(), "/data");
    assert_eq!(state.app_version(), "1.0.0");
    assert_eq!(state.plugin_overrides_dir(), &Some(path("/overrides")));
    assert!(state.cached(&None).is_empty());

    assert_eq!(
        started(&shared, all(), Err(complaint("gone", &["not found"]))).err(),
        Some(complaint(
            "failed to resolve plugin overrides directory",
            &["gone", "not found"]
        ))
    );
    shared.enabled_plugins = "x".to_string();
    assert_eq!(
        started(&shared, all(), Err(complaint("gone", &[]))).err().map(|found| found.message),
        Some("no plugins enabled after applying enabled_plugins='x'. loaded plugin ids: [\"codex\", \"gemini\"]".to_string())
    );
    assert!(started(&shared, vec![], Ok(None)).is_err());
}

#[test]
fn strip_flags_for_daemon_child_removes_internal_flags() {
    let raw = args(&["run-daemon", "--host", "127.0.0.1", "--daemon-child", "--port=6737"]);

    assert_eq!(
        strip_flags_for_daemon_child(&raw),
        args(&["run-daemon", "--host", "127.0.0.1", "--port=6737"])
    );
    assert_eq!(
        daemon_child_args(&raw),
        args(&["run-daemon", "--host", "127.0.0.1", "--port=6737", "--daemon-child"])
    );
}

#[test]
fn systemd_exec_start_always_uses_foreground_mode_and_log_level_info() {
    assert_eq!(
        systemd_exec_start("/usr/bin/openusage-cli"),
        "/usr/bin/openusage-cli run-daemon --foreground=true --service-mode=systemd --log-level=info"
    );
}

#[test]
fn arguments_with_other_characters_are_quoted() {
    assert_eq!(quote_systemd_argument("/opt/my tools/x"), "\"/opt/my tools/x\"");
    assert_eq!(quote_systemd_argument("a\"b\\c"), "\"a\\\"b\\\\c\"");
    assert_eq!(quote_systemd_argument("--a=b,c:d_e.f"), "--a=b,c:d_e.f");
}

#[test]
fn systemd_unit_install_messages_for_new_file_keep_enable_flow() {
    let message = systemd_unit_install_message(&path("/tmp/openusage-cli.service"), false);

    assert!(message.starts_with("Systemd user unit installed."));
    assert!(message.contains("Created files:"));
    assert!(message.contains("Next commands:"));
    assert!(message.contains(&format!(
        "  - systemctl --user enable --now {}",
        USER_SYSTEMD_SERVICE_NAME
    )));
    assert!(!message.contains("restart"));
}

#[test]
fn systemd_unit_install_messages_for_existing_file_require_restart() {
    let message = systemd_unit_install_message(&path("/tmp/openusage-cli.service"), true);

    assert!(message.starts_with("Systemd user unit updated."));
    assert!(message.contains("Updated files:"));
    assert!(message.contains("Next commands to apply the updated unit:"));
    assert!(message.contains(&format!(
        "  - systemctl --user enable --now {}",
        USER_SYSTEMD_SERVICE_NAME
    )));
    assert!(message.contains(&format!(
        "  - systemctl --user restart {}",
        USER_SYSTEMD_SERVICE_NAME
    )));
}

#[test]
fn build_systemd_unit_uses_expected_restart_policy() {
    let unit = build_systemd_unit("/usr/bin/openusage-cli run-daemon --foreground=true");

    assert!(unit.contains("Type=notify"));
    assert!(unit.contains("NotifyAccess=main"));
    assert!(unit.contains("WatchdogSec=30s"));
    assert!(unit.contains("TimeoutStartSec=120s"));
    assert!(unit.contains("Restart=on-failure"));
    assert!(unit.contains("RestartSec=2s"));
    assert!(unit.contains("SuccessExitStatus=75"));
    assert!(unit.contains("RestartForceExitStatus=75"));
}

#[test]
fn unit_is_installed_where_its_directories_are() {
    let home = path("/home/u");
    assert_eq!(
        required_unit_dirs(&home),
        vec![
            path("/home/u/.config"),
            path("/home/u/.config/systemd"),
            path("/home/u/.config/systemd/user"),
        ]
    );
    let unit = plan_unit_install(&home, &[true, true, true], "/usr/bin/openusage-cli")
        .expect("directories are there");
    assert_eq!(unit.path, path("/home/u/.config/systemd/user/openusage-cli.service"));
    assert_eq!(unit.path.to_text(), "/home/u/.config/systemd/user/openusage-cli.service");
    assert!(unit.contents.contains("ExecStart=/usr/bin/openusage-cli run-daemon "));
    assert_eq!(
        plan_unit_install(&home, &[true, false, false], "/usr/bin/openusage-cli")
            .expect_err("directories are missing"),
        "cannot install user systemd unit: required directories do not exist: /home/u/.config/systemd, /home/u/.config/systemd/user"
    );
}

#[test]
fn http_readiness_probe_addr_uses_loopback_for_unspecified_ipv4() {
    let probe = http_readiness_probe_addr(&v4([0, 0, 0, 0], 6737));
    assert_eq!(socket_address_text(&probe), "127.0.0.1:6737");
    assert_eq!(readiness_url(&v4([0, 0, 0, 0], 6737)), "http://127.0.0.1:6737/health");
}

#[test]
fn http_readiness_probe_addr_uses_loopback_for_unspecified_ipv6() {
    let bound = SocketAddress {
        ip: IpAddress::V6 { segments: [0, 0, 0, 0, 0, 0, 0, 0], text: "::".to_string() },
        port: 6737,
    };
    assert_eq!(socket_address_text(&http_readiness_probe_addr(&bound)), "[::1]:6737");
}

#[test]
fn http_readiness_probe_addr_keeps_specific_bind_ip() {
    let bound = v4([10, 20, 30, 40], 6737);
    assert_eq!(socket_address_text(&http_readiness_probe_addr(&bound)), "10.20.30.40:6737");
}

#[test]
fn readiness_is_awaited_for_a_while() {
    assert_eq!(readiness_step_at("http://h/health", 9, 10), ReadinessStep::Ask);
    assert_eq!(
        readiness_step_at("http://h/health", 10, 10),
        ReadinessStep::TimedOut(
            "timeout waiting for health endpoint http://h/health during daemon startup".to_string()
        )
    );
    assert_eq!(readiness_step_after(Some(200)), ReadinessStep::Ready);
    assert_eq!(readiness_step_after(Some(503)), ReadinessStep::Sleep(50));
    assert_eq!(readiness_step_after(None), ReadinessStep::Sleep(50));
}

#[test]
fn signs_of_life_come_at_half_the_limit() {
    let of = |mode: ServiceMode, raw: &str| {
        systemd_watchdog_ping_interval(mode, &Some(raw.to_string()))
    };
    assert_eq!(of(ServiceMode::Systemd, "30000000"), Some(15000000));
    assert_eq!(of(ServiceMode::Systemd, " +7 "), Some(3));
    assert_eq!(of(ServiceMode::Systemd, "1"), Some(1));
    assert_eq!(of(ServiceMode::Systemd, "0"), None);
    assert_eq!(of(ServiceMode::Systemd, "x"), None);
    assert_eq!(of(ServiceMode::Systemd, "+"), None);
    assert_eq!(of(ServiceMode::Systemd, "18446744073709551615"), Some(9223372036854775807));
    assert_eq!(of(ServiceMode::Systemd, "18446744073709551616"), None);
    assert_eq!(of(ServiceMode::Standalone, "30000000"), None);
    assert_eq!(systemd_watchdog_ping_interval(ServiceMode::Systemd, &None), None);
}

#[test]
fn existing_instances_decide_how_a_daemon_starts() {
    let found = |service_mode: ServiceMode| {
        Some(RunningInstance { base_url: "http://127.0.0.1:1".to_string(), service_mode })
    };
    let mut runtime = daemon_runtime();
    assert_eq!(startup_step(&runtime, &None), StartupStep::SpawnChild);
    assert_eq!(
        startup_step(&runtime, &found(ServiceMode::Systemd)),
        StartupStep::Refuse("a running daemon instance is already discovered at http://127.0.0.1:1 (service_mode=systemd). use --existing-instance=replace to replace it or --existing-instance=ignore to run without discovery registration".to_string())
    );
    assert!(publishes_endpoint(&runtime));
    runtime.existing_instance_policy = ExistingInstancePolicy::Ignore;
    assert_eq!(startup_step(&runtime, &found(ServiceMode::Systemd)), StartupStep::SpawnChild);
    assert!(!publishes_endpoint(&runtime));
    runtime.existing_instance_policy = ExistingInstancePolicy::Replace;
    assert_eq!(
        startup_step(&runtime, &found(ServiceMode::Standalone)),
        StartupStep::StopExisting { base_url: "http://127.0.0.1:1".to_string() }
    );
    assert_eq!(
        startup_step(&runtime, &found(ServiceMode::Systemd)),
        StartupStep::RestartExisting {
            base_url: "http://127.0.0.1:1".to_string(),
            announcement: "Existing systemd-managed daemon at http://127.0.0.1:1 received restart request. The systemd unit should restart it automatically.".to_string(),
        }
    );
    runtime.foreground = true;
    assert_eq!(startup_step(&runtime, &found(ServiceMode::Systemd)), StartupStep::RunHere);
}

#[test]
fn another_daemon_is_stopped_before_one_starts_in_its_place() {
    let base_url = || "http://127.0.0.1:1".to_string();
    let asked = StartupStep::StopExisting { base_url: base_url() };
    let waiting = startup_step_after(asked, Ok(())).expect("goes on");
    assert_eq!(waiting, StartupStep::AwaitStop { base_url: base_url(), timeout_secs: 15 });
    let spawning = startup_step_after(waiting, Ok(())).expect("goes on");
    assert_eq!(spawning, StartupStep::SpawnChild);
    assert_eq!(startup_step_after(spawning, Ok(())), Ok(StartupStep::Done(None)));

    let restart =
        || StartupStep::RestartExisting { base_url: base_url(), announcement: "said".to_string() };
    assert_eq!(
        startup_step_after(restart(), Ok(())),
        Ok(StartupStep::Done(Some("said".to_string())))
    );
    assert_eq!(startup_step_after(StartupStep::RunHere, Ok(())), Ok(StartupStep::RunHere));

    let failed = |step: StartupStep| {
        startup_step_after(step, Err(complaint("no luck", &["why"]))).expect_err("fails")
    };
    assert_eq!(
        failed(StartupStep::SpawnChild),
        complaint("failed to spawn background daemon process", &["no luck", "why"])
    );
    assert_eq!(
        failed(restart()),
        complaint("failed to request restart for systemd-managed instance", &["no luck", "why"])
    );
    assert_eq!(
        failed(StartupStep::StopExisting { base_url: base_url() }),
        complaint(
            "failed to request shutdown for existing standalone instance",
            &["no luck", "why"]
        )
    );
    assert_eq!(
        failed(StartupStep::AwaitStop { base_url: base_url(), timeout_secs: 15 }),
        complaint("existing standalone instance did not stop in time", &["no luck", "why"])
    );
}

#[test]
fn daemon_life_follows_its_plan() {
    let mut runtime = daemon_runtime();
    runtime.refresh_interval_secs = 300;
    assert_eq!(
        daemon_plan(&runtime),
        vec![
            DaemonAction::Report(DaemonPhase::Initializing),
            DaemonAction::LoadPlugins,
            DaemonAction::RefreshEvery(300),
            DaemonAction::ReadAddress,
            DaemonAction::Report(DaemonPhase::Binding),
            DaemonAction::Bind,
            DaemonAction::LookUpAddress,
            DaemonAction::Report(DaemonPhase::Bound),
            DaemonAction::Publish,
            DaemonAction::Report(DaemonPhase::Starting),
            DaemonAction::Serve,
            DaemonAction::AwaitReadiness,
            DaemonAction::Report(DaemonPhase::Ready),
            DaemonAction::AnnounceReady,
            DaemonAction::StartWatchdog,
            DaemonAction::WatchFiles,
            DaemonAction::AwaitEnd,
            DaemonAction::StopTasks,
            DaemonAction::CheckService,
            DaemonAction::Report(DaemonPhase::Stopping),
            DaemonAction::AnnounceStop,
        ]
    );

    runtime.refresh_interval_secs = 0;
    runtime.existing_instance_policy = ExistingInstancePolicy::Ignore;
    let plan = daemon_plan(&runtime);
    assert_eq!(plan.len(), 19);
    assert!(!plan.contains(&DaemonAction::Publish));
    assert_eq!(plan[2], DaemonAction::ReadAddress);
}

#[test]
fn daemon_ends_where_a_needed_step_fails() {
    let error = || complaint("no luck", &["why"]);
    let failed = |action| step_failure(action, "127.0.0.1:80", error());
    let over = |message: &str| Some(complaint(message, &["no luck", "why"]));
    assert_eq!(failed(DaemonAction::LoadPlugins), Some(error()));
    assert_eq!(failed(DaemonAction::ReadAddress), over("invalid bind address"));
    assert_eq!(
        failed(DaemonAction::Bind),
        Some(complaint("failed to bind 127.0.0.1:80: no luck. another process is likely already using this address; stop it or use --port with another value", &[]))
    );
    assert_eq!(
        failed(DaemonAction::LookUpAddress),
        over("failed to resolve bound HTTP listener address")
    );
    assert_eq!(failed(DaemonAction::Publish), over("failed to publish daemon endpoint"));
    assert_eq!(
        failed(DaemonAction::AwaitReadiness),
        over("HTTP server did not become ready in time")
    );
    assert_eq!(
        failed(DaemonAction::AnnounceReady),
        over("failed to notify systemd that daemon startup completed")
    );
    assert_eq!(failed(DaemonAction::AwaitEnd), over("http server task failed to join"));
    assert_eq!(failed(DaemonAction::CheckService), over("http server failed"));
    assert_eq!(failed(DaemonAction::WatchFiles), None);
    assert_eq!(failed(DaemonAction::Report(DaemonPhase::Bound)), None);
    assert_eq!(failed(DaemonAction::AnnounceStop), None);
}

#[test]
fn daemon_tells_what_it_does() {
    let mut runtime = daemon_runtime();
    runtime.port = 6738;
    assert_eq!(bind_text(&runtime), "127.0.0.1:6738");
    assert_eq!(
        bind_failure("127.0.0.1:6738", "in use"),
        "failed to bind 127.0.0.1:6738: in use. another process is likely already using this address; stop it or use --port with another value"
    );
    assert_eq!(
        phase_text(DaemonPhase::Bound, "127.0.0.1:6738"),
        "HTTP listener bound on 127.0.0.1:6738; publishing endpoint"
    );
    assert_eq!(
        phase_text(DaemonPhase::Ready, "127.0.0.1:6738"),
        "ready to serve requests on http://127.0.0.1:6738"
    );
    assert_eq!(
        phase_text(DaemonPhase::Initializing, ""),
        "initializing runtime context (plugins and cache)"
    );
    assert_eq!(phase_text(DaemonPhase::Binding, ""), "binding HTTP listener");
    assert_eq!(phase_text(DaemonPhase::Starting, ""), "starting HTTP server");
    assert_eq!(phase_text(DaemonPhase::Stopping, ""), "stopping daemon");

    let config = runtime_config(&runtime, "1.0.0", 4000, &path("/p"), &path("/d"), &None);
    assert_eq!(config.app_version, "1.0.0");
    assert_eq!(config.port, 4000);
    assert_eq!(config.service_mode, "standalone");
    assert_eq!(config.existing_instance_policy, "error");
    assert_eq!(config.plugins_dir, Some(path("/p")));
    assert_eq!(config.app_data_dir, Some(path("/d")));
    assert_eq!(config.plugin_overrides_dir, None);
    assert_eq!(config.enabled_plugins, "*");
}

#[test]
fn restart_watch_leaves_the_configuration_out_in_test_mode() {
    let mut runtime = daemon_runtime();
    let inputs = build_restart_watch_inputs(
        &runtime,
        &path("/p"),
        &Some(path("/o")),
        Ok(path("/c/config.yaml")),
        Ok(path("/bin/x")),
    )
    .expect("inputs");
    assert_eq!(inputs.config_file, Some(path("/c/config.yaml")));
    assert_eq!(inputs.binary_file, path("/bin/x"));
    assert_eq!(
        build_restart_watch_inputs(
            &runtime,
            &path("/p"),
            &None,
            Err(complaint("?", &["gone"])),
            Ok(path("/bin/x"))
        )
        .expect_err("no configuration"),
        complaint("failed to resolve config file path", &["?", "gone"])
    );
    runtime.shared.test_mode = true;
    let inputs = build_restart_watch_inputs(
        &runtime,
        &path("/p"),
        &None,
        Err(complaint("?", &[])),
        Ok(path("/bin/x")),
    )
    .expect("inputs");
    assert_eq!(inputs.config_file, None);
    assert_eq!(
        build_restart_watch_inputs(
            &runtime,
            &path("/p"),
            &None,
            Err(complaint("?", &[])),
            Err("?".to_string())
        )
        .expect_err("no program"),
        complaint("failed to resolve current executable", &["?"])
    );
}

#[test]
fn run_past_reset_retry_loop_stops_after_retry_window() {
    let mut elapsed: u64 = 0;
    let mut attempts = 0;
    while let RetryStep::RetryAfter(delay) = retry_step(true, Some(elapsed), 1, 5) {
        elapsed += delay;
        attempts += 1;
    }
    assert_eq!(attempts, 5);
    assert_eq!(retry_step(true, Some(elapsed), 1, 5), RetryStep::Expired);
    assert_eq!(retry_step(false, Some(0), 1, 5), RetryStep::Done);
}

#[test]
fn run_past_reset_retry_loop_does_not_retry_without_proactive_trigger() {
    assert_eq!(retry_step(true, None, 30000, 300000), RetryStep::Expired);
    assert_eq!(refresh_wait(None), RefreshWait::Tick);
    assert_eq!(refresh_wait(Some(12)), RefreshWait::TickOrReset(12));
}

#[test]
fn questions_are_put_to_the_daemon_first() {
    assert_eq!(query_url("http://h:1//", QueryType::Usage), "http://h:1/v1/usage");
    assert_eq!(query_url("http://h:1", QueryType::Plugins), "http://h:1/v1/plugins");
    let answer = |status: u16, text: &str, body: &str| {
        daemon_answer(QueryType::Usage, status, text, body.to_string())
    };
    assert_eq!(answer(200, "200 OK", "[]"), Ok("[]".to_string()));
    assert_eq!(answer(200, "200 OK", "[{\"a\":1}, {}]"), Ok("[{\"a\":1}, {}]".to_string()));
    assert_eq!(
        answer(500, "500 Internal Server Error", "x"),
        Err("daemon returned error: 500 Internal Server Error - x".to_string())
    );
    assert_eq!(
        answer(200, "200 OK", "oops"),
        Err("daemon returned non-JSON usage payload".to_string())
    );
    assert_eq!(
        answer(200, "200 OK", "{}"),
        Err("daemon returned unexpected usage payload shape (expected JSON array)".to_string())
    );
    assert_eq!(
        answer(200, "200 OK", "[{}, 1]"),
        Err("daemon returned unexpected usage payload shape (array entries must be objects)"
            .to_string())
    );
    assert_eq!(
        checked_payload(QueryType::Plugins, &Some(None), "x".to_string()),
        Err("daemon returned unexpected plugins payload shape (expected JSON array)".to_string())
    );
}

#[test]
fn questions_are_answered_here_if_no_daemon_does() {
    assert_eq!(
        query_step(QueryType::Usage, Some(Ok("[]".to_string()))),
        QueryStep::Print("[]".to_string())
    );
    assert_eq!(
        query_step(QueryType::Usage, Some(Err("gone".to_string()))),
        QueryStep::AnswerHere {
            refresh: true,
            note: "failed to query running daemon: gone; falling back to local plugin execution"
                .to_string(),
        }
    );
    assert_eq!(
        query_step(QueryType::Plugins, None),
        QueryStep::AnswerHere {
            refresh: false,
            note: "no running daemon discovered; falling back to local plugins response generation"
                .to_string(),
        }
    );
}
