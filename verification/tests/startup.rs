use openusage_cli::cli_preparse::{
    cli_args_with_default_mode, find_similar_command, first_positional_index, unknown_command_error,
};
use openusage_cli::config::{
    build_proxy, config_path, daemon_endpoint_path, daemon_runtime_dir, default_config_template,
    endpoint_path_in, load_and_resolve_proxy, proxy_from_config, proxy_from_env, proxy_variables,
    resolved_from,
    write_default_config_if_missing, write_default_config_to_path, AppConfig, ProjectLocations,
    ProxyConfig, DAEMON_ENDPOINT_FILE_NAME, DEFAULT_ENABLED_PLUGINS, DEFAULT_HOST,
    DEFAULT_LOG_LEVEL, DEFAULT_PORT, DEFAULT_REFRESH_INTERVAL_SECS,
};
use openusage_cli::complaint::Complaint;
use openusage_cli::discovery::{endpoint_in, temp_file_path, PublishedDiscovery};
use openusage_cli::edit_distance::levenshtein_distance;
use openusage_cli::instance_control::{
    config_reply, config_url, control_reply, control_url, health_url, running_instance_from,
    wait_step_after,
    wait_step_at, ExistingInstancePolicy, RuntimeConfigProbe, ServiceMode, WaitStep,
};
use openusage_cli::lexical_path::LexicalPath;
use openusage_cli::net::{
    connect_host_for_bind_ip, format_http_base_url, IpAddress, SocketAddress,
};
use openusage_cli::path_resolution::{
    plugin_overrides_dir_candidates, plugins_dir_candidates, resolve_app_data_dir,
    resolve_plugin_overrides_dir, resolve_plugins_dir, source_checkout_root_from_exec_dir,
    SearchFacts, SYSTEM_PLUGINS_DIR, SYSTEM_PLUGIN_OVERRIDES_DIR,
};

fn path(text: &str) -> LexicalPath {
    LexicalPath::parse(text)
}

fn args(list: &[&str]) -> Vec<String> {
    list.iter().map(|arg| arg.to_string()).collect()
}

fn v4(octets: [u8; 4], port: u16) -> SocketAddress {
    SocketAddress { ip: IpAddress::V4 { octets }, port }
}

fn complaint(message: &str, causes: &[&str]) -> Complaint {
    Complaint { message: message.to_string(), causes: args(causes) }
}

fn nowhere() -> SearchFacts {
    SearchFacts { places: Err(complaint("nowhere", &["gone"])), is_dir: vec![] }
}

#[test]
fn default_template_is_valid_yaml() {
    let parsed: serde_yaml::Value =
        serde_yaml::from_str(default_config_template()).expect("default config must parse");

    assert_eq!(parsed["host"].as_str(), Some(DEFAULT_HOST));
    assert_eq!(parsed["port"].as_u64(), Some(DEFAULT_PORT as u64));
    let masks = parsed["enabled_plugins"].as_sequence().expect("masks");
    assert_eq!(masks.len(), 1);
    assert_eq!(masks[0].as_str(), Some(DEFAULT_ENABLED_PLUGINS));
    assert_eq!(parsed["refresh_interval_secs"].as_u64(), Some(DEFAULT_REFRESH_INTERVAL_SECS));
    assert_eq!(parsed["daemon"].as_bool(), Some(false));
    assert_eq!(parsed["existing_instance"].as_str(), Some("error"));
    assert_eq!(parsed["log_level"].as_str(), Some(DEFAULT_LOG_LEVEL));
    let proxy = parsed.get("proxy").expect("proxy section must exist");
    assert_eq!(proxy["enabled"].as_bool(), Some(false));
    assert_eq!(proxy["url"].as_str(), Some(""));
}

#[test]
fn write_default_config_to_path_creates_file_with_template() {
    let write = write_default_config_to_path(&path("/tmp/t/nested/config.yaml"), false, false)
        .expect("a file that is missing is written");
    assert_eq!(write.contents, default_config_template());
    assert_eq!(write.directory, Some(path("/tmp/t/nested")));
    assert!(write_default_config_if_missing(&path("/tmp/t/nested/config.yaml"), false).is_some());
}

#[test]
fn write_default_config_to_path_keeps_existing_file_when_not_overwriting() {
    assert!(write_default_config_to_path(&path("/tmp/t/config.yaml"), true, false).is_none());
    assert!(write_default_config_if_missing(&path("/tmp/t/config.yaml"), true).is_none());
    assert!(write_default_config_to_path(&path("/tmp/t/config.yaml"), true, true).is_some());
}

#[test]
fn daemon_endpoint_path_uses_expected_file_name() {
    let locations = Some(ProjectLocations {
        config_dir: path("/home/u/.config/openusage-cli"),
        runtime_dir: Some(path("/run/user/1000/openusage-cli")),
        data_local_dir: path("/home/u/.local/share/openusage-cli"),
    });
    let endpoint = daemon_endpoint_path(&locations, &Err("gone".to_string()))
        .expect("resolve daemon endpoint path");

    assert_eq!(endpoint.endpoint_file.file_name().as_deref(), Some(DAEMON_ENDPOINT_FILE_NAME));
    assert_eq!(endpoint.endpoint_file.parent().as_ref(), Some(&endpoint.dir));
}

#[test]
fn places_without_a_platform_lie_below_the_current_directory() {
    let cwd = Ok(path("/work"));
    assert_eq!(config_path(&None, &cwd), Ok(path("/work/.openusage-cli/config.yaml")));
    let dir = daemon_runtime_dir(&None, &cwd).expect("runtime dir");
    assert!(dir.starts_with(&path("/work/.openusage-cli")));
    assert_eq!(dir.to_text(), "/work/.openusage-cli/runtime");
    let unknown = Err("gone".to_string());
    assert_eq!(
        config_path(&None, &unknown),
        Err(complaint("cannot get current directory", &["gone"]))
    );
    assert!(daemon_runtime_dir(&None, &unknown).is_err());
    assert!(daemon_endpoint_path(&None, &unknown).is_err());
    assert_eq!(
        endpoint_path_in(path("/x/runtime")).endpoint_file,
        path("/x/runtime/daemon-endpoint")
    );
}

#[test]
fn proxies_come_from_the_configuration_or_the_environment() {
    let with = |enabled: bool, url: &str| AppConfig {
        proxy: Some(ProxyConfig { enabled, url: url.to_string() }),
        ..AppConfig::default()
    };
    assert_eq!(
        proxy_from_config(&with(true, "http://127.0.0.1:7890")).as_deref(),
        Some("http://127.0.0.1:7890")
    );
    assert_eq!(proxy_from_config(&with(false, "http://127.0.0.1:7890")), None);
    assert_eq!(proxy_from_config(&with(true, "")), None);
    assert_eq!(proxy_from_config(&AppConfig::default()), None);
    assert_eq!(
        proxy_variables(),
        args(&["HTTPS_PROXY", "https_proxy", "HTTP_PROXY", "http_proxy"])
    );
    assert_eq!(
        proxy_from_env(&vec![None, Some("http://a:1".to_string()), Some("http://b:1".to_string())])
            .as_deref(),
        Some("http://a:1")
    );
    assert_eq!(proxy_from_env(&vec![None, None]), None);
}

#[test]
fn publish_writes_endpoint_url_and_removes_file_on_drop() {
    let usual = Ok(endpoint_path_in(path("/tmp/t/runtime")));
    let publication = PublishedDiscovery::publish(&v4([127, 0, 0, 1], 6737), &None, usual)
        .expect("publish endpoint");
    assert_eq!(publication.payload, "http://127.0.0.1:6737\n");
    assert_eq!(publication.discovery.base_url(), "http://127.0.0.1:6737");
    assert_eq!(publication.dir, path("/tmp/t/runtime"));
    assert_eq!(publication.discovery.endpoint_file(), &path("/tmp/t/runtime/daemon-endpoint"));
}

#[test]
fn unspecified_bind_host_maps_to_localhost_connect_url() {
    let publication = PublishedDiscovery::publish(
        &v4([0, 0, 0, 0], 6737),
        &Some(path("/tmp/t/runtime")),
        Err(complaint("unused", &[])),
    )
    .expect("publish endpoint");
    assert_eq!(publication.payload, "http://127.0.0.1:6737\n");
    assert_eq!(publication.discovery.base_url(), "http://127.0.0.1:6737");
}

#[test]
fn publication_without_a_place_is_refused() {
    let unknown = Err(complaint("x", &["y"]));
    let err = PublishedDiscovery::publish(&v4([127, 0, 0, 1], 1), &None, unknown)
        .expect_err("no place");
    assert_eq!(err, complaint("failed to resolve daemon endpoint path", &["x", "y"]));
}

#[test]
fn published_hosts_can_be_reached() {
    assert_eq!(connect_host_for_bind_ip(&IpAddress::V4 { octets: [10, 1, 2, 3] }), "10.1.2.3");
    let any = IpAddress::V6 { segments: [0, 0, 0, 0, 0, 0, 0, 0], text: "::".to_string() };
    assert_eq!(connect_host_for_bind_ip(&any), "::1");
    let one = IpAddress::V6 { segments: [0xfe80, 0, 0, 0, 0, 0, 0, 1], text: "fe80::1".to_string() };
    assert_eq!(connect_host_for_bind_ip(&one), "fe80::1");
}

#[test]
fn temporary_file_is_named_after_its_destination() {
    assert_eq!(
        temp_file_path(&path("/r"), &path("/r/daemon-endpoint"), 42, 1234567890).to_text(),
        "/r/.daemon-endpoint.42.1234567890.tmp"
    );
}

#[test]
fn ipv6_base_url_is_bracketed() {
    let result = format_http_base_url("::1", 6737);
    assert_eq!(result, "http://[::1]:6737");
}

#[test]
fn existing_instance_policy_parse_accepts_all_values() {
    assert_eq!(
        ExistingInstancePolicy::parse("error").expect("parse error policy"),
        ExistingInstancePolicy::Error
    );
    assert_eq!(
        ExistingInstancePolicy::parse("ignore").expect("parse ignore policy"),
        ExistingInstancePolicy::Ignore
    );
    assert_eq!(
        ExistingInstancePolicy::parse("replace").expect("parse replace policy"),
        ExistingInstancePolicy::Replace
    );
}

#[test]
fn service_mode_parse_accepts_all_values() {
    assert_eq!(
        ServiceMode::parse("standalone").expect("parse standalone service mode"),
        ServiceMode::Standalone
    );
    assert_eq!(
        ServiceMode::parse("systemd").expect("parse systemd service mode"),
        ServiceMode::Systemd
    );
}

#[test]
fn names_are_read_back_and_others_refused() {
    for policy in
        [ExistingInstancePolicy::Error, ExistingInstancePolicy::Ignore, ExistingInstancePolicy::Replace]
    {
        assert_eq!(ExistingInstancePolicy::parse(policy.as_str()), Ok(policy));
    }
    for mode in [ServiceMode::Standalone, ServiceMode::Systemd] {
        assert_eq!(ServiceMode::parse(&format!("  {} ", mode.as_str().to_uppercase())), Ok(mode));
    }
    assert!(ExistingInstancePolicy::parse("kill").is_err());
    assert!(ServiceMode::parse("").is_err());
}

#[test]
fn running_daemons_are_asked_at_their_urls() {
    assert_eq!(config_url("http://h:1"), "http://h:1/v1/config");
    assert_eq!(control_url("http://h:1", "shutdown"), "http://h:1/v1/shutdown");
    assert_eq!(health_url("http://h:1"), "http://h:1/health");
    assert_eq!(control_reply("shutdown", "http://h:1/v1/shutdown", 202, "202 Accepted", ""), Ok(()));
    assert_eq!(
        control_reply("restart", "http://h:1/v1/restart", 403, "403 Forbidden", "no"),
        Err("restart endpoint http://h:1/v1/restart returned status 403 Forbidden: no".to_string())
    );
    assert_eq!(wait_step_at("http://h:1", 10, 20), WaitStep::Look);
    assert_eq!(
        wait_step_at("http://h:1", 20, 20),
        WaitStep::TimedOut(
            "timed out waiting for existing instance http://h:1 to stop".to_string()
        )
    );
    assert_eq!(wait_step_after(true), WaitStep::Sleep(150));
    assert_eq!(wait_step_after(false), WaitStep::Stopped);
}

#[test]
fn running_instance_is_known_by_its_configuration() {
    let probe = RuntimeConfigProbe {
        app_version: Some("1.2.3".to_string()),
        service_mode: Some("systemd".to_string()),
    };
    let found = running_instance_from("http://h:1", &probe).expect("a daemon");
    assert_eq!(found.base_url, "http://h:1");
    assert_eq!(found.service_mode, ServiceMode::Systemd);

    let odd = RuntimeConfigProbe { service_mode: Some("odd".to_string()), ..probe };
    let refused = running_instance_from("http://h:1", &odd).expect_err("no daemon");
    assert_eq!(refused.message, "invalid remote service mode 'odd'");
    assert_eq!(
        refused.causes,
        args(&["invalid service mode 'odd'; expected one of: standalone, systemd"])
    );
    let silent = RuntimeConfigProbe { app_version: None, service_mode: None };
    let refused = running_instance_from("http://h:1", &silent).expect_err("no daemon");
    assert_eq!(refused.message, "running instance config payload missing appVersion");
    assert!(refused.causes.is_empty());
}

#[test]
fn unknown_command_error_suggests_similar_command() {
    let error =
        unknown_command_error(&args(&["run-damon"])).expect("must return unknown command error");

    assert!(error.contains("Did you mean run-daemon?"));
    assert!(error.contains("run-daemon"));
    assert!(error.contains("query"));
}

#[test]
fn unknown_command_error_without_suggestion_lists_known_commands() {
    let error =
        unknown_command_error(&args(&["abracadabra"])).expect("must return unknown command error");

    assert!(error.contains("unknown command abracadabra"));
    assert!(error.contains("run-daemon"));
    assert!(error.contains("install-systemd-unit"));
}

#[test]
fn unknown_command_error_ignores_known_commands() {
    assert!(unknown_command_error(&args(&["query"])).is_none());
}

#[test]
fn unknown_command_error_ignores_flag_only_inputs() {
    assert!(unknown_command_error(&args(&["--host", "127.0.0.1"])).is_none());
}

#[test]
fn unknown_command_error_ignores_inputs_with_help_flag() {
    assert!(unknown_command_error(&args(&["--help", "abracadabra"])).is_none());
}

#[test]
fn unknown_command_error_ignores_inputs_with_version_flag() {
    assert!(unknown_command_error(&args(&["--version", "abracadabra"])).is_none());
}

#[test]
fn arguments_without_a_mode_ask_a_question() {
    assert_eq!(
        cli_args_with_default_mode(&args(&["--type", "plugins"])),
        args(&["openusage-cli", "query", "--type", "plugins"])
    );
    assert_eq!(
        cli_args_with_default_mode(&args(&["run-daemon", "--foreground"])),
        args(&["openusage-cli", "run-daemon", "--foreground"])
    );
    assert_eq!(first_positional_index(&args(&["--log-level", "info", "query"])), Some(2));
    assert_eq!(first_positional_index(&args(&["--log-level=info", "query"])), Some(1));
}

#[test]
fn commands_are_guessed_by_their_distance() {
    assert_eq!(levenshtein_distance("run-damon", "run-daemon"), 1);
    assert_eq!(levenshtein_distance("kitten", "sitting"), 3);
    assert_eq!(levenshtein_distance("sitting", "kitten"), 3);
    assert_eq!(levenshtein_distance("", "abc"), 3);
    assert_eq!(levenshtein_distance("same", "same"), 0);
    assert_eq!(find_similar_command("qery").as_deref(), Some("query"));
    assert_eq!(find_similar_command("abracadabra"), None);
    let (a, b, c) = ("kitten", "mitten", "sitting");
    assert!(
        levenshtein_distance(a, c) <= levenshtein_distance(a, b) + levenshtein_distance(b, c)
    );
    for (from, to) in [("ab", "abc"), ("abc", "ac"), ("abc", "axc")] {
        assert_eq!(levenshtein_distance(from, to), 1);
    }
}

#[test]
fn resolve_app_data_dir_requires_explicit_value_in_test_mode() {
    let err = resolve_app_data_dir(None, true, &None, &Err("gone".to_string()))
        .expect_err("test mode must require app data dir");
    assert!(err.message.contains("--app-data-dir"));
}

#[test]
fn resolve_plugins_dir_requires_explicit_value_in_test_mode() {
    let err =
        resolve_plugins_dir(None, true, &nowhere()).expect_err("test mode must require plugins dir");
    assert!(err.message.contains("--plugins-dir"));
}

#[test]
fn resolve_plugin_overrides_dir_is_disabled_in_test_mode_without_explicit_path() {
    let resolved = resolve_plugin_overrides_dir(None, false, false, true, &nowhere())
        .expect("test mode should disable auto-discovery for plugin overrides");
    assert!(resolved.is_none());
}

#[test]
fn first_directory_that_is_there_is_taken() {
    let facts = |is_dir: Vec<bool>| SearchFacts {
        places: Ok((path("/home/user"), path("/opt/openusage-cli/bin"))),
        is_dir,
    };
    assert_eq!(
        resolve_plugins_dir(None, false, &facts(vec![false, true])),
        Ok(path(SYSTEM_PLUGINS_DIR))
    );
    assert_eq!(
        resolve_plugins_dir(Some(path("/mine")), false, &facts(vec![true, true])),
        Ok(path("/mine"))
    );
    assert!(resolve_plugins_dir(None, false, &facts(vec![false, false])).is_err());
    assert_eq!(
        resolve_plugin_overrides_dir(None, false, false, false, &facts(vec![true, true])),
        Ok(Some(path("/opt/openusage-cli/share/openusage-cli/plugin-overrides")))
    );
    assert_eq!(
        resolve_plugin_overrides_dir(None, false, false, false, &facts(vec![false, false])),
        Ok(None)
    );
    assert_eq!(
        resolve_plugin_overrides_dir(Some(path("/gone/")), false, false, false, &nowhere()),
        Err(complaint("plugin overrides dir does not exist: /gone/", &[]))
    );
    assert_eq!(
        resolve_plugin_overrides_dir(Some(path("/file")), true, false, false, &nowhere()),
        Err(complaint("plugin overrides path is not a directory: /file", &[]))
    );
    let unknown = complaint("nowhere", &["gone"]);
    assert_eq!(
        resolve_plugin_overrides_dir(None, false, false, false, &nowhere()),
        Err(unknown.clone())
    );
    assert_eq!(resolve_plugins_dir(None, false, &nowhere()), Err(unknown));
    assert_eq!(
        resolve_app_data_dir(None, false, &None, &Ok(path("/w"))),
        Ok(path("/w/.openusage-cli"))
    );
}

#[test]
fn system_directories_are_looked_at_last() {
    let built = path("/repo/target/debug");
    let plugins = plugins_dir_candidates(&path("/repo"), &built);
    assert_eq!(plugins.last(), Some(&path(SYSTEM_PLUGINS_DIR)));
    let packaged = plugins_dir_candidates(&path("/"), &path("/usr/bin"));
    assert_eq!(packaged, vec![path(SYSTEM_PLUGINS_DIR)]);
    let overrides = plugin_overrides_dir_candidates(&path("/repo"), &built);
    assert_eq!(overrides.last(), Some(&path(SYSTEM_PLUGIN_OVERRIDES_DIR)));
    let inside = plugin_overrides_dir_candidates(&path("/usr/share/openusage-cli"), &built);
    assert_eq!(inside[1], path(SYSTEM_PLUGIN_OVERRIDES_DIR));
    assert_ne!(inside.last(), Some(&path(SYSTEM_PLUGIN_OVERRIDES_DIR)));
}

#[test]
fn endpoint_file_gives_back_what_was_published() {
    let usual = Ok(endpoint_path_in(path("/run//x")));
    let publication = PublishedDiscovery::publish(&v4([127, 0, 0, 1], 6737), &None, usual)
        .expect("publish endpoint");
    assert_eq!(publication.discovery.endpoint_file().to_text(), "/run//x/daemon-endpoint");
    assert_eq!(endpoint_in(&publication.payload).as_deref(), Some("http://127.0.0.1:6737"));
    assert_eq!(endpoint_in("  http://h:1 \n\n").as_deref(), Some("http://h:1"));
    assert_eq!(endpoint_in(" \n"), None);
    assert_eq!(endpoint_in(""), None);
}

#[test]
fn configuration_comes_with_a_status_of_success() {
    assert_eq!(config_reply(200, "200 OK"), Ok(()));
    assert_eq!(
        config_reply(404, "404 Not Found"),
        Err("running instance config endpoint returned status 404 Not Found".to_string())
    );
    assert!(config_reply(199, "199").is_err());
    assert!(config_reply(300, "300 Multiple Choices").is_err());
}

#[test]
fn source_checkout_root_detects_cargo_target_layouts() {
    assert_eq!(
        source_checkout_root_from_exec_dir(&path("/repo/target/debug")),
        Some(path("/repo"))
    );
    assert_eq!(
        source_checkout_root_from_exec_dir(&path("/repo/target/release")),
        Some(path("/repo"))
    );
    assert_eq!(
        source_checkout_root_from_exec_dir(&path("/repo/target/x86_64-unknown-linux-gnu/release")),
        Some(path("/repo"))
    );
    assert_eq!(source_checkout_root_from_exec_dir(&path("/usr/bin")), None);
}

#[test]
fn plugins_dir_candidates_prefer_source_checkout_paths() {
    let candidates = plugins_dir_candidates(&path("/repo"), &path("/repo/target/debug"));

    assert_eq!(
        candidates,
        vec![
            path("/repo/vendor/openusage/plugins"),
            path("/repo/plugins"),
            path("/repo/target/debug/vendor/openusage/plugins"),
            path("/repo/target/debug/plugins"),
            path("/repo/target/share/openusage-cli/openusage-plugins"),
            path(SYSTEM_PLUGINS_DIR),
        ]
    );
}

#[test]
fn plugins_dir_candidates_for_installed_binary_use_prefix_share() {
    let candidates = plugins_dir_candidates(&path("/home/user"), &path("/opt/openusage-cli/bin"));

    assert_eq!(
        candidates,
        vec![
            path("/opt/openusage-cli/share/openusage-cli/openusage-plugins"),
            path(SYSTEM_PLUGINS_DIR),
        ]
    );
}

#[test]
fn plugin_overrides_candidates_prefer_source_checkout_paths() {
    let candidates = plugin_overrides_dir_candidates(&path("/repo"), &path("/repo/target/debug"));

    assert_eq!(
        candidates,
        vec![
            path("/repo/plugin-overrides"),
            path("/repo/target/debug/plugin-overrides"),
            path("/repo/target/share/openusage-cli/plugin-overrides"),
            path(SYSTEM_PLUGIN_OVERRIDES_DIR),
        ]
    );
}

#[test]
fn plugin_overrides_candidates_for_installed_binary_use_prefix_share() {
    let candidates =
        plugin_overrides_dir_candidates(&path("/home/user"), &path("/opt/openusage-cli/bin"));

    assert_eq!(
        candidates,
        vec![
            path("/opt/openusage-cli/share/openusage-cli/plugin-overrides"),
            path(SYSTEM_PLUGIN_OVERRIDES_DIR),
        ]
    );
}

fn configured(url: &str) -> Option<AppConfig> {
    let mut config = AppConfig::default();
    config.proxy = Some(ProxyConfig { enabled: true, url: url.to_string() });
    Some(config)
}

#[test]
fn a_proxy_is_made_of_a_url_only() {
    let made = build_proxy("http://proxy.example:7890").expect("a proxy");
    assert!(format!("{:?}", made.proxy).contains("proxy.example"));
    assert!(build_proxy("").is_none());
    assert!(build_proxy("http://[bad").is_none());
    assert!(resolved_from(None).is_none());
    let given = build_proxy("http://given.example:1").expect("a proxy").proxy;
    let kept = resolved_from(Some(given)).expect("the proxy");
    assert!(format!("{:?}", kept.proxy).contains("given.example"));
}

#[test]
fn the_configured_proxy_is_preferred_where_it_can_be_made() {
    let env = vec![None, Some(" http://env.example:1 ".to_string()), None, None];

    let from_config = load_and_resolve_proxy(&configured("http://config.example:2"), &env);
    assert!(format!("{:?}", from_config).contains("config.example"));

    let broken_config = load_and_resolve_proxy(&configured("http://[bad"), &env);
    assert!(format!("{:?}", broken_config).contains("env.example"));

    let no_config = load_and_resolve_proxy(&None, &env);
    assert!(format!("{:?}", no_config).contains("env.example"));

    assert!(load_and_resolve_proxy(&None, &vec![None, None, None, None]).is_none());
}
