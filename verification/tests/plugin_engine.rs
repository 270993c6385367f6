use openusage_cli::lexical_path::LexicalPath;
use openusage_cli::plugin_engine::accounts::{
    canonical_discovery_account_id, AccountElement, AccountObject, DiscoveryDescriptor,
    ErrorPolicy,
};
use openusage_cli::plugin_engine::js_value::{extract_error_string, Caught, JsValue, Number, Slot};
use openusage_cli::plugin_engine::lines::{
    choose_reset, is_missing_zone, parse_line, parse_lines, FormatObject, LineObject,
};
use openusage_cli::plugin_engine::manifest::{LoadedPlugin, PluginManifest};
use openusage_cli::plugin_engine::output::{
    error_output, has_error_line, AccountRef, MetricLine, PluginOutput, ProgressFormat,
};
use openusage_cli::plugin_engine::runtime::{
    begin_discovery, begin_provider, finish_discovery, load_plugin_override, override_candidates,
    resolve_plugin_override_path, result_failure_text, run_failure_output, single_account_output,
    DiscoveryCall, DiscoveryStep, ProbeObject, ProbeOutcome, ProviderStart, ProviderStep,
    ResultFailure, RunFailure,
};

fn path(text: &str) -> LexicalPath {
    LexicalPath::parse(text)
}

fn test_plugin() -> LoadedPlugin {
    LoadedPlugin {
        manifest: PluginManifest {
            schema_version: 1,
            id: "test".to_string(),
            name: "Test".to_string(),
            version: "0.0.0".to_string(),
            entry: "plugin.js".to_string(),
            icon: "icon.svg".to_string(),
            brand_color: None,
            lines: vec![],
            links: vec![],
        },
        plugin_dir: path("."),
        entry_script: String::new(),
        icon_data_url: "data:image/svg+xml;base64,".to_string(),
    }
}

fn error_text(output: &PluginOutput) -> String {
    match output.lines.first() {
        Some(MetricLine::Badge { text, .. }) => text.clone(),
        other => panic!("expected error badge, got {:?}", other),
    }
}

fn text(value: &str) -> Slot {
    Slot::Value(JsValue::Text(value.to_string()))
}

fn absent() -> Slot {
    Slot::Value(JsValue::Undefined)
}

fn number(value: f64) -> Number {
    Number { bits: value.to_bits(), text: format!("{}", value) }
}

fn num(value: f64) -> Slot {
    Slot::Value(JsValue::Number(number(value)))
}

fn line() -> LineObject {
    LineObject {
        line_type: absent(),
        label: absent(),
        color: absent(),
        subtitle: absent(),
        value: absent(),
        text: absent(),
        used: absent(),
        limit: absent(),
        format: None,
        resets_at: absent(),
        period_duration_ms: absent(),
    }
}

fn text_line(label: &str, value: &str) -> LineObject {
    LineObject { line_type: text("text"), label: text(label), value: text(value), ..line() }
}

fn percent_line(used: f64, limit: f64) -> LineObject {
    LineObject {
        line_type: text("progress"),
        label: text("Session"),
        used: num(used),
        limit: num(limit),
        format: Some(FormatObject { kind: text("percent"), suffix: absent() }),
        ..line()
    }
}

fn returned(lines: Vec<LineObject>) -> ProbeOutcome {
    ProbeOutcome::Returned(ProbeObject {
        plan: absent(),
        lines: Some(lines.into_iter().map(Some).collect()),
    })
}

fn ok_outcome() -> ProbeOutcome {
    returned(vec![text_line("Status", "ok")])
}

fn account() -> AccountObject {
    AccountObject {
        id: absent(),
        name: absent(),
        origin: absent(),
        is_active: absent(),
        origin_namespace: absent(),
        stable_subject_key: absent(),
        source_ref: absent(),
        error_policy: absent(),
    }
}

fn named(id: &str) -> AccountElement {
    AccountElement::Object(AccountObject { id: text(id), ..account() })
}

/// What a plugin reports whose discovery gave `call` and whose probe answers by account.
fn discover<F: Fn(&AccountRef) -> ProbeOutcome>(call: DiscoveryCall, probe: F) -> Vec<PluginOutput> {
    let plugin = test_plugin();
    match begin_discovery(&plugin, &call) {
        DiscoveryStep::Done(outputs) => outputs,
        DiscoveryStep::Probe(plans) => {
            let outcomes: Vec<ProbeOutcome> = plans.iter().map(|plan| probe(&plan.probe)).collect();
            finish_discovery(&plugin, &plans, &outcomes)
        }
    }
}

fn discover_accounts(elements: Vec<AccountElement>) -> Vec<PluginOutput> {
    discover(DiscoveryCall::Accounts(elements), |account| {
        returned(vec![text_line("Account", account.id.as_str())])
    })
}

fn start(discover: Slot) -> ProviderStart {
    ProviderStart { failure: None, has_plugin: true, has_probe: true, discover }
}

#[test]
fn run_probe_returns_thrown_string_from_sync_error() {
    let reason = extract_error_string(&Caught::Text("boom".to_string()));
    let output = single_account_output(&test_plugin(), &ProbeOutcome::Failed(reason));
    assert_eq!(error_text(&output), "boom");
}

#[test]
fn run_probe_returns_thrown_string_from_async_error() {
    let reason = extract_error_string(&Caught::Text("boom".to_string()));
    let reason = result_failure_text(&ResultFailure::Rejected(reason));
    let output = single_account_output(&test_plugin(), &ProbeOutcome::Failed(reason));
    assert_eq!(error_text(&output), "boom");
}

#[test]
fn thrown_objects_tell_their_message() {
    let thrown = |name: &str, message: &str| {
        extract_error_string(&Caught::Object {
            name: text(name),
            message: text(message),
            stack: absent(),
        })
    };
    assert_eq!(thrown("TypeError", " it broke "), "it broke");
    assert_eq!(
        extract_error_string(&Caught::Nothing),
        "The plugin failed, try again or contact plugin author."
    );
    assert_eq!(
        extract_error_string(&Caught::Text("  ".to_string())),
        "The plugin failed, try again or contact plugin author."
    );
    assert_eq!(result_failure_text(&ResultFailure::Unresolved), "returned unresolved promise");
    assert_eq!(result_failure_text(&ResultFailure::InvalidPromise), "returned invalid promise");
    assert_eq!(result_failure_text(&ResultFailure::NonObject), "returned non-object");
}

#[test]
fn plugin_output_success_has_default_account() {
    let output = single_account_output(&test_plugin(), &ok_outcome());
    assert_eq!(output.account, AccountRef::default_account());
}

#[test]
fn plugin_output_error_has_default_account() {
    let output =
        single_account_output(&test_plugin(), &ProbeOutcome::Failed("boom".to_string()));
    assert_eq!(output.account, AccountRef::default_account());
}

#[test]
fn error_output_has_default_account() {
    let output = error_output(&test_plugin(), "test error".to_string());
    assert_eq!(output.account, AccountRef::default_account());
}

#[test]
fn probe_result_account_ignored_in_single_account_mode() {
    let output = single_account_output(&test_plugin(), &ok_outcome());
    assert_eq!(output.account, AccountRef::default_account());
    assert_eq!(output.lines.len(), 1);
    match &output.lines[0] {
        MetricLine::Text { label, value, .. } => {
            assert_eq!(label, "Status");
            assert_eq!(value, "ok");
        }
        other => panic!("expected text line, got {:?}", other),
    }
}

#[test]
fn single_account_probe_without_discover_accounts_has_default_account() {
    assert!(matches!(begin_provider(&test_plugin(), &start(absent())), ProviderStep::Single));
    let output = single_account_output(&test_plugin(), &ok_outcome());
    assert_eq!(output.account, AccountRef::default_account());
}

#[test]
fn discovery_two_accounts_ordered_distinct_contexts() {
    let outputs = discover_accounts(vec![named("work"), named("personal")]);
    assert_eq!(outputs.len(), 2);
    assert_eq!(outputs[0].account.id, "work");
    assert_eq!(outputs[1].account.id, "personal");
}

#[test]
fn discovery_host_authoritative_identity() {
    let outputs = discover(
        DiscoveryCall::Accounts(vec![named("work"), named("personal")]),
        |_| ok_outcome(),
    );
    assert_eq!(outputs.len(), 2);
    assert_eq!(outputs[0].account.id, "work");
    assert_eq!(outputs[1].account.id, "personal");
    assert!(outputs[1].lines[0].display().contains("ok"));
}

#[test]
fn discovery_async_supported() {
    let outputs = discover_accounts(vec![named("async-acc")]);
    assert_eq!(outputs.len(), 1);
    assert_eq!(outputs[0].account.id, "async-acc");
}

#[test]
fn discovery_empty_list_produces_zero_outputs() {
    assert!(
        discover_accounts(vec![]).is_empty(),
        "empty discovery should produce zero outputs"
    );
}

#[test]
fn discovery_non_array_returns_error() {
    let reason = result_failure_text(&ResultFailure::NonObject);
    let outputs = discover(DiscoveryCall::Failed(reason), |_| ok_outcome());
    assert_eq!(outputs.len(), 1);
    assert_eq!(outputs[0].account, AccountRef::default_account());
    assert!(error_text(&outputs[0]).contains("returned non-object"));
    let outputs = discover(DiscoveryCall::NotArray, |_| ok_outcome());
    assert_eq!(error_text(&outputs[0]), "discoverAccounts must return an array");
}

#[test]
fn discovery_missing_id_returns_error() {
    let outputs = discover_accounts(vec![AccountElement::Object(account())]);
    assert_eq!(outputs.len(), 1);
    assert_eq!(outputs[0].account, AccountRef::default_account());
    assert!(error_text(&outputs[0]).contains("missing id"));
}

#[test]
fn discovery_empty_id_returns_error() {
    let outputs = discover_accounts(vec![named("")]);
    assert_eq!(outputs.len(), 1);
    assert_eq!(outputs[0].account, AccountRef::default_account());
    assert!(error_text(&outputs[0]).contains("empty id"));
}

#[test]
fn discovery_empty_origin_returns_error() {
    let outputs = discover_accounts(vec![AccountElement::Object(AccountObject {
        id: text("x"),
        origin: text(""),
        ..account()
    })]);
    assert_eq!(outputs.len(), 1);
    assert_eq!(outputs[0].account, AccountRef::default_account());
    assert!(error_text(&outputs[0]).contains("empty origin"));
}

#[test]
fn discovery_duplicate_ids_returns_error() {
    let outputs = discover_accounts(vec![named("dup"), named("dup")]);
    assert_eq!(outputs.len(), 1);
    assert_eq!(outputs[0].account, AccountRef::default_account());
    assert!(error_text(&outputs[0]).contains("duplicate output account id"));
}

#[test]
fn discovery_duplicate_probe_ids_with_names_have_stable_unique_output_ids() {
    let described = |namespace: &str, source: &str, subject: &str, name: &str| {
        AccountElement::Object(AccountObject {
            id: text("opencode-0"),
            origin: text("opencode"),
            origin_namespace: text(namespace),
            source_ref: text(source),
            stable_subject_key: text(subject),
            name: text(name),
            ..account()
        })
    };
    let outputs = discover_accounts(vec![
        described("vendor.codex", "vendor:path-a", "u-1", "Primary"),
        described("override.codex", "override:path-b", "u-2", "Secondary"),
    ]);
    assert_eq!(outputs.len(), 2);
    assert_ne!(outputs[0].account.id, outputs[1].account.id);
    for output in &outputs {
        assert!(output.account.id.starts_with("acc_v1_"));
        assert_eq!(output.account.id.len(), "acc_v1_".len() + 24);
        assert_eq!(output.account.origin, "opencode");
        assert!(output.account.name.is_some());
        assert_eq!(output.lines[0].display(), "Account: opencode-0");
    }
}

#[test]
fn account_identities_depend_on_where_the_account_comes_from() {
    let descriptor = |probe_id: &str, origin: &str, source: &str| DiscoveryDescriptor {
        probe_id: probe_id.to_string(),
        origin: origin.to_string(),
        is_active: true,
        name: None,
        origin_namespace: "default".to_string(),
        stable_subject_key: None,
        source_ref: Some(source.to_string()),
        error_policy: ErrorPolicy::Report,
    };
    assert_eq!(
        canonical_discovery_account_id("test", &descriptor("default", "native", "a")),
        "default"
    );
    let a = canonical_discovery_account_id("test", &descriptor("x", "opencode", "a"));
    let b = canonical_discovery_account_id("test", &descriptor("x", "opencode", "b"));
    let again = canonical_discovery_account_id("test", &descriptor("x", "opencode", "a"));
    assert_ne!(a, b);
    assert_eq!(a, again);
}

#[test]
fn discovery_name_defaults_to_absent_and_rejects_empty() {
    let ok = discover_accounts(vec![AccountElement::Object(AccountObject {
        id: text("named"),
        name: text("Team A"),
        ..account()
    })]);
    assert_eq!(ok.len(), 1);
    assert_eq!(ok[0].account.id, "named");
    assert_eq!(ok[0].account.name.as_deref(), Some("Team A"));

    let bad = discover_accounts(vec![AccountElement::Object(AccountObject {
        id: text("bad"),
        name: text(""),
        ..account()
    })]);
    assert_eq!(bad.len(), 1);
    assert!(error_text(&bad[0]).contains("empty name"));
}

#[test]
fn discovery_complains_of_each_kind_of_mistake() {
    let complaint = |element: AccountElement| error_text(&discover_accounts(vec![element])[0]);
    let with = |change: fn(&mut AccountObject)| {
        let mut object = AccountObject { id: text("x"), ..account() };
        change(&mut object);
        AccountElement::Object(object)
    };
    assert_eq!(
        complaint(AccountElement::Threw),
        "discoverAccounts: invalid element at index 0"
    );
    assert_eq!(
        complaint(AccountElement::NotObject),
        "discoverAccounts: element at index 0 must be an object"
    );
    assert_eq!(
        complaint(with(|o| o.is_active = text("yes"))),
        "discoverAccounts: element at index 0 has non-boolean isActive"
    );
    assert_eq!(
        complaint(with(|o| o.is_active = Slot::Threw)),
        "discoverAccounts: element at index 0 has invalid isActive (accessor threw)"
    );
    assert_eq!(
        complaint(with(|o| o.name = num(1.0))),
        "discoverAccounts: element at index 0 has non-string name"
    );
    assert_eq!(
        complaint(with(|o| o.source_ref = Slot::Threw)),
        "discoverAccounts: element at index 0 has invalid sourceRef (accessor threw)"
    );
    assert_eq!(
        complaint(with(|o| o.error_policy = text("hide"))),
        "discoverAccounts: element at index 0 has invalid errorPolicy 'hide'"
    );
}

#[test]
fn discovery_limit_exceeded_returns_error() {
    let outputs = discover_accounts((0..33).map(|i| named(&format!("a{}", i))).collect());
    assert_eq!(outputs.len(), 1);
    assert_eq!(outputs[0].account, AccountRef::default_account());
    assert!(error_text(&outputs[0]).contains("max 32"));
}

#[test]
fn discovery_32_accounts_is_valid() {
    let outputs = discover_accounts((0..32).map(|i| named(&format!("acc{}", i))).collect());
    assert_eq!(outputs.len(), 32);
    for (i, output) in outputs.iter().enumerate() {
        assert_eq!(output.account.id, format!("acc{}", i));
    }
}

#[test]
fn discovery_exception_returns_error() {
    let reason = extract_error_string(&Caught::Text("discovery-boom".to_string()));
    let outputs = discover(DiscoveryCall::Failed(reason), |_| ok_outcome());
    assert_eq!(outputs.len(), 1);
    assert_eq!(outputs[0].account, AccountRef::default_account());
    assert!(error_text(&outputs[0]).contains("discovery-boom"));
}

#[test]
fn discovery_rejected_async_produces_provider_error() {
    let reason = extract_error_string(&Caught::Text("async-discovery-boom".to_string()));
    let reason = result_failure_text(&ResultFailure::Rejected(reason));
    let outputs = discover(DiscoveryCall::Failed(reason), |_| ok_outcome());
    assert_eq!(outputs.len(), 1);
    assert_eq!(outputs[0].account, AccountRef::default_account());
    assert!(error_text(&outputs[0]).contains("async-discovery-boom"));
}

fn failed_start(start: ProviderStart) -> PluginOutput {
    match begin_provider(&test_plugin(), &start) {
        ProviderStep::Failed(output) => output,
        other => panic!("expected a failure, got {:?}", other),
    }
}

#[test]
fn discovery_non_function_error() {
    let output = failed_start(start(text("not-a-function")));
    assert_eq!(output.account, AccountRef::default_account());
    assert!(error_text(&output).contains("must be a function"));
}

#[test]
fn discover_accounts_getter_exception_produces_error() {
    let output = failed_start(start(Slot::Threw));
    assert_eq!(output.account, AccountRef::default_account());
    assert!(error_text(&output).contains("accessor threw"));
}

#[test]
fn accounts_are_asked_for_where_there_is_a_function() {
    for absent in [JsValue::Null, JsValue::Undefined] {
        let step = begin_provider(&test_plugin(), &start(Slot::Value(absent)));
        assert!(matches!(step, ProviderStep::Single));
    }
    let step = begin_provider(&test_plugin(), &start(Slot::Value(JsValue::Function)));
    assert!(matches!(step, ProviderStep::Discover));
}

#[test]
fn plugins_without_their_parts_are_reported() {
    let no_plugin =
        ProviderStart { failure: None, has_plugin: false, has_probe: false, discover: absent() };
    let no_probe =
        ProviderStart { failure: None, has_plugin: true, has_probe: false, discover: absent() };
    assert!(has_error_line(&failed_start(no_plugin)));
    assert!(has_error_line(&failed_start(no_probe)));
    assert_eq!(
        error_text(&run_failure_output(&test_plugin(), &RunFailure::Override("x".to_string()))),
        "plugin override failed: x"
    );
    assert_eq!(
        error_text(&run_failure_output(&test_plugin(), &RunFailure::Runtime)),
        "runtime error"
    );
}

#[test]
fn discovery_one_account_failure_does_not_suppress_another() {
    let outputs = discover(
        DiscoveryCall::Accounts(vec![named("good"), named("broken"), named("also-good")]),
        |account| {
            if account.id == "broken" {
                ProbeOutcome::Failed("broken-account-boom".to_string())
            } else {
                ok_outcome()
            }
        },
    );
    assert_eq!(outputs.len(), 3);
    assert_eq!(outputs[0].account.id, "good");
    assert!(outputs[0].lines[0].display().contains("ok"));
    assert_eq!(outputs[1].account.id, "broken");
    assert!(outputs[1].lines[0].display().contains("broken-account-boom"));
    assert_eq!(outputs[2].account.id, "also-good");
    assert!(outputs[2].lines[0].display().contains("ok"));
}

#[test]
fn discovery_account_context_handles_special_characters() {
    let outputs = discover_accounts(vec![named("it's \"quoted\"")]);
    assert_eq!(outputs.len(), 1);
    assert_eq!(outputs[0].account.id, "it's \"quoted\"");
}

#[test]
fn probe_result_account_never_read_in_discovery_mode() {
    let outputs = discover_accounts(vec![named("work")]);
    assert_eq!(outputs.len(), 1);
    assert_eq!(outputs[0].account.id, "work");
    assert!(outputs[0].lines[0].display().contains("work"));
}

#[test]
fn discovery_async_sequential_probes_preserve_order_and_state() {
    let outputs = discover(
        DiscoveryCall::Accounts(vec![named("first"), named("second")]),
        |account| {
            returned(vec![
                text_line("Account", &account.id),
                text_line("Data", &format!("state-for-{}", account.id)),
            ])
        },
    );
    assert_eq!(outputs.len(), 2);
    assert_eq!(outputs[0].account.id, "first");
    assert_eq!(outputs[1].account.id, "second");
    assert_eq!(outputs[0].lines[1].display(), "Data: state-for-first");
    assert_eq!(outputs[1].lines[1].display(), "Data: state-for-second");
}

#[test]
fn soft_fail_hides_default_error_only_when_opencode_also_errors() {
    let outputs = discover(
        DiscoveryCall::Accounts(vec![
            AccountElement::Object(AccountObject {
                id: text("default"),
                origin: text("native"),
                error_policy: text("hide-if-other-account"),
                ..account()
            }),
            AccountElement::Object(AccountObject {
                id: text("opencode-0"),
                origin: text("opencode"),
                ..account()
            }),
        ]),
        |account| {
            if account.id == "opencode-0" {
                ProbeOutcome::Failed("opencode error detail".to_string())
            } else {
                ProbeOutcome::Failed("default error detail".to_string())
            }
        },
    );
    assert_eq!(outputs.len(), 1, "expected only opencode error output");
    assert_eq!(outputs[0].account.id, "opencode-0");
    assert_eq!(outputs[0].account.origin, "opencode");
    assert!(error_text(&outputs[0]).contains("opencode error detail"));
}

#[test]
fn soft_failures_of_a_sole_account_are_shown_and_successes_always() {
    let soft = || {
        AccountElement::Object(AccountObject {
            id: text("default"),
            error_policy: text("hide-if-other-account"),
            ..account()
        })
    };
    let alone = discover(DiscoveryCall::Accounts(vec![soft()]), |_| {
        ProbeOutcome::Failed("no".to_string())
    });
    assert_eq!(alone.len(), 1);
    let fine = discover(DiscoveryCall::Accounts(vec![soft(), named("b")]), |_| ok_outcome());
    assert_eq!(fine.len(), 2);
}

#[test]
fn lines_are_read_by_their_kind() {
    let badge = LineObject {
        line_type: text("badge"),
        label: text("L"),
        text: text("T"),
        color: text("#fff"),
        ..line()
    };
    assert_eq!(
        parse_line(&badge, 0),
        MetricLine::Badge {
            label: "L".to_string(),
            text: "T".to_string(),
            color: Some("#fff".to_string()),
            subtitle: None,
        }
    );
    let progress = LineObject {
        resets_at: text(" 2099-01-01T00:00:00.000Z "),
        period_duration_ms: num(3600000.7),
        ..percent_line(1.0, 100.0)
    };
    assert_eq!(
        parse_line(&progress, 0),
        MetricLine::Progress {
            label: "Session".to_string(),
            used: number(1.0),
            limit: number(100.0),
            format: ProgressFormat::Percent,
            resets_at: Some("2099-01-01T00:00:00.000Z".to_string()),
            period_duration_ms: Some(3600000),
            color: None,
        }
    );
    let complaint = |line: &LineObject| parse_line(line, 3).display();
    assert!(complaint(&percent_line(1.0, 50.0))
        .contains("progress line at index 3: percent format requires limit=100 (got 50)"));
    assert!(complaint(&percent_line(-1.0, 100.0)).contains("index 3"));
    assert!(complaint(&percent_line(1.0, 0.0)).contains("index 3"));
    assert!(complaint(&percent_line(f64::NAN, 100.0)).contains("index 3"));
    assert!(complaint(&LineObject { line_type: text("graph"), ..line() }).contains("graph"));
}

#[test]
fn counts_need_a_suffix() {
    let with = |suffix: Slot| LineObject {
        line_type: text("progress"),
        label: text("Requests"),
        used: num(3.0),
        limit: num(10.0),
        format: Some(FormatObject { kind: text("count"), suffix }),
        ..line()
    };
    match parse_line(&with(text(" requests ")), 0) {
        MetricLine::Progress { format: ProgressFormat::Count { suffix }, .. } => {
            assert_eq!(suffix, "requests");
        }
        other => panic!("expected a count, got {:?}", other),
    }
    assert!(parse_line(&with(text(" ")), 0)
        .display()
        .contains("progress line at index 0: count format suffix must be non-empty"));
    assert!(parse_line(&with(num(1.0)), 0)
        .display()
        .contains("count format suffix must be a string"));
    assert!(parse_line(&with(Slot::Threw), 0).display().contains("count format missing suffix"));
}

#[test]
fn reset_times_without_a_zone_are_taken_as_utc() {
    assert!(is_missing_zone("2099-01-01T00:00:00"));
    assert!(!is_missing_zone("2099-01-01T00:00:00Z"));
    assert!(!is_missing_zone("2099-01-01T00:00:00+01:00"));
    assert!(!is_missing_zone("2099-01-01"));
    assert_eq!(
        choose_reset("2099-01-01T00:00:00", false, true).as_deref(),
        Some("2099-01-01T00:00:00Z")
    );
    assert_eq!(choose_reset("", true, true), None);
    let reset = |value: &str| match parse_line(
        &LineObject { resets_at: text(value), ..percent_line(1.0, 100.0) },
        0,
    ) {
        MetricLine::Progress { resets_at, .. } => resets_at,
        other => panic!("expected progress, got {:?}", other),
    };
    assert_eq!(reset("2099-01-01T00:00:00").as_deref(), Some("2099-01-01T00:00:00Z"));
    assert_eq!(reset("2099-01-01T00:00:00+02:00").as_deref(), Some("2099-01-01T00:00:00+02:00"));
    assert_eq!(reset("soon"), None);
    assert_eq!(reset(""), None);
}

#[test]
fn lists_of_lines_are_read_in_order() {
    let lines =
        parse_lines(&Some(vec![Some(text_line("A", "1")), Some(text_line("B", "2"))])).expect("ok");
    assert_eq!(lines.len(), 2);
    assert_eq!(lines[1].display(), "B: 2");
    assert_eq!(parse_lines(&None), Err("missing lines".to_string()));
    assert!(parse_lines(&Some(vec![None])).is_err());
    let empty = single_account_output(&test_plugin(), &returned(vec![]));
    assert!(has_error_line(&empty));
}

#[test]
fn overrides_are_found_by_the_name_of_the_plugin() {
    let dir = path("/o");
    assert_eq!(
        override_candidates(&dir, "codex"),
        vec![path("/o/codex.js"), path("/o/codex.override.js"), path("/o/codex/override.js")]
    );
    assert!(override_candidates(&dir, "../x").is_empty());
    assert_eq!(
        resolve_plugin_override_path(&dir, "codex", &vec![false, true, true]),
        Some(path("/o/codex.override.js"))
    );
    assert_eq!(resolve_plugin_override_path(&dir, "codex", &vec![false, false, false]), None);
    assert_eq!(load_plugin_override(&path("/o/x.js"), Ok("  \n".to_string())), Ok(None));
    assert_eq!(
        load_plugin_override(&path("/o/x.js"), Ok("1;".to_string())),
        Ok(Some("1;".to_string()))
    );
    assert_eq!(
        load_plugin_override(&path("/o/x.js"), Err("denied".to_string())),
        Err("failed to read /o/x.js: denied".to_string())
    );
}
