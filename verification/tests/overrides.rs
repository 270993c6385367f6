use openusage_cli::plugin_engine::js_value::{Caught, JsValue, Number, Slot};
use openusage_cli::plugin_engine::override_lifecycle::{
    apply_function_overrides, install_failure, lifecycle_failure, lifecycle_plan, promise_failure,
    stage_of, InstallFailure, JsError, LifecycleAction, LifecycleStage, OverrideEntry,
    OverrideLifecycleError, OverrideManifest, PromiseFailure,
};
use openusage_cli::plugin_engine::runtime::{lifecycle_error_message, override_bootstrap_script};
use openusage_cli::plugin_engine::script_patch::{
    begin_transform, build_wrapper_snippet, extract_patch_specs, finish_transform,
    make_internal_original_name, FunctionPatchSpec, PatchMode, PatchTable, TransformStep,
};

fn text(value: &str) -> Slot {
    Slot::Value(JsValue::Text(value.to_string()))
}

fn absent() -> Slot {
    Slot::Value(JsValue::Undefined)
}

fn entry(target: Slot, mode: Slot, with: Slot, function: Slot) -> OverrideManifest {
    OverrideManifest::Functions(vec![OverrideEntry::Object { target, mode, with, function }])
}

fn function() -> Slot {
    Slot::Value(JsValue::Function)
}

fn manifest_error(manifest: OverrideManifest) -> JsError {
    let error = apply_function_overrides(&manifest).expect_err("lifecycle should fail");
    match lifecycle_failure(LifecycleAction::ApplyFunctionOverrides, error) {
        OverrideLifecycleError::OverrideManifest(js_err) => js_err,
        other => panic!("expected OverrideManifest error, got: {:?}", other),
    }
}

#[test]
fn resolve_rejected_string_returns_js_error() {
    let err = promise_failure(
        LifecycleStage::Execution,
        &PromiseFailure::Rejected(Caught::Text("custom rejection".to_string())),
    );
    assert_eq!(err.message, "custom rejection");
    assert_eq!(err.error_name, None);
}

#[test]
fn resolve_rejected_error_object_includes_details() {
    let err = promise_failure(
        LifecycleStage::Execution,
        &PromiseFailure::Rejected(Caught::Object {
            name: text("TypeError"),
            message: text("detailed failure"),
            stack: text("at <anonymous>"),
        }),
    );
    assert_eq!(err.message, "detailed failure");
    assert_eq!(err.error_name.as_deref(), Some("TypeError"));
    assert!(err.stack.is_some(), "rejected Error object should carry a stack trace");
    assert_eq!(err.display(), "[execution] TypeError: detailed failure");
}

#[test]
fn resolve_unresolved_promise_returns_would_block_error() {
    let err = promise_failure(LifecycleStage::Execution, &PromiseFailure::Unresolved);
    assert!(err.message.contains("unresolved"));
    let err = promise_failure(LifecycleStage::Execution, &PromiseFailure::Invalid);
    assert_eq!(err.display(), "[execution] returned invalid promise");
}

#[test]
fn exceptions_without_details_are_unknown() {
    for caught in [
        Caught::Nothing,
        Caught::Text(String::new()),
        Caught::BrokenText,
        Caught::Object { name: absent(), message: absent(), stack: text("at <anonymous>") },
        Caught::Object { name: text(""), message: text(""), stack: absent() },
        Caught::Other,
    ] {
        assert_eq!(
            JsError::from_caught(LifecycleStage::PluginEval, &caught),
            JsError::new(LifecycleStage::PluginEval, "unknown error")
        );
    }
}

#[test]
fn valid_manifest_names_its_function() {
    let names = apply_function_overrides(&entry(
        text("discoverAccounts"),
        text("replace"),
        text("myDiscover"),
        function(),
    ))
    .expect("lifecycle should succeed");
    assert_eq!(names, vec!["myDiscover".to_string()]);
}

#[test]
fn without_manifest_nothing_is_replaced() {
    let names = apply_function_overrides(&OverrideManifest::Absent).expect("no manifest");
    assert!(names.is_empty());
}

#[test]
fn unknown_target_fails_visibly() {
    let js_err =
        manifest_error(entry(text("probe"), text("replace"), text("myFn"), function()));
    assert!(js_err.message.contains("not allowed"));
    assert_eq!(js_err.stage, LifecycleStage::OverrideManifest);
}

#[test]
fn unknown_mode_fails_visibly() {
    let js_err =
        manifest_error(entry(text("discoverAccounts"), text("wrap"), text("myFn"), function()));
    assert!(js_err.message.contains("not allowed"));
}

#[test]
fn missing_with_fails_visibly() {
    let js_err =
        manifest_error(entry(text("discoverAccounts"), text("replace"), absent(), absent()));
    assert!(js_err.message.contains("with"));
}

#[test]
fn nonexistent_with_function_fails_visibly() {
    let js_err = manifest_error(entry(
        text("discoverAccounts"),
        text("replace"),
        text("nonExistentFn"),
        absent(),
    ));
    assert!(js_err.message.contains("not found"));
}

#[test]
fn non_callable_with_fails_visibly() {
    let js_err = manifest_error(entry(
        text("discoverAccounts"),
        text("replace"),
        text("notAFn"),
        text("i am a string, not a function"),
    ));
    assert!(js_err.message.contains("not a function"));
}

#[test]
fn manifest_not_an_object_fails_visibly() {
    let js_err = manifest_error(OverrideManifest::NotObject);
    assert!(js_err.message.contains("must be an object"));
}

#[test]
fn functions_not_an_array_fails_visibly() {
    let js_err = manifest_error(OverrideManifest::FunctionsNotArray);
    assert!(js_err.message.contains("must be an array"));
}

#[test]
fn first_mistake_of_a_manifest_is_named() {
    let number = Slot::Value(JsValue::Number(Number { bits: 0, text: "0".to_string() }));
    let js_err = manifest_error(OverrideManifest::Functions(vec![
        OverrideEntry::Object {
            target: text("discoverAccounts"),
            mode: text("replace"),
            with: text("f"),
            function: function(),
        },
        OverrideEntry::Object { target: number, mode: absent(), with: absent(), function: absent() },
        OverrideEntry::NotObject,
    ]));
    assert_eq!(js_err.message, "functions[1].target is required");
    assert_eq!(
        manifest_error(OverrideManifest::Functions(vec![OverrideEntry::Threw])).message,
        "functions[0] is invalid"
    );
    assert_eq!(
        manifest_error(OverrideManifest::Functions(vec![OverrideEntry::NotObject])).message,
        "functions[0] must be an object"
    );
    assert_eq!(
        manifest_error(OverrideManifest::FunctionsUnreadable).message,
        "__openusage_function_overrides missing 'functions' field"
    );
    assert_eq!(
        manifest_error(entry(text("discoverAccounts"), absent(), absent(), absent())).message,
        "functions[0].mode is required"
    );
}

#[test]
fn lifecycle_has_its_steps_in_order() {
    assert_eq!(
        lifecycle_plan(false, false, false),
        vec![LifecycleAction::Transform, LifecycleAction::EvalPlugin]
    );
    assert_eq!(
        lifecycle_plan(true, true, true),
        vec![
            LifecycleAction::RunBeforeHook,
            LifecycleAction::Transform,
            LifecycleAction::EvalPlugin,
            LifecycleAction::InjectOverrideApi,
            LifecycleAction::EvalOverride,
            LifecycleAction::ApplyFunctionOverrides,
            LifecycleAction::RunAfterHook,
        ]
    );
}

#[test]
fn failures_are_told_with_what_was_being_done() {
    let cause = |stage: LifecycleStage| JsError::new(stage, "boom");
    let told = |action: LifecycleAction| {
        let stage = stage_of(action).unwrap_or(LifecycleStage::Setup);
        lifecycle_error_message(&lifecycle_failure(action, cause(stage)))
    };
    assert_eq!(told(LifecycleAction::Transform), "script transform failed: [transform] boom");
    assert_eq!(told(LifecycleAction::EvalPlugin), "script eval failed: [plugin_eval] boom");
    assert_eq!(
        told(LifecycleAction::InjectOverrideApi),
        "plugin override failed: [override_bootstrap] boom"
    );
    assert_eq!(told(LifecycleAction::RunAfterHook), "lifecycle hook error: [setup] boom");
    assert_eq!(
        install_failure(&InstallFailure::NoOverrideObject).message,
        "__openusage_override not found"
    );
    assert_eq!(
        install_failure(&InstallFailure::NoReplaceFunction).message,
        "replaceDiscoverAccounts not found on __openusage_override"
    );
    assert_eq!(
        install_failure(&InstallFailure::CallThrew(Caught::Text("x".to_string()))).message,
        "x"
    );
}

#[test]
fn override_script_names_the_plugin_as_a_json_string() {
    let script = override_bootstrap_script("it\"s");
    assert!(script.contains("\"it\\\"s\""));
    let script = override_bootstrap_script("a\\b\u{8}\t\n\u{c}\r\u{1}\u{1f}\u{7f}\u{e9}/");
    assert!(script.contains("\"a\\\\b\\b\\t\\n\\f\\r\\u0001\\u001f\u{7f}\u{e9}/\""));
}

const PATCHING_OVERRIDE: &str = r#"
globalThis.__openusage_ast_patch = {
  functions: [
    { target: "loadAuth", with: "patchLoadAuth", mode: "wrap" },
    { target: "saveAuth", with: "patchSaveAuth", mode: "wrap" }
  ]
};
function patchLoadAuth(original, ctx) { return original(ctx); }
function patchSaveAuth(original, ctx, authState) { return original(ctx, authState); }
"#;

fn patch_table(override_source: &str) -> PatchTable {
    match begin_transform("", &Some(override_source.to_string())) {
        Ok(TransformStep::Patch(table)) => table,
        other => panic!("expected patches, got {:?}", other),
    }
}

#[test]
fn transform_injects_requested_function_wrappers() {
    let mut table = patch_table(PATCHING_OVERRIDE);
    assert_eq!(table.len(), 2);
    let first = table.try_patch("loadAuth").expect("loadAuth should be renamed");
    assert_eq!(table.original_name(first), "__openusage_original_loadAuth");
    assert_eq!(table.wrapper_file_name(first), "patch-wrapper-loadAuth.js");
    assert_eq!(table.try_patch("probe"), None);
    let second = table.try_patch("saveAuth").expect("saveAuth should be renamed");
    assert_eq!(table.original_name(second), "__openusage_original_saveAuth");
    assert_eq!(table.try_patch("saveAuth"), None, "a patch is applied once");
    let transformed =
        finish_transform(&table, "patched".to_string()).expect("transform codex script");
    assert_eq!(transformed.script, "patched");
    assert_eq!(
        transformed.patched_functions,
        vec!["loadAuth".to_string(), "saveAuth".to_string()]
    );
}

#[test]
fn transform_is_noop_without_ast_manifest() {
    let source = "globalThis.__openusage_plugin = { id: \"mock\", probe: function() { return { lines: [] }; } };";
    let override_script = "globalThis.__openusage_override = { note: 'probe-only override' };";

    for given in [Some(override_script.to_string()), Some("  ".to_string()), None] {
        match begin_transform(source, &given) {
            Ok(TransformStep::Unchanged(transformed)) => {
                assert_eq!(transformed.script, source);
                assert!(transformed.patched_functions.is_empty());
            }
            other => panic!("expected no change, got {:?}", other),
        }
    }
}

#[test]
fn transform_errors_when_target_is_missing() {
    let override_script = r#"
    globalThis.__openusage_ast_patch = {
      functions: [{ target: "loadAuth", with: "patchLoadAuth", mode: "wrap" }]
    };
    function patchLoadAuth(original, ctx) { return original(ctx); }
    "#;
    let mut table = patch_table(override_script);
    assert_eq!(table.try_patch("probe"), None);
    assert_eq!(table.missing_targets(), vec!["loadAuth".to_string()]);
    let err = finish_transform(&table, String::new()).expect_err("expected missing target error");
    assert!(err.contains("loadAuth"));
}

#[test]
fn patches_are_read_from_the_script() {
    let specs = extract_patch_specs(PATCHING_OVERRIDE).expect("read").expect("patches");
    assert_eq!(specs.len(), 2);
    assert_eq!(specs[0].target, "loadAuth");
    assert_eq!(specs[0].patch_function, "patchLoadAuth");
    assert_eq!(specs[0].mode, PatchMode::Wrap);
    assert!(extract_patch_specs("var x = ;").is_err());
    assert!(extract_patch_specs("function f() {}").expect("read").is_none());
    let unknown = r#"globalThis.__openusage_ast_patch = {
      functions: [{ target: "loadAuth", with: "notThere", mode: "wrap" }]
    };"#;
    assert!(extract_patch_specs(unknown).is_err());
}

#[test]
fn wrappers_call_the_patch_with_or_without_the_original() {
    assert_eq!(make_internal_original_name("load$Auth-é9"), "__openusage_original_load$Auth__9_");
    let spec = |mode: PatchMode| FunctionPatchSpec {
        target: "f".to_string(),
        patch_function: "g".to_string(),
        mode,
    };
    let wrapped = build_wrapper_snippet(&spec(PatchMode::Wrap), "kept");
    assert!(wrapped.contains("function f(...__openusage_args)"));
    assert!(wrapped.contains("__openusage_patch_fn(kept, ...__openusage_args)"));
    let replaced = build_wrapper_snippet(&spec(PatchMode::Replace), "kept");
    assert!(replaced.contains("return __openusage_patch_fn(...__openusage_args)"));
}
