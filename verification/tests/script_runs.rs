use openusage_cli::lexical_path::LexicalPath;
use openusage_cli::plugin_engine::accounts::{AccountElement, AccountObject};
use openusage_cli::plugin_engine::js_value::{extract_error_string, Caught, JsValue, Number, Slot};
use openusage_cli::plugin_engine::lines::{FormatObject, LineObject};
use openusage_cli::plugin_engine::manifest::{LoadedPlugin, PluginManifest};
use openusage_cli::plugin_engine::output::{AccountRef, MetricLine, PluginOutput, ProbeResult};
use openusage_cli::plugin_engine::override_lifecycle::{
    apply_function_overrides, lifecycle_failure, lifecycle_plan, stage_of, JsError,
    LifecycleAction, LifecycleStage, OverrideEntry, OverrideLifecycleError, OverrideManifest,
};
use openusage_cli::plugin_engine::runtime::{
    begin_discovery, begin_provider, finish_discovery, override_bootstrap_script,
    result_failure_text, single_account_output, DiscoveryCall, DiscoveryStep, ProbeObject,
    ProbeOutcome, ProviderStart, ProviderStep, ResultFailure,
};
use openusage_cli::plugin_engine::script_patch::{
    begin_transform, finish_transform, PatchTable, TransformResult, TransformStep,
};
use rquickjs::object::Property;
use rquickjs::{Array, Context, Ctx, Error, Function, Object, Runtime, Value};
use serde_json::Value as JsonValue;
use swc_core::common::sync::Lrc;
use swc_core::common::{FileName, SourceMap};
use swc_core::ecma::ast::{BlockStmt, Decl, EsVersion, FunctionBody, Script, Stmt};
use swc_core::ecma::codegen::text_writer::JsWriter;
use swc_core::ecma::codegen::{Config as CodegenConfig, Emitter};
use swc_core::ecma::parser::lexer::Lexer;
use swc_core::ecma::parser::{Parser, StringInput, Syntax};
use swc_core::ecma::visit::{VisitMut, VisitMutWith};

fn slot(object: &Object<'_>, key: &str) -> Slot {
    match object.get::<_, Value>(key) {
        Ok(value) => Slot::Value(js_value(&value)),
        Err(_) => Slot::Threw,
    }
}

fn js_value(value: &Value<'_>) -> JsValue {
    if value.is_undefined() {
        JsValue::Undefined
    } else if value.is_null() {
        JsValue::Null
    } else if let Some(flag) = value.as_bool() {
        JsValue::Bool(flag)
    } else if let Some(number) = value.as_number() {
        JsValue::Number(Number { bits: number.to_bits(), text: number.to_string() })
    } else if let Some(text) = value.as_string() {
        text.to_string().map_or(JsValue::BrokenText, JsValue::Text)
    } else if value.is_function() {
        JsValue::Function
    } else if value.is_object() {
        JsValue::Object
    } else {
        JsValue::Other
    }
}

fn caught(ctx: &Ctx<'_>) -> Caught {
    let exception = ctx.catch();
    if exception.is_null() || exception.is_undefined() {
        return Caught::Nothing;
    }
    if let Some(text) = exception.as_string() {
        return text.to_string().map_or(Caught::BrokenText, Caught::Text);
    }
    match exception.as_object() {
        Some(object) => Caught::Object {
            name: slot(object, "name"),
            message: slot(object, "message"),
            stack: slot(object, "stack"),
        },
        None => Caught::Other,
    }
}

fn eval(ctx: &Ctx<'_>, script: &str, stage: LifecycleStage) -> Result<(), JsError> {
    ctx.eval::<(), _>(script.as_bytes()).map_err(|_| JsError::from_caught(stage, &caught(ctx)))
}

fn inject(ctx: &Ctx<'_>, plugin_id: &str) -> Result<(), JsError> {
    eval(ctx, &override_bootstrap_script(plugin_id), LifecycleStage::OverrideBootstrap)
}

fn read_manifest(ctx: &Ctx<'_>) -> OverrideManifest {
    let manifest: Value = match ctx.globals().get("__openusage_function_overrides") {
        Ok(value) => value,
        Err(_) => return OverrideManifest::Absent,
    };
    if manifest.is_null() || manifest.is_undefined() {
        return OverrideManifest::Absent;
    }
    let Some(object) = manifest.into_object() else { return OverrideManifest::NotObject };
    let Ok(functions) = object.get::<_, Value>("functions") else {
        return OverrideManifest::FunctionsUnreadable;
    };
    let Some(functions) = functions.into_array() else {
        return OverrideManifest::FunctionsNotArray;
    };
    let mut entries = Vec::new();
    for i in 0..functions.len() {
        let entry: Object = functions.get(i).expect("an object");
        let name: String = entry.get("with").expect("a name");
        entries.push(OverrideEntry::Object {
            target: slot(&entry, "target"),
            mode: slot(&entry, "mode"),
            with: slot(&entry, "with"),
            function: slot(&ctx.globals(), &name),
        });
    }
    OverrideManifest::Functions(entries)
}

fn install_function_overrides(ctx: &Ctx<'_>) -> Result<(), JsError> {
    for name in apply_function_overrides(&read_manifest(ctx))? {
        let function: Function = ctx.globals().get(name.as_str()).expect("the function");
        let api: Object = ctx.globals().get("__openusage_override").expect("the api");
        let replace: Function = api.get("replaceDiscoverAccounts").expect("the api function");
        replace.call::<_, ()>((function,)).expect("replacing");
    }
    Ok(())
}

fn run_lifecycle(
    ctx: &Ctx<'_>,
    plugin_id: &str,
    plugin_source: &str,
    override_source: Option<&str>,
) -> Result<(), OverrideLifecycleError> {
    let mut script = plugin_source.to_string();
    for action in lifecycle_plan(false, override_source.is_some(), false) {
        let stage = stage_of(action).unwrap_or(LifecycleStage::Execution);
        let done = match action {
            LifecycleAction::Transform => {
                match transform_plugin_script(plugin_source, override_source) {
                    Ok(transformed) => {
                        script = transformed.script;
                        Ok(())
                    }
                    Err(message) => Err(JsError::new(stage, &message)),
                }
            }
            LifecycleAction::EvalPlugin => eval(ctx, &script, stage),
            LifecycleAction::InjectOverrideApi => inject(ctx, plugin_id),
            LifecycleAction::EvalOverride => eval(ctx, override_source.unwrap_or(""), stage),
            LifecycleAction::ApplyFunctionOverrides => install_function_overrides(ctx),
            LifecycleAction::RunBeforeHook | LifecycleAction::RunAfterHook => Ok(()),
        };
        done.map_err(|cause| lifecycle_failure(action, cause))?;
    }
    Ok(())
}

fn run_with_manifest_override(
    plugin: &str,
    override_js: &str,
) -> Result<(), OverrideLifecycleError> {
    let rt = Runtime::new().expect("runtime");
    let ctx = Context::full(&rt).expect("context");
    ctx.with(|ctx| run_lifecycle(&ctx, "test-plugin", plugin, Some(override_js)))
}

fn resolve<'js>(ctx: &Ctx<'js>, value: Value<'js>) -> Result<Object<'js>, String> {
    let failure = if value.is_promise() {
        match value.into_promise().expect("a promise").finish::<Object>() {
            Ok(object) => return Ok(object),
            Err(Error::WouldBlock) => ResultFailure::Unresolved,
            Err(_) => ResultFailure::Rejected(extract_error_string(&caught(ctx))),
        }
    } else {
        match value.into_object() {
            Some(object) => return Ok(object),
            None => ResultFailure::NonObject,
        }
    };
    Err(result_failure_text(&failure))
}

fn account_context<'js>(ctx: &Ctx<'js>, id: &str, base: &Object<'js>) -> Object<'js> {
    let account = Object::new(ctx.clone()).expect("account");
    account.prop("id", Property::from(id).enumerable()).expect("id");
    let child = Object::new(ctx.clone()).expect("child");
    child.set_prototype(Some(base)).expect("prototype");
    child.prop("account", Property::from(account).enumerable()).expect("account property");
    child
}

fn read_line(object: &Object<'_>) -> LineObject {
    LineObject {
        line_type: slot(object, "type"),
        label: slot(object, "label"),
        color: slot(object, "color"),
        subtitle: slot(object, "subtitle"),
        value: slot(object, "value"),
        text: slot(object, "text"),
        used: slot(object, "used"),
        limit: slot(object, "limit"),
        format: object.get::<_, Object>("format").ok().map(|format| FormatObject {
            kind: slot(&format, "kind"),
            suffix: slot(&format, "suffix"),
        }),
        resets_at: slot(object, "resetsAt"),
        period_duration_ms: slot(object, "periodDurationMs"),
    }
}

fn read_lines(object: &Object<'_>) -> Option<Vec<Option<LineObject>>> {
    let array: Array = object.get("lines").ok()?;
    Some(
        (0..array.len())
            .map(|i| array.get::<Object>(i).ok().map(|line| read_line(&line)))
            .collect(),
    )
}

fn probe_account<'js>(
    ctx: &Ctx<'js>,
    probe: &Function<'js>,
    base: &Object<'js>,
    account: &AccountRef,
) -> ProbeOutcome {
    let value: Value = match probe.call((account_context(ctx, &account.id, base),)) {
        Ok(value) => value,
        Err(_) => return ProbeOutcome::Failed(extract_error_string(&caught(ctx))),
    };
    match resolve(ctx, value) {
        Ok(object) => ProbeOutcome::Returned(ProbeObject {
            plan: slot(&object, "plan"),
            lines: read_lines(&object),
        }),
        Err(message) => ProbeOutcome::Failed(message),
    }
}

fn discovery_call<'js>(
    ctx: &Ctx<'js>,
    discover: &Function<'js>,
    base: &Object<'js>,
) -> DiscoveryCall {
    let value: Value = match discover.call((base.clone(),)) {
        Ok(value) => value,
        Err(_) => return DiscoveryCall::Failed(extract_error_string(&caught(ctx))),
    };
    let array = match resolve(ctx, value) {
        Ok(object) => match object.into_array() {
            Some(array) => array,
            None => return DiscoveryCall::NotArray,
        },
        Err(message) => return DiscoveryCall::Failed(message),
    };
    let elements = (0..array.len())
        .map(|i| match array.get::<Value>(i) {
            Ok(value) => match value.into_object() {
                Some(object) => AccountElement::Object(AccountObject {
                    id: slot(&object, "id"),
                    name: slot(&object, "name"),
                    origin: slot(&object, "origin"),
                    is_active: slot(&object, "isActive"),
                    origin_namespace: slot(&object, "originNamespace"),
                    stable_subject_key: slot(&object, "stableSubjectKey"),
                    source_ref: slot(&object, "sourceRef"),
                    error_policy: slot(&object, "errorPolicy"),
                }),
                None => AccountElement::NotObject,
            },
            Err(_) => AccountElement::Threw,
        })
        .collect();
    DiscoveryCall::Accounts(elements)
}

const HOST_SCRIPT: &str = r#"
    (function() {
        function line(type) {
            return function(options) { return Object.assign({ type: type }, options); };
        }
        globalThis.__openusage_ctx = {
            line: { text: line("text"), progress: line("progress"), badge: line("badge") }
        };
    })();
"#;

fn run_probe(plugin: &LoadedPlugin, override_script: Option<&str>) -> ProbeResult {
    let rt = Runtime::new().expect("runtime");
    let ctx = Context::full(&rt).expect("context");
    let outputs = ctx.with(|ctx| {
        ctx.eval::<(), _>(HOST_SCRIPT.as_bytes()).expect("host");
        outputs_in_context(&ctx, plugin, override_script)
    });
    ProbeResult { outputs, subscriptions: vec![] }
}

fn outputs_in_context(
    ctx: &Ctx<'_>,
    plugin: &LoadedPlugin,
    override_script: Option<&str>,
) -> Vec<PluginOutput> {
    let failure =
        run_lifecycle(ctx, &plugin.manifest.id, &plugin.entry_script, override_script).err();
    let base: Object = ctx.globals().get("__openusage_ctx").expect("base context");
    let object: Option<Object> = ctx.globals().get("__openusage_plugin").ok();
    let probe: Option<Function> = object.as_ref().and_then(|object| object.get("probe").ok());
    let start = ProviderStart {
        failure,
        has_plugin: object.is_some(),
        has_probe: probe.is_some(),
        discover: object.as_ref().map_or(Slot::Threw, |object| slot(object, "discoverAccounts")),
    };
    match begin_provider(plugin, &start) {
        ProviderStep::Failed(output) => vec![output],
        ProviderStep::Single => {
            let probe = probe.expect("probe");
            let outcome = probe_account(ctx, &probe, &base, &AccountRef::default_account());
            vec![single_account_output(plugin, &outcome)]
        }
        ProviderStep::Discover => {
            let probe = probe.expect("probe");
            let discover: Function =
                object.expect("plugin").get("discoverAccounts").expect("discovery");
            match begin_discovery(plugin, &discovery_call(ctx, &discover, &base)) {
                DiscoveryStep::Done(outputs) => outputs,
                DiscoveryStep::Probe(plans) => {
                    let outcomes = plans
                        .iter()
                        .map(|plan| probe_account(ctx, &probe, &base, &plan.probe))
                        .collect();
                    finish_discovery(plugin, &plans, &outcomes)
                }
            }
        }
    }
}

fn test_plugin(entry_script: &str) -> LoadedPlugin {
    LoadedPlugin {
        manifest: PluginManifest {
            schema_version: 1,
            id: "test".to_string(),
            name: "Test".to_string(),
            version: "0.0.0".to_string(),
            entry: "plugin.js".to_string(),
            icon: "icon.svg".to_string(),
            brand_color: None,
            lines: vec![],
            links: vec![],
        },
        plugin_dir: LexicalPath::parse("."),
        entry_script: entry_script.to_string(),
        icon_data_url: "data:image/svg+xml;base64,".to_string(),
    }
}

struct Injector {
    table: PatchTable,
    wrappers: Vec<Vec<Stmt>>,
}

impl Injector {
    fn patched(&mut self, statements: Vec<Stmt>) -> Vec<Stmt> {
        let mut output = Vec::new();
        for mut statement in statements {
            statement.visit_mut_with(self);
            let mut injected = Vec::new();
            if let Stmt::Decl(Decl::Fn(function)) = &mut statement {
                if let Some(i) = self.table.try_patch(function.ident.sym.as_ref()) {
                    function.ident.sym = self.table.original_name(i).into();
                    injected = self.wrappers[i].clone();
                }
            }
            output.push(statement);
            output.extend(injected);
        }
        output
    }
}

impl VisitMut for Injector {
    fn visit_mut_script(&mut self, script: &mut Script) {
        let statements = std::mem::take(&mut script.body);
        script.body = self.patched(statements);
    }

    fn visit_mut_function_body(&mut self, body: &mut FunctionBody) {
        let statements = std::mem::take(&mut body.stmts);
        body.stmts = self.patched(statements);
    }

    fn visit_mut_block_stmt(&mut self, block: &mut BlockStmt) {
        let statements = std::mem::take(&mut block.stmts);
        block.stmts = self.patched(statements);
    }
}

fn parsed(cm: &Lrc<SourceMap>, name: &str, source: &str) -> Script {
    let file = cm.new_source_file(FileName::Custom(name.to_string()).into(), source.to_string());
    let syntax = Syntax::Es(Default::default());
    let lexer = Lexer::new(syntax, EsVersion::Es2022, StringInput::from(&*file), None);
    Parser::new_from(lexer).parse_script().expect("a script")
}

fn transform_plugin_script(
    source: &str,
    override_source: Option<&str>,
) -> Result<TransformResult, String> {
    let table = match begin_transform(source, &override_source.map(|text| text.to_string()))? {
        TransformStep::Unchanged(result) => return Ok(result),
        TransformStep::Patch(table) => table,
    };
    let cm: Lrc<SourceMap> = Default::default();
    let mut script = parsed(&cm, "plugin.js", source);
    let wrappers = (0..table.len())
        .map(|i| parsed(&cm, &table.wrapper_file_name(i), &table.wrapper_source(i)).body)
        .collect();
    let mut injector = Injector { table, wrappers };
    script.visit_mut_with(&mut injector);
    let mut buffer = Vec::new();
    Emitter {
        cfg: CodegenConfig::default(),
        comments: None,
        cm: cm.clone(),
        wr: JsWriter::new(cm.clone(), "\n", &mut buffer, None),
    }
    .emit_script(&script)
    .expect("a text");
    finish_transform(&injector.table, String::from_utf8(buffer).expect("a text"))
}

fn setup_bare_plugin(ctx: &Ctx<'_>) {
    ctx.eval::<(), _>(
        r#"
        globalThis.__openusage_plugin = {
            probe: function() { return { lines: [] }; }
        };
        "#
        .as_bytes(),
    )
    .expect("setup bare plugin");
}

fn setup_with_discovery(ctx: &Ctx<'_>) {
    ctx.eval::<(), _>(
        r#"
        globalThis.__openusage_plugin = {
            probe: function() { return { lines: [] }; },
            discoverAccounts: function() { return [{ id: "default" }]; }
        };
        "#
        .as_bytes(),
    )
    .expect("setup plugin with discovery");
}

fn eval_json(ctx: &Ctx<'_>, source: &str) -> JsonValue {
    let json: String = ctx.eval(source.as_bytes()).expect("eval");
    serde_json::from_str(&json).expect("parse json")
}

fn with_override_context<F>(plugin_script: &str, override_script: &str, plugin_id: &str, f: F)
where
    F: FnOnce(&Ctx),
{
    let rt = Runtime::new().expect("runtime");
    let ctx = Context::full(&rt).expect("context");
    ctx.with(|ctx| {
        ctx.eval::<(), _>(plugin_script.as_bytes()).expect("plugin script eval");
        inject(&ctx, plugin_id).expect("override api injection");
        if !override_script.is_empty() {
            ctx.eval::<(), _>(override_script.as_bytes()).expect("override script eval");
        }
        f(&ctx);
    });
}

const TEST_CTX_SCRIPT: &str = r#"
    (function () {
      globalThis.__test_ctx = {
        line: {
          badge: function(opts) {
            return { type: "badge", label: opts.label, text: opts.text };
          }
        }
      };
    })();
"#;

const TEST_PROBE_SCRIPT: &str = r#"
    (function () {
      const result = globalThis.__openusage_plugin.probe(globalThis.__test_ctx);
      return JSON.stringify({
        plan: result.plan,
        persisted: result.lines[0].text
      });
    })();
"#;

#[test]
fn inject_sets_override_object() {
    let rt = Runtime::new().expect("runtime");
    let ctx = Context::full(&rt).expect("context");
    ctx.with(|ctx| {
        setup_bare_plugin(&ctx);
        inject(&ctx, "test-plugin").expect("inject override API");

        let globals = ctx.globals();
        let override_obj: Object = globals
            .get("__openusage_override")
            .expect("__openusage_override must exist");
        let plugin_id: String = override_obj.get("pluginId").expect("pluginId must be set");
        assert_eq!(plugin_id, "test-plugin");
    });
}

#[test]
fn inject_sets_replace_probe() {
    let rt = Runtime::new().expect("runtime");
    let ctx = Context::full(&rt).expect("context");
    ctx.with(|ctx| {
        setup_bare_plugin(&ctx);
        inject(&ctx, "test-plugin").expect("inject override API");

        let globals = ctx.globals();
        let override_obj: Object = globals
            .get("__openusage_override")
            .expect("__openusage_override must exist");
        let replace_probe: Value = override_obj
            .get("replaceProbe")
            .expect("replaceProbe must exist");
        assert!(
            replace_probe.is_function(),
            "replaceProbe must be a function"
        );
    });
}

#[test]
fn inject_sets_wrap_probe() {
    let rt = Runtime::new().expect("runtime");
    let ctx = Context::full(&rt).expect("context");
    ctx.with(|ctx| {
        setup_bare_plugin(&ctx);
        inject(&ctx, "test-plugin").expect("inject override API");

        let globals = ctx.globals();
        let override_obj: Object = globals
            .get("__openusage_override")
            .expect("__openusage_override must exist");
        let wrap_probe: Value = override_obj.get("wrapProbe").expect("wrapProbe must exist");
        assert!(wrap_probe.is_function(), "wrapProbe must be a function");
    });
}

#[test]
fn inject_sets_reset_probe() {
    let rt = Runtime::new().expect("runtime");
    let ctx = Context::full(&rt).expect("context");
    ctx.with(|ctx| {
        setup_bare_plugin(&ctx);
        inject(&ctx, "test-plugin").expect("inject override API");

        let globals = ctx.globals();
        let override_obj: Object = globals
            .get("__openusage_override")
            .expect("__openusage_override must exist");
        let reset_probe: Value = override_obj
            .get("resetProbe")
            .expect("resetProbe must exist");
        assert!(reset_probe.is_function(), "resetProbe must be a function");
    });
}

#[test]
fn inject_sets_original_probe() {
    let rt = Runtime::new().expect("runtime");
    let ctx = Context::full(&rt).expect("context");
    ctx.with(|ctx| {
        setup_bare_plugin(&ctx);
        inject(&ctx, "test-plugin").expect("inject override API");

        let globals = ctx.globals();
        let override_obj: Object = globals
            .get("__openusage_override")
            .expect("__openusage_override must exist");
        let original_probe: Value = override_obj
            .get("originalProbe")
            .expect("originalProbe must exist");
        assert!(
            original_probe.is_function(),
            "originalProbe must be a function"
        );
    });
}

#[test]
fn inject_sets_discover_accounts_helpers_when_present() {
    let rt = Runtime::new().expect("runtime");
    let ctx = Context::full(&rt).expect("context");
    ctx.with(|ctx| {
        setup_with_discovery(&ctx);
        inject(&ctx, "test-plugin").expect("inject override API");

        let globals = ctx.globals();
        let override_obj: Object = globals
            .get("__openusage_override")
            .expect("__openusage_override must exist");

        let original_da: Value = override_obj
            .get("originalDiscoverAccounts")
            .expect("originalDiscoverAccounts must exist");
        assert!(
            original_da.is_function(),
            "originalDiscoverAccounts must be a function"
        );

        let replace_da: Value = override_obj
            .get("replaceDiscoverAccounts")
            .expect("replaceDiscoverAccounts must exist");
        assert!(
            replace_da.is_function(),
            "replaceDiscoverAccounts must be a function"
        );

        let wrap_da: Value = override_obj
            .get("wrapDiscoverAccounts")
            .expect("wrapDiscoverAccounts must exist");
        assert!(
            wrap_da.is_function(),
            "wrapDiscoverAccounts must be a function"
        );

        let reset_da: Value = override_obj
            .get("resetDiscoverAccounts")
            .expect("resetDiscoverAccounts must exist");
        assert!(
            reset_da.is_function(),
            "resetDiscoverAccounts must be a function"
        );
    });
}

#[test]
fn inject_sets_discover_accounts_helpers_null_when_absent() {
    let rt = Runtime::new().expect("runtime");
    let ctx = Context::full(&rt).expect("context");
    ctx.with(|ctx| {
        setup_bare_plugin(&ctx);
        inject(&ctx, "test-plugin").expect("inject override API");

        let globals = ctx.globals();
        let override_obj: Object = globals
            .get("__openusage_override")
            .expect("__openusage_override must exist");

        let original_da: Value = override_obj
            .get("originalDiscoverAccounts")
            .expect("originalDiscoverAccounts must exist");
        assert!(
            original_da.is_null(),
            "originalDiscoverAccounts must be null when not present"
        );

        let replace_da: Value = override_obj
            .get("replaceDiscoverAccounts")
            .expect("replaceDiscoverAccounts must exist");
        assert!(
            replace_da.is_function(),
            "replaceDiscoverAccounts must be a function"
        );

        let wrap_da: Value = override_obj
            .get("wrapDiscoverAccounts")
            .expect("wrapDiscoverAccounts must exist");
        assert!(
            wrap_da.is_function(),
            "wrapDiscoverAccounts must be a function"
        );

        let reset_da: Value = override_obj
            .get("resetDiscoverAccounts")
            .expect("resetDiscoverAccounts must exist");
        assert!(
            reset_da.is_function(),
            "resetDiscoverAccounts must be a function"
        );
    });
}

#[test]
fn replace_probe_replaces_probe_function() {
    let rt = Runtime::new().expect("runtime");
    let ctx = Context::full(&rt).expect("context");
    ctx.with(|ctx| {
        setup_bare_plugin(&ctx);
        inject(&ctx, "test-plugin").expect("inject override API");

        let parsed = eval_json(
            &ctx,
            r#"
            (function() {
                var over = globalThis.__openusage_override;
                var plugin = globalThis.__openusage_plugin;
                var oldProbe = plugin.probe;
                over.replaceProbe(function(ctx, original) {
                    return { lines: [{ type: "text", label: "Replaced", value: "yes" }] };
                });
                var result = plugin.probe({});
                return JSON.stringify({
                    probeReplaced: plugin.probe !== oldProbe,
                    result: result
                });
            })();
            "#,
        );
        assert_eq!(parsed["probeReplaced"], JsonValue::Bool(true));
        assert_eq!(parsed["result"]["lines"][0]["label"], "Replaced");
    });
}

#[test]
fn wrap_probe_wraps_and_calls_original() {
    let rt = Runtime::new().expect("runtime");
    let ctx = Context::full(&rt).expect("context");
    ctx.with(|ctx| {
        setup_bare_plugin(&ctx);
        inject(&ctx, "test-plugin").expect("inject override API");

        let parsed = eval_json(
            &ctx,
            r#"
            (function() {
                var over = globalThis.__openusage_override;
                var plugin = globalThis.__openusage_plugin;
                var oldProbe = plugin.probe;
                over.wrapProbe(function(ctx, previous, original) {
                    var origResult = original(ctx);
                    origResult.lines.push({ type: "text", label: "Wrapped", value: "yes" });
                    return origResult;
                });
                var result = plugin.probe({});
                return JSON.stringify({
                    probeWrapped: plugin.probe !== oldProbe,
                    result: result
                });
            })();
            "#,
        );
        assert_eq!(parsed["probeWrapped"], JsonValue::Bool(true));
        let lines = parsed["result"]["lines"].as_array().expect("lines array");
        assert_eq!(lines.len(), 1);
        assert_eq!(lines[0]["label"], "Wrapped");
    });
}

#[test]
fn reset_probe_restores_original() {
    let rt = Runtime::new().expect("runtime");
    let ctx = Context::full(&rt).expect("context");
    ctx.with(|ctx| {
        setup_bare_plugin(&ctx);
        inject(&ctx, "test-plugin").expect("inject override API");

        let parsed = eval_json(
            &ctx,
            r#"
            (function() {
                var over = globalThis.__openusage_override;
                var plugin = globalThis.__openusage_plugin;
                var original = plugin.probe;
                over.replaceProbe(function(ctx, orig) {
                    return { lines: [{ type: "text", label: "Replaced", value: "yes" }] };
                });
                var replaced = plugin.probe;
                var restored = over.resetProbe();
                // After reset, plugin.probe should produce the same result as original
                var resetResult = plugin.probe({});
                var origResult = original({});
                return JSON.stringify({
                    originalIsFunction: typeof original === "function",
                    replacedIsDifferent: replaced !== original,
                    probeIsFunctionAfterReset: typeof plugin.probe === "function",
                    resetProducesSameResult: JSON.stringify(resetResult) === JSON.stringify(origResult)
                });
            })();
            "#,
        );
        assert_eq!(parsed["originalIsFunction"], JsonValue::Bool(true));
        assert_eq!(parsed["replacedIsDifferent"], JsonValue::Bool(true));
        assert_eq!(parsed["probeIsFunctionAfterReset"], JsonValue::Bool(true));
        assert_eq!(parsed["resetProducesSameResult"], JsonValue::Bool(true));
    });
}

#[test]
fn replace_probe_rejects_non_function() {
    let rt = Runtime::new().expect("runtime");
    let ctx = Context::full(&rt).expect("context");
    ctx.with(|ctx| {
        setup_bare_plugin(&ctx);
        inject(&ctx, "test-plugin").expect("inject override API");

        let result: String = ctx
            .eval(
                r#"
            (function() {
                try {
                    globalThis.__openusage_override.replaceProbe("not-a-function");
                    return JSON.stringify({ ok: true });
                } catch (e) {
                    return JSON.stringify({ ok: false, error: String(e) });
                }
            })();
            "#
                .as_bytes(),
            )
            .expect("eval");
        let parsed: JsonValue = serde_json::from_str(&result).expect("parse result");
        assert_eq!(parsed["ok"], JsonValue::Bool(false));
        let error = parsed["error"].as_str().unwrap_or_default();
        assert!(
            error.contains("expects a function"),
            "error should mention function requirement, got: {}",
            error
        );
    });
}

#[test]
fn wrap_probe_rejects_non_function() {
    let rt = Runtime::new().expect("runtime");
    let ctx = Context::full(&rt).expect("context");
    ctx.with(|ctx| {
        setup_bare_plugin(&ctx);
        inject(&ctx, "test-plugin").expect("inject override API");

        let result: String = ctx
            .eval(
                r#"
            (function() {
                try {
                    globalThis.__openusage_override.wrapProbe("not-a-function");
                    return JSON.stringify({ ok: true });
                } catch (e) {
                    return JSON.stringify({ ok: false, error: String(e) });
                }
            })();
            "#
                .as_bytes(),
            )
            .expect("eval");
        let parsed: JsonValue = serde_json::from_str(&result).expect("parse result");
        assert_eq!(parsed["ok"], JsonValue::Bool(false));
        let error = parsed["error"].as_str().unwrap_or_default();
        assert!(
            error.contains("expects a function"),
            "error should mention function requirement, got: {}",
            error
        );
    });
}

#[test]
fn errors_when_no_plugin_object() {
    let rt = Runtime::new().expect("runtime");
    let ctx = Context::full(&rt).expect("context");
    ctx.with(|ctx| {
        let result = inject(&ctx, "test-plugin");
        assert!(result.is_err(), "inject should fail without plugin object");
    });
}

#[test]
fn errors_when_no_probe_function() {
    let rt = Runtime::new().expect("runtime");
    let ctx = Context::full(&rt).expect("context");
    ctx.with(|ctx| {
        ctx.eval::<(), _>(
            r#"
            globalThis.__openusage_plugin = { id: "test" };
            "#
            .as_bytes(),
        )
        .expect("setup plugin without probe");
        let result = inject(&ctx, "test-plugin");
        assert!(result.is_err(), "inject should fail without probe function");
    });
}

#[test]
fn replace_discover_accounts_replaces_function() {
    let rt = Runtime::new().expect("runtime");
    let ctx = Context::full(&rt).expect("context");
    ctx.with(|ctx| {
        setup_with_discovery(&ctx);
        inject(&ctx, "test-plugin").expect("inject override API");

        let parsed = eval_json(
            &ctx,
            r#"
            (function() {
                var over = globalThis.__openusage_override;
                var plugin = globalThis.__openusage_plugin;
                over.replaceDiscoverAccounts(function(ctx, original) {
                    return [{ id: "custom-account" }];
                });
                var accounts = plugin.discoverAccounts({});
                return JSON.stringify({
                    accounts: accounts
                });
            })();
            "#,
        );
        let accounts = parsed["accounts"].as_array().expect("accounts array");
        assert_eq!(accounts.len(), 1);
        assert_eq!(accounts[0]["id"], "custom-account");
    });
}

#[test]
fn reset_discover_accounts_restores_null_when_no_original() {
    let rt = Runtime::new().expect("runtime");
    let ctx = Context::full(&rt).expect("context");
    ctx.with(|ctx| {
        setup_bare_plugin(&ctx);
        inject(&ctx, "test-plugin").expect("inject override API");

        let parsed = eval_json(
            &ctx,
            r#"
            (function() {
                var over = globalThis.__openusage_override;
                var restored = over.resetDiscoverAccounts();
                return JSON.stringify({
                    restored: restored
                });
            })();
            "#,
        );
        assert!(parsed["restored"].is_null());
    });
}

#[test]
fn inject_bootstrap_error_preserves_error_object_details() {
    // Verify that a JS Error thrown during bootstrap eval preserves
    // name, message, and stack trace in the returned JsError.
    // Use a throwing getter on probe to trigger bootstrap's
    // typeof-plugin.probe check.
    let rt = Runtime::new().expect("runtime");
    let ctx = Context::full(&rt).expect("context");
    ctx.with(|ctx| {
        ctx.eval::<(), _>(
            r#"
            globalThis.__openusage_plugin = {};
            Object.defineProperty(globalThis.__openusage_plugin, 'probe', {
                get: function() { throw new TypeError("probe access failure"); }
            });
            "#
            .as_bytes(),
        )
        .expect("setup");
        let result = inject(&ctx, "test-plugin");
        assert!(result.is_err(), "inject should fail");
        let js_err = result.unwrap_err();
        assert_eq!(
            js_err.error_name.as_deref(),
            Some("TypeError"),
            "expected TypeError name, got {:?}",
            js_err.error_name
        );
        assert!(
            js_err.message.contains("probe access failure"),
            "message should contain error text, got: {}",
            js_err.message
        );
        assert!(
            js_err.stack.is_some(),
            "stack should be present for Error object"
        );
        assert_eq!(js_err.stage, LifecycleStage::OverrideBootstrap);
    });
}

#[test]
fn inject_bootstrap_error_preserves_thrown_string() {
    // Verify that a thrown string during bootstrap preserves the
    // string as the JsError message (no error_name or stack).
    // __openusage_plugin not set -> bootstrap throws string.
    let rt = Runtime::new().expect("runtime");
    let ctx = Context::full(&rt).expect("context");
    ctx.with(|ctx| {
        let result = inject(&ctx, "test-plugin");
        assert!(result.is_err(), "inject should fail");
        let js_err = result.unwrap_err();
        assert!(
            js_err.message.contains("missing __openusage_plugin"),
            "message should contain 'missing __openusage_plugin', got: {}",
            js_err.message
        );
        assert!(
            js_err.error_name.is_none(),
            "no error_name for string throw"
        );
        assert!(js_err.stack.is_none(), "no stack for string throw");
        assert_eq!(js_err.stage, LifecycleStage::OverrideBootstrap);
    });
}

#[test]
fn run_probe_applies_plugin_override_wrapper() {
    let plugin = test_plugin(
        r#"
        globalThis.__openusage_plugin = {
            probe(ctx) {
                return {
                    lines: [ctx.line.badge({ label: "Status", text: "original" })]
                };
            }
        };
        "#,
    );

    let override_script = r#"
        if (!globalThis.__openusage_override) {
          throw "missing __openusage_override";
        }

        globalThis.__openusage_override.wrapProbe(function(ctx, currentProbe, originalProbe) {
          const result = originalProbe(ctx);
          result.lines.push(ctx.line.badge({ label: "Override", text: "applied" }));
          return result;
        });
        "#;

    let result = run_probe(&plugin, Some(override_script));

    let has_override_badge = result.outputs[0].lines.iter().any(|line| {
        matches!(
            line,
            MetricLine::Badge { label, text, .. }
                if label == "Override" && text == "applied"
        )
    });
    assert!(
        has_override_badge,
        "expected override badge from plugin override wrapper"
    );
}

#[test]
fn plugin_output_never_reads_probe_account() {
    // probe().account is NEVER read, validated, or accessed.
    // In single-account mode, the output always carries the default account.
    let plugin = test_plugin(
        r#"
        globalThis.__openusage_plugin = {
            probe(ctx) {
                return {
                    account: { id: "custom-id", displayName: "Custom Name" },
                    lines: [ctx.line.text({ label: "Status", value: "ok" })]
                };
            }
        };
        "#,
    );
    let result = run_probe(&plugin, None);
    assert_eq!(
        result.outputs[0].account,
        AccountRef::default_account(),
        "probe().account must never alter the output account in single-account mode"
    );
}

#[test]
fn null_probe_result_account_defaults_to_default() {
    let plugin = test_plugin(
        r#"
        globalThis.__openusage_plugin = {
            probe(ctx) {
                return {
                    account: null,
                    lines: [ctx.line.text({ label: "Status", value: "ok" })]
                };
            }
        };
        "#,
    );
    let result = run_probe(&plugin, None);
    // probe().account is never read, output always has default account
    assert_eq!(result.outputs[0].account, AccountRef::default_account());
}

#[test]
fn undefined_probe_result_account_defaults_to_default() {
    let plugin = test_plugin(
        r#"
        globalThis.__openusage_plugin = {
            probe(ctx) {
                return {
                    account: undefined,
                    lines: [ctx.line.text({ label: "Status", value: "ok" })]
                };
            }
        };
        "#,
    );
    let result = run_probe(&plugin, None);
    assert_eq!(result.outputs[0].account, AccountRef::default_account());
}

#[test]
fn probe_account_non_object_does_not_cause_error() {
    // probe().account is never read, so a non-object value produces
    // normal success output with default account.
    let plugin = test_plugin(
        r#"
        globalThis.__openusage_plugin = {
            probe(ctx) {
                return {
                    account: "not-an-object",
                    lines: [ctx.line.text({ label: "Status", value: "ok" })]
                };
            }
        };
        "#,
    );
    let result = run_probe(&plugin, None);
    assert_eq!(
        result.outputs[0].account,
        AccountRef::default_account(),
        "probe().account is never read - output is success with default account"
    );
    assert_eq!(result.outputs[0].lines.len(), 1);
    // Lines should be success, not error
    match &result.outputs[0].lines[0] {
        MetricLine::Text { label, value, .. } => {
            assert_eq!(label, "Status");
            assert_eq!(value, "ok");
        }
        other => panic!("expected text line, got {:?}", other),
    }
}

#[test]
fn probe_account_empty_id_does_not_cause_error() {
    // probe().account is never read, empty id has no effect.
    let plugin = test_plugin(
        r#"
        globalThis.__openusage_plugin = {
            probe(ctx) {
                return {
                    account: { id: "", displayName: "Name" },
                    lines: [ctx.line.text({ label: "Status", value: "ok" })]
                };
            }
        };
        "#,
    );
    let result = run_probe(&plugin, None);
    assert_eq!(result.outputs[0].account, AccountRef::default_account());
    // Should be success, not error
    assert_eq!(result.outputs[0].lines.len(), 1);
    match &result.outputs[0].lines[0] {
        MetricLine::Text { label, value, .. } => {
            assert_eq!(label, "Status");
            assert_eq!(value, "ok");
        }
        other => panic!("expected text line, got {:?}", other),
    }
}

#[test]
fn probe_account_missing_id_does_not_cause_error() {
    // probe().account is never read, missing id has no effect.
    let plugin = test_plugin(
        r#"
        globalThis.__openusage_plugin = {
            probe(ctx) {
                return {
                    account: { displayName: "Name" },
                    lines: [ctx.line.text({ label: "Status", value: "ok" })]
                };
            }
        };
        "#,
    );
    let result = run_probe(&plugin, None);
    assert_eq!(result.outputs[0].account, AccountRef::default_account());
    assert_eq!(result.outputs[0].lines.len(), 1);
    match &result.outputs[0].lines[0] {
        MetricLine::Text { .. } => {} // success
        other => panic!("expected text line, got {:?}", other),
    }
}

#[test]
fn probe_account_throwing_accessor_does_not_cause_error() {
    // probe().account accessor throw is NEVER caught — it has no effect.
    let plugin = test_plugin(
        r#"
        globalThis.__openusage_plugin = {
            probe(ctx) {
                var result = {
                    lines: [ctx.line.text({ label: "Status", value: "ok" })]
                };
                Object.defineProperty(result, "account", {
                    get: function() { throw "getter-boom"; },
                    enumerable: true,
                    configurable: true
                });
                return result;
            }
        };
        "#,
    );
    let result = run_probe(&plugin, None);
    assert_eq!(
        result.outputs[0].account,
        AccountRef::default_account(),
        "throwing accessor on probe().account is never caught - output is success with default account"
    );
    // Should be success, not error
    assert_eq!(result.outputs[0].lines.len(), 1);
    match &result.outputs[0].lines[0] {
        MetricLine::Text { .. } => {} // success
        other => panic!("expected text line, got {:?}", other),
    }
}

#[test]
fn probe_account_empty_display_name_does_not_cause_error() {
    // probe().account is never read, empty displayName has no effect.
    let plugin = test_plugin(
        r#"
        globalThis.__openusage_plugin = {
            probe(ctx) {
                return {
                    account: { id: "custom-id", displayName: "" },
                    lines: [ctx.line.text({ label: "Status", value: "ok" })]
                };
            }
        };
        "#,
    );
    let result = run_probe(&plugin, None);
    assert_eq!(result.outputs[0].account, AccountRef::default_account());
    assert_eq!(result.outputs[0].lines.len(), 1);
    match &result.outputs[0].lines[0] {
        MetricLine::Text { .. } => {} // success
        other => panic!("expected text line, got {:?}", other),
    }
}

#[test]
fn probe_account_missing_display_name_does_not_cause_error() {
    // probe().account is never read, missing displayName has no effect.
    let plugin = test_plugin(
        r#"
        globalThis.__openusage_plugin = {
            probe(ctx) {
                return {
                    account: { id: "custom-id" },
                    lines: [ctx.line.text({ label: "Status", value: "ok" })]
                };
            }
        };
        "#,
    );
    let result = run_probe(&plugin, None);
    assert_eq!(result.outputs[0].account, AccountRef::default_account());
    assert_eq!(result.outputs[0].lines.len(), 1);
    match &result.outputs[0].lines[0] {
        MetricLine::Text { .. } => {} // success
        other => panic!("expected text line, got {:?}", other),
    }
}

#[test]
fn probe_account_non_object_string_does_not_cause_error() {
    // probe().account as a string is not read, no error.
    let plugin = test_plugin(
        r#"
        globalThis.__openusage_plugin = {
            probe(ctx) {
                return {
                    account: "some-string",
                    lines: [ctx.line.text({ label: "Status", value: "ok" })]
                };
            }
        };
        "#,
    );
    let result = run_probe(&plugin, None);
    assert_eq!(result.outputs[0].account, AccountRef::default_account());
    assert_eq!(result.outputs[0].lines.len(), 1);
    match &result.outputs[0].lines[0] {
        MetricLine::Text { .. } => {} // success
        other => panic!("expected text line, got {:?}", other),
    }
}

#[test]
fn override_replace_discover_accounts_adds_to_single_account_plugin() {
    // A single-account plugin with only probe() gains discoverAccounts via replace.
    with_override_context(
        r#"
        globalThis.__openusage_plugin = {
            probe(ctx) {
                return { lines: [ctx.line.text({ label: "Status", value: "ok" })] };
            }
        };
        "#,
        r#"
        var ov = globalThis.__openusage_override;
        var plugin = globalThis.__openusage_plugin;
        globalThis.__test_result = {};

        // originalDiscoverAccounts must be null for a single-account plugin
        globalThis.__test_result.originalIsNull = (ov.originalDiscoverAccounts === null);

        // replaceDiscoverAccounts adds the function
        var ret = ov.replaceDiscoverAccounts(function(ctx, original) {
            return [{ id: "work", displayName: "Work Account" }];
        });
        globalThis.__test_result.retIsFunction = (typeof ret === "function");
        globalThis.__test_result.pluginHasDiscovery = (typeof plugin.discoverAccounts === "function");

        // Calling the discovery function returns the expected accounts
        var accounts = plugin.discoverAccounts(null);
        globalThis.__test_result.accountsJson = JSON.stringify(accounts);
        globalThis.__test_result.accountsLength = accounts.length;
        globalThis.__test_result.firstAccountId = accounts[0].id;
        "#,
        "test",
        |ctx| {
            let globals = ctx.globals();
            let result: Object = globals.get("__test_result").expect("test result");
            assert!(
                result
                    .get::<_, bool>("originalIsNull")
                    .expect("originalIsNull")
            );
            assert!(
                result
                    .get::<_, bool>("retIsFunction")
                    .expect("retIsFunction")
            );
            assert!(
                result
                    .get::<_, bool>("pluginHasDiscovery")
                    .expect("pluginHasDiscovery")
            );
            assert_eq!(
                result
                    .get::<_, i32>("accountsLength")
                    .expect("accountsLength"),
                1
            );
            assert_eq!(
                result
                    .get::<_, String>("firstAccountId")
                    .expect("firstAccountId"),
                "work"
            );
        },
    );
}

#[test]
fn override_wrap_discover_accounts_appends_to_native() {
    // A plugin with native discoverAccounts gets wrapped to append accounts.
    with_override_context(
        r#"
        globalThis.__openusage_plugin = {
            probe(ctx) {
                return { lines: [ctx.line.text({ label: "Status", value: "ok" })] };
            },
            discoverAccounts(ctx) {
                return [{ id: "native", displayName: "Native Account" }];
            }
        };
        "#,
        r#"
        var ov = globalThis.__openusage_override;
        var plugin = globalThis.__openusage_plugin;
        globalThis.__test_result = {};

        // originalDiscoverAccounts must be the native function
        globalThis.__test_result.originalIsFunction = (typeof ov.originalDiscoverAccounts === "function");

        // wrapDiscoverAccounts chains
        var ret = ov.wrapDiscoverAccounts(function(ctx, current, original) {
            var accounts = current(ctx);
            accounts.push({ id: "wrapped", displayName: "Wrapped Account" });
            return accounts;
        });
        globalThis.__test_result.retIsFunction = (typeof ret === "function");

        // Calling the wrapped function returns both accounts
        var accounts = plugin.discoverAccounts(null);
        globalThis.__test_result.accountsJson = JSON.stringify(accounts);
        globalThis.__test_result.accountsLength = accounts.length;
        globalThis.__test_result.hasNative = accounts.some(function(a) { return a.id === "native"; });
        globalThis.__test_result.hasWrapped = accounts.some(function(a) { return a.id === "wrapped"; });
        "#,
        "test",
        |ctx| {
            let globals = ctx.globals();
            let result: Object = globals.get("__test_result").expect("test result");
            assert!(
                result
                    .get::<_, bool>("originalIsFunction")
                    .expect("originalIsFunction")
            );
            assert!(
                result
                    .get::<_, bool>("retIsFunction")
                    .expect("retIsFunction")
            );
            assert_eq!(
                result
                    .get::<_, i32>("accountsLength")
                    .expect("accountsLength"),
                2
            );
            assert!(result.get::<_, bool>("hasNative").expect("hasNative"));
            assert!(result.get::<_, bool>("hasWrapped").expect("hasWrapped"));
        },
    );
}

#[test]
fn override_reset_discover_accounts_restores_native() {
    // After wrapping, reset restores the original native discoverAccounts.
    with_override_context(
        r#"
        globalThis.__openusage_plugin = {
            probe(ctx) {
                return { lines: [ctx.line.text({ label: "Status", value: "ok" })] };
            },
            discoverAccounts(ctx) {
                return [{ id: "native", displayName: "Native Account" }];
            }
        };
        "#,
        r#"
        var ov = globalThis.__openusage_override;
        var plugin = globalThis.__openusage_plugin;
        globalThis.__test_result = {};

        // Wrap first
        ov.wrapDiscoverAccounts(function(ctx, current, original) {
            var accounts = current(ctx);
            accounts.push({ id: "extra", displayName: "Extra" });
            return accounts;
        });
        globalThis.__test_result.afterWrapIsWrapped = (typeof plugin.discoverAccounts === "function");

        // Reset
        var ret = ov.resetDiscoverAccounts();
        globalThis.__test_result.resetRetIsFunction = (typeof ret === "function");
        globalThis.__test_result.afterResetIsFunction = (typeof plugin.discoverAccounts === "function");

        // Calling after reset returns only the native account
        var accounts = plugin.discoverAccounts(null);
        globalThis.__test_result.accountsLength = accounts.length;
        globalThis.__test_result.firstAccountId = accounts[0].id;
        "#,
        "test",
        |ctx| {
            let globals = ctx.globals();
            let result: Object = globals.get("__test_result").expect("test result");
            assert!(
                result
                    .get::<_, bool>("afterWrapIsWrapped")
                    .expect("afterWrapIsWrapped")
            );
            assert!(
                result
                    .get::<_, bool>("resetRetIsFunction")
                    .expect("resetRetIsFunction")
            );
            assert!(
                result
                    .get::<_, bool>("afterResetIsFunction")
                    .expect("afterResetIsFunction")
            );
            assert_eq!(
                result
                    .get::<_, i32>("accountsLength")
                    .expect("accountsLength"),
                1
            );
            assert_eq!(
                result
                    .get::<_, String>("firstAccountId")
                    .expect("firstAccountId"),
                "native"
            );
        },
    );
}

#[test]
fn override_reset_discover_accounts_removes_override_added() {
    // When replace added discovery to a single-account plugin, reset removes it.
    with_override_context(
        r#"
        globalThis.__openusage_plugin = {
            probe(ctx) {
                return { lines: [ctx.line.text({ label: "Status", value: "ok" })] };
            }
        };
        "#,
        r#"
        var ov = globalThis.__openusage_override;
        var plugin = globalThis.__openusage_plugin;
        globalThis.__test_result = {};

        // Add discovery via replace
        ov.replaceDiscoverAccounts(function(ctx, original) {
            return [{ id: "added", displayName: "Added" }];
        });
        globalThis.__test_result.afterReplaceIsFunction = (typeof plugin.discoverAccounts === "function");

        // Reset removes it
        var ret = ov.resetDiscoverAccounts();
        globalThis.__test_result.resetRetIsNull = (ret === null);
        globalThis.__test_result.afterResetIsUndefined = (typeof plugin.discoverAccounts === "undefined");
        "#,
        "test",
        |ctx| {
            let globals = ctx.globals();
            let result: Object = globals.get("__test_result").expect("test result");
            assert!(
                result
                    .get::<_, bool>("afterReplaceIsFunction")
                    .expect("afterReplaceIsFunction")
            );
            assert!(
                result
                    .get::<_, bool>("resetRetIsNull")
                    .expect("resetRetIsNull")
            );
            assert!(
                result
                    .get::<_, bool>("afterResetIsUndefined")
                    .expect("afterResetIsUndefined")
            );
        },
    );
}

#[test]
fn override_wrap_discover_accounts_without_current_fails() {
    // wrapDiscoverAccounts on a plugin without discoverAccounts must throw.
    with_override_context(
        r#"
        globalThis.__openusage_plugin = {
            probe(ctx) {
                return { lines: [ctx.line.text({ label: "Status", value: "ok" })] };
            }
        };
        "#,
        r#"
        var ov = globalThis.__openusage_override;
        globalThis.__test_result = {};
        try {
            ov.wrapDiscoverAccounts(function(ctx, current, original) {
                return current(ctx);
            });
            globalThis.__test_result.didThrow = false;
        } catch (e) {
            globalThis.__test_result.didThrow = true;
            globalThis.__test_result.errorMsg = String(e);
        }
        "#,
        "test",
        |ctx| {
            let globals = ctx.globals();
            let result: Object = globals.get("__test_result").expect("test result");
            assert!(
                result.get::<_, bool>("didThrow").expect("didThrow"),
                "wrapDiscoverAccounts should throw when no current discovery function exists"
            );
            let msg: String = result.get("errorMsg").expect("errorMsg");
            assert!(
                msg.contains("requires a current"),
                "error message should mention requirement: {}",
                msg
            );
        },
    );
}

#[test]
fn override_discover_accounts_does_not_affect_probe_override() {
    // Existing probe override behavior must remain unchanged when
    // discovery override API is present.
    with_override_context(
        r#"
        globalThis.__openusage_plugin = {
            probe(ctx) {
                return {
                    lines: [ctx.line.text({ label: "Status", value: "original" })]
                };
            }
        };
        "#,
        r#"
        var ov = globalThis.__openusage_override;
        var plugin = globalThis.__openusage_plugin;
        globalThis.__test_result = {};

        // Probe API still works: replaceProbe
        var replaced = ov.replaceProbe(function(ctx, original) {
            var result = original(ctx);
            result.lines.push({ type: "text", label: "Override", value: "replaced" });
            return result;
        });
        globalThis.__test_result.replaceProbeIsFunction = (typeof replaced === "function");

        // wrapProbe still works
        var wrapped = ov.wrapProbe(function(ctx, current, original) {
            var result = current(ctx);
            result.lines.push({ type: "text", label: "Override", value: "wrapped" });
            return result;
        });
        globalThis.__test_result.wrapProbeIsFunction = (typeof wrapped === "function");

        // resetProbe still works
        var reset = ov.resetProbe();
        globalThis.__test_result.resetProbeIsFunction = (typeof reset === "function");

        // originalProbe is still accessible
        globalThis.__test_result.originalProbeIsFunction = (typeof ov.originalProbe === "function");

        // Discovery API is also present
        globalThis.__test_result.hasOriginalDiscoverAccounts = ("originalDiscoverAccounts" in ov);
        globalThis.__test_result.hasReplaceDiscoverAccounts = (typeof ov.replaceDiscoverAccounts === "function");
        globalThis.__test_result.hasWrapDiscoverAccounts = (typeof ov.wrapDiscoverAccounts === "function");
        globalThis.__test_result.hasResetDiscoverAccounts = (typeof ov.resetDiscoverAccounts === "function");
        "#,
        "test",
        |ctx| {
            let globals = ctx.globals();
            let result: Object = globals.get("__test_result").expect("test result");
            assert!(
                result
                    .get::<_, bool>("replaceProbeIsFunction")
                    .expect("replaceProbeIsFunction")
            );
            assert!(
                result
                    .get::<_, bool>("wrapProbeIsFunction")
                    .expect("wrapProbeIsFunction")
            );
            assert!(
                result
                    .get::<_, bool>("resetProbeIsFunction")
                    .expect("resetProbeIsFunction")
            );
            assert!(
                result
                    .get::<_, bool>("originalProbeIsFunction")
                    .expect("originalProbeIsFunction")
            );
            assert!(
                result
                    .get::<_, bool>("hasOriginalDiscoverAccounts")
                    .expect("hasOriginalDiscoverAccounts")
            );
            assert!(
                result
                    .get::<_, bool>("hasReplaceDiscoverAccounts")
                    .expect("hasReplaceDiscoverAccounts")
            );
            assert!(
                result
                    .get::<_, bool>("hasWrapDiscoverAccounts")
                    .expect("hasWrapDiscoverAccounts")
            );
            assert!(
                result
                    .get::<_, bool>("hasResetDiscoverAccounts")
                    .expect("hasResetDiscoverAccounts")
            );
        },
    );
}

#[test]
fn single_account_probe_has_immutable_default_account_context() {
    let plugin = test_plugin(
        r#"
        globalThis.__openusage_plugin = {
            probe(ctx) {
                var acct = ctx.account;
                var id = acct.id;
                var stillDefault = ctx.account.id === "default";
                var desc = Object.getOwnPropertyDescriptor(acct, "id");
                return {
                    lines: [
                        ctx.line.text({ label: "ID", value: id }),
                        ctx.line.text({ label: "StillDefault", value: String(stillDefault) }),
                        ctx.line.text({ label: "Writable", value: String(desc.writable) }),
                        ctx.line.text({ label: "Configurable", value: String(desc.configurable) })
                    ]
                };
            }
        };
        "#,
    );
    let result = run_probe(&plugin, None);
    let lines = &result.outputs[0].lines;
    let get_text = |label: &str| -> String {
        lines
            .iter()
            .find_map(|l| match l {
                MetricLine::Text {
                    label: l, value, ..
                } if l == label => Some(value.clone()),
                _ => None,
            })
            .unwrap_or_default()
    };
    assert_eq!(get_text("ID"), "default");
    assert_eq!(get_text("StillDefault"), "true");
    assert_eq!(
        get_text("Writable"),
        "false",
        "account.id must be non-writable"
    );
    assert_eq!(
        get_text("Configurable"),
        "false",
        "account.id must be non-configurable"
    );
    assert_eq!(result.outputs[0].account, AccountRef::default_account());
}

#[test]
fn discovery_override_replace_affects_runtime() {
    let plugin = test_plugin(
        r#"
        globalThis.__openusage_plugin = {
            probe(ctx) {
                return { lines: [ctx.line.text({ label: "Account", value: ctx.account.id })] };
            }
        };
        "#,
    );
    let override_script = r#"
        globalThis.__openusage_override.replaceDiscoverAccounts(function(ctx, original) {
            return [{ id: "override-acc" }];
        });
        "#;
    let result = run_probe(&plugin, Some(override_script));
    assert_eq!(result.outputs.len(), 1);
    assert_eq!(result.outputs[0].account.id, "override-acc");
}

#[test]
fn discovery_override_wrap_affects_runtime() {
    let plugin = test_plugin(
        r#"
        globalThis.__openusage_plugin = {
            probe(ctx) {
                return { lines: [ctx.line.text({ label: "Account", value: ctx.account.id })] };
            },
            discoverAccounts(ctx) {
                return [{ id: "native" }];
            }
        };
        "#,
    );
    let override_script = r#"
        globalThis.__openusage_override.wrapDiscoverAccounts(function(ctx, current, original) {
            var accounts = current(ctx);
            accounts.push({ id: "wrapped" });
            return accounts;
        });
        "#;
    let result = run_probe(&plugin, Some(override_script));
    assert_eq!(result.outputs.len(), 2);
    assert_eq!(result.outputs[0].account.id, "native");
    assert_eq!(result.outputs[1].account.id, "wrapped");
}

#[test]
fn account_context_property_is_immutable() {
    // The `account` property on the probe context must be read-only.
    // Attempting to reassign ctx.account must silently fail or throw.
    let plugin = test_plugin(
        r#"
        globalThis.__openusage_plugin = {
            probe(ctx) {
                var before = ctx.account.id;
                try { ctx.account = { id: "hacked", displayName: "Hacked" }; } catch(e) {}
                var after = ctx.account.id;
                return {
                    lines: [
                        ctx.line.text({ label: "Before", value: before }),
                        ctx.line.text({ label: "After", value: after })
                    ]
                };
            }
        };
        "#,
    );
    let result = run_probe(&plugin, None);
    let lines = &result.outputs[0].lines;
    let get_text = |label: &str| -> String {
        lines
            .iter()
            .find_map(|l| match l {
                MetricLine::Text {
                    label: l, value, ..
                } if l == label => Some(value.clone()),
                _ => None,
            })
            .unwrap_or_default()
    };
    assert_eq!(get_text("Before"), "default");
    assert_eq!(
        get_text("After"),
        "default",
        "ctx.account must remain 'default' after reassignment attempt"
    );
}

#[test]
fn account_context_account_id_is_immutable() {
    // The account object's id must be read-only via
    // Property API (non-writable, non-configurable).
    let plugin = test_plugin(
        r#"
        globalThis.__openusage_plugin = {
            probe(ctx) {
                var before = ctx.account.id;
                try { ctx.account.id = "hacked-id"; } catch(e) {}
                var after = ctx.account.id;
                var desc = Object.getOwnPropertyDescriptor(ctx.account, "id");
                return {
                    lines: [
                        ctx.line.text({ label: "Before", value: before }),
                        ctx.line.text({ label: "After", value: after }),
                        ctx.line.text({ label: "Writable", value: String(desc.writable) }),
                        ctx.line.text({ label: "Configurable", value: String(desc.configurable) })
                    ]
                };
            }
        };
        "#,
    );
    let result = run_probe(&plugin, None);
    let lines = &result.outputs[0].lines;
    let get_text = |label: &str| -> String {
        lines
            .iter()
            .find_map(|l| match l {
                MetricLine::Text {
                    label: l, value, ..
                } if l == label => Some(value.clone()),
                _ => None,
            })
            .unwrap_or_default()
    };
    assert_eq!(get_text("Before"), "default");
    assert_eq!(
        get_text("After"),
        "default",
        "account.id must remain 'default' after mutation attempt"
    );
    assert_eq!(
        get_text("Writable"),
        "false",
        "account.id must be non-writable"
    );
    assert_eq!(
        get_text("Configurable"),
        "false",
        "account.id must be non-configurable"
    );
}

#[test]
fn discovery_account_context_has_immutable_account() {
    // In discovery mode, each account context's account property must
    // also be immutable.
    let plugin = test_plugin(
        r#"
        globalThis.__openusage_plugin = {
            probe(ctx) {
                var before = ctx.account.id;
                try { ctx.account = { id: "hacked", displayName: "Hacked" }; } catch(e) {}
                var after = ctx.account.id;
                var desc = Object.getOwnPropertyDescriptor(ctx, "account");
                return {
                    lines: [
                        ctx.line.text({ label: "Before", value: before }),
                        ctx.line.text({ label: "After", value: after }),
                        ctx.line.text({ label: "Writable", value: String(desc.writable) }),
                        ctx.line.text({ label: "Configurable", value: String(desc.configurable) })
                    ]
                };
            },
            discoverAccounts(ctx) {
                return [{ id: "work" }];
            }
        };
        "#,
    );
    let result = run_probe(&plugin, None);
    let lines = &result.outputs[0].lines;
    let get_text = |label: &str| -> String {
        lines
            .iter()
            .find_map(|l| match l {
                MetricLine::Text {
                    label: l, value, ..
                } if l == label => Some(value.clone()),
                _ => None,
            })
            .unwrap_or_default()
    };
    assert_eq!(get_text("Before"), "work");
    assert_eq!(
        get_text("After"),
        "work",
        "ctx.account.id must remain 'work' after reassignment attempt"
    );
    assert_eq!(
        get_text("Writable"),
        "false",
        "ctx.account property must be non-writable"
    );
    assert_eq!(
        get_text("Configurable"),
        "false",
        "ctx.account property must be non-configurable"
    );
}

#[test]
fn account_context_immutable_when_object_freeze_replaced() {
    // Plugin replaces Object.freeze with a no-op; account identity
    // must still be immutable because Property API is used, not
    // Object.freeze.
    let plugin = test_plugin(
        r#"
        // Replace Object.freeze with a no-op to simulate monkey-patching.
        Object.freeze = function(obj) { return obj; };

        globalThis.__openusage_plugin = {
            probe(ctx) {
                var before = ctx.account.id;
                try { ctx.account.id = "hacked-id"; } catch(e) {}
                var after = ctx.account.id;
                var desc = Object.getOwnPropertyDescriptor(ctx.account, "id");
                return {
                    lines: [
                        ctx.line.text({ label: "Before", value: before }),
                        ctx.line.text({ label: "After", value: after }),
                        ctx.line.text({ label: "Writable", value: String(desc.writable) })
                    ]
                };
            }
        };
        "#,
    );
    let result = run_probe(&plugin, None);
    let lines = &result.outputs[0].lines;
    let get_text = |label: &str| -> String {
        lines
            .iter()
            .find_map(|l| match l {
                MetricLine::Text {
                    label: l, value, ..
                } if l == label => Some(value.clone()),
                _ => None,
            })
            .unwrap_or_default()
    };
    assert_eq!(get_text("Before"), "default");
    assert_eq!(
        get_text("After"),
        "default",
        "account.id must remain 'default' even when Object.freeze is replaced"
    );
    assert_eq!(
        get_text("Writable"),
        "false",
        "account.id must be non-writable via Property API"
    );
}

#[test]
fn probe_result_account_mismatch_has_no_effect_in_discovery() {
    // probe().account is NEVER read, even with mismatched id.
    // The output is success with the discovered identity.
    let plugin = test_plugin(
        r#"
        globalThis.__openusage_plugin = {
            probe(ctx) {
                return {
                    account: { id: "wrong-id", displayName: "Wrong" },
                    lines: [ctx.line.text({ label: "Status", value: "ok" })]
                };
            },
            discoverAccounts(ctx) {
                return [{ id: "work" }];
            }
        };
        "#,
    );
    let result = run_probe(&plugin, None);
    assert_eq!(result.outputs.len(), 1);
    // Account from discovery, not from probe().account
    assert_eq!(
        result.outputs[0].account.id, "work",
        "probe().account must not alter the output account"
    );
    // Output is success
    assert!(result.outputs[0].lines[0].display().contains("ok"));
}

#[test]
fn probe_result_account_with_any_content_has_no_effect() {
    // probe().account content (id, displayName, or anything else)
    // has zero effect on the output account.
    let plugin = test_plugin(
        r#"
        globalThis.__openusage_plugin = {
            probe(ctx) {
                return {
                    account: { id: "work", displayName: "Some Name" },
                    lines: [ctx.line.text({ label: "Status", value: "ok" })]
                };
            },
            discoverAccounts(ctx) {
                return [{ id: "work" }];
            }
        };
        "#,
    );
    let result = run_probe(&plugin, None);
    assert_eq!(result.outputs.len(), 1);
    assert_eq!(
        result.outputs[0].account.id, "work",
        "account from descriptor, not from probe().account"
    );
    // Output is success
    assert!(result.outputs[0].lines[0].display().contains("ok"));
}

#[test]
fn probe_account_throwing_getter_has_no_effect() {
    // probe().account accessor is NEVER accessed, so a throwing getter
    // on result.account has no effect.
    let plugin = test_plugin(
        r#"
        globalThis.__openusage_plugin = {
            probe(ctx) {
                var result = {
                    lines: [ctx.line.text({ label: "Account", value: ctx.account.id })]
                };
                if (ctx.account.id === "broken") {
                    Object.defineProperty(result, "account", {
                        get: function() { throw "getter-boom"; },
                        enumerable: true,
                        configurable: true
                    });
                }
                return result;
            },
            discoverAccounts(ctx) {
                return [
                    { id: "broken" },
                    { id: "good" }
                ];
            }
        };
        "#,
    );
    let result = run_probe(&plugin, None);
    assert_eq!(result.outputs.len(), 2);
    // Neither account sees the getter - both succeed
    assert_eq!(result.outputs[0].account.id, "broken");
    assert!(
        result.outputs[0].lines[0].display().contains("broken"),
        "broken account should succeed (account getter is never read)"
    );
    assert_eq!(result.outputs[1].account.id, "good");
    assert!(
        result.outputs[1].lines[0].display().contains("good"),
        "good account should also succeed"
    );
}

#[test]
fn valid_manifest_replaces_discovery_call() {
    // Verify the replacement actually takes effect by calling discoverAccounts
    // after the lifecycle completes.
    let plugin = r#"
        globalThis.__openusage_plugin = {
            probe: function() { return { lines: [] }; },
            discoverAccounts: function() { return [{ id: "original" }]; }
        };
    "#;
    let override_js = r#"
        function myDiscover(ctx, orig) {
            return [{ id: "replaced" }];
        }
        globalThis.__openusage_function_overrides = {
            functions: [{ target: "discoverAccounts", mode: "replace", with: "myDiscover" }]
        };
    "#;
    let rt = Runtime::new().expect("runtime");
    let ctx = Context::full(&rt).expect("context");
    ctx.with(|ctx| {
        let result = run_lifecycle(&ctx, "test-plugin", plugin, Some(override_js));
        assert!(result.is_ok(), "lifecycle failed: {:?}", result.err());

        // Verify discoverAccounts was replaced
        let _plugin_obj: rquickjs::Object = ctx
            .globals()
            .get("__openusage_plugin")
            .expect("plugin object");
        let accounts: String = ctx
            .eval(
                r#"
                (function() {
                    var p = globalThis.__openusage_plugin;
                    var accs = p.discoverAccounts({});
                    return JSON.stringify(accs);
                })();
                "#,
            )
            .expect("eval accounts");
        let parsed: serde_json::Value =
            serde_json::from_str(&accounts).expect("parse accounts");
        let arr = parsed.as_array().expect("accounts array");
        assert_eq!(arr.len(), 1);
        assert_eq!(arr[0]["id"], "replaced");
    });
}

#[test]
fn null_manifest_is_noop() {
    // Manifest set to null — should be treated as absent.
    let plugin = r#"
        globalThis.__openusage_plugin = {
            probe: function() { return { lines: [] }; },
            discoverAccounts: function() { return [{ id: "original" }]; }
        };
    "#;
    let override_js = r#"
        globalThis.__openusage_function_overrides = null;
    "#;
    let result = run_with_manifest_override(plugin, override_js);
    assert!(
        result.is_ok(),
        "lifecycle should succeed with null manifest"
    );
}

#[test]
fn existing_direct_api_remains_compatible() {
    // The imperative __openusage_override.replaceDiscoverAccounts
    // works without a manifest too.
    let plugin = r#"
        globalThis.__openusage_plugin = {
            probe: function() { return { lines: [] }; },
            discoverAccounts: function() { return [{ id: "original" }]; }
        };
    "#;
    let override_js = r#"
        // No manifest — just use the direct API
        globalThis.__openusage_override.replaceDiscoverAccounts(function(ctx, orig) {
            return [{ id: "direct-api" }];
        });
    "#;
    let rt = Runtime::new().expect("runtime");
    let ctx = Context::full(&rt).expect("context");
    ctx.with(|ctx| {
        let result = run_lifecycle(&ctx, "test-plugin", plugin, Some(override_js));
        assert!(result.is_ok(), "lifecycle failed: {:?}", result.err());

        let accounts: String = ctx
            .eval(
                r#"
                (function() {
                    var p = globalThis.__openusage_plugin;
                    var accs = p.discoverAccounts({});
                    return JSON.stringify(accs);
                })();
                "#,
            )
            .expect("eval accounts");
        let parsed: serde_json::Value =
            serde_json::from_str(&accounts).expect("parse accounts");
        let arr = parsed.as_array().expect("accounts array");
        assert_eq!(arr.len(), 1);
        assert_eq!(arr[0]["id"], "direct-api");
    });
}

#[test]
fn transform_wrappers_call_override_functions() {
    let source = r#"
    (function () {
      function loadAuth(ctx) { return null; }
      function saveAuth(ctx, authState) {
        return authState && authState.source === "file";
      }
      function probe(ctx) {
        const authState = loadAuth(ctx);
        const persisted = saveAuth(ctx, authState);
        return {
          plan: authState && authState.source ? authState.source : "none",
          lines: [ctx.line.badge({ label: "Persisted", text: String(persisted) })]
        };
      }
      globalThis.__openusage_plugin = { id: "codex", probe: probe };
    })();
    "#;
    let override_script = r#"
    globalThis.__openusage_ast_patch = {
      functions: [
        { target: "loadAuth", with: "patchLoadAuth", mode: "wrap" },
        { target: "saveAuth", with: "patchSaveAuth", mode: "wrap" }
      ]
    };
    function patchLoadAuth(original, ctx) {
      const primary = original(ctx);
      if (primary) return primary;
      return { source: "opencode", auth: { tokens: { access_token: "x" } } };
    }
    function patchSaveAuth(original, ctx, authState) {
      if (authState && authState.source === "opencode") {
        return true;
      }
      return original(ctx, authState);
    }
    "#;

    let transformed = transform_plugin_script(source, Some(override_script))
        .expect("transform codex script");

    let rt = Runtime::new().expect("quickjs runtime");
    let ctx = Context::full(&rt).expect("quickjs context");

    let probe_json = ctx.with(|ctx| {
        ctx.eval::<(), _>(TEST_CTX_SCRIPT.as_bytes())
            .expect("eval test ctx");
        ctx.eval::<(), _>(transformed.script.as_bytes())
            .expect("eval transformed plugin");
        ctx.eval::<(), _>(override_script.as_bytes())
            .expect("eval override");
        ctx.eval::<String, _>(TEST_PROBE_SCRIPT.as_bytes())
            .expect("eval probe")
    });

    let parsed: JsonValue = serde_json::from_str(&probe_json).expect("parse probe json");
    assert_eq!(parsed["plan"], JsonValue::String("opencode".to_string()));
    assert_eq!(parsed["persisted"], JsonValue::String("true".to_string()));
}

const PLUGIN_WITH_DISCOVERY: &str = r#"
    globalThis.__openusage_plugin = {
        probe: function() { return { lines: [] }; },
        discoverAccounts: function() { return [{ id: "original" }]; }
    };
"#;

fn accounts_after(plugin: &str, override_js: Option<&str>) -> JsonValue {
    let rt = Runtime::new().expect("runtime");
    let ctx = Context::full(&rt).expect("context");
    ctx.with(|ctx| {
        let result = run_lifecycle(&ctx, "test-plugin", plugin, override_js);
        assert!(result.is_ok(), "lifecycle failed: {:?}", result.err());
        eval_json(
            &ctx,
            r#"
            (function() {
                var p = globalThis.__openusage_plugin;
                var accs = p.discoverAccounts({});
                return JSON.stringify(accs);
            })();
            "#,
        )
    })
}

#[test]
fn valid_manifest_replaces_discover_accounts() {
    let override_js = r#"
        function myDiscover(ctx, orig) {
            return [{ id: "replaced" }];
        }
        globalThis.__openusage_function_overrides = {
            functions: [{ target: "discoverAccounts", mode: "replace", with: "myDiscover" }]
        };
    "#;
    let result = run_with_manifest_override(PLUGIN_WITH_DISCOVERY, override_js);
    assert!(result.is_ok(), "lifecycle should succeed: {:?}", result.err());
}

#[test]
fn absent_manifest_is_noop() {
    // Without a manifest discoverAccounts stays as it is.
    let override_js = r#"
        // No __openusage_function_overrides set — just a plain override script.
    "#;
    let parsed = accounts_after(PLUGIN_WITH_DISCOVERY, Some(override_js));
    let arr = parsed.as_array().expect("accounts array");
    assert_eq!(arr.len(), 1);
    assert_eq!(arr[0]["id"], "original");
}

#[test]
fn manifest_without_override_does_nothing() {
    // A manifest in the plugin itself does not count.
    let plugin = r#"
        globalThis.__openusage_plugin = {
            probe: function() { return { lines: [] }; },
            discoverAccounts: function() { return [{ id: "original" }]; }
        };
        globalThis.__openusage_function_overrides = {
            functions: [{ target: "discoverAccounts", mode: "replace", with: "nonexistent" }]
        };
    "#;
    let parsed = accounts_after(plugin, None);
    let arr = parsed.as_array().expect("accounts array");
    assert_eq!(arr.len(), 1);
    assert_eq!(arr[0]["id"], "original");
}

#[test]
fn discovery_null_uses_single_account_mode() {
    let plugin = test_plugin(
        r#"
        globalThis.__openusage_plugin = {
            probe(ctx) {
                return { lines: [ctx.line.text({ label: "Status", value: "ok" })] };
            },
            discoverAccounts: null
        };
        "#,
    );
    let result = run_probe(&plugin, None);
    assert_eq!(result.outputs.len(), 1);
    assert_eq!(result.outputs[0].account, AccountRef::default_account());
}

#[test]
fn discovery_undefined_uses_single_account_mode() {
    let plugin = test_plugin(
        r#"
        globalThis.__openusage_plugin = {
            probe(ctx) {
                return { lines: [ctx.line.text({ label: "Status", value: "ok" })] };
            },
            discoverAccounts: undefined
        };
        "#,
    );
    let result = run_probe(&plugin, None);
    assert_eq!(result.outputs.len(), 1);
    assert_eq!(result.outputs[0].account, AccountRef::default_account());
}

#[test]
fn thrown_objects_that_are_no_errors_are_unknown() {
    let rt = Runtime::new().expect("runtime");
    let ctx = Context::full(&rt).expect("context");
    ctx.with(|ctx| {
        let thrown = |script: &str| {
            eval(&ctx, script, LifecycleStage::Execution).expect_err("an exception")
        };
        for script in ["throw {};", "throw { name: '', message: '' };", "throw [];", "throw 5;"] {
            assert_eq!(
                thrown(script),
                JsError::new(LifecycleStage::Execution, "unknown error")
            );
        }
        let error = thrown("throw new TypeError('bad');");
        assert_eq!(error.message, "bad");
        assert_eq!(error.error_name.as_deref(), Some("TypeError"));
        assert!(error.stack.is_some());
        assert_eq!(thrown("throw new Error('');").message, "Error");
        assert_eq!(thrown("throw 'just text';").message, "just text");
    });
}
