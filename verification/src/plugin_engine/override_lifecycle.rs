//! The steps in which a plugin and its override are brought up.

use crate::plugin_engine::js_value::{
    slot_text, text_or_nothing, Caught, JsValue, Slot,
};
use crate::text::{clone_opt, decimal, decimal_text, opt_view, same, views};
use vstd::prelude::*;

verus! {

/// Where the bringing up can fail.
#[derive(Debug, Clone, Copy, PartialEq, Eq, Hash, Structural)]
pub enum LifecycleStage {
    /// A harness script, before the plugin.
    Harness,
    /// A setup script, before the plugin.
    Setup,
    /// The transformation of the plugin script.
    Transform,
    /// The evaluation of the plugin script.
    PluginEval,
    /// The making of `__openusage_override`.
    OverrideBootstrap,
    /// The evaluation of the override script.
    OverrideEval,
    /// The list of functions to override.
    OverrideManifest,
    /// An execution script, after the plugin.
    Execution,
    /// The result of an execution script.
    ResultDecode,
    /// The making of the script runtime.
    Runtime,
    /// The making of the script context.
    Context,
}

/// The name of a stage.
pub open spec fn stage_name(stage: LifecycleStage) -> Seq<char> {
    match stage {
        LifecycleStage::Harness => "harness"@,
        LifecycleStage::Setup => "setup"@,
        LifecycleStage::Transform => "transform"@,
        LifecycleStage::PluginEval => "plugin_eval"@,
        LifecycleStage::OverrideBootstrap => "override_bootstrap"@,
        LifecycleStage::OverrideEval => "override_eval"@,
        LifecycleStage::OverrideManifest => "override_manifest"@,
        LifecycleStage::Execution => "execution"@,
        LifecycleStage::ResultDecode => "result_decode"@,
        LifecycleStage::Runtime => "runtime"@,
        LifecycleStage::Context => "context"@,
    }
}

impl LifecycleStage {
    /// The name of the stage.
    pub fn as_str(self) -> (r: &'static str)
        ensures
            r@ == stage_name(self),
    {
        match self {
            LifecycleStage::Harness => "harness",
            LifecycleStage::Setup => "setup",
            LifecycleStage::Transform => "transform",
            LifecycleStage::PluginEval => "plugin_eval",
            LifecycleStage::OverrideBootstrap => "override_bootstrap",
            LifecycleStage::OverrideEval => "override_eval",
            LifecycleStage::OverrideManifest => "override_manifest",
            LifecycleStage::Execution => "execution",
            LifecycleStage::ResultDecode => "result_decode",
            LifecycleStage::Runtime => "runtime",
            LifecycleStage::Context => "context",
        }
    }
}

/// A failure at a stage.
#[derive(Debug, PartialEq, Eq)]
pub struct JsError {
    pub stage: LifecycleStage,
    pub message: String,
    /// The name of the thrown object, if it has one.
    pub error_name: Option<String>,
    /// The stack trace of the thrown object, if it has one.
    pub stack: Option<String>,
}

/// A failure at a stage, as values.
pub struct JsErrorView {
    pub stage: LifecycleStage,
    pub message: Seq<char>,
    pub error_name: Option<Seq<char>>,
    pub stack: Option<Seq<char>>,
}

impl View for JsError {
    type V = JsErrorView;

    open spec fn view(&self) -> JsErrorView {
        JsErrorView {
            stage: self.stage,
            message: self.message@,
            error_name: opt_view(self.error_name),
            stack: opt_view(self.stack),
        }
    }
}

impl Clone for JsError {
    fn clone(&self) -> (r: Self)
        ensures
            r@ == self@,
    {
        JsError {
            stage: self.stage,
            message: self.message.clone(),
            error_name: clone_opt(&self.error_name),
            stack: clone_opt(&self.stack),
        }
    }
}

/// A failure that is known by a message alone.
pub open spec fn plain_failure(stage: LifecycleStage, message: Seq<char>) -> JsErrorView {
    JsErrorView { stage, message, error_name: None, stack: None }
}

/// A failure as text.
pub open spec fn failure_display(error: JsErrorView) -> Seq<char> {
    match error.error_name {
        Some(name) => "["@ + stage_name(error.stage) + "] "@ + name + ": "@ + error.message,
        None => "["@ + stage_name(error.stage) + "] "@ + error.message,
    }
}

/// The failure that an exception stands for.
pub open spec fn caught_failure(caught: Caught, stage: LifecycleStage) -> JsErrorView {
    match caught {
        Caught::Text(text) => plain_failure(
            stage,
            if text@.len() > 0 {
                text@
            } else {
                "unknown error"@
            },
        ),
        Caught::Object { name, message, stack } => {
            let shown_name = text_or_nothing(slot_text(name));
            let shown_message = text_or_nothing(slot_text(message));
            if shown_message.len() > 0 {
                JsErrorView {
                    stage,
                    message: shown_message,
                    error_name: if shown_name.len() > 0 {
                        Some(shown_name)
                    } else {
                        None
                    },
                    stack: slot_text(stack),
                }
            } else if shown_name.len() > 0 {
                JsErrorView {
                    stage,
                    message: shown_name,
                    error_name: Some(shown_name),
                    stack: slot_text(stack),
                }
            } else {
                plain_failure(stage, "unknown error"@)
            }
        },
        _ => plain_failure(stage, "unknown error"@),
    }
}

impl JsError {
    /// A failure that is known by a message alone.
    pub fn new(stage: LifecycleStage, message: &str) -> (r: Self)
        ensures
            r@ == plain_failure(stage, message@),
    {
        JsError { stage, message: message.to_string(), error_name: None, stack: None }
    }

    /// The failure that an exception stands for.
    pub fn from_caught(stage: LifecycleStage, caught: &Caught) -> (r: Self)
        ensures
            r@ == caught_failure(*caught, stage),
    {
        extract_js_error(caught, stage)
    }

    /// The failure as text.
    pub fn display(&self) -> (r: String)
        ensures
            r@ == failure_display(self@),
    {
        let mut out = "[".to_string();
        out.append(self.stage.as_str());
        out.append("] ");
        match &self.error_name {
            Some(name) => {
                out.append(name.as_str());
                out.append(": ");
            },
            None => {},
        }
        out.append(self.message.as_str());
        out
    }
}

/// The failure that an exception stands for: a thrown text is the message; a thrown error
/// gives its message, name and stack; anything else, an object that has neither a message nor
/// a name among it, is unknown.
pub fn extract_js_error(caught: &Caught, stage: LifecycleStage) -> (r: JsError)
    ensures
        r@ == caught_failure(*caught, stage),
{
    match caught {
        Caught::Text(text) => {
            if text.as_str().is_empty() {
                JsError::new(stage, "unknown error")
            } else {
                JsError::new(stage, text.as_str())
            }
        },
        Caught::Object { name, message, stack } => {
            let shown_name = name.text_or_empty();
            let shown_message = message.text_or_empty();
            if !shown_message.as_str().is_empty() {
                let error_name = if shown_name.as_str().is_empty() {
                    None
                } else {
                    Some(shown_name)
                };
                JsError { stage, message: shown_message, error_name, stack: stack.text() }
            } else if !shown_name.as_str().is_empty() {
                JsError {
                    stage,
                    message: shown_name.clone(),
                    error_name: Some(shown_name),
                    stack: stack.text(),
                }
            } else {
                JsError::new(stage, "unknown error")
            }
        },
        _ => JsError::new(stage, "unknown error"),
    }
}

/// A failure always has a message, whatever was thrown.
pub proof fn law_caught_failure_has_a_message(caught: Caught, stage: LifecycleStage)
    ensures
        caught_failure(caught, stage).message.len() > 0,
        caught_failure(caught, stage).stage == stage,
{
    reveal_strlit("unknown error");
}

/// A failure of the bringing up, by what was being done.
#[derive(Debug, PartialEq, Eq)]
pub enum OverrideLifecycleError {
    Transform(JsError),
    PluginEval(JsError),
    OverrideApiInject(JsError),
    OverrideEval(JsError),
    OverrideManifest(JsError),
    /// A hook failed; the failure keeps the stage that the hook gave it.
    Hook(JsError),
}

/// The failure without what was being done.
pub open spec fn lifecycle_cause(error: OverrideLifecycleError) -> JsErrorView {
    match error {
        OverrideLifecycleError::Transform(cause) => cause@,
        OverrideLifecycleError::PluginEval(cause) => cause@,
        OverrideLifecycleError::OverrideApiInject(cause) => cause@,
        OverrideLifecycleError::OverrideEval(cause) => cause@,
        OverrideLifecycleError::OverrideManifest(cause) => cause@,
        OverrideLifecycleError::Hook(cause) => cause@,
    }
}

impl OverrideLifecycleError {
    /// The failure as text.
    pub fn display(&self) -> (r: String)
        ensures
            r@ == failure_display(lifecycle_cause(*self)),
    {
        match self {
            OverrideLifecycleError::Transform(cause) => cause.display(),
            OverrideLifecycleError::PluginEval(cause) => cause.display(),
            OverrideLifecycleError::OverrideApiInject(cause) => cause.display(),
            OverrideLifecycleError::OverrideEval(cause) => cause.display(),
            OverrideLifecycleError::OverrideManifest(cause) => cause.display(),
            OverrideLifecycleError::Hook(cause) => cause.display(),
        }
    }
}

/// What came of the bringing up.
#[derive(Debug)]
pub struct LifecycleResult {
    /// The plugin script that was evaluated.
    pub script: String,
    /// The functions in it that were patched.
    pub patched_functions: Vec<String>,
}

/// A step of the bringing up.
#[derive(Debug, Clone, Copy, PartialEq, Eq, Structural)]
pub enum LifecycleAction {
    RunBeforeHook,
    Transform,
    EvalPlugin,
    InjectOverrideApi,
    EvalOverride,
    ApplyFunctionOverrides,
    RunAfterHook,
}

/// The steps, in order: hooks only where they are given, and the steps of the override
/// only where there is one.
pub open spec fn lifecycle_steps(has_before: bool, has_override: bool, has_after: bool) -> Seq<
    LifecycleAction,
> {
    (if has_before {
        seq![LifecycleAction::RunBeforeHook]
    } else {
        Seq::empty()
    }) + seq![LifecycleAction::Transform, LifecycleAction::EvalPlugin] + (if has_override {
        seq![
            LifecycleAction::InjectOverrideApi,
            LifecycleAction::EvalOverride,
            LifecycleAction::ApplyFunctionOverrides,
        ]
    } else {
        Seq::empty()
    }) + (if has_after {
        seq![LifecycleAction::RunAfterHook]
    } else {
        Seq::empty()
    })
}

/// The steps of the bringing up, in order.
pub fn lifecycle_plan(has_before: bool, has_override: bool, has_after: bool) -> (r: Vec<
    LifecycleAction,
>)
    ensures
        r@ == lifecycle_steps(has_before, has_override, has_after),
{
    let mut plan: Vec<LifecycleAction> = Vec::new();
    if has_before {
        plan.push(LifecycleAction::RunBeforeHook);
    }
    plan.push(LifecycleAction::Transform);
    plan.push(LifecycleAction::EvalPlugin);
    if has_override {
        plan.push(LifecycleAction::InjectOverrideApi);
        plan.push(LifecycleAction::EvalOverride);
        plan.push(LifecycleAction::ApplyFunctionOverrides);
    }
    if has_after {
        plan.push(LifecycleAction::RunAfterHook);
    }
    assert(plan@ =~= lifecycle_steps(has_before, has_override, has_after));
    plan
}

/// The override is evaluated only after the plugin, and only once there is the interface
/// that it is written against.
pub proof fn law_override_comes_after_plugin(
    has_before: bool,
    has_override: bool,
    has_after: bool,
    i: int,
)
    requires
        0 <= i < lifecycle_steps(has_before, has_override, has_after).len(),
        lifecycle_steps(has_before, has_override, has_after)[i] == LifecycleAction::EvalOverride,
    ensures
        has_override,
        i >= 2,
        lifecycle_steps(has_before, has_override, has_after)[i - 1]
            == LifecycleAction::InjectOverrideApi,
        lifecycle_steps(has_before, has_override, has_after)[i - 2] == LifecycleAction::EvalPlugin,
{
}

/// The stage at which a step fails; hooks give their own.
pub open spec fn action_stage(action: LifecycleAction) -> Option<LifecycleStage> {
    match action {
        LifecycleAction::RunBeforeHook => None,
        LifecycleAction::Transform => Some(LifecycleStage::Transform),
        LifecycleAction::EvalPlugin => Some(LifecycleStage::PluginEval),
        LifecycleAction::InjectOverrideApi => Some(LifecycleStage::OverrideBootstrap),
        LifecycleAction::EvalOverride => Some(LifecycleStage::OverrideEval),
        LifecycleAction::ApplyFunctionOverrides => Some(LifecycleStage::OverrideManifest),
        LifecycleAction::RunAfterHook => None,
    }
}

/// The failure of a step.
pub fn lifecycle_failure(action: LifecycleAction, cause: JsError) -> (r: OverrideLifecycleError)
    ensures
        lifecycle_cause(r) == cause@,
        r == match action {
            LifecycleAction::RunBeforeHook => OverrideLifecycleError::Hook(cause),
            LifecycleAction::Transform => OverrideLifecycleError::Transform(cause),
            LifecycleAction::EvalPlugin => OverrideLifecycleError::PluginEval(cause),
            LifecycleAction::InjectOverrideApi => OverrideLifecycleError::OverrideApiInject(cause),
            LifecycleAction::EvalOverride => OverrideLifecycleError::OverrideEval(cause),
            LifecycleAction::ApplyFunctionOverrides => OverrideLifecycleError::OverrideManifest(
                cause,
            ),
            LifecycleAction::RunAfterHook => OverrideLifecycleError::Hook(cause),
        },
{
    match action {
        LifecycleAction::RunBeforeHook => OverrideLifecycleError::Hook(cause),
        LifecycleAction::Transform => OverrideLifecycleError::Transform(cause),
        LifecycleAction::EvalPlugin => OverrideLifecycleError::PluginEval(cause),
        LifecycleAction::InjectOverrideApi => OverrideLifecycleError::OverrideApiInject(cause),
        LifecycleAction::EvalOverride => OverrideLifecycleError::OverrideEval(cause),
        LifecycleAction::ApplyFunctionOverrides => OverrideLifecycleError::OverrideManifest(cause),
        LifecycleAction::RunAfterHook => OverrideLifecycleError::Hook(cause),
    }
}

/// The stage at which a step fails.
pub fn stage_of(action: LifecycleAction) -> (r: Option<LifecycleStage>)
    ensures
        r == action_stage(action),
{
    match action {
        LifecycleAction::RunBeforeHook => None,
        LifecycleAction::Transform => Some(LifecycleStage::Transform),
        LifecycleAction::EvalPlugin => Some(LifecycleStage::PluginEval),
        LifecycleAction::InjectOverrideApi => Some(LifecycleStage::OverrideBootstrap),
        LifecycleAction::EvalOverride => Some(LifecycleStage::OverrideEval),
        LifecycleAction::ApplyFunctionOverrides => Some(LifecycleStage::OverrideManifest),
        LifecycleAction::RunAfterHook => None,
    }
}

/// Why a result could not be had from a value that may be a promise.
#[derive(Debug)]
pub enum PromiseFailure {
    /// What looked like a promise was none.
    Invalid,
    /// The promise waits for something that will not come.
    Unresolved,
    /// The promise was rejected with an exception.
    Rejected(Caught),
}

/// The failure that a promise stands for.
pub fn promise_failure(stage: LifecycleStage, failure: &PromiseFailure) -> (r: JsError)
    ensures
        r@ == match *failure {
            PromiseFailure::Invalid => plain_failure(stage, "returned invalid promise"@),
            PromiseFailure::Unresolved => plain_failure(stage, "returned unresolved promise"@),
            PromiseFailure::Rejected(caught) => caught_failure(caught, stage),
        },
{
    match failure {
        PromiseFailure::Invalid => JsError::new(stage, "returned invalid promise"),
        PromiseFailure::Unresolved => JsError::new(stage, "returned unresolved promise"),
        PromiseFailure::Rejected(caught) => extract_js_error(caught, stage),
    }
}

/// An entry of the list of functions to override, as the script gave it.
#[derive(Debug)]
pub enum OverrideEntry {
    /// Reading the entry threw an exception.
    Threw,
    /// The entry is no object.
    NotObject,
    /// The entry is an object with these properties; `function` is what the global of the
    /// name in `with` holds.
    Object { target: Slot, mode: Slot, with: Slot, function: Slot },
}

/// The list of functions to override, as the script gave it.
#[derive(Debug)]
pub enum OverrideManifest {
    /// There is none.
    Absent,
    /// It is no object.
    NotObject,
    /// Reading its functions threw an exception.
    FunctionsUnreadable,
    /// Its functions are no list.
    FunctionsNotArray,
    /// Its functions are these.
    Functions(Vec<OverrideEntry>),
}

/// The complaint about an entry.
pub open spec fn entry_problem(i: int, what: Seq<char>) -> Seq<char> {
    "functions["@ + decimal(i as nat) + "]"@ + what
}

/// The name of the function that an entry installs, or the first thing that is wrong with
/// the entry: only `discoverAccounts` may be overridden, only by replacing it, and only
/// with a function that exists.
pub open spec fn read_entry(entry: OverrideEntry, i: int) -> Result<Seq<char>, Seq<char>> {
    match entry {
        OverrideEntry::Threw => Err(entry_problem(i, " is invalid"@)),
        OverrideEntry::NotObject => Err(entry_problem(i, " must be an object"@)),
        OverrideEntry::Object { target, mode, with, function } => match slot_text(target) {
            None => Err(entry_problem(i, ".target is required"@)),
            Some(target) => if target != "discoverAccounts"@ {
                Err(
                    entry_problem(
                        i,
                        ".target '"@ + target + "' is not allowed (only 'discoverAccounts')"@,
                    ),
                )
            } else {
                match slot_text(mode) {
                    None => Err(entry_problem(i, ".mode is required"@)),
                    Some(mode) => if mode != "replace"@ {
                        Err(
                            entry_problem(
                                i,
                                ".mode '"@ + mode + "' is not allowed (only 'replace')"@,
                            ),
                        )
                    } else {
                        match slot_text(with) {
                            None => Err(entry_problem(i, ".with is required"@)),
                            Some(name) => match function {
                                Slot::Value(JsValue::Function) => Ok(name),
                                Slot::Threw | Slot::Value(JsValue::Undefined) | Slot::Value(
                                    JsValue::Null,
                                ) => Err(
                                    entry_problem(
                                        i,
                                        ".with '"@ + name + "' not found on globalThis"@,
                                    ),
                                ),
                                _ => Err(
                                    entry_problem(i, ".with '"@ + name + "' is not a function"@),
                                ),
                            },
                        }
                    },
                }
            },
        },
    }
}

/// The names of the functions that the entries install, or the first thing that is wrong
/// with them.
pub open spec fn read_entries(entries: Seq<OverrideEntry>) -> Result<Seq<Seq<char>>, Seq<char>>
    decreases entries.len(),
{
    if entries.len() == 0 {
        Ok(Seq::empty())
    } else {
        match read_entries(entries.drop_last()) {
            Err(message) => Err(message),
            Ok(before) => match read_entry(entries.last(), entries.len() - 1) {
                Err(message) => Err(message),
                Ok(name) => Ok(before.push(name)),
            },
        }
    }
}

/// The names of the functions to install, or the first thing that is wrong with the list.
pub open spec fn read_manifest(manifest: OverrideManifest) -> Result<Seq<Seq<char>>, Seq<char>> {
    match manifest {
        OverrideManifest::Absent => Ok(Seq::empty()),
        OverrideManifest::NotObject => Err("__openusage_function_overrides must be an object"@),
        OverrideManifest::FunctionsUnreadable => Err(
            "__openusage_function_overrides missing 'functions' field"@,
        ),
        OverrideManifest::FunctionsNotArray => Err(
            "__openusage_function_overrides.functions must be an array"@,
        ),
        OverrideManifest::Functions(entries) => read_entries(entries@),
    }
}

fn problem(i: usize, what: &str) -> (r: String)
    ensures
        r@ == entry_problem(i as int, what@),
{
    let mut out = "functions[".to_string();
    let number = decimal_text(i as u128);
    out.append(number.as_str());
    out.append("]");
    out.append(what);
    out
}

fn problem_with(i: usize, what: &str, name: &str, tail: &str) -> (r: String)
    ensures
        r@ == entry_problem(i as int, what@ + name@ + tail@),
{
    let mut all = what.to_string();
    all.append(name);
    all.append(tail);
    problem(i, all.as_str())
}

/// The name of the function that an entry installs, or the first thing that is wrong with
/// the entry.
pub fn check_override_entry(entry: &OverrideEntry, i: usize) -> (r: Result<String, String>)
    ensures
        match (r, read_entry(*entry, i as int)) {
            (Ok(name), Ok(expected)) => name@ == expected,
            (Err(message), Err(expected)) => message@ == expected,
            _ => false,
        },
{
    match entry {
        OverrideEntry::Threw => Err(problem(i, " is invalid")),
        OverrideEntry::NotObject => Err(problem(i, " must be an object")),
        OverrideEntry::Object { target, mode, with, function } => {
            let target = match target.text() {
                Some(text) => text,
                None => {
                    return Err(problem(i, ".target is required"));
                },
            };
            if !same(target.as_str(), "discoverAccounts") {
                return Err(
                    problem_with(
                        i,
                        ".target '",
                        target.as_str(),
                        "' is not allowed (only 'discoverAccounts')",
                    ),
                );
            }
            let mode = match mode.text() {
                Some(text) => text,
                None => {
                    return Err(problem(i, ".mode is required"));
                },
            };
            if !same(mode.as_str(), "replace") {
                return Err(
                    problem_with(i, ".mode '", mode.as_str(), "' is not allowed (only 'replace')"),
                );
            }
            let name = match with.text() {
                Some(text) => text,
                None => {
                    return Err(problem(i, ".with is required"));
                },
            };
            match function {
                Slot::Value(JsValue::Function) => Ok(name),
                Slot::Threw | Slot::Value(JsValue::Undefined) | Slot::Value(JsValue::Null) => Err(
                    problem_with(i, ".with '", name.as_str(), "' not found on globalThis"),
                ),
                _ => Err(problem_with(i, ".with '", name.as_str(), "' is not a function")),
            }
        },
    }
}

/// The names of the functions to install in place of `discoverAccounts`, in order, or the
/// first thing that is wrong with the list.
pub fn apply_function_overrides(manifest: &OverrideManifest) -> (r: Result<Vec<String>, JsError>)
    ensures
        match (r, read_manifest(*manifest)) {
            (Ok(names), Ok(expected)) => views(names@) == expected,
            (Err(error), Err(expected)) => error@ == plain_failure(
                LifecycleStage::OverrideManifest,
                expected,
            ),
            _ => false,
        },
{
    let mut names: Vec<String> = Vec::new();
    assert(views(names@) =~= Seq::<Seq<char>>::empty());
    match manifest {
        OverrideManifest::Absent => Ok(names),
        OverrideManifest::NotObject => Err(
            JsError::new(
                LifecycleStage::OverrideManifest,
                "__openusage_function_overrides must be an object",
            ),
        ),
        OverrideManifest::FunctionsUnreadable => Err(
            JsError::new(
                LifecycleStage::OverrideManifest,
                "__openusage_function_overrides missing 'functions' field",
            ),
        ),
        OverrideManifest::FunctionsNotArray => Err(
            JsError::new(
                LifecycleStage::OverrideManifest,
                "__openusage_function_overrides.functions must be an array",
            ),
        ),
        OverrideManifest::Functions(entries) => {
            let mut i: usize = 0;
            assert(entries@.take(0) =~= Seq::<OverrideEntry>::empty());
            while i < entries.len()
                invariant
                    i <= entries@.len(),
                    *manifest == OverrideManifest::Functions(*entries),
                    read_entries(entries@.take(i as int)) == Ok::<Seq<Seq<char>>, Seq<char>>(
                        views(names@),
                    ),
                decreases entries@.len() - i,
            {
                let ghost next = entries@.take(i + 1);
                assert(next.drop_last() =~= entries@.take(i as int));
                assert(next.last() == entries@[i as int]);
                match check_override_entry(&entries[i], i) {
                    Err(message) => {
                        proof {
                            assert(read_entries(next) == Err::<Seq<Seq<char>>, Seq<char>>(
                                message@,
                            ));
                            lemma_first_complaint_stays(entries@, i + 1);
                        }
                        return Err(
                            JsError::new(LifecycleStage::OverrideManifest, message.as_str()),
                        );
                    },
                    Ok(name) => {
                        let ghost before = names@;
                        names.push(name);
                        assert(views(names@) =~= views(before).push(name@));
                    },
                }
                i = i + 1;
            }
            assert(entries@.take(entries@.len() as int) =~= entries@);
            Ok(names)
        },
    }
}

proof fn lemma_first_complaint_stays(entries: Seq<OverrideEntry>, n: int)
    requires
        0 <= n <= entries.len(),
        read_entries(entries.take(n)) is Err,
    ensures
        read_entries(entries) == read_entries(entries.take(n)),
    decreases entries.len() - n,
{
    if n < entries.len() {
        assert(entries.take(n + 1).drop_last() =~= entries.take(n));
        lemma_first_complaint_stays(entries, n + 1);
    } else {
        assert(entries.take(n) =~= entries);
    }
}

/// Nothing but `discoverAccounts` is ever replaced, and only with a function that exists.
pub proof fn law_only_discovery_is_replaced(entry: OverrideEntry, i: int)
    requires
        read_entry(entry, i) is Ok,
    ensures
        entry matches OverrideEntry::Object { target, mode, with, function } && slot_text(target)
            == Some("discoverAccounts"@) && slot_text(mode) == Some("replace"@) && function
            == Slot::Value(JsValue::Function),
{
}

/// Why a function could not be installed.
#[derive(Debug)]
pub enum InstallFailure {
    /// There is no `__openusage_override`.
    NoOverrideObject,
    /// It has no `replaceDiscoverAccounts`.
    NoReplaceFunction,
    /// Calling it threw an exception.
    CallThrew(Caught),
}

/// The failure to install a function.
pub fn install_failure(failure: &InstallFailure) -> (r: JsError)
    ensures
        r@ == match *failure {
            InstallFailure::NoOverrideObject => plain_failure(
                LifecycleStage::OverrideManifest,
                "__openusage_override not found"@,
            ),
            InstallFailure::NoReplaceFunction => plain_failure(
                LifecycleStage::OverrideManifest,
                "replaceDiscoverAccounts not found on __openusage_override"@,
            ),
            InstallFailure::CallThrew(caught) => caught_failure(
                caught,
                LifecycleStage::OverrideManifest,
            ),
        },
{
    match failure {
        InstallFailure::NoOverrideObject => JsError::new(
            LifecycleStage::OverrideManifest,
            "__openusage_override not found",
        ),
        InstallFailure::NoReplaceFunction => JsError::new(
            LifecycleStage::OverrideManifest,
            "replaceDiscoverAccounts not found on __openusage_override",
        ),
        InstallFailure::CallThrew(caught) => extract_js_error(
            caught,
            LifecycleStage::OverrideManifest,
        ),
    }
}

} // verus!
