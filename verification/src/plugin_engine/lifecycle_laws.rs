//! What holds of the steps in which a plugin and its override are brought up.

use crate::plugin_engine::js_value::{Caught, JsValue, Slot};
use crate::plugin_engine::line_laws::{holds, shows_if_any};
use crate::plugin_engine::override_lifecycle::{
    apply_function_overrides, check_override_entry, extract_js_error, install_failure,
    lifecycle_failure, lifecycle_plan, promise_failure, read_entries, read_entry, stage_name,
    stage_of, InstallFailure, JsError, LifecycleAction, LifecycleStage, OverrideEntry,
    OverrideLifecycleError, OverrideManifest, PromiseFailure,
};
use crate::text::{decimal, views};
use vstd::prelude::*;

verus! {

/// True if a failure is known by a message alone.
pub open spec fn is_plain(error: JsError, stage: LifecycleStage, message: Seq<char>) -> bool {
    error.stage == stage && error.message@ == message && error.error_name is None && error.stack
        is None
}

/// True if a property holds a text that is not empty.
pub open spec fn is_said(slot: Slot) -> bool {
    slot matches Slot::Value(JsValue::Text(own)) && own@.len() > 0
}

/// True if a failure says what was thrown, at the stage where it was: a text is the message,
/// and an error gives its message, its name and its stack; the name stands for a message that
/// is missing.
pub open spec fn says_what_was_thrown(
    error: JsError,
    caught: Caught,
    stage: LifecycleStage,
) -> bool {
    match caught {
        Caught::Text(text) => if text@.len() > 0 {
            is_plain(error, stage, text@)
        } else {
            is_plain(error, stage, "unknown error"@)
        },
        Caught::Object { name, message, stack } => if is_said(message) {
            &&& error.stage == stage
            &&& holds(message, error.message@)
            &&& error.error_name is Some <==> is_said(name)
            &&& error.error_name matches Some(own) ==> holds(name, own@)
            &&& shows_if_any(error.stack, stack)
        } else if is_said(name) {
            &&& error.stage == stage
            &&& holds(name, error.message@)
            &&& error.error_name matches Some(own) && holds(name, own@)
            &&& shows_if_any(error.stack, stack)
        } else {
            is_plain(error, stage, "unknown error"@)
        },
        _ => is_plain(error, stage, "unknown error"@),
    }
}

/// A failure says what was thrown.
pub proof fn law_failure_says_what_was_thrown(caught: &Caught, stage: LifecycleStage, r: JsError)
    requires
        call_ensures(extract_js_error, (caught, stage), r),
    ensures
        says_what_was_thrown(r, *caught, stage),
{
}

/// The same holds of a failure that is made of what was caught.
pub proof fn law_caught_failure_says_what_was_thrown(
    stage: LifecycleStage,
    caught: &Caught,
    r: JsError,
)
    requires
        call_ensures(JsError::from_caught, (stage, caught), r),
    ensures
        says_what_was_thrown(r, *caught, stage),
{
}

/// A failure as text names its stage in brackets, then the error if it has a name, then the
/// message.
pub proof fn law_failure_is_written_out(error: &JsError, stage: &'static str, r: String)
    requires
        call_ensures(JsError::display, (error,), r),
        call_ensures(LifecycleStage::as_str, (error.stage,), stage),
    ensures
        error.error_name is None ==> r@ == "["@ + stage@ + "] "@ + error.message@,
        error.error_name matches Some(name) ==> r@ == "["@ + stage@ + "] "@ + name@ + ": "@
            + error.message@,
{
}

/// A failure of the bringing up is written out as what was thrown is, whatever was being done.
pub proof fn law_lifecycle_failure_is_written_out(
    error: &OverrideLifecycleError,
    shown: String,
    r: String,
)
    requires
        call_ensures(OverrideLifecycleError::display, (error,), r),
        match *error {
            OverrideLifecycleError::Transform(cause) => call_ensures(
                JsError::display,
                (&cause,),
                shown,
            ),
            OverrideLifecycleError::PluginEval(cause) => call_ensures(
                JsError::display,
                (&cause,),
                shown,
            ),
            OverrideLifecycleError::OverrideApiInject(cause) => call_ensures(
                JsError::display,
                (&cause,),
                shown,
            ),
            OverrideLifecycleError::OverrideEval(cause) => call_ensures(
                JsError::display,
                (&cause,),
                shown,
            ),
            OverrideLifecycleError::OverrideManifest(cause) => call_ensures(
                JsError::display,
                (&cause,),
                shown,
            ),
            OverrideLifecycleError::Hook(cause) => call_ensures(
                JsError::display,
                (&cause,),
                shown,
            ),
        },
    ensures
        r@ == shown@,
{
}

/// Each stage has a name of its own.
pub proof fn law_stage_names_differ(a: LifecycleStage, b: LifecycleStage)
    ensures
        stage_name(a) == stage_name(b) <==> a == b,
        stage_name(LifecycleStage::PluginEval) == "plugin_eval"@,
        stage_name(LifecycleStage::OverrideEval) == "override_eval"@,
        stage_name(LifecycleStage::Transform) == "transform"@,
        stage_name(LifecycleStage::OverrideBootstrap) == "override_bootstrap"@,
        stage_name(LifecycleStage::OverrideManifest) == "override_manifest"@,
{
    reveal_strlit("harness");
    reveal_strlit("setup");
    reveal_strlit("transform");
    reveal_strlit("plugin_eval");
    reveal_strlit("override_bootstrap");
    reveal_strlit("override_eval");
    reveal_strlit("override_manifest");
    reveal_strlit("execution");
    reveal_strlit("result_decode");
    reveal_strlit("runtime");
    reveal_strlit("context");
    assert("harness"@.len() == 7 && "runtime"@.len() == 7 && "context"@.len() == 7);
    assert("harness"@[0] == 'h' && "runtime"@[0] == 'r' && "context"@[0] == 'c');
    assert("transform"@.len() == 9 && "execution"@.len() == 9);
    assert("transform"@[0] == 't' && "execution"@[0] == 'e');
    assert("override_eval"@.len() == 13 && "result_decode"@.len() == 13);
    assert("override_eval"@[0] == 'o' && "result_decode"@[0] == 'r');
    assert("setup"@.len() == 5 && "plugin_eval"@.len() == 11);
    assert("override_bootstrap"@.len() == 18 && "override_manifest"@.len() == 17);
}

/// A step that fails is reported under what was being done, with what was thrown, and each
/// step but the hooks has a stage of its own.
pub proof fn law_step_fails_under_its_own_name(
    action: LifecycleAction,
    cause: JsError,
    stage: Option<LifecycleStage>,
    r: OverrideLifecycleError,
)
    requires
        call_ensures(lifecycle_failure, (action, cause), r),
        call_ensures(stage_of, (action,), stage),
    ensures
        r == OverrideLifecycleError::Transform(cause) <==> stage == Some(LifecycleStage::Transform),
        r == OverrideLifecycleError::PluginEval(cause) <==> stage == Some(
            LifecycleStage::PluginEval,
        ),
        r == OverrideLifecycleError::OverrideApiInject(cause) <==> stage == Some(
            LifecycleStage::OverrideBootstrap,
        ),
        r == OverrideLifecycleError::OverrideEval(cause) <==> stage == Some(
            LifecycleStage::OverrideEval,
        ),
        r == OverrideLifecycleError::OverrideManifest(cause) <==> stage == Some(
            LifecycleStage::OverrideManifest,
        ),
        r == OverrideLifecycleError::Hook(cause) <==> stage is None,
        stage is None <==> action == LifecycleAction::RunBeforeHook || action
            == LifecycleAction::RunAfterHook,
        stage == Some(LifecycleStage::Transform) <==> action == LifecycleAction::Transform,
        stage == Some(LifecycleStage::PluginEval) <==> action == LifecycleAction::EvalPlugin,
        stage == Some(LifecycleStage::OverrideBootstrap) <==> action
            == LifecycleAction::InjectOverrideApi,
        stage == Some(LifecycleStage::OverrideEval) <==> action == LifecycleAction::EvalOverride,
{
}

/// The number that a step has in the order of all steps.
pub open spec fn rank(action: LifecycleAction) -> int {
    match action {
        LifecycleAction::RunBeforeHook => 0,
        LifecycleAction::Transform => 1,
        LifecycleAction::EvalPlugin => 2,
        LifecycleAction::InjectOverrideApi => 3,
        LifecycleAction::EvalOverride => 4,
        LifecycleAction::ApplyFunctionOverrides => 5,
        LifecycleAction::RunAfterHook => 6,
    }
}

/// True if a step has to be taken.
pub open spec fn is_due(
    action: LifecycleAction,
    has_before: bool,
    has_override: bool,
    has_after: bool,
) -> bool {
    match action {
        LifecycleAction::RunBeforeHook => has_before,
        LifecycleAction::RunAfterHook => has_after,
        LifecycleAction::Transform | LifecycleAction::EvalPlugin => true,
        _ => has_override,
    }
}

/// A plan holds each step that has to be taken, once, and no other, in the order of all steps.
pub proof fn law_steps_are_taken_in_order(
    has_before: bool,
    has_override: bool,
    has_after: bool,
    r: Vec<LifecycleAction>,
)
    requires
        call_ensures(lifecycle_plan, (has_before, has_override, has_after), r),
    ensures
        forall|i: int, j: int|
            0 <= i < j < r@.len() ==> rank(#[trigger] r@[i]) < rank(#[trigger] r@[j]),
        forall|action: LifecycleAction| #[trigger]
            r@.contains(action) <==> is_due(action, has_before, has_override, has_after),
{
    assert forall|action: LifecycleAction| #[trigger]
        r@.contains(action) <==> is_due(action, has_before, has_override, has_after) by {
        let first: int = if has_before {
            1
        } else {
            0
        };
        if is_due(action, has_before, has_override, has_after) {
            let after: int = if has_override {
                first + 5
            } else {
                first + 2
            };
            match action {
                LifecycleAction::RunBeforeHook => assert(r@[0] == action),
                LifecycleAction::Transform => assert(r@[first] == action),
                LifecycleAction::EvalPlugin => assert(r@[first + 1] == action),
                LifecycleAction::InjectOverrideApi => assert(r@[first + 2] == action),
                LifecycleAction::EvalOverride => assert(r@[first + 3] == action),
                LifecycleAction::ApplyFunctionOverrides => assert(r@[first + 4] == action),
                LifecycleAction::RunAfterHook => assert(r@[after] == action),
            }
        }
    }
}

/// A promise that gave no result is a failure at its stage: one that was rejected says what
/// was thrown.
pub proof fn law_promise_failure_says_why(
    stage: LifecycleStage,
    failure: &PromiseFailure,
    r: JsError,
)
    requires
        call_ensures(promise_failure, (stage, failure), r),
    ensures
        *failure is Invalid ==> is_plain(r, stage, "returned invalid promise"@),
        *failure is Unresolved ==> is_plain(r, stage, "returned unresolved promise"@),
        *failure matches PromiseFailure::Rejected(caught) ==> says_what_was_thrown(
            r,
            caught,
            stage,
        ),
{
}

/// True if an entry installs the function of a name: it replaces `discoverAccounts`, and by a
/// function that exists.
pub open spec fn installs(entry: OverrideEntry, name: Seq<char>) -> bool {
    match entry {
        OverrideEntry::Object { target, mode, with, function } => holds(
            target,
            "discoverAccounts"@,
        ) && holds(mode, "replace"@) && holds(with, name) && function == Slot::Value(
            JsValue::Function,
        ),
        _ => false,
    }
}

/// An entry installs a function exactly where it replaces `discoverAccounts` by one that
/// exists; whatever is wrong with it otherwise is said with its index.
pub proof fn law_entry_installs_its_function(
    entry: &OverrideEntry,
    i: usize,
    r: Result<String, String>,
)
    requires
        call_ensures(check_override_entry, (entry, i), r),
    ensures
        r matches Ok(name) ==> installs(*entry, name@),
        forall|name: Seq<char>| #[trigger]
            installs(*entry, name) ==> (r matches Ok(own) && own@ == name),
        r matches Err(message) ==> ({
            let at = "functions["@ + decimal(i as nat) + "]"@;
            match *entry {
                OverrideEntry::Threw => message@ == at + " is invalid"@,
                OverrideEntry::NotObject => message@ == at + " must be an object"@,
                OverrideEntry::Object { target, mode, with, function } => {
                    &&& !(target matches Slot::Value(JsValue::Text(_))) ==> message@ == at
                        + ".target is required"@
                    &&& forall|own: Seq<char>| #[trigger]
                        holds(target, own) && own != "discoverAccounts"@ ==> message@ == at
                            + (".target '"@ + own + "' is not allowed (only 'discoverAccounts')"@)
                    &&& holds(target, "discoverAccounts"@) ==> {
                        &&& !(mode matches Slot::Value(JsValue::Text(_))) ==> message@ == at
                            + ".mode is required"@
                        &&& forall|own: Seq<char>| #[trigger]
                            holds(mode, own) && own != "replace"@ ==> message@ == at + (".mode '"@
                                + own + "' is not allowed (only 'replace')"@)
                        &&& holds(mode, "replace"@) && !(with matches Slot::Value(
                            JsValue::Text(_),
                        )) ==> message@ == at + ".with is required"@
                        &&& forall|own: Seq<char>|
                            holds(mode, "replace"@) && #[trigger] holds(with, own) ==> message@
                                == at + (".with '"@ + own + (if function is Threw || function
                                == Slot::Value(JsValue::Undefined) || function == Slot::Value(
                                JsValue::Null,
                            ) {
                                "' not found on globalThis"@
                            } else {
                                "' is not a function"@
                            }))
                    }
                },
            }
        }),
{
}

proof fn lemma_entries_are_read(entries: Seq<OverrideEntry>)
    ensures
        read_entries(entries) is Ok <==> forall|i: int|
            0 <= i < entries.len() ==> read_entry(#[trigger] entries[i], i) is Ok,
        read_entries(entries) matches Ok(names) ==> names.len() == entries.len() && forall|i: int|
            0 <= i < entries.len() ==> read_entry(#[trigger] entries[i], i) == Ok::<
                Seq<char>,
                Seq<char>,
            >(names[i]),
    decreases entries.len(),
{
    if entries.len() > 0 {
        let init = entries.drop_last();
        lemma_entries_are_read(init);
        assert forall|i: int| 0 <= i < init.len() implies init[i] == #[trigger] entries[i] by {}
        if forall|i: int| 0 <= i < entries.len() ==> read_entry(#[trigger] entries[i], i) is Ok {
            assert forall|i: int| 0 <= i < init.len() implies read_entry(
                #[trigger] init[i],
                i,
            ) is Ok by {
                assert(read_entry(entries[i], i) is Ok);
            }
            assert(read_entry(entries[entries.len() - 1], entries.len() - 1) is Ok);
        }
    }
}

/// True if an entry installs a function.
pub open spec fn installs_some(entry: OverrideEntry) -> bool {
    exists|name: Seq<char>| installs(entry, name)
}

/// The functions of a list are installed in order, all of them or none: a list is accepted
/// exactly where each entry installs a function, and one that is not there installs none.
pub proof fn law_functions_are_installed_in_order(
    manifest: &OverrideManifest,
    r: Result<Vec<String>, JsError>,
)
    requires
        call_ensures(apply_function_overrides, (manifest,), r),
    ensures
        *manifest is Absent ==> (r matches Ok(names) && names@.len() == 0),
        *manifest matches OverrideManifest::Functions(entries) ==> {
            &&& r is Ok <==> forall|i: int|
                0 <= i < entries@.len() ==> installs_some(#[trigger] entries@[i])
            &&& r matches Ok(names) ==> names@.len() == entries@.len() && forall|i: int|
                0 <= i < entries@.len() ==> installs(#[trigger] entries@[i], names@[i]@)
        },
        *manifest is NotObject ==> (r matches Err(error) && is_plain(
            error,
            LifecycleStage::OverrideManifest,
            "__openusage_function_overrides must be an object"@,
        )),
        *manifest is FunctionsUnreadable ==> (r matches Err(error) && is_plain(
            error,
            LifecycleStage::OverrideManifest,
            "__openusage_function_overrides missing 'functions' field"@,
        )),
        *manifest is FunctionsNotArray ==> (r matches Err(error) && is_plain(
            error,
            LifecycleStage::OverrideManifest,
            "__openusage_function_overrides.functions must be an array"@,
        )),
{
    if let Ok(names) = r {
        let seen = views(names@);
        assert(seen.len() == names@.len());
        assert forall|i: int| 0 <= i < names@.len() implies seen[i] == (#[trigger] names@[i])@ by {}
    }
    if let OverrideManifest::Functions(entries) = *manifest {
        lemma_entries_are_read(entries@);
        assert forall|i: int| 0 <= i < entries@.len() implies (installs_some(
            #[trigger] entries@[i],
        ) <==> read_entry(entries@[i], i) is Ok) by {
            if read_entry(entries@[i], i) is Ok {
                assert(installs(entries@[i], read_entry(entries@[i], i)->Ok_0));
            }
        }
        if let Ok(names) = r {
            assert forall|i: int| 0 <= i < entries@.len() implies installs(
                #[trigger] entries@[i],
                names@[i]@,
            ) by {
                assert(read_entry(entries@[i], i) is Ok);
                assert(views(names@)[i] == names@[i]@);
            }
        }
    }
}

/// A function that could not be installed is a failure of the list, and says why.
pub proof fn law_install_failure_says_why(failure: &InstallFailure, r: JsError)
    requires
        call_ensures(install_failure, (failure,), r),
    ensures
        *failure is NoOverrideObject ==> is_plain(
            r,
            LifecycleStage::OverrideManifest,
            "__openusage_override not found"@,
        ),
        *failure is NoReplaceFunction ==> is_plain(
            r,
            LifecycleStage::OverrideManifest,
            "replaceDiscoverAccounts not found on __openusage_override"@,
        ),
        *failure matches InstallFailure::CallThrew(caught) ==> says_what_was_thrown(
            r,
            caught,
            LifecycleStage::OverrideManifest,
        ),
{
}

/// A failure that is known by its message has no name and no stack.
pub proof fn law_plain_failure_has_a_message_alone(
    stage: LifecycleStage,
    message: &str,
    r: JsError,
)
    requires
        call_ensures(JsError::new, (stage, message), r),
    ensures
        is_plain(r, stage, message@),
{
}

} // verus!
