//! What holds of the reports on a plugin, however asking it went.

use crate::lexical_path::{
    here_part, is_plain_part, join_path, law_name_is_one_component, path_views, LexicalPath,
};
use crate::outside::{json_chars, json_string_text};
use crate::plugin_engine::account_laws::{is_default_account, is_failure_report, is_left_out};
use crate::plugin_engine::accounts::{AccountPlan, ErrorPolicy};
use crate::plugin_engine::js_value::{JsValue, Slot};
use crate::plugin_engine::line_laws::is_error_badge;
use crate::plugin_engine::lines::parse_lines;
use crate::plugin_engine::manifest::LoadedPlugin;
use crate::plugin_engine::output::{
    error_output, error_output_with_account, has_error_line, line_views, output_views, AccountRef,
    MetricLine, OutputView, PluginOutput,
};
use crate::plugin_engine::override_lifecycle::OverrideLifecycleError;
use crate::plugin_engine::runtime::{
    begin_provider, build_plugin_output, finish_discovery, lifecycle_error_message,
    load_plugin_override, outcome_report, override_bootstrap_script, override_candidates,
    override_script_with, probe_output, resolve_plugin_override_path, result_failure_text,
    run_failure_output, shown_reports, single_account_output, ProbeObject, ProbeOutcome,
    ProviderStart, ProviderStep, ResultFailure, RunFailure, OVERRIDE_SCRIPT_HEAD,
    OVERRIDE_SCRIPT_TAIL,
};
use crate::text::{is_blank, opt_view};
use crate::watch_event::first_accepted;
use vstd::prelude::*;

verus! {

/// True if two accounts are the same, in every part.
pub open spec fn is_same_account(a: AccountRef, b: AccountRef) -> bool {
    &&& a.id@ == b.id@
    &&& a.origin@ == b.origin@
    &&& a.is_active == b.is_active
    &&& opt_view(a.name) == opt_view(b.name)
}

/// True if a report has the plan that a script named, unless that is empty.
pub open spec fn has_plan(output: PluginOutput, given: ProbeObject) -> bool {
    match given.plan {
        Slot::Value(JsValue::Text(name)) => if name@.len() > 0 {
            output.plan matches Some(plan) && plan@ == name@
        } else {
            output.plan is None
        },
        _ => output.plan is None,
    }
}

/// True if a report has the lines that a script returned, or one line that says what is wrong
/// with them. `read` is what comes of reading these lines.
pub open spec fn has_lines(
    output: PluginOutput,
    given: ProbeObject,
    read: Result<Vec<MetricLine>, String>,
) -> bool {
    match read {
        Ok(lines) => if lines@.len() > 0 {
            output.lines@.len() == lines@.len() && forall|k: int|
                0 <= k < lines@.len() ==> (#[trigger] output.lines@[k])@ == lines@[k]@
        } else {
            output.lines@.len() == 1 && is_error_badge(output.lines@[0], "no lines returned"@)
        },
        Err(message) => output.lines@.len() == 1 && is_error_badge(output.lines@[0], message@),
    }
}

proof fn lemma_lines_of(output: PluginOutput)
    ensures
        output@.lines.len() == output.lines@.len(),
        forall|k: int|
            0 <= k < output.lines@.len() ==> (#[trigger] output.lines@[k])@ == output@.lines[k],
{
}

/// A report carries the plugin, the account that was asked for, the plan that the script
/// named unless it is empty, and the lines that it returned: nothing that a script returns
/// changes of whom the report speaks.
pub proof fn law_report_is_what_was_returned(
    result: &ProbeObject,
    plugin_id: &str,
    display_name: &str,
    icon_url: &str,
    account: Option<&AccountRef>,
    read: Result<Vec<MetricLine>, String>,
    r: PluginOutput,
)
    requires
        call_ensures(build_plugin_output, (result, plugin_id, display_name, icon_url, account), r),
        call_ensures(parse_lines, (&result.lines,), read),
    ensures
        r.provider_id@ == plugin_id@,
        r.display_name@ == display_name@,
        r.icon_url@ == icon_url@,
        account matches Some(asked) ==> is_same_account(r.account, *asked),
        account is None ==> is_default_account(r.account),
        has_plan(r, *result),
        has_lines(r, *result, read),
{
    lemma_lines_of(r);
    if let Ok(lines) = read {
        let seen = line_views(lines@);
        assert forall|k: int| 0 <= k < lines@.len() implies seen[k] == (#[trigger] lines@[k])@ by {}
        assert(seen.len() == lines@.len());
        if lines@.len() > 0 {
            assert forall|k: int| 0 <= k < lines@.len() implies (#[trigger] r.lines@[k])@
                == lines@[k]@ by {
                assert(r@.lines[k] == seen[k]);
            }
        }
    }
}

/// True if a report on an account speaks of a failure.
pub open spec fn reports_failure(
    output: PluginOutput,
    plugin: LoadedPlugin,
    message: Seq<char>,
    account: AccountRef,
) -> bool {
    &&& output.provider_id@ == plugin.manifest.id@
    &&& output.display_name@ == plugin.manifest.name@
    &&& output.icon_url@ == plugin.icon_data_url@
    &&& output.plan is None
    &&& output.lines@.len() == 1
    &&& is_error_badge(output.lines@[0], message)
    &&& is_same_account(output.account, account)
}

/// What came of asking a plugin for an account is reported on that account: a failure with
/// its reason, and else what the script returned.
pub proof fn law_outcome_is_reported_on_its_account(
    plugin: &LoadedPlugin,
    outcome: &ProbeOutcome,
    account: &AccountRef,
    r: PluginOutput,
)
    requires
        call_ensures(probe_output, (plugin, outcome, account), r),
    ensures
        *outcome is NoContext ==> reports_failure(
            r,
            *plugin,
            "failed to create account context"@,
            *account,
        ),
        *outcome matches ProbeOutcome::Failed(reason) ==> reports_failure(
            r,
            *plugin,
            reason@,
            *account,
        ),
        *outcome matches ProbeOutcome::Returned(result) ==> r.provider_id@ == plugin.manifest.id@
            && r.display_name@ == plugin.manifest.name@ && r.icon_url@ == plugin.icon_data_url@
            && is_same_account(r.account, *account) && has_plan(r, result),
        *outcome matches ProbeOutcome::Returned(result) ==> forall|
            read: Result<Vec<MetricLine>, String>,
        |
            call_ensures(parse_lines, (&result.lines,), read) ==> has_lines(r, result, read),
{
    lemma_lines_of(r);
    if let ProbeOutcome::Returned(result) = *outcome {
        assert forall|read: Result<Vec<MetricLine>, String>|
            call_ensures(parse_lines, (&result.lines,), read) implies has_lines(
            r,
            result,
            read,
        ) by {
            if let Ok(lines) = read {
                let seen = line_views(lines@);
                assert forall|k: int| 0 <= k < lines@.len() implies seen[k] == (
                #[trigger] lines@[k])@ by {}
                assert(seen.len() == lines@.len());
                if lines@.len() > 0 {
                    assert forall|k: int| 0 <= k < lines@.len() implies (#[trigger] r.lines@[k])@
                        == lines@[k]@ by {
                        assert(r@.lines[k] == seen[k]);
                    }
                }
            }
        }
    }
}

/// A plugin that discovers no accounts is reported on as the default account would be.
pub proof fn law_single_account_is_the_default(
    plugin: &LoadedPlugin,
    outcome: &ProbeOutcome,
    account: &AccountRef,
    other: PluginOutput,
    r: PluginOutput,
)
    requires
        call_ensures(single_account_output, (plugin, outcome), r),
        call_ensures(probe_output, (plugin, outcome, account), other),
        is_default_account(*account),
    ensures
        r@ == other@,
{
    assert(account@ =~= crate::plugin_engine::output::default_account_view());
}

/// A failure is reported with its reason, on the account that it happened to.
pub proof fn law_failure_is_reported_on_its_account(
    plugin: &LoadedPlugin,
    message: String,
    account: &AccountRef,
    r: PluginOutput,
)
    requires
        call_ensures(error_output_with_account, (plugin, message, account), r),
    ensures
        reports_failure(r, *plugin, message@, *account),
{
    lemma_lines_of(r);
}

/// True if the report on an account may be left out: there are other accounts, the account
/// asked for that, and it does not come from `opencode`.
pub open spec fn may_be_left_out(plan: AccountPlan, count: nat) -> bool {
    count > 1 && plan.error_policy == ErrorPolicy::HideIfOtherAccount && plan.output.origin@
        != "opencode"@
}

/// True if `at` are the places of the accounts that reports speak of, in order.
pub open spec fn are_places(at: Seq<int>, n: int) -> bool {
    &&& forall|k: int| 0 <= k < at.len() ==> 0 <= #[trigger] at[k] < n
    &&& forall|k: int, l: int| 0 <= k < l < at.len() ==> #[trigger] at[k] < #[trigger] at[l]
}

/// True if the report in a place is the report on what came of asking for its account.
pub open spec fn is_report_at(
    shown: Seq<OutputView>,
    k: int,
    plugin: LoadedPlugin,
    plans: Seq<AccountPlan>,
    outcomes: Seq<ProbeOutcome>,
    i: int,
) -> bool {
    shown[k] == outcome_report(plugin, outcomes[i], plans[i].output@)
}

spec fn shown_places(
    plugin: LoadedPlugin,
    plans: Seq<AccountPlan>,
    outcomes: Seq<ProbeOutcome>,
    n: int,
) -> Seq<int>
    decreases n,
{
    if n <= 0 {
        Seq::empty()
    } else {
        let before = shown_places(plugin, plans, outcomes, n - 1);
        let report = outcome_report(plugin, outcomes[n - 1], plans[n - 1].output@);
        if crate::plugin_engine::runtime::is_hidden(
            report,
            plans[n - 1].error_policy,
            plans.len() as int,
        ) {
            before
        } else {
            before.push(n - 1)
        }
    }
}

/// True if the report on what came of asking holds an error.
pub open spec fn went_wrong(plugin: LoadedPlugin, plan: AccountPlan, outcome: ProbeOutcome) -> bool {
    crate::plugin_engine::output::is_error_report(outcome_report(plugin, outcome, plan.output@))
}

proof fn lemma_shown_places(
    plugin: LoadedPlugin,
    plans: Seq<AccountPlan>,
    outcomes: Seq<ProbeOutcome>,
    n: int,
)
    requires
        0 <= n <= plans.len(),
    ensures
        ({
            let at = shown_places(plugin, plans, outcomes, n);
            let shown = shown_reports(plugin, plans, outcomes, n);
            &&& at.len() == shown.len()
            &&& are_places(at, n)
            &&& forall|k: int|
                0 <= k < at.len() ==> is_report_at(
                    shown,
                    k,
                    plugin,
                    plans,
                    outcomes,
                    #[trigger] at[k],
                )
            &&& forall|i: int|
                0 <= i < n ==> (#[trigger] at.contains(i) <==> !(may_be_left_out(
                    plans[i],
                    plans.len(),
                ) && went_wrong(plugin, plans[i], outcomes[i])))
        }),
    decreases n,
{
    if n > 0 {
        lemma_shown_places(plugin, plans, outcomes, n - 1);
        let before = shown_places(plugin, plans, outcomes, n - 1);
        let at = shown_places(plugin, plans, outcomes, n);
        let shown = shown_reports(plugin, plans, outcomes, n);
        let old_shown = shown_reports(plugin, plans, outcomes, n - 1);
        assert forall|i: int| 0 <= i < n implies (#[trigger] at.contains(i) <==> !(may_be_left_out(
            plans[i],
            plans.len(),
        ) && went_wrong(plugin, plans[i], outcomes[i]))) by {
            if i < n - 1 {
                assert(before.contains(i) <==> !(may_be_left_out(plans[i], plans.len())
                    && went_wrong(plugin, plans[i], outcomes[i])));
                if before.contains(i) {
                    let k = choose|k: int| 0 <= k < before.len() && before[k] == i;
                    assert(at[k] == i);
                }
                if at.contains(i) {
                    let k = choose|k: int| 0 <= k < at.len() && at[k] == i;
                    assert(k < before.len());
                    assert(before[k] == i);
                }
            } else {
                if at.len() > before.len() {
                    assert(at[before.len() as int] == n - 1);
                } else {
                    assert(!at.contains(n - 1)) by {
                        if at.contains(n - 1) {
                            let k = choose|k: int| 0 <= k < at.len() && at[k] == n - 1;
                            assert(before[k] == n - 1);
                        }
                    }
                }
            }
        }
        assert forall|k: int| 0 <= k < at.len() implies is_report_at(
            shown,
            k,
            plugin,
            plans,
            outcomes,
            #[trigger] at[k],
        ) by {
            if k < before.len() {
                assert(at[k] == before[k]);
                assert(is_report_at(old_shown, k, plugin, plans, outcomes, before[k]));
            }
        }
        assert forall|k: int, l: int| 0 <= k < l < at.len() implies #[trigger] at[k]
            < #[trigger] at[l] by {
            if l < before.len() {
                assert(at[k] == before[k] && at[l] == before[l]);
            } else {
                assert(at[k] == before[k]);
            }
        }
        assert forall|k: int| 0 <= k < at.len() implies 0 <= #[trigger] at[k] < n by {
            if k < before.len() {
                assert(at[k] == before[k]);
            }
        }
    }
}

/// The reports on the accounts are shown in their order, each on its own account. One is left
/// out only where it holds an error, the account asked for that, there are other accounts and
/// it does not come from `opencode`; and then it always is.
pub proof fn law_only_unwanted_errors_are_left_out(
    plugin: &LoadedPlugin,
    plans: &Vec<AccountPlan>,
    outcomes: &Vec<ProbeOutcome>,
    r: Vec<PluginOutput>,
)
    requires
        plans@.len() == outcomes@.len(),
        call_ensures(finish_discovery, (plugin, plans, outcomes), r),
    ensures
        exists|at: Seq<int>| #[trigger]
            are_places(at, plans@.len() as int) && at.len() == r@.len() && (forall|k: int|
                0 <= k < at.len() ==> is_report_at(
                    output_views(r@),
                    k,
                    *plugin,
                    plans@,
                    outcomes@,
                    #[trigger] at[k],
                )) && (forall|i: int|
                0 <= i < plans@.len() ==> (#[trigger] at.contains(i) <==> !(may_be_left_out(
                    plans@[i],
                    plans@.len(),
                ) && went_wrong(*plugin, plans@[i], outcomes@[i])))),
{
    lemma_shown_places(*plugin, plans@, outcomes@, plans@.len() as int);
    let at = shown_places(*plugin, plans@, outcomes@, plans@.len() as int);
    assert(output_views(r@).len() == r@.len());
    assert(are_places(at, plans@.len() as int));
}

/// Asking an account goes wrong exactly where the report on it has an error line.
pub proof fn law_wrong_outcome_has_an_error_line(
    plugin: &LoadedPlugin,
    plan: AccountPlan,
    outcome: &ProbeOutcome,
    output: PluginOutput,
    r: bool,
)
    requires
        call_ensures(probe_output, (plugin, outcome, &plan.output), output),
        call_ensures(has_error_line, (&output,), r),
    ensures
        r == went_wrong(*plugin, plan, *outcome),
{
}

/// A plugin is asked for its accounts exactly where it has a function for that, and for the
/// one it knows where it has nothing; whatever keeps it from being asked is reported.
pub proof fn law_plugin_is_asked_by_what_it_has(
    plugin: &LoadedPlugin,
    start: &ProviderStart,
    message: String,
    r: ProviderStep,
)
    requires
        call_ensures(begin_provider, (plugin, start), r),
    ensures
        r is Discover <==> start.failure is None && start.has_plugin && start.has_probe
            && start.discover == Slot::Value(JsValue::Function),
        r is Single <==> start.failure is None && start.has_plugin && start.has_probe
            && is_left_out(start.discover),
        r matches ProviderStep::Failed(output) ==> {
            &&& start.failure matches Some(error) ==> call_ensures(
                lifecycle_error_message,
                (&error,),
                message,
            ) ==> is_failure_report(output, *plugin, message@)
            &&& start.failure is None && !start.has_plugin ==> is_failure_report(
                output,
                *plugin,
                "missing __openusage_plugin"@,
            )
            &&& start.failure is None && start.has_plugin && !start.has_probe
                ==> is_failure_report(output, *plugin, "missing probe()"@)
            &&& start.failure is None && start.has_plugin && start.has_probe && start.discover
                is Threw ==> is_failure_report(
                output,
                *plugin,
                "discoverAccounts accessor threw an exception"@,
            )
            &&& start.failure is None && start.has_plugin && start.has_probe && start.discover
                is Value ==> is_failure_report(
                output,
                *plugin,
                "discoverAccounts must be a function or absent"@,
            )
        },
{
    if let ProviderStep::Failed(output) = r {
        lemma_lines_of(output);
    }
}

/// A user is told what was being done when a plugin could not be brought up, and then of the
/// failure.
pub proof fn law_lifecycle_failure_says_what_failed(
    error: &OverrideLifecycleError,
    shown: String,
    r: String,
)
    requires
        call_ensures(lifecycle_error_message, (error,), r),
        call_ensures(OverrideLifecycleError::display, (error,), shown),
    ensures
        *error is Transform ==> r@ == "script transform failed: "@ + shown@,
        *error is PluginEval ==> r@ == "script eval failed: "@ + shown@,
        *error is OverrideApiInject || *error is OverrideEval || *error is OverrideManifest ==> r@
            == "plugin override failed: "@ + shown@,
        *error is Hook ==> r@ == "lifecycle hook error: "@ + shown@,
{
}

/// A plugin that could not be loaded is reported with what could not be made.
pub proof fn law_unloaded_plugin_is_reported(
    plugin: &LoadedPlugin,
    failure: &RunFailure,
    r: PluginOutput,
)
    requires
        call_ensures(run_failure_output, (plugin, failure), r),
    ensures
        *failure is Runtime ==> is_failure_report(r, *plugin, "runtime error"@),
        *failure matches RunFailure::Override(reason) ==> is_failure_report(
            r,
            *plugin,
            "plugin override failed: "@ + reason@,
        ),
        *failure is HostApi ==> is_failure_report(r, *plugin, "host api injection failed"@),
        *failure is HttpWrapper ==> is_failure_report(r, *plugin, "http wrapper patch failed"@),
        *failure is LsWrapper ==> is_failure_report(r, *plugin, "ls wrapper patch failed"@),
        *failure is CcusageWrapper ==> is_failure_report(
            r,
            *plugin,
            "ccusage wrapper patch failed"@,
        ),
        *failure is Utils ==> is_failure_report(r, *plugin, "utils injection failed"@),
{
    lemma_lines_of(r);
}

/// A result that could not be had is told by its reason.
pub proof fn law_missing_result_is_told(failure: &ResultFailure, r: String)
    requires
        call_ensures(result_failure_text, (failure,), r),
    ensures
        *failure is InvalidPromise ==> r@ == "returned invalid promise"@,
        *failure is Unresolved ==> r@ == "returned unresolved promise"@,
        *failure is NonObject ==> r@ == "returned non-object"@,
        *failure matches ResultFailure::Rejected(reason) ==> r@ == reason@,
{
}

/// The override of a plugin is looked for in three files, all of them inside the directory: by
/// the identity of the plugin, by that with a mark, and in a directory of its own. An
/// identity that would lead elsewhere names no file.
pub proof fn law_override_lies_in_its_directory(
    dir: &LexicalPath,
    plugin_id: &str,
    r: Vec<LexicalPath>,
)
    requires
        call_ensures(override_candidates, (dir, plugin_id), r),
    ensures
        plugin_id@.contains('/') || plugin_id@.contains('\\') ==> r@.len() == 0,
        is_plain_part(plugin_id@) && !plugin_id@.contains('\\') && plugin_id@ != here_part()
            ==> r@.len() == 3 && r@[0]@ == dir@.push(plugin_id@ + ".js"@) && r@[1]@ == dir@.push(
            plugin_id@ + ".override.js"@,
        ) && r@[2]@ == dir@.push(plugin_id@).push("override.js"@),
{
    let seen = path_views(r@);
    assert(seen.len() == r@.len());
    let id = plugin_id@;
    if is_plain_part(id) && !id.contains('\\') && id != here_part() {
        reveal_strlit(".js");
        reveal_strlit(".override.js");
        reveal_strlit("override.js");
        lemma_ending_is_plain(id, ".js"@);
        lemma_ending_is_plain(id, ".override.js"@);
        law_name_is_one_component(Seq::empty(), id + ".js"@);
        law_name_is_one_component(Seq::empty(), id + ".override.js"@);
        law_name_is_one_component(Seq::empty(), id);
        law_name_is_one_component(Seq::empty(), "override.js"@);
        lemma_join_name(dir@, id + ".js"@);
        lemma_join_name(dir@, id + ".override.js"@);
        lemma_join_name(dir@, id);
        lemma_join_name(dir@.push(id), "override.js"@);
        assert(seen[0] == r@[0]@ && seen[1] == r@[1]@ && seen[2] == r@[2]@);
    }
}

proof fn lemma_ending_is_plain(id: Seq<char>, ending: Seq<char>)
    requires
        is_plain_part(id),
        ending.len() > 0,
        !ending.contains('/'),
    ensures
        is_plain_part(id + ending),
        id + ending != here_part(),
{
    let all = id + ending;
    assert(!all.contains('/')) by {
        if all.contains('/') {
            let i = choose|i: int| 0 <= i < all.len() && all[i] == '/';
            if i < id.len() {
                assert(id[i] == '/');
            } else {
                assert(ending[i - id.len()] == '/');
            }
        }
    }
    assert(all.len() >= 2);
    assert(here_part().len() == 1);
}

proof fn lemma_join_name(base: Seq<Seq<char>>, name: Seq<char>)
    requires
        is_plain_part(name),
        name != here_part(),
    ensures
        join_path(base, seq![name]) == base.push(name),
{
    assert(name != crate::lexical_path::root_part()) by {
        if name == crate::lexical_path::root_part() {
            assert(name[0] == '/');
        }
    }
    assert(base + seq![name] =~= base.push(name));
}

proof fn lemma_first_accepted<A>(paths: Seq<A>, answers: Seq<bool>, i: int)
    requires
        0 <= i < paths.len(),
        i < answers.len(),
        answers[i],
        forall|k: int| 0 <= k < i ==> !#[trigger] answers[k],
    ensures
        first_accepted(paths, answers) == Some(paths[i]),
    decreases i,
{
    if i > 0 {
        let rest = answers.drop_first();
        assert(!answers[0]);
        assert forall|k: int| 0 <= k < i - 1 implies !#[trigger] rest[k] by {
            assert(!answers[k + 1]);
        }
        lemma_first_accepted(paths.drop_first(), rest, i - 1);
    }
}

/// Of things that are asked about in turn, the first with the answer yes is taken, and none
/// where there is no such answer.
pub proof fn law_first_yes_is_taken<A>(paths: Seq<A>, answers: Seq<bool>, i: int)
    ensures
        0 <= i < paths.len() && i < answers.len() && answers[i] && (forall|k: int|
            0 <= k < i ==> !#[trigger] answers[k]) ==> first_accepted(paths, answers) == Some(
            paths[i],
        ),
        (forall|k: int|
            0 <= k < paths.len() && k < answers.len() ==> !#[trigger] answers[k])
            ==> first_accepted(paths, answers) is None,
    decreases paths.len(),
{
    if 0 <= i < paths.len() && i < answers.len() && answers[i] && (forall|k: int|
        0 <= k < i ==> !#[trigger] answers[k]) {
        lemma_first_accepted(paths, answers, i);
    }
    if forall|k: int| 0 <= k < paths.len() && k < answers.len() ==> !#[trigger] answers[k] {
        if paths.len() > 0 && answers.len() > 0 {
            assert(!answers[0]);
            let rest = answers.drop_first();
            assert forall|k: int| 0 <= k < paths.len() - 1 && k
                < rest.len() implies !#[trigger] rest[k] by {
                assert(!answers[k + 1]);
            }
            law_first_yes_is_taken(paths.drop_first(), rest, -1);
        }
    }
}

/// The override of a plugin is the first of the files it is looked for in that is there.
pub proof fn law_first_override_file_counts(
    dir: &LexicalPath,
    plugin_id: &str,
    is_file: &Vec<bool>,
    candidates: Vec<LexicalPath>,
    i: int,
    r: Option<LexicalPath>,
)
    requires
        call_ensures(resolve_plugin_override_path, (dir, plugin_id, is_file), r),
        call_ensures(override_candidates, (dir, plugin_id), candidates),
    ensures
        0 <= i < candidates@.len() && i < is_file@.len() && is_file@[i] && (forall|k: int|
            0 <= k < i ==> !#[trigger] is_file@[k]) ==> (r matches Some(path) && path@
            == candidates@[i]@),
        (forall|k: int| 0 <= k < is_file@.len() ==> !#[trigger] is_file@[k]) ==> r is None,
{
    let seen = path_views(candidates@);
    law_first_yes_is_taken(seen, is_file@, i);
    assert(seen.len() == candidates@.len());
    assert(0 <= i < seen.len() ==> seen[i] == candidates@[i]@);
}

/// An override that could be read is used as it stands unless it is blank; one that could not
/// be read is complained about, with its path and the reason.
pub proof fn law_override_is_used_as_it_stands(
    path: &LexicalPath,
    contents: Result<String, String>,
    r: Result<Option<String>, String>,
)
    requires
        call_ensures(load_plugin_override, (path, contents), r),
    ensures
        contents matches Ok(script) ==> r is Ok,
        contents matches Ok(script) ==> !is_blank(script@) ==> (r matches Ok(Some(used)) && used@
            == script@),
        contents matches Ok(script) ==> is_blank(script@) ==> r == Ok::<Option<String>, String>(
            None,
        ),
        contents matches Err(reason) ==> (r matches Err(message) && message@ == "failed to read "@
            + path.written() + ": "@ + reason@),
{
}

/// A failure outside of any account is reported on the default account, which is the native
/// one, has no name of its own and is in use.
pub proof fn law_failure_without_account_is_the_default(
    plugin: &LoadedPlugin,
    message: String,
    account: AccountRef,
    r: PluginOutput,
)
    requires
        call_ensures(AccountRef::default_account, (), account),
        call_ensures(error_output, (plugin, message), r),
    ensures
        is_default_account(account),
        reports_failure(r, *plugin, message@, account),
{
    lemma_lines_of(r);
}

/// The script that an override is run by names the plugin, as a text of the script, in the
/// place that is left for it.
pub proof fn law_override_script_names_the_plugin(
    plugin_id: &str,
    quoted: &str,
    with: String,
    r: String,
)
    requires
        call_ensures(override_bootstrap_script, (plugin_id,), r),
        call_ensures(override_script_with, (quoted,), with),
        quoted@ == json_string_text(plugin_id@),
    ensures
        r@ == with@,
        r@ == OVERRIDE_SCRIPT_HEAD@ + (seq!['"'] + json_chars(plugin_id@) + seq!['"'])
            + OVERRIDE_SCRIPT_TAIL@,
{
}

} // verus!
