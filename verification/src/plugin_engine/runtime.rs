//! Running a plugin: what its scripts return, and what is reported of it.

use crate::lexical_path::{components, join_path, path_views, LexicalPath};
use crate::outside::{json_string, json_string_text};
use crate::plugin_engine::accounts::{
    descriptor_views, first_repeat, parse_discovery_accounts, plan_accounts, read_accounts,
    report_ids, reported_account, AccountElement, AccountPlan, DescriptorView, ErrorPolicy,
};
use crate::plugin_engine::js_value::{slot_text, JsValue, Slot};
use crate::plugin_engine::lines::{parse_lines, read_lines, LineObject};
use crate::plugin_engine::manifest::LoadedPlugin;
use crate::plugin_engine::output::{
    default_account_view, error_line_view, error_output, error_output_with_account, error_report,
    has_error_line, is_error_report, line_views, only_error_line, output_views, AccountRef,
    AccountView, LineView, OutputView, PluginOutput,
};
use crate::plugin_engine::override_lifecycle::{
    failure_display, lifecycle_cause, OverrideLifecycleError,
};
use crate::text::{blank, has_char, is_blank, opt_view, same};
use crate::watch_event::{first_accepted, opt_path};
use vstd::prelude::*;

verus! {

/// What a run of a plugin returned for an account, as the script gave it.
#[derive(Debug)]
pub struct ProbeObject {
    pub plan: Slot,
    /// The lines, if they are a list; `None` in it for an element that is no object.
    pub lines: Option<Vec<Option<LineObject>>>,
}

/// What came of asking a plugin for an account.
#[derive(Debug)]
pub enum ProbeOutcome {
    /// The context of the account could not be made.
    NoContext,
    /// The plugin failed, for this reason.
    Failed(String),
    /// The plugin returned this.
    Returned(ProbeObject),
}

/// The lines of a report: what the script returned, or a line that says what is wrong.
pub open spec fn report_lines(lines: Option<Vec<Option<LineObject>>>) -> Seq<LineView> {
    match lines {
        None => seq![error_line_view("missing lines"@)],
        Some(list) => match read_lines(list@) {
            Ok(shown) => if shown.len() > 0 {
                shown
            } else {
                seq![error_line_view("no lines returned"@)]
            },
            Err(message) => seq![error_line_view(message)],
        },
    }
}

/// The plan that the script named, unless it is empty.
pub open spec fn report_plan(plan: Slot) -> Option<Seq<char>> {
    match slot_text(plan) {
        Some(text) => if text.len() > 0 {
            Some(text)
        } else {
            None
        },
        None => None,
    }
}

/// The report on an account. The account is what the host asked for: nothing that the
/// script returns changes it.
pub open spec fn report_of(
    result: ProbeObject,
    plugin_id: Seq<char>,
    display_name: Seq<char>,
    icon_url: Seq<char>,
    account: AccountView,
) -> OutputView {
    OutputView {
        provider_id: plugin_id,
        display_name,
        plan: report_plan(result.plan),
        lines: report_lines(result.lines),
        icon_url,
        account,
    }
}

/// The report on an account; without one, on the account of plugins that know of none.
pub fn build_plugin_output(
    result: &ProbeObject,
    plugin_id: &str,
    display_name: &str,
    icon_url: &str,
    discovery_account: Option<&AccountRef>,
) -> (r: PluginOutput)
    ensures
        r@ == report_of(
            *result,
            plugin_id@,
            display_name@,
            icon_url@,
            match discovery_account {
                Some(account) => account@,
                None => default_account_view(),
            },
        ),
        r@.lines.len() > 0,
{
    let plan = match result.plan.text() {
        Some(text) => if text.as_str().is_empty() {
            None
        } else {
            Some(text)
        },
        None => None,
    };
    let lines = match parse_lines(&result.lines) {
        Ok(lines) => {
            assert(line_views(lines@).len() == lines@.len());
            if lines.len() > 0 {
                lines
            } else {
                only_error_line("no lines returned".to_string())
            }
        },
        Err(message) => only_error_line(message),
    };
    let account = match discovery_account {
        Some(account) => account.clone(),
        None => AccountRef::default_account(),
    };
    PluginOutput {
        provider_id: plugin_id.to_string(),
        display_name: display_name.to_string(),
        plan,
        lines,
        icon_url: icon_url.to_string(),
        account,
    }
}

/// The report on what came of asking a plugin for an account.
pub open spec fn outcome_report(
    plugin: LoadedPlugin,
    outcome: ProbeOutcome,
    account: AccountView,
) -> OutputView {
    match outcome {
        ProbeOutcome::NoContext => error_report(
            plugin,
            "failed to create account context"@,
            account,
        ),
        ProbeOutcome::Failed(message) => error_report(plugin, message@, account),
        ProbeOutcome::Returned(result) => report_of(
            result,
            plugin.manifest.id@,
            plugin.manifest.name@,
            plugin.icon_data_url@,
            account,
        ),
    }
}

/// The report on what came of asking a plugin for an account.
pub fn probe_output(plugin: &LoadedPlugin, outcome: &ProbeOutcome, account: &AccountRef) -> (r:
    PluginOutput)
    ensures
        r@ == outcome_report(*plugin, *outcome, account@),
{
    match outcome {
        ProbeOutcome::NoContext => error_output_with_account(
            plugin,
            "failed to create account context".to_string(),
            account,
        ),
        ProbeOutcome::Failed(message) => error_output_with_account(
            plugin,
            message.clone(),
            account,
        ),
        ProbeOutcome::Returned(result) => build_plugin_output(
            result,
            plugin.manifest.id.as_str(),
            plugin.manifest.name.as_str(),
            plugin.icon_data_url.as_str(),
            Some(account),
        ),
    }
}

/// The report of a plugin that does not discover accounts.
pub fn single_account_output(plugin: &LoadedPlugin, outcome: &ProbeOutcome) -> (r: PluginOutput)
    ensures
        r@ == outcome_report(*plugin, *outcome, default_account_view()),
{
    let account = AccountRef::default_account();
    probe_output(plugin, outcome, &account)
}

/// What came of asking a plugin for its accounts.
#[derive(Debug)]
pub enum DiscoveryCall {
    /// The plugin failed, for this reason.
    Failed(String),
    /// The plugin returned no list.
    NotArray,
    /// The plugin returned this list.
    Accounts(Vec<AccountElement>),
}

/// How a discovery goes on.
#[derive(Debug)]
pub enum DiscoveryStep {
    /// It is over, with these reports.
    Done(Vec<PluginOutput>),
    /// The plugin is to be asked for each of these accounts, in turn.
    Probe(Vec<AccountPlan>),
}

/// Why a discovery cannot go on, if so.
pub open spec fn discovery_problem(plugin: LoadedPlugin, call: DiscoveryCall) -> Option<Seq<char>> {
    match call {
        DiscoveryCall::Failed(message) => Some("discoverAccounts failed: "@ + message@),
        DiscoveryCall::NotArray => Some("discoverAccounts must return an array"@),
        DiscoveryCall::Accounts(elements) => match read_accounts(elements@) {
            Err(message) => Some(message),
            Ok(accounts) => match first_repeat(report_ids(plugin.manifest.id@, accounts)) {
                Some(id) => Some(
                    "discoverAccounts produced duplicate output account id '"@ + id + "'"@,
                ),
                None => None,
            },
        },
    }
}

/// The accounts of a discovery that can go on.
pub open spec fn discovered(call: DiscoveryCall) -> Seq<DescriptorView> {
    match call {
        DiscoveryCall::Accounts(elements) => match read_accounts(elements@) {
            Ok(accounts) => accounts,
            Err(_) => Seq::empty(),
        },
        _ => Seq::empty(),
    }
}

/// How a discovery goes on after the plugin was asked for its accounts: a problem is
/// reported, no accounts mean no reports, and otherwise each account is asked for.
pub fn begin_discovery(plugin: &LoadedPlugin, call: &DiscoveryCall) -> (r: DiscoveryStep)
    ensures
        match r {
            DiscoveryStep::Done(outputs) => match discovery_problem(*plugin, *call) {
                Some(message) => output_views(outputs@) == seq![
                    error_report(*plugin, message, default_account_view()),
                ],
                None => discovered(*call).len() == 0 && outputs@.len() == 0,
            },
            DiscoveryStep::Probe(plans) => {
                let accounts = discovered(*call);
                &&& discovery_problem(*plugin, *call) is None
                &&& accounts.len() > 0
                &&& plans@.len() == accounts.len()
                &&& forall|i: int|
                    0 <= i < accounts.len() ==> {
                        &&& (#[trigger] plans@[i]).output@ == reported_account(
                            plugin.manifest.id@,
                            accounts,
                            i,
                        )
                        &&& plans@[i].probe@ == crate::plugin_engine::accounts::probed_account(
                            accounts[i],
                        )
                        &&& plans@[i].error_policy == accounts[i].error_policy
                    }
            },
        },
{
    let accounts = match call {
        DiscoveryCall::Failed(reason) => {
            let mut message = "discoverAccounts failed: ".to_string();
            message.append(reason.as_str());
            return DiscoveryStep::Done(only_error_output(plugin, message));
        },
        DiscoveryCall::NotArray => {
            return DiscoveryStep::Done(
                only_error_output(plugin, "discoverAccounts must return an array".to_string()),
            );
        },
        DiscoveryCall::Accounts(elements) => match parse_discovery_accounts(elements) {
            Err(message) => {
                return DiscoveryStep::Done(only_error_output(plugin, message));
            },
            Ok(accounts) => accounts,
        },
    };
    assert(descriptor_views(accounts@).len() == accounts@.len());
    match plan_accounts(plugin.manifest.id.as_str(), &accounts) {
        Err(message) => DiscoveryStep::Done(only_error_output(plugin, message)),
        Ok(plans) => {
            if accounts.len() == 0 {
                DiscoveryStep::Done(Vec::new())
            } else {
                DiscoveryStep::Probe(plans)
            }
        },
    }
}

/// A list of one report that a plugin failed.
fn only_error_output(plugin: &LoadedPlugin, message: String) -> (r: Vec<PluginOutput>)
    ensures
        output_views(r@) == seq![error_report(*plugin, message@, default_account_view())],
{
    let ghost text = message@;
    let mut outputs: Vec<PluginOutput> = Vec::new();
    outputs.push(error_output(plugin, message));
    assert(output_views(outputs@) =~= seq![error_report(*plugin, text, default_account_view())]);
    outputs
}

/// True if a report is not shown: it holds an error, the account asked for errors to be
/// hidden, there are other accounts, and the account does not come from `opencode`.
pub open spec fn is_hidden(report: OutputView, policy: ErrorPolicy, accounts: int) -> bool {
    is_error_report(report) && policy == ErrorPolicy::HideIfOtherAccount && accounts > 1
        && report.account.origin != "opencode"@
}

/// The reports that are shown on the first `n` accounts.
pub open spec fn shown_reports(
    plugin: LoadedPlugin,
    plans: Seq<AccountPlan>,
    outcomes: Seq<ProbeOutcome>,
    n: int,
) -> Seq<OutputView>
    decreases n,
{
    if n <= 0 {
        Seq::empty()
    } else {
        let before = shown_reports(plugin, plans, outcomes, n - 1);
        let report = outcome_report(plugin, outcomes[n - 1], plans[n - 1].output@);
        if is_hidden(report, plans[n - 1].error_policy, plans.len() as int) {
            before
        } else {
            before.push(report)
        }
    }
}

/// The reports on all accounts, given what came of asking for each.
pub fn finish_discovery(
    plugin: &LoadedPlugin,
    plans: &Vec<AccountPlan>,
    outcomes: &Vec<ProbeOutcome>,
) -> (r: Vec<PluginOutput>)
    requires
        plans@.len() == outcomes@.len(),
    ensures
        output_views(r@) == shown_reports(*plugin, plans@, outcomes@, plans@.len() as int),
{
    let mut shown: Vec<PluginOutput> = Vec::new();
    let mut i: usize = 0;
    assert(output_views(shown@) =~= Seq::<OutputView>::empty());
    while i < plans.len()
        invariant
            i <= plans@.len(),
            plans@.len() == outcomes@.len(),
            output_views(shown@) == shown_reports(*plugin, plans@, outcomes@, i as int),
        decreases plans@.len() - i,
    {
        let ghost before = shown@;
        let output = probe_output(plugin, &outcomes[i], &plans[i].output);
        let hidden = has_error_line(&output) && plans[i].error_policy
            == ErrorPolicy::HideIfOtherAccount && plans.len() > 1 && !same(
            output.account.origin.as_str(),
            "opencode",
        );
        if !hidden {
            shown.push(output);
            assert(output_views(shown@) =~= output_views(before).push(output@));
        }
        i = i + 1;
    }
    shown
}

/// Reports without an error are always shown, and so is the report on an only account.
pub proof fn law_success_is_never_hidden(report: OutputView, policy: ErrorPolicy, accounts: int)
    requires
        !is_error_report(report) || accounts <= 1 || policy == ErrorPolicy::Report,
    ensures
        !is_hidden(report, policy, accounts),
{
}

/// Each report that is shown speaks of one of the accounts that were asked for, and no two
/// speak of the same account as long as the accounts have different identities.
pub proof fn law_shown_reports_have_distinct_accounts(
    plugin: LoadedPlugin,
    plans: Seq<AccountPlan>,
    outcomes: Seq<ProbeOutcome>,
    n: int,
)
    requires
        0 <= n <= plans.len(),
        plans.len() == outcomes.len(),
        forall|i: int, j: int|
            0 <= i < j < plans.len() ==> (#[trigger] plans[i]).output@.id != (
            #[trigger] plans[j]).output@.id,
    ensures
        forall|k: int|
            0 <= k < shown_reports(plugin, plans, outcomes, n).len() ==> exists|i: int|
                0 <= i < n && (#[trigger] shown_reports(plugin, plans, outcomes, n)[k]).account
                    == (#[trigger] plans[i]).output@,
        forall|k: int, l: int|
            0 <= k < l < shown_reports(plugin, plans, outcomes, n).len() ==> (
            #[trigger] shown_reports(plugin, plans, outcomes, n)[k]).account.id != (
            #[trigger] shown_reports(plugin, plans, outcomes, n)[l]).account.id,
    decreases n,
{
    if n > 0 {
        law_shown_reports_have_distinct_accounts(plugin, plans, outcomes, n - 1);
        let before = shown_reports(plugin, plans, outcomes, n - 1);
        let all = shown_reports(plugin, plans, outcomes, n);
        let report = outcome_report(plugin, outcomes[n - 1], plans[n - 1].output@);
        assert(report.account == plans[n - 1].output@);
        assert forall|k: int| 0 <= k < all.len() implies exists|i: int|
            0 <= i < n && (#[trigger] all[k]).account == (#[trigger] plans[i]).output@ by {
            if k < before.len() {
                assert(all[k] == before[k]);
                let i = choose|i: int|
                    0 <= i < n - 1 && before[k].account == (#[trigger] plans[i]).output@;
                assert(all[k].account == plans[i].output@);
            } else {
                assert(all[k].account == plans[n - 1].output@);
            }
        }
        assert forall|k: int, l: int| 0 <= k < l < all.len() implies (
        #[trigger] all[k]).account.id != (#[trigger] all[l]).account.id by {
            if l < before.len() {
                assert(all[k] == before[k] && all[l] == before[l]);
            } else {
                assert(all[k] == before[k]);
                let i = choose|i: int|
                    0 <= i < n - 1 && before[k].account == (#[trigger] plans[i]).output@;
                assert(plans[i].output@.id != plans[n - 1].output@.id);
            }
        }
    }
}

/// Why a result could not be had from what a plugin returned.
#[derive(Debug)]
pub enum ResultFailure {
    /// What looked like a promise was none.
    InvalidPromise,
    /// The promise waits for something that will not come.
    Unresolved,
    /// The promise was rejected, for this reason.
    Rejected(String),
    /// What was returned is no object.
    NonObject,
}

/// What a user is told of a result that could not be had.
pub fn result_failure_text(failure: &ResultFailure) -> (r: String)
    ensures
        r@ == match *failure {
            ResultFailure::InvalidPromise => "returned invalid promise"@,
            ResultFailure::Unresolved => "returned unresolved promise"@,
            ResultFailure::Rejected(reason) => reason@,
            ResultFailure::NonObject => "returned non-object"@,
        },
{
    match failure {
        ResultFailure::InvalidPromise => "returned invalid promise".to_string(),
        ResultFailure::Unresolved => "returned unresolved promise".to_string(),
        ResultFailure::Rejected(reason) => reason.clone(),
        ResultFailure::NonObject => "returned non-object".to_string(),
    }
}

/// What was found after a plugin and its override were brought up.
#[derive(Debug)]
pub struct ProviderStart {
    /// Why they could not be brought up, if so.
    pub failure: Option<OverrideLifecycleError>,
    /// Whether there is a plugin object.
    pub has_plugin: bool,
    /// Whether it has a function to ask for an account.
    pub has_probe: bool,
    /// What it has to ask for its accounts.
    pub discover: Slot,
}

/// How a plugin is to be asked.
#[derive(Debug)]
pub enum ProviderStep {
    /// Not at all: this is the report.
    Failed(PluginOutput),
    /// For the one account that it knows.
    Single,
    /// First for its accounts.
    Discover,
}

/// What a user is told of a plugin that could not be brought up.
pub open spec fn lifecycle_message(error: OverrideLifecycleError) -> Seq<char> {
    (match error {
        OverrideLifecycleError::Transform(_) => "script transform failed: "@,
        OverrideLifecycleError::PluginEval(_) => "script eval failed: "@,
        OverrideLifecycleError::OverrideApiInject(_) => "plugin override failed: "@,
        OverrideLifecycleError::OverrideEval(_) => "plugin override failed: "@,
        OverrideLifecycleError::OverrideManifest(_) => "plugin override failed: "@,
        OverrideLifecycleError::Hook(_) => "lifecycle hook error: "@,
    }) + failure_display(lifecycle_cause(error))
}

/// What a user is told of a plugin that could not be brought up.
pub fn lifecycle_error_message(error: &OverrideLifecycleError) -> (r: String)
    ensures
        r@ == lifecycle_message(*error),
{
    let mut message = match error {
        OverrideLifecycleError::Transform(_) => "script transform failed: ".to_string(),
        OverrideLifecycleError::PluginEval(_) => "script eval failed: ".to_string(),
        OverrideLifecycleError::OverrideApiInject(_) => "plugin override failed: ".to_string(),
        OverrideLifecycleError::OverrideEval(_) => "plugin override failed: ".to_string(),
        OverrideLifecycleError::OverrideManifest(_) => "plugin override failed: ".to_string(),
        OverrideLifecycleError::Hook(_) => "lifecycle hook error: ".to_string(),
    };
    let cause = error.display();
    message.append(cause.as_str());
    message
}

/// Why a plugin cannot be asked, if so.
pub open spec fn start_problem(start: ProviderStart) -> Option<Seq<char>> {
    match start.failure {
        Some(error) => Some(lifecycle_message(error)),
        None => if !start.has_plugin {
            Some("missing __openusage_plugin"@)
        } else if !start.has_probe {
            Some("missing probe()"@)
        } else {
            match start.discover {
                Slot::Threw => Some("discoverAccounts accessor threw an exception"@),
                Slot::Value(JsValue::Function) => None,
                Slot::Value(JsValue::Null) => None,
                Slot::Value(JsValue::Undefined) => None,
                Slot::Value(_) => Some("discoverAccounts must be a function or absent"@),
            }
        },
    }
}

/// How a plugin is to be asked after it was brought up.
pub fn begin_provider(plugin: &LoadedPlugin, start: &ProviderStart) -> (r: ProviderStep)
    ensures
        match r {
            ProviderStep::Failed(output) => start_problem(*start) matches Some(message)
                && output@ == error_report(*plugin, message, default_account_view()),
            ProviderStep::Discover => start_problem(*start) is None && start.discover
                == Slot::Value(JsValue::Function),
            ProviderStep::Single => start_problem(*start) is None && start.discover
                != Slot::Value(JsValue::Function),
        },
{
    match &start.failure {
        Some(error) => {
            let message = lifecycle_error_message(error);
            return ProviderStep::Failed(error_output(plugin, message));
        },
        None => {},
    }
    if !start.has_plugin {
        return ProviderStep::Failed(
            error_output(plugin, "missing __openusage_plugin".to_string()),
        );
    }
    if !start.has_probe {
        return ProviderStep::Failed(error_output(plugin, "missing probe()".to_string()));
    }
    match &start.discover {
        Slot::Threw => ProviderStep::Failed(
            error_output(plugin, "discoverAccounts accessor threw an exception".to_string()),
        ),
        Slot::Value(JsValue::Function) => ProviderStep::Discover,
        Slot::Value(JsValue::Null) => ProviderStep::Single,
        Slot::Value(JsValue::Undefined) => ProviderStep::Single,
        Slot::Value(_) => ProviderStep::Failed(
            error_output(plugin, "discoverAccounts must be a function or absent".to_string()),
        ),
    }
}

/// Why a plugin could not even be loaded into a script runtime.
#[derive(Debug)]
pub enum RunFailure {
    /// The runtime or its context could not be made.
    Runtime,
    /// The override could not be read, for this reason.
    Override(String),
    /// The interface of the host could not be made.
    HostApi,
    /// The interface for requests could not be made.
    HttpWrapper,
    /// The interface for language servers could not be made.
    LsWrapper,
    /// The interface for `ccusage` could not be made.
    CcusageWrapper,
    /// The helper functions could not be made.
    Utils,
}

/// What a user is told of a plugin that could not be loaded.
pub open spec fn run_failure_text(failure: RunFailure) -> Seq<char> {
    match failure {
        RunFailure::Runtime => "runtime error"@,
        RunFailure::Override(reason) => "plugin override failed: "@ + reason@,
        RunFailure::HostApi => "host api injection failed"@,
        RunFailure::HttpWrapper => "http wrapper patch failed"@,
        RunFailure::LsWrapper => "ls wrapper patch failed"@,
        RunFailure::CcusageWrapper => "ccusage wrapper patch failed"@,
        RunFailure::Utils => "utils injection failed"@,
    }
}

/// The report on a plugin that could not be loaded.
pub fn run_failure_output(plugin: &LoadedPlugin, failure: &RunFailure) -> (r: PluginOutput)
    ensures
        r@ == error_report(*plugin, run_failure_text(*failure), default_account_view()),
{
    let message = match failure {
        RunFailure::Runtime => "runtime error".to_string(),
        RunFailure::Override(reason) => {
            let mut message = "plugin override failed: ".to_string();
            message.append(reason.as_str());
            message
        },
        RunFailure::HostApi => "host api injection failed".to_string(),
        RunFailure::HttpWrapper => "http wrapper patch failed".to_string(),
        RunFailure::LsWrapper => "ls wrapper patch failed".to_string(),
        RunFailure::CcusageWrapper => "ccusage wrapper patch failed".to_string(),
        RunFailure::Utils => "utils injection failed".to_string(),
    };
    error_output(plugin, message)
}

/// How asking a plugin went.
pub enum ProbeCourse {
    /// It could not be loaded.
    Unloaded(RunFailure),
    /// It could not be asked.
    Unstarted(ProviderStart),
    /// It was asked for the one account that it knows.
    Single(ProbeOutcome),
    /// Its accounts could not be found, or there are none.
    Undiscovered(DiscoveryCall),
    /// It was asked for each of its accounts.
    Discovered { plans: Seq<AccountPlan>, outcomes: Seq<ProbeOutcome> },
}

/// The reports that come of asking a plugin.
pub open spec fn course_reports(plugin: LoadedPlugin, course: ProbeCourse) -> Seq<OutputView> {
    match course {
        ProbeCourse::Unloaded(failure) => seq![
            error_report(plugin, run_failure_text(failure), default_account_view()),
        ],
        ProbeCourse::Unstarted(start) => match start_problem(start) {
            Some(message) => seq![error_report(plugin, message, default_account_view())],
            None => Seq::empty(),
        },
        ProbeCourse::Single(outcome) => seq![
            outcome_report(plugin, outcome, default_account_view()),
        ],
        ProbeCourse::Undiscovered(call) => match discovery_problem(plugin, call) {
            Some(message) => seq![error_report(plugin, message, default_account_view())],
            None => Seq::empty(),
        },
        ProbeCourse::Discovered { plans, outcomes } => shown_reports(
            plugin,
            plans,
            outcomes,
            plans.len() as int,
        ),
    }
}

/// However asking a plugin went, each report on it carries its identity.
pub proof fn law_reports_carry_the_plugin(plugin: LoadedPlugin, course: ProbeCourse)
    ensures
        forall|k: int|
            0 <= k < course_reports(plugin, course).len() ==> (#[trigger] course_reports(
                plugin,
                course,
            )[k]).provider_id == plugin.manifest.id@,
{
    match course {
        ProbeCourse::Discovered { plans, outcomes } => lemma_shown_reports_carry_the_plugin(
            plugin,
            plans,
            outcomes,
            plans.len() as int,
        ),
        _ => {},
    }
}

proof fn lemma_shown_reports_carry_the_plugin(
    plugin: LoadedPlugin,
    plans: Seq<AccountPlan>,
    outcomes: Seq<ProbeOutcome>,
    n: int,
)
    ensures
        forall|k: int|
            0 <= k < shown_reports(plugin, plans, outcomes, n).len() ==> (#[trigger] shown_reports(
                plugin,
                plans,
                outcomes,
                n,
            )[k]).provider_id == plugin.manifest.id@,
    decreases n,
{
    if n > 0 {
        lemma_shown_reports_carry_the_plugin(plugin, plans, outcomes, n - 1);
        let before = shown_reports(plugin, plans, outcomes, n - 1);
        let all = shown_reports(plugin, plans, outcomes, n);
        assert forall|k: int| 0 <= k < all.len() implies (#[trigger] all[k]).provider_id
            == plugin.manifest.id@ by {
            if k < before.len() {
                assert(all[k] == before[k]);
            }
        }
    }
}

/// The files that may hold the override of a plugin, in the order in which they count. An
/// identity with a slash or a backslash in it names no file.
pub open spec fn override_paths(dir: Seq<Seq<char>>, plugin_id: Seq<char>) -> Seq<Seq<Seq<char>>> {
    if plugin_id.contains('/') || plugin_id.contains('\\') {
        Seq::empty()
    } else {
        seq![
            join_path(dir, components(plugin_id + ".js"@)),
            join_path(dir, components(plugin_id + ".override.js"@)),
            join_path(join_path(dir, components(plugin_id)), components("override.js"@)),
        ]
    }
}

/// The files that may hold the override of a plugin.
pub fn override_candidates(overrides_dir: &LexicalPath, plugin_id: &str) -> (r: Vec<LexicalPath>)
    ensures
        path_views(r@) == override_paths(overrides_dir@, plugin_id@),
{
    let mut candidates: Vec<LexicalPath> = Vec::new();
    if has_char(plugin_id, '/') || has_char(plugin_id, '\\') {
        assert(path_views(candidates@) =~= Seq::<Seq<Seq<char>>>::empty());
        return candidates;
    }
    let mut plain = plugin_id.to_string();
    plain.append(".js");
    let mut marked = plugin_id.to_string();
    marked.append(".override.js");
    candidates.push(overrides_dir.join_text(plain.as_str()));
    candidates.push(overrides_dir.join_text(marked.as_str()));
    candidates.push(overrides_dir.join_text(plugin_id).join_text("override.js"));
    assert(path_views(candidates@) =~= override_paths(overrides_dir@, plugin_id@));
    candidates
}

/// The file that holds the override of a plugin, given which candidates are files.
pub fn resolve_plugin_override_path(
    overrides_dir: &LexicalPath,
    plugin_id: &str,
    is_file: &Vec<bool>,
) -> (r: Option<LexicalPath>)
    ensures
        opt_path(r) == first_accepted(override_paths(overrides_dir@, plugin_id@), is_file@),
{
    let candidates = override_candidates(overrides_dir, plugin_id);
    let ghost all = path_views(candidates@);
    let mut i: usize = 0;
    assert(all.skip(0) =~= all);
    assert(is_file@.skip(0) =~= is_file@);
    while i < candidates.len() && i < is_file.len()
        invariant
            i <= candidates@.len(),
            i <= is_file@.len(),
            all == path_views(candidates@),
            all == override_paths(overrides_dir@, plugin_id@),
            first_accepted(all, is_file@) == first_accepted(
                all.skip(i as int),
                is_file@.skip(i as int),
            ),
        decreases candidates@.len() - i,
    {
        assert(all.skip(i as int)[0] == candidates@[i as int]@);
        assert(all.skip(i as int).drop_first() =~= all.skip(i + 1));
        assert(is_file@.skip(i as int).drop_first() =~= is_file@.skip(i + 1));
        if is_file[i] {
            return Some(candidates[i].clone());
        }
        i = i + 1;
    }
    None
}

/// The override of a plugin, given what reading its file gave: a blank file is none.
pub fn load_plugin_override(path: &LexicalPath, contents: Result<String, String>) -> (r: Result<
    Option<String>,
    String,
>)
    ensures
        match contents {
            Ok(script) => r matches Ok(loaded) && opt_view(loaded) == if is_blank(script@) {
                None
            } else {
                Some(script@)
            },
            Err(reason) => r matches Err(message) && message@ == "failed to read "@ + path.written()
                + ": "@ + reason@,
        },
{
    match contents {
        Ok(script) => {
            if blank(script.as_str()) {
                Ok(None)
            } else {
                Ok(Some(script))
            }
        },
        Err(reason) => {
            let mut message = "failed to read ".to_string();
            let shown = path.to_text();
            message.append(shown.as_str());
            message.append(": ");
            message.append(reason.as_str());
            Err(message)
        },
    }
}

/// The beginning of the script that makes `__openusage_override`.
pub const OVERRIDE_SCRIPT_HEAD: &'static str = r#"
        (function() {
            var plugin = globalThis.__openusage_plugin;
            if (!plugin || typeof plugin !== "object") {
                throw "missing __openusage_plugin before override init";
            }
            if (typeof plugin.probe !== "function") {
                throw "missing probe() before override init";
            }

            var originalProbe = plugin.probe.bind(plugin);
            var originalDiscoverAccounts = typeof plugin.discoverAccounts === "function"
                ? plugin.discoverAccounts.bind(plugin)
                : null;

            globalThis.__openusage_override = {
                pluginId: "#;

/// The end of the script that makes `__openusage_override`.
pub const OVERRIDE_SCRIPT_TAIL: &'static str = r#",
                originalProbe: originalProbe,
                replaceProbe: function(replacement) {
                    if (typeof replacement !== "function") {
                        throw "replaceProbe expects a function";
                    }
                    plugin.probe = function(ctx) {
                        return replacement(ctx, originalProbe);
                    };
                    return plugin.probe;
                },
                wrapProbe: function(wrapper) {
                    if (typeof wrapper !== "function") {
                        throw "wrapProbe expects a function";
                    }
                    var previousProbe = plugin.probe.bind(plugin);
                    plugin.probe = function(ctx) {
                        return wrapper(ctx, previousProbe, originalProbe);
                    };
                    return plugin.probe;
                },
                resetProbe: function() {
                    plugin.probe = originalProbe;
                    return plugin.probe;
                },
                originalDiscoverAccounts: originalDiscoverAccounts,
                replaceDiscoverAccounts: function(replacement) {
                    if (typeof replacement !== "function") {
                        throw "replaceDiscoverAccounts expects a function";
                    }
                    plugin.discoverAccounts = function(ctx) {
                        return replacement(ctx, originalDiscoverAccounts);
                    };
                    return plugin.discoverAccounts;
                },
                wrapDiscoverAccounts: function(wrapper) {
                    if (typeof wrapper !== "function") {
                        throw "wrapDiscoverAccounts expects a function";
                    }
                    var currentDiscoverAccounts = typeof plugin.discoverAccounts === "function"
                        ? plugin.discoverAccounts.bind(plugin)
                        : null;
                    if (!currentDiscoverAccounts) {
                        throw "wrapDiscoverAccounts requires a current discoverAccounts function";
                    }
                    plugin.discoverAccounts = function(ctx) {
                        return wrapper(ctx, currentDiscoverAccounts, originalDiscoverAccounts);
                    };
                    return plugin.discoverAccounts;
                },
                resetDiscoverAccounts: function() {
                    if (originalDiscoverAccounts) {
                        plugin.discoverAccounts = originalDiscoverAccounts;
                    } else {
                        delete plugin.discoverAccounts;
                    }
                    return typeof plugin.discoverAccounts === "function"
                        ? plugin.discoverAccounts
                        : null;
                }
            };
        })();
        "#;

/// The script that makes `__openusage_override` for a plugin.
pub fn override_bootstrap_script(plugin_id: &str) -> (r: String)
    ensures
        r@ == OVERRIDE_SCRIPT_HEAD@ + json_string_text(plugin_id@) + OVERRIDE_SCRIPT_TAIL@,
{
    let quoted = json_string(plugin_id);
    override_script_with(quoted.as_str())
}

/// The script that makes `__openusage_override`, given the identity of the plugin as a
/// string of the script.
pub fn override_script_with(quoted_id: &str) -> (r: String)
    ensures
        r@ == OVERRIDE_SCRIPT_HEAD@ + quoted_id@ + OVERRIDE_SCRIPT_TAIL@,
{
    let mut script = OVERRIDE_SCRIPT_HEAD.to_string();
    script.append(quoted_id);
    script.append(OVERRIDE_SCRIPT_TAIL);
    script
}

} // verus!
