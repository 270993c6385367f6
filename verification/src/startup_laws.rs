//! What holds of the start and the end of a daemon, and of questions to one that runs.

use crate::complaint::Complaint;
use crate::config::DaemonEndpointPath;
use crate::daemon_mode::{
    bind_failure, bind_text, build_restart_watch_inputs, daemon_child_args, final_outcome,
    phase_text, publishes_endpoint, refresh_wait, restart_outcome_for_service_mode, retry_step,
    runtime_config, should_spawn_daemon_parent, startup_step, startup_step_after,
    strip_flags_for_daemon_child, DaemonPhase, RefreshWait, RetryStep, RunOutcome, StartupStep,
    MAX_RETRY_AGE_SECS, RESET_RETRY_DELAY_SECS,
};
use crate::daemon_plan::{daemon_plan, step_failure, DaemonAction};
use crate::discovery::{endpoint_in, temp_file_path, Publication, PublishedDiscovery};
use crate::http_api::{LifecycleCommand, RuntimeConfig};
use crate::http_laws::{is_same_word, law_case_does_not_matter};
use crate::instance_control::{
    config_reply, config_url, control_reply, control_url, health_url, running_instance_from,
    wait_step_after, wait_step_at, ExistingInstancePolicy, RunningInstance, RuntimeConfigProbe,
    ServiceMode, WaitStep,
};
use crate::lexical_path::LexicalPath;
use crate::net::{connect_host_for_bind_ip, format_http_base_url, SocketAddress};
use crate::outside::json_entries;
use crate::query::{
    checked_payload, daemon_answer, query_step, query_url, without_end_slashes, QueryStep,
};
use crate::restart_watcher::RestartWatchInputs;
use crate::runtime_cli::{DaemonRuntimeCli, QueryType};
use crate::text::{decimal, is_white_space, lowered, views};
use crate::text_laws::{all_white, law_trimming_takes_the_ends};
use vstd::prelude::*;

verus! {

/// A complaint that came of nothing has no causes; one that came of another has that one as
/// its first cause, and then the causes of that one.
pub proof fn law_causes_are_kept_in_order(
    message: String,
    cause: String,
    inner: Complaint,
    alone: Complaint,
    because: Complaint,
    over: Complaint,
)
    requires
        call_ensures(Complaint::new, (message,), alone),
        call_ensures(Complaint::because, (message, cause), because),
        call_ensures(Complaint::over, (message, inner), over),
    ensures
        alone.message@ == message@,
        alone.causes@.len() == 0,
        because.message@ == message@,
        because.causes@.len() == 1 && because.causes@[0]@ == cause@,
        over.message@ == message@,
        over.causes@.len() == inner.causes@.len() + 1,
        over.causes@[0]@ == inner.message@,
        forall|k: int|
            0 <= k < inner.causes@.len() ==> over.causes@[k + 1]@ == (#[trigger] inner.causes@[k])@,
{
    assert(views(alone.causes@).len() == alone.causes@.len());
    assert(views(because.causes@).len() == because.causes@.len());
    assert(views(because.causes@)[0] == because.causes@[0]@);
    assert(views(over.causes@).len() == over.causes@.len());
    assert(views(inner.causes@).len() == inner.causes@.len());
    assert(views(over.causes@)[0] == over.causes@[0]@);
    assert forall|k: int| 0 <= k < inner.causes@.len() implies over.causes@[k + 1]@ == (
    #[trigger] inner.causes@[k])@ by {
        assert(views(over.causes@)[k + 1] == over.causes@[k + 1]@);
        assert(views(inner.causes@)[k] == inner.causes@[k]@);
    }
}

/// True if a complaint has a message and came of another.
pub open spec fn came_of(complaint: Complaint, message: Seq<char>, inner: Complaint) -> bool {
    &&& complaint.message@ == message
    &&& complaint.causes@.len() == inner.causes@.len() + 1
    &&& complaint.causes@[0]@ == inner.message@
    &&& forall|k: int|
        0 <= k < inner.causes@.len() ==> complaint.causes@[k + 1]@ == (
        #[trigger] inner.causes@[k])@
}

proof fn lemma_came_of(complaint: Complaint, message: Seq<char>, inner: Complaint)
    requires
        complaint@ == crate::complaint::over(message, inner@),
    ensures
        came_of(complaint, message, inner),
{
    let own = views(complaint.causes@);
    let known = views(inner.causes@);
    assert(own.len() == complaint.causes@.len());
    assert(known.len() == inner.causes@.len());
    assert(own[0] == complaint.causes@[0]@);
    assert forall|k: int| 0 <= k < inner.causes@.len() implies complaint.causes@[k + 1]@ == (
    #[trigger] inner.causes@[k])@ by {
        assert(own[k + 1] == complaint.causes@[k + 1]@);
        assert(known[k] == inner.causes@[k]@);
    }
}

/// True if a text is a word but for the white space around it and for case.
pub open spec fn reads_as(raw: Seq<char>, a: Seq<char>, t: Seq<char>, b: Seq<char>) -> bool {
    &&& raw == a + t + b
    &&& all_white(a)
    &&& all_white(b)
    &&& t.len() > 0 ==> !is_white_space(t[0]) && !is_white_space(t.last())
}

proof fn lemma_key(raw: Seq<char>, a: Seq<char>, t: Seq<char>, b: Seq<char>, word: Seq<char>)
    requires
        reads_as(raw, a, t, b),
        lowered(word) == word,
    ensures
        lowered(crate::text::trimmed(raw)) == word <==> is_same_word(t, word),
{
    law_trimming_takes_the_ends(a, t, b);
    law_case_does_not_matter(t, word);
}

/// A policy is read from its name, whatever white space stands around it and in whatever
/// case it is; any other text is refused. `t` is what stands between the white space.
pub proof fn law_policy_is_read_from_its_name(
    raw: &str,
    a: Seq<char>,
    t: Seq<char>,
    b: Seq<char>,
    r: Result<ExistingInstancePolicy, String>,
)
    requires
        call_ensures(ExistingInstancePolicy::parse, (raw,), r),
        reads_as(raw@, a, t, b),
    ensures
        is_same_word(t, "error"@) ==> r == Ok::<_, String>(ExistingInstancePolicy::Error),
        is_same_word(t, "ignore"@) ==> r == Ok::<_, String>(ExistingInstancePolicy::Ignore),
        is_same_word(t, "replace"@) ==> r == Ok::<_, String>(ExistingInstancePolicy::Replace),
        !is_same_word(t, "error"@) && !is_same_word(t, "ignore"@) && !is_same_word(t, "replace"@)
            ==> (r matches Err(message) && message@ == "invalid existing_instance value '"@ + raw@
            + "'; expected one of: error, ignore, replace"@),
{
    reveal_strlit("error");
    reveal_strlit("ignore");
    reveal_strlit("replace");
    assert(lowered("error"@) =~= "error"@);
    assert(lowered("ignore"@) =~= "ignore"@);
    assert(lowered("replace"@) =~= "replace"@);
    lemma_key(raw@, a, t, b, "error"@);
    lemma_key(raw@, a, t, b, "ignore"@);
    lemma_key(raw@, a, t, b, "replace"@);
    assert("error"@.len() == 5 && "ignore"@.len() == 6 && "replace"@.len() == 7);
}

/// So is a service mode.
pub proof fn law_service_mode_is_read_from_its_name(
    raw: &str,
    a: Seq<char>,
    t: Seq<char>,
    b: Seq<char>,
    r: Result<ServiceMode, String>,
)
    requires
        call_ensures(ServiceMode::parse, (raw,), r),
        reads_as(raw@, a, t, b),
    ensures
        is_same_word(t, "standalone"@) ==> r == Ok::<_, String>(ServiceMode::Standalone),
        is_same_word(t, "systemd"@) ==> r == Ok::<_, String>(ServiceMode::Systemd),
        !is_same_word(t, "standalone"@) && !is_same_word(t, "systemd"@) ==> (r matches Err(message)
            && message@ == "invalid service mode '"@ + raw@
            + "'; expected one of: standalone, systemd"@),
{
    reveal_strlit("standalone");
    reveal_strlit("systemd");
    assert(lowered("standalone"@) =~= "standalone"@);
    assert(lowered("systemd"@) =~= "systemd"@);
    lemma_key(raw@, a, t, b, "standalone"@);
    lemma_key(raw@, a, t, b, "systemd"@);
    assert("standalone"@.len() == 10 && "systemd"@.len() == 7);
}

/// Policies and service modes are written as they are read.
pub proof fn law_names_are_written(
    policy: ExistingInstancePolicy,
    policy_text: &'static str,
    mode: ServiceMode,
    mode_text: &'static str,
)
    requires
        call_ensures(ExistingInstancePolicy::as_str, (policy,), policy_text),
        call_ensures(ServiceMode::as_str, (mode,), mode_text),
    ensures
        policy is Error ==> policy_text@ == "error"@,
        policy is Ignore ==> policy_text@ == "ignore"@,
        policy is Replace ==> policy_text@ == "replace"@,
        mode is Standalone ==> mode_text@ == "standalone"@,
        mode is Systemd ==> mode_text@ == "systemd"@,
{
}

/// Where a daemon is asked for its configuration, for a sign of life, and to do something.
pub proof fn law_daemon_is_asked_at_its_url(
    base_url: &str,
    action: &str,
    config: String,
    control: String,
    health: String,
)
    requires
        call_ensures(config_url, (base_url,), config),
        call_ensures(control_url, (base_url, action), control),
        call_ensures(health_url, (base_url,), health),
    ensures
        config@ == base_url@ + "/v1/config"@,
        control@ == base_url@ + "/v1/"@ + action@,
        health@ == base_url@ + "/health"@,
{
}

/// An answer is that of a daemon exactly if it says its version and, where it says who started
/// it, names a service mode. One that does not say who started it was started by hand.
pub proof fn law_daemon_is_known_by_its_answer(
    base_url: &str,
    probe: &RuntimeConfigProbe,
    text: &str,
    mode: Result<ServiceMode, String>,
    r: Result<RunningInstance, Complaint>,
)
    requires
        call_ensures(running_instance_from, (base_url, probe), r),
        call_ensures(ServiceMode::parse, (text,), mode),
        probe.service_mode matches Some(raw) ==> raw@ == text@,
    ensures
        probe.app_version is None ==> (r matches Err(complaint) && complaint.message@
            == "running instance config payload missing appVersion"@ && complaint.causes@.len()
            == 0),
        probe.app_version is Some && probe.service_mode is None ==> (r matches Ok(instance)
            && instance.base_url@ == base_url@ && instance.service_mode is Standalone),
        probe.app_version is Some && probe.service_mode is Some && mode is Ok ==> (r matches Ok(
            instance,
        ) && instance.base_url@ == base_url@ && instance.service_mode == mode->Ok_0),
        probe.app_version is Some && probe.service_mode is Some && mode is Err ==> (r matches Err(
            complaint,
        ) && complaint.message@ == "invalid remote service mode '"@ + text@ + "'"@
            && complaint.causes@.len() == 1 && complaint.causes@[0]@ == mode->Err_0@),
{
    match r {
        Err(complaint) => {
            assert(views(complaint.causes@).len() == complaint.causes@.len());
            if complaint.causes@.len() > 0 {
                assert(views(complaint.causes@)[0] == complaint.causes@[0]@);
            }
        },
        Ok(_) => {},
    }
}

/// Only a status from 200 to 299 is success.
pub proof fn law_only_success_is_success(
    status: u16,
    status_text: &str,
    action: &str,
    url: &str,
    body: &str,
    config: Result<(), String>,
    control: Result<(), String>,
)
    requires
        call_ensures(config_reply, (status, status_text), config),
        call_ensures(control_reply, (action, url, status, status_text, body), control),
    ensures
        200 <= status <= 299 ==> config is Ok && control is Ok,
        status < 200 || status > 299 ==> (config matches Err(message) && message@
            == "running instance config endpoint returned status "@ + status_text@),
        status < 200 || status > 299 ==> (control matches Err(message) && message@ == action@
            + " endpoint "@ + url@ + " returned status "@ + status_text@ + ": "@ + body@),
{
}

/// While there is time left the daemon is looked at; after that its time is out. One that
/// still answers is looked at again 150 milliseconds later, and one that does not has stopped.
pub proof fn law_stop_is_awaited(
    base_url: &str,
    now: u64,
    deadline: u64,
    reachable: bool,
    at: WaitStep,
    after: WaitStep,
)
    requires
        call_ensures(wait_step_at, (base_url, now, deadline), at),
        call_ensures(wait_step_after, (reachable,), after),
    ensures
        now < deadline ==> at is Look,
        now >= deadline ==> (at matches WaitStep::TimedOut(message) && message@
            == "timed out waiting for existing instance "@ + base_url@ + " to stop"@),
        reachable ==> after == WaitStep::Sleep(150),
        !reachable ==> after is Stopped,
{
}

/// A run that is told to restart ends by starting itself again, unless systemd does that: then
/// it ends with the code by which systemd knows. A run that is told anything else, or nothing,
/// is just over.
pub proof fn law_run_ends_as_told(
    command: Option<LifecycleCommand>,
    mode: ServiceMode,
    restart: RunOutcome,
    r: RunOutcome,
)
    requires
        call_ensures(restart_outcome_for_service_mode, (mode,), restart),
        call_ensures(final_outcome, (command, mode), r),
    ensures
        mode is Standalone ==> restart is RestartSelf,
        mode is Systemd ==> restart == RunOutcome::ExitWithCode(75),
        command == Some(LifecycleCommand::Restart) ==> r == restart,
        command != Some(LifecycleCommand::Restart) ==> r is Completed,
{
}

/// A daemon goes to the background unless it is there already or is to stay in front.
pub proof fn law_daemon_goes_to_the_background(runtime: &DaemonRuntimeCli, r: bool)
    requires
        call_ensures(should_spawn_daemon_parent, (runtime,), r),
    ensures
        runtime.foreground ==> !r,
        runtime.daemon_child ==> !r,
        !runtime.foreground && !runtime.daemon_child ==> r,
{
}

/// Arguments are handed on one by one, but for the mark of the background.
pub proof fn law_arguments_are_handed_on(
    args: &Vec<String>,
    fewer: &Vec<String>,
    r: Vec<String>,
    before: Vec<String>,
    child: Vec<String>,
)
    requires
        call_ensures(strip_flags_for_daemon_child, (args,), r),
        call_ensures(strip_flags_for_daemon_child, (fewer,), before),
        call_ensures(daemon_child_args, (args,), child),
    ensures
        args@.len() == 0 ==> r@.len() == 0,
        args@.len() > 0 && fewer@ == args@.drop_last() ==> views(r@) == if args@.last()@
            == "--daemon-child"@ {
            views(before@)
        } else {
            views(before@).push(args@.last()@)
        },
        views(child@) == views(r@).push("--daemon-child"@),
{
    assert(views(args@).len() == args@.len());
    assert(views(r@).len() == r@.len());
    if args@.len() > 0 && fewer@ == args@.drop_last() {
        assert(views(args@).drop_last() =~= views(fewer@));
        assert(views(args@).last() == args@.last()@);
    }
}

/// A daemon that stays in its process just runs. One that goes to the background does so where
/// no other runs; where one does, its policy decides.
pub proof fn law_running_daemon_is_treated_by_policy(
    runtime: &DaemonRuntimeCli,
    running: &Option<RunningInstance>,
    mode_text: &'static str,
    r: StartupStep,
)
    requires
        call_ensures(startup_step, (runtime, running), r),
        *running matches Some(found) ==> call_ensures(
            ServiceMode::as_str,
            (found.service_mode,),
            mode_text,
        ),
    ensures
        runtime.foreground || runtime.daemon_child ==> r is RunHere,
        !(runtime.foreground || runtime.daemon_child) ==> {
            &&& *running is None ==> r is SpawnChild
            &&& *running is Some && runtime.existing_instance_policy is Ignore ==> r is SpawnChild
            &&& *running matches Some(found) ==> runtime.existing_instance_policy is Error ==> (
            r matches StartupStep::Refuse(message) && message@
                == "a running daemon instance is already discovered at "@ + found.base_url@
                + " (service_mode="@ + mode_text@
                + "). use --existing-instance=replace to replace it or --existing-instance=ignore to run without discovery registration"@)
            &&& *running matches Some(found) ==> runtime.existing_instance_policy is Replace
                ==> found.service_mode is Standalone ==> (r matches StartupStep::StopExisting {
                base_url,
            } && base_url@ == found.base_url@)
            &&& *running matches Some(found) ==> runtime.existing_instance_policy is Replace
                ==> found.service_mode is Systemd ==> (r matches StartupStep::RestartExisting {
                base_url,
                announcement,
            } && base_url@ == found.base_url@ && announcement@
                == "Existing systemd-managed daemon at "@ + found.base_url@
                + " received restart request. The systemd unit should restart it automatically."@)
        },
{
}

/// A daemon that is to be replaced is first asked to stop, then awaited for 15 seconds, and
/// only then does the new one begin. Each of these steps may fail, and it is said which did.
pub proof fn law_start_goes_step_by_step(
    step: StartupStep,
    outcome: Result<(), Complaint>,
    r: Result<StartupStep, Complaint>,
)
    requires
        call_ensures(startup_step_after, (step, outcome), r),
    ensures
        outcome is Ok && step is SpawnChild ==> r == Ok::<_, Complaint>(StartupStep::Done(None)),
        outcome is Ok ==> (step matches StartupStep::RestartExisting { base_url, announcement }
            ==> r == Ok::<_, Complaint>(StartupStep::Done(Some(announcement)))),
        outcome is Ok ==> (step matches StartupStep::StopExisting { base_url } ==> r == Ok::<
            _,
            Complaint,
        >(StartupStep::AwaitStop { base_url, timeout_secs: 15 })),
        outcome is Ok && step is AwaitStop ==> r == Ok::<_, Complaint>(StartupStep::SpawnChild),
        step is RunHere || step is Refuse || step is Done ==> r == Ok::<_, Complaint>(step),
        outcome matches Err(cause) ==> step is SpawnChild ==> (r matches Err(complaint)
            && came_of(complaint, "failed to spawn background daemon process"@, cause)),
        outcome matches Err(cause) ==> step is RestartExisting ==> (r matches Err(complaint)
            && came_of(
            complaint,
            "failed to request restart for systemd-managed instance"@,
            cause,
        )),
        outcome matches Err(cause) ==> step is StopExisting ==> (r matches Err(complaint)
            && came_of(
            complaint,
            "failed to request shutdown for existing standalone instance"@,
            cause,
        )),
        outcome matches Err(cause) ==> step is AwaitStop ==> (r matches Err(complaint) && came_of(
            complaint,
            "existing standalone instance did not stop in time"@,
            cause,
        )),
{
    match (outcome, r) {
        (Err(cause), Err(complaint)) => {
            lemma_came_of(complaint, complaint.message@, cause);
        },
        _ => {},
    }
}

/// The address to bind to is the host and the port, and where that fails both are named.
pub proof fn law_address_is_host_and_port(
    runtime: &DaemonRuntimeCli,
    text: String,
    address: &str,
    error: &str,
    failure: String,
)
    requires
        call_ensures(bind_text, (runtime,), text),
        call_ensures(bind_failure, (address, error), failure),
    ensures
        text@ == runtime.host@ + ":"@ + decimal(runtime.port as nat),
        failure@ == "failed to bind "@ + address@ + ": "@ + error@
            + ". another process is likely already using this address; stop it or use --port with another value"@,
{
}

/// A daemon makes its address known unless it ignores others.
pub proof fn law_address_is_made_known(runtime: &DaemonRuntimeCli, r: bool)
    requires
        call_ensures(publishes_endpoint, (runtime,), r),
    ensures
        runtime.existing_instance_policy is Ignore ==> !r,
        runtime.existing_instance_policy is Error || runtime.existing_instance_policy is Replace
            ==> r,
{
}

/// Each phase of a daemon is told in its own words.
pub proof fn law_phases_are_told(phase: DaemonPhase, address: &str, r: String)
    requires
        call_ensures(phase_text, (phase, address), r),
    ensures
        phase is Initializing ==> r@ == "initializing runtime context (plugins and cache)"@,
        phase is Binding ==> r@ == "binding HTTP listener"@,
        phase is Bound ==> r@ == "HTTP listener bound on "@ + address@ + "; publishing endpoint"@,
        phase is Starting ==> r@ == "starting HTTP server"@,
        phase is Ready ==> r@ == "ready to serve requests on http://"@ + address@,
        phase is Stopping ==> r@ == "stopping daemon"@,
{
}

/// True if an optional path is another, in its components and as it is written.
pub open spec fn is_same_path(a: Option<LexicalPath>, b: Option<LexicalPath>) -> bool {
    match (a, b) {
        (Some(p), Some(q)) => p@ == q@ && p.written() == q.written(),
        (None, None) => true,
        _ => false,
    }
}

/// Clients are told the configuration as it is, with the port that was bound to.
pub proof fn law_configuration_is_told(
    runtime: &DaemonRuntimeCli,
    app_version: &str,
    bound_port: u16,
    plugins_dir: &LexicalPath,
    app_data_dir: &LexicalPath,
    overrides_dir: &Option<LexicalPath>,
    policy: &'static str,
    mode: &'static str,
    r: RuntimeConfig,
)
    requires
        call_ensures(
            runtime_config,
            (runtime, app_version, bound_port, plugins_dir, app_data_dir, overrides_dir),
            r,
        ),
        call_ensures(
            ExistingInstancePolicy::as_str,
            (runtime.existing_instance_policy,),
            policy,
        ),
        call_ensures(ServiceMode::as_str, (runtime.service_mode,), mode),
    ensures
        r.app_version@ == app_version@,
        r.host@ == runtime.host@,
        r.port == bound_port,
        r.service_mode@ == mode@,
        r.existing_instance_policy@ == policy@,
        is_same_path(r.plugins_dir, Some(*plugins_dir)),
        is_same_path(r.app_data_dir, Some(*app_data_dir)),
        is_same_path(r.plugin_overrides_dir, *overrides_dir),
        r.enabled_plugins@ == runtime.shared.enabled_plugins@,
        r.refresh_interval_secs == runtime.refresh_interval_secs,
        r.log_level@ == runtime.shared.log_level@,
{
}

/// The files of a daemon are its plugins, its overrides, its configuration, which does not
/// count in test mode, and its program.
pub proof fn law_files_of_the_daemon_are_named(
    runtime: &DaemonRuntimeCli,
    plugins_dir: &LexicalPath,
    overrides_dir: &Option<LexicalPath>,
    config: Result<LexicalPath, Complaint>,
    executable: Result<LexicalPath, String>,
    r: Result<RestartWatchInputs, Complaint>,
)
    requires
        call_ensures(
            build_restart_watch_inputs,
            (runtime, plugins_dir, overrides_dir, config, executable),
            r,
        ),
    ensures
        r matches Ok(inputs) ==> {
            &&& is_same_path(Some(inputs.plugins_dir), Some(*plugins_dir))
            &&& is_same_path(inputs.plugin_overrides_dir, *overrides_dir)
            &&& runtime.shared.test_mode ==> inputs.config_file is None
            &&& !runtime.shared.test_mode ==> config is Ok && is_same_path(
                inputs.config_file,
                Some(config->Ok_0),
            )
            &&& executable is Ok && is_same_path(Some(inputs.binary_file), Some(executable->Ok_0))
        },
        r is Ok <==> (runtime.shared.test_mode || config is Ok) && executable is Ok,
        !runtime.shared.test_mode ==> (config matches Err(cause) ==> (r matches Err(complaint)
            && came_of(complaint, "failed to resolve config file path"@, cause))),
        runtime.shared.test_mode || config is Ok ==> (executable matches Err(cause) ==> (
        r matches Err(complaint) && complaint.message@ == "failed to resolve current executable"@
            && complaint.causes@.len() == 1 && complaint.causes@[0]@ == cause@)),
{
    match (config, r) {
        (Err(cause), Err(complaint)) => {
            if !runtime.shared.test_mode {
                lemma_came_of(complaint, complaint.message@, cause);
            }
        },
        _ => {},
    }
    match r {
        Err(complaint) => {
            assert(views(complaint.causes@).len() == complaint.causes@.len());
            if complaint.causes@.len() > 0 {
                assert(views(complaint.causes@)[0] == complaint.causes@[0]@);
            }
        },
        Ok(_) => {},
    }
}

/// Where a reset is known it is waited for too, and for so long.
pub proof fn law_reset_is_waited_for(until: Option<u64>, r: RefreshWait)
    requires
        call_ensures(refresh_wait, (until,), r),
    ensures
        until is None ==> r is Tick,
        until matches Some(delay) ==> r == RefreshWait::TickOrReset(delay),
{
}

/// Plugins are asked again as long as one reports a past reset, the reset is known and it is
/// not too long ago.
pub proof fn law_past_resets_are_asked_for_again(
    past: bool,
    since: Option<u64>,
    delay: u64,
    max_age: u64,
    r: RetryStep,
)
    requires
        call_ensures(retry_step, (past, since, delay, max_age), r),
    ensures
        !past ==> r is Done,
        past && since is None ==> r is Expired,
        past ==> (since matches Some(elapsed) ==> elapsed < max_age ==> r == RetryStep::RetryAfter(
            delay,
        )),
        past ==> (since matches Some(elapsed) ==> elapsed >= max_age ==> r is Expired),
{
}

/// The daemon asks again every 30 seconds, and gives up once the reset is five minutes ago.
pub proof fn law_daemon_asks_again_for_five_minutes(past: bool, elapsed: u64, r: RetryStep)
    requires
        call_ensures(
            retry_step,
            (
                past,
                Some(elapsed),
                (RESET_RETRY_DELAY_SECS * 1000) as u64,
                (MAX_RETRY_AGE_SECS * 1000) as u64,
            ),
            r,
        ),
    ensures
        !past ==> r is Done,
        past && elapsed < 300_000 ==> r == RetryStep::RetryAfter(30_000),
        past && elapsed >= 300_000 ==> r is Expired,
{
}

/// The life of a daemon begins with its plugins and ends with the word that it stops. The
/// steps between come in their order; two of them are left out where they are not wanted.
pub proof fn law_daemon_lives_in_order(
    runtime: &DaemonRuntimeCli,
    publishes: bool,
    r: Vec<DaemonAction>,
)
    requires
        call_ensures(daemon_plan, (runtime,), r),
        call_ensures(publishes_endpoint, (runtime,), publishes),
    ensures
        ({
            let asks: int = if runtime.refresh_interval_secs > 0 {
                1
            } else {
                0
            };
            let tells: int = if publishes {
                1
            } else {
                0
            };
            let k = 2 + asks;
            let m = k + 5 + tells;
            &&& r@.len() == m + 12
            &&& r@[0] == DaemonAction::Report(DaemonPhase::Initializing)
            &&& r@[1] is LoadPlugins
            &&& asks == 1 ==> r@[2] == DaemonAction::RefreshEvery(runtime.refresh_interval_secs)
            &&& r@[k] is ReadAddress
            &&& r@[k + 1] == DaemonAction::Report(DaemonPhase::Binding)
            &&& r@[k + 2] is Bind
            &&& r@[k + 3] is LookUpAddress
            &&& r@[k + 4] == DaemonAction::Report(DaemonPhase::Bound)
            &&& tells == 1 ==> r@[k + 5] is Publish
            &&& r@[m] == DaemonAction::Report(DaemonPhase::Starting)
            &&& r@[m + 1] is Serve
            &&& r@[m + 2] is AwaitReadiness
            &&& r@[m + 3] == DaemonAction::Report(DaemonPhase::Ready)
            &&& r@[m + 4] is AnnounceReady
            &&& r@[m + 5] is StartWatchdog
            &&& r@[m + 6] is WatchFiles
            &&& r@[m + 7] is AwaitEnd
            &&& r@[m + 8] is StopTasks
            &&& r@[m + 9] is CheckService
            &&& r@[m + 10] == DaemonAction::Report(DaemonPhase::Stopping)
            &&& r@[m + 11] is AnnounceStop
        }),
{
}

/// A daemon ends where a step fails that it needs, and says which; else it goes on.
pub proof fn law_needed_step_ends_the_daemon(
    action: DaemonAction,
    address: &str,
    error: Complaint,
    failure: String,
    r: Option<Complaint>,
    text: &str,
)
    requires
        call_ensures(step_failure, (action, address, error), r),
        text@ == error.message@,
        call_ensures(bind_failure, (address, text), failure),
    ensures
        action is Report || action is RefreshEvery || action is Serve || action is StartWatchdog
            || action is WatchFiles || action is StopTasks || action is AnnounceStop ==> r is None,
        action is LoadPlugins ==> (r matches Some(complaint) && complaint@ == error@),
        action is Bind ==> (r matches Some(complaint) && complaint.message@ == failure@
            && complaint.causes@.len() == 0),
        action is ReadAddress ==> (r matches Some(complaint) && came_of(
            complaint,
            "invalid bind address"@,
            error,
        )),
        action is LookUpAddress ==> (r matches Some(complaint) && came_of(
            complaint,
            "failed to resolve bound HTTP listener address"@,
            error,
        )),
        action is Publish ==> (r matches Some(complaint) && came_of(
            complaint,
            "failed to publish daemon endpoint"@,
            error,
        )),
        action is AwaitReadiness ==> (r matches Some(complaint) && came_of(
            complaint,
            "HTTP server did not become ready in time"@,
            error,
        )),
        action is AnnounceReady ==> (r matches Some(complaint) && came_of(
            complaint,
            "failed to notify systemd that daemon startup completed"@,
            error,
        )),
        action is AwaitEnd ==> (r matches Some(complaint) && came_of(
            complaint,
            "http server task failed to join"@,
            error,
        )),
        action is CheckService ==> (r matches Some(complaint) && came_of(
            complaint,
            "http server failed"@,
            error,
        )),
{
    match r {
        Some(complaint) => {
            if action is Bind {
                assert(views(complaint.causes@).len() == complaint.causes@.len());
            } else if action !is LoadPlugins {
                lemma_came_of(complaint, complaint.message@, error);
            }
        },
        None => {},
    }
}

/// The address of a daemon is put into a file below the directory that was given, or at the
/// usual place, with the end of a line behind it.
pub proof fn law_address_is_published(
    addr: &SocketAddress,
    dir: &Option<LexicalPath>,
    usual: Result<DaemonEndpointPath, Complaint>,
    host: String,
    text: &str,
    url: String,
    r: Result<Publication, Complaint>,
    shown: &str,
    file: &LexicalPath,
)
    requires
        call_ensures(connect_host_for_bind_ip, (&addr.ip,), host),
        text@ == host@,
        call_ensures(format_http_base_url, (text, addr.port), url),
        call_ensures(PublishedDiscovery::publish, (addr, dir, usual), r),
        r matches Ok(p) ==> call_ensures(PublishedDiscovery::base_url, (&p.discovery,), shown)
            && call_ensures(PublishedDiscovery::endpoint_file, (&p.discovery,), file),
    ensures
        r is Ok <==> *dir is Some || usual is Ok,
        r matches Ok(p) ==> shown@ == url@ && p.payload@ == url@ + "\n"@,
        r matches Ok(p) ==> (*dir matches Some(given) ==> is_same_path(Some(p.dir), Some(given))),
        r matches Ok(p) ==> (*dir matches Some(given) ==> given.written().len() > 0
            ==> given.written().last() != '/' ==> file.written() == given.written()
            + "/daemon-endpoint"@),
        r matches Ok(p) ==> *dir is None ==> (usual matches Ok(place) ==> is_same_path(
            Some(p.dir),
            Some(place.dir),
        ) && is_same_path(Some(*file), Some(place.endpoint_file))),
        r matches Err(complaint) ==> (usual matches Err(cause) ==> came_of(
            complaint,
            "failed to resolve daemon endpoint path"@,
            cause,
        )),
{
    reveal_strlit("/daemon-endpoint");
    reveal_strlit("daemon-endpoint");
    match (r, *dir) {
        (Ok(p), Some(given)) => {
            if given.written().len() > 0 && given.written().last() != '/' {
                assert(file.written() =~= given.written() + "/daemon-endpoint"@);
            }
        },
        _ => {},
    }
    match (r, usual) {
        (Err(complaint), Err(cause)) => {
            lemma_came_of(complaint, complaint.message@, cause);
        },
        _ => {},
    }
}

/// The address in a file is what stands there between white space, if anything does.
pub proof fn law_address_is_read_from_its_file(
    contents: &str,
    a: Seq<char>,
    t: Seq<char>,
    b: Seq<char>,
    r: Option<String>,
)
    requires
        call_ensures(endpoint_in, (contents,), r),
        reads_as(contents@, a, t, b),
    ensures
        t.len() == 0 ==> r is None,
        t.len() > 0 ==> (r matches Some(url) && url@ == t),
{
    law_trimming_takes_the_ends(a, t, b);
}

/// The file that is written first stands beside the one it takes the place of, and is named
/// after that one, the process and the time.
pub proof fn law_first_file_is_named_after_the_other(
    parent: &LexicalPath,
    destination: &LexicalPath,
    process: u32,
    nanos: u128,
    name: Option<String>,
    r: LexicalPath,
)
    requires
        call_ensures(temp_file_path, (parent, destination, process, nanos), r),
        call_ensures(LexicalPath::file_name, (destination,), name),
        parent.written().len() > 0,
        parent.written().last() != '/',
    ensures
        name matches Some(known) ==> r.written() == parent.written() + "/."@ + known@ + "."@
            + decimal(process as nat) + "."@ + decimal(nanos as nat) + ".tmp"@,
        name is None ==> r.written() == parent.written() + "/.daemon-endpoint.tmp."@ + decimal(
            process as nat,
        ) + "."@ + decimal(nanos as nat) + ".tmp"@,
{
    reveal_strlit("/.");
    reveal_strlit(".");
    reveal_strlit("/.daemon-endpoint.tmp.");
    reveal_strlit("daemon-endpoint.tmp");
    match name {
        Some(known) => {
            assert(r.written() =~= parent.written() + "/."@ + known@ + "."@ + decimal(
                process as nat,
            ) + "."@ + decimal(nanos as nat) + ".tmp"@);
        },
        None => {
            assert(r.written() =~= parent.written() + "/.daemon-endpoint.tmp."@ + decimal(
                process as nat,
            ) + "."@ + decimal(nanos as nat) + ".tmp"@);
        },
    }
}

proof fn lemma_end_slashes(base: Seq<char>, slashes: Seq<char>)
    requires
        forall|i: int| 0 <= i < slashes.len() ==> #[trigger] slashes[i] == '/',
        base.len() > 0 ==> base.last() != '/',
    ensures
        without_end_slashes(base + slashes) == base,
    decreases slashes.len(),
{
    if slashes.len() == 0 {
        assert(base + slashes =~= base);
    } else {
        let fewer = slashes.drop_last();
        lemma_end_slashes(base, fewer);
        assert((base + slashes).drop_last() =~= base + fewer);
        assert((base + slashes).last() == slashes.last());
    }
}

/// A question is put at the place for it, however many slashes stand at the end of the URL.
pub proof fn law_question_is_put_at_its_place(
    base_url: &str,
    base: Seq<char>,
    slashes: Seq<char>,
    question: QueryType,
    r: String,
)
    requires
        call_ensures(query_url, (base_url, question), r),
        base_url@ == base + slashes,
        forall|i: int| 0 <= i < slashes.len() ==> #[trigger] slashes[i] == '/',
        base.len() > 0 ==> base.last() != '/',
    ensures
        question is Usage ==> r@ == base + "/v1/usage"@,
        question is Plugins ==> r@ == base + "/v1/plugins"@,
{
    reveal_strlit("/");
    reveal_strlit("/v1/usage");
    reveal_strlit("v1/usage");
    reveal_strlit("/v1/plugins");
    reveal_strlit("v1/plugins");
    lemma_end_slashes(base, slashes);
    if question is Usage {
        assert(r@ =~= base + "/v1/usage"@);
    } else {
        assert(r@ =~= base + "/v1/plugins"@);
    }
}

/// An answer is taken as it is where it is an array of objects, and else it is complained about
/// under the name of the question.
pub proof fn law_answer_has_to_be_an_array_of_objects(
    question: QueryType,
    name: &'static str,
    found: &Option<Option<Vec<bool>>>,
    body: String,
    r: Result<String, String>,
)
    requires
        call_ensures(checked_payload, (question, found, body), r),
        call_ensures(QueryType::as_str, (question,), name),
    ensures
        question is Usage ==> name@ == "usage"@,
        question is Plugins ==> name@ == "plugins"@,
        *found is None ==> (r matches Err(message) && message@ == "daemon returned non-JSON "@
            + name@ + " payload"@),
        *found == Some(None::<Vec<bool>>) ==> (r matches Err(message) && message@
            == "daemon returned unexpected "@ + name@
            + " payload shape (expected JSON array)"@),
        *found matches Some(Some(flags)) ==> (forall|k: int|
            0 <= k < flags@.len() ==> #[trigger] flags@[k]) ==> (r matches Ok(payload) && payload@
            == body@),
        *found matches Some(Some(flags)) ==> (exists|k: int|
            0 <= k < flags@.len() && !#[trigger] flags@[k]) ==> (r matches Err(message) && message@
            == "daemon returned unexpected "@ + name@
            + " payload shape (array entries must be objects)"@),
{
    match *found {
        Some(Some(flags)) => {
            if exists|k: int| 0 <= k < flags@.len() && !#[trigger] flags@[k] {
                let k = choose|k: int| 0 <= k < flags@.len() && !#[trigger] flags@[k];
                assert(flags@[k] == false);
                assert(flags@.contains(false));
            }
        },
        _ => {},
    }
}

/// An answer with a status other than success is complained about with the status and the
/// body; one of success is judged by its body.
pub proof fn law_answer_counts_on_success(
    question: QueryType,
    status: u16,
    status_text: &str,
    body: String,
    found: &Option<Option<Vec<bool>>>,
    checked: Result<String, String>,
    r: Result<String, String>,
)
    requires
        call_ensures(daemon_answer, (question, status, status_text, body), r),
        call_ensures(checked_payload, (question, found, body), checked),
        crate::outside::entries_view(*found) == json_entries(body@),
    ensures
        status < 200 || status > 299 ==> (r matches Err(message) && message@
            == "daemon returned error: "@ + status_text@ + " - "@ + body@),
        200 <= status <= 299 ==> (r is Ok <==> checked is Ok),
        200 <= status <= 299 ==> (r matches Ok(payload) ==> payload@ == body@),
        200 <= status <= 299 ==> (r matches Err(message) ==> message@ == checked->Err_0@),
{
}

/// What a daemon answers is printed. Without a daemon, and where it does not answer well, the
/// question is answered here, and for usage the plugins are asked first.
pub proof fn law_question_is_answered_somehow(
    question: QueryType,
    answer: Option<Result<String, String>>,
    r: QueryStep,
)
    requires
        call_ensures(query_step, (question, answer), r),
    ensures
        answer matches Some(Ok(payload)) ==> (r matches QueryStep::Print(text) && text@
            == payload@),
        answer is None || (answer matches Some(Err(_))) ==> (r matches QueryStep::AnswerHere {
            refresh,
            note,
        } && (refresh <==> question is Usage)),
        answer is None && question is Usage ==> (r matches QueryStep::AnswerHere { refresh, note }
            && note@ == "no running daemon discovered; falling back to "@
            + "local plugin execution"@),
        answer is None && question is Plugins ==> (r matches QueryStep::AnswerHere {
            refresh,
            note,
        } && note@ == "no running daemon discovered; falling back to "@
            + "local plugins response generation"@),
        question is Usage ==> (answer matches Some(Err(message)) ==> (
        r matches QueryStep::AnswerHere { refresh, note } && note@
            == "failed to query running daemon: "@ + message@ + "; falling back to "@
            + "local plugin execution"@)),
        question is Plugins ==> (answer matches Some(Err(message)) ==> (
        r matches QueryStep::AnswerHere { refresh, note } && note@
            == "failed to query running daemon: "@ + message@ + "; falling back to "@
            + "local plugins response generation"@)),
{
}

} // verus!
