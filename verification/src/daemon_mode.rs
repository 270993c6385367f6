//! The decisions of a daemon: how it starts, when it asks the plugins again, and how it ends.

use crate::complaint::{because_of, over, Complaint};
use crate::http_api::{LifecycleCommand, RuntimeConfig};
use crate::instance_control::{ExistingInstancePolicy, RunningInstance, ServiceMode};
use crate::lexical_path::{opt_shown, LexicalPath};
use crate::restart_watcher::RestartWatchInputs;
use crate::runtime_cli::DaemonRuntimeCli;
use crate::systemd::SYSTEMD_RESTART_EXIT_CODE;
use crate::text::{decimal_text, same};
use vstd::prelude::*;

verus! {

/// How long a daemon that is replaced may take to stop, in seconds.
pub const EXISTING_INSTANCE_SHUTDOWN_TIMEOUT_SECS: u64 = 15;

/// How long after a reset the plugins are asked again, in seconds.
pub const RESET_CHECK_MARGIN_SECS: u64 = 5;

/// How long to wait before a plugin that still reports a past reset is asked again, in seconds.
pub const RESET_RETRY_DELAY_SECS: u64 = 30;

/// How long plugins that still report a past reset are asked again, in seconds.
pub const MAX_RETRY_AGE_SECS: u64 = 300;

/// The option by which a daemon knows that it runs in the background.
pub const DAEMON_CHILD_FLAG: &'static str = "--daemon-child";

/// How a run ends.
#[derive(Debug, Clone, Copy, PartialEq, Eq, Structural)]
pub enum RunOutcome {
    Completed,
    RestartSelf,
    ExitWithCode(i32),
}

/// How a run ends that is to be started again: systemd starts it again by itself.
pub open spec fn restart_outcome(service_mode: ServiceMode) -> RunOutcome {
    match service_mode {
        ServiceMode::Systemd => RunOutcome::ExitWithCode(SYSTEMD_RESTART_EXIT_CODE),
        ServiceMode::Standalone => RunOutcome::RestartSelf,
    }
}

/// How a run ends that is to be started again.
pub fn restart_outcome_for_service_mode(service_mode: ServiceMode) -> (r: RunOutcome)
    ensures
        r == restart_outcome(service_mode),
{
    match service_mode {
        ServiceMode::Systemd => RunOutcome::ExitWithCode(SYSTEMD_RESTART_EXIT_CODE),
        ServiceMode::Standalone => RunOutcome::RestartSelf,
    }
}

/// How a run ends, given what it was told to do, if anything.
pub fn final_outcome(command: Option<LifecycleCommand>, service_mode: ServiceMode) -> (r:
    RunOutcome)
    ensures
        r == if command == Some(LifecycleCommand::Restart) {
            restart_outcome(service_mode)
        } else {
            RunOutcome::Completed
        },
{
    match command {
        Some(LifecycleCommand::Restart) => restart_outcome_for_service_mode(service_mode),
        _ => RunOutcome::Completed,
    }
}

/// True if the daemon is to run in the background, in a process that has to be started yet.
pub open spec fn spawns_child(runtime: DaemonRuntimeCli) -> bool {
    !runtime.daemon_child && !runtime.foreground
}

/// True if the daemon is to run in the background, in a process that has to be started yet.
pub fn should_spawn_daemon_parent(runtime: &DaemonRuntimeCli) -> (r: bool)
    ensures
        r == spawns_child(*runtime),
{
    !runtime.daemon_child && !runtime.foreground
}

/// Arguments without the option that marks a process in the background.
pub open spec fn without_child_flag(args: Seq<Seq<char>>) -> Seq<Seq<char>>
    decreases args.len(),
{
    if args.len() == 0 {
        Seq::empty()
    } else {
        let before = without_child_flag(args.drop_last());
        if args.last() == DAEMON_CHILD_FLAG@ {
            before
        } else {
            before.push(args.last())
        }
    }
}

/// Arguments without the option that marks a process in the background.
pub fn strip_flags_for_daemon_child(raw_args: &Vec<String>) -> (r: Vec<String>)
    ensures
        crate::text::views(r@) == without_child_flag(crate::text::views(raw_args@)),
{
    let ghost all = crate::text::views(raw_args@);
    let mut out: Vec<String> = Vec::new();
    let mut i: usize = 0;
    assert(all.take(0) =~= Seq::<Seq<char>>::empty());
    assert(crate::text::views(out@) =~= Seq::<Seq<char>>::empty());
    while i < raw_args.len()
        invariant
            i <= raw_args@.len(),
            all == crate::text::views(raw_args@),
            crate::text::views(out@) == without_child_flag(all.take(i as int)),
        decreases raw_args@.len() - i,
    {
        let ghost next = all.take(i + 1);
        let ghost before = out@;
        assert(next.drop_last() =~= all.take(i as int));
        assert(next.last() == raw_args@[i as int]@);
        if !same(raw_args[i].as_str(), DAEMON_CHILD_FLAG) {
            out.push(raw_args[i].clone());
            assert(crate::text::views(out@) =~= crate::text::views(before).push(
                raw_args@[i as int]@,
            ));
        }
        i = i + 1;
    }
    assert(all.take(all.len() as int) =~= all);
    out
}

/// The arguments of the process in the background: those of this one, marked.
pub fn daemon_child_args(raw_args: &Vec<String>) -> (r: Vec<String>)
    ensures
        crate::text::views(r@) == without_child_flag(crate::text::views(raw_args@)).push(
            DAEMON_CHILD_FLAG@,
        ),
{
    let mut out = strip_flags_for_daemon_child(raw_args);
    let ghost before = out@;
    out.push(DAEMON_CHILD_FLAG.to_string());
    assert(crate::text::views(out@) =~= crate::text::views(before).push(DAEMON_CHILD_FLAG@));
    out
}

/// No mark is left, every other argument is kept, and arguments without a mark stay as they
/// are.
pub proof fn law_only_the_mark_is_removed(args: Seq<Seq<char>>)
    ensures
        !without_child_flag(args).contains(DAEMON_CHILD_FLAG@),
        forall|arg: Seq<char>|
            arg != DAEMON_CHILD_FLAG@ ==> (#[trigger] without_child_flag(args).contains(arg)
                <==> args.contains(arg)),
        !args.contains(DAEMON_CHILD_FLAG@) ==> without_child_flag(args) == args,
    decreases args.len(),
{
    let kept = without_child_flag(args);
    if args.len() > 0 {
        let init = args.drop_last();
        let before = without_child_flag(init);
        law_only_the_mark_is_removed(init);
        assert(args =~= init.push(args.last()));
        assert(args[args.len() - 1] == args.last());
        if args.last() != DAEMON_CHILD_FLAG@ {
            if kept.contains(DAEMON_CHILD_FLAG@) {
                let k = choose|k: int| 0 <= k < kept.len() && kept[k] == DAEMON_CHILD_FLAG@;
                assert(before[k] == DAEMON_CHILD_FLAG@);
            }
        }
        assert forall|arg: Seq<char>| arg != DAEMON_CHILD_FLAG@ implies (
        #[trigger] without_child_flag(args).contains(arg) <==> args.contains(arg)) by {
            assert(before.contains(arg) <==> init.contains(arg));
            if kept.contains(arg) {
                let k = choose|k: int| 0 <= k < kept.len() && kept[k] == arg;
                if k < before.len() {
                    assert(before[k] == arg);
                    let j = choose|j: int| 0 <= j < init.len() && init[j] == arg;
                    assert(args[j] == arg);
                }
            }
            if args.contains(arg) {
                let k = choose|k: int| 0 <= k < args.len() && args[k] == arg;
                if k < init.len() {
                    assert(init[k] == arg);
                    let j = choose|j: int| 0 <= j < before.len() && before[j] == arg;
                    assert(kept[j] == arg);
                } else {
                    assert(kept[before.len() as int] == arg);
                }
            }
        }
        if !args.contains(DAEMON_CHILD_FLAG@) {
            if init.contains(DAEMON_CHILD_FLAG@) {
                let k = choose|k: int| 0 <= k < init.len() && init[k] == DAEMON_CHILD_FLAG@;
                assert(args[k] == DAEMON_CHILD_FLAG@);
            }
            assert(kept =~= args);
        }
    } else {
        assert(kept =~= args);
    }
}

/// What a daemon does before it serves.
#[derive(Debug, PartialEq, Eq)]
pub enum StartupStep {
    /// Serve in this process.
    RunHere,
    /// Start a process in the background.
    SpawnChild,
    /// Give up.
    Refuse(String),
    /// Ask the daemon that runs already to start again, and say so.
    RestartExisting { base_url: String, announcement: String },
    /// Ask the daemon that runs already to stop.
    StopExisting { base_url: String },
    /// Wait until the daemon that was asked to stop is gone.
    AwaitStop { base_url: String, timeout_secs: u64 },
    /// End, and say what is to be said.
    Done(Option<String>),
}

/// What a daemon does first, given the daemon that runs already. One that serves in its own
/// process does not look for others.
pub fn startup_step(runtime: &DaemonRuntimeCli, running: &Option<RunningInstance>) -> (r:
    StartupStep)
    ensures
        !spawns_child(*runtime) ==> r == StartupStep::RunHere,
        spawns_child(*runtime) && running is None ==> r == StartupStep::SpawnChild,
        spawns_child(*runtime) ==> (running matches Some(found)
            ==> match runtime.existing_instance_policy {
            ExistingInstancePolicy::Error => r matches StartupStep::Refuse(message) && message@
                == "a running daemon instance is already discovered at "@ + found.base_url@
                + " (service_mode="@ + crate::instance_control::service_mode_name(
                found.service_mode,
            )
                + "). use --existing-instance=replace to replace it or --existing-instance=ignore to run without discovery registration"@,
            ExistingInstancePolicy::Ignore => r == StartupStep::SpawnChild,
            ExistingInstancePolicy::Replace => match found.service_mode {
                ServiceMode::Systemd => r matches StartupStep::RestartExisting {
                    base_url,
                    announcement,
                } && base_url@ == found.base_url@ && announcement@
                    == "Existing systemd-managed daemon at "@ + found.base_url@
                    + " received restart request. The systemd unit should restart it automatically."@,
                ServiceMode::Standalone => r matches StartupStep::StopExisting { base_url }
                    && base_url@ == found.base_url@,
            },
        }),
{
    if !should_spawn_daemon_parent(runtime) {
        return StartupStep::RunHere;
    }
    match running {
        None => StartupStep::SpawnChild,
        Some(found) => match runtime.existing_instance_policy {
            ExistingInstancePolicy::Error => {
                let mut message = "a running daemon instance is already discovered at ".to_string();
                message.append(found.base_url.as_str());
                message.append(" (service_mode=");
                message.append(found.service_mode.as_str());
                message.append(
                    "). use --existing-instance=replace to replace it or --existing-instance=ignore to run without discovery registration",
                );
                StartupStep::Refuse(message)
            },
            ExistingInstancePolicy::Ignore => StartupStep::SpawnChild,
            ExistingInstancePolicy::Replace => match found.service_mode {
                ServiceMode::Systemd => {
                    let mut announcement = "Existing systemd-managed daemon at ".to_string();
                    announcement.append(found.base_url.as_str());
                    announcement.append(
                        " received restart request. The systemd unit should restart it automatically.",
                    );
                    StartupStep::RestartExisting { base_url: found.base_url.clone(), announcement }
                },
                ServiceMode::Standalone => StartupStep::StopExisting {
                    base_url: found.base_url.clone(),
                },
            },
        },
    }
}

/// What a daemon does after a step, given how the step went. A daemon in the background is
/// started in place of another only once that one has stopped. Nothing follows the other
/// steps.
pub fn startup_step_after(step: StartupStep, outcome: Result<(), Complaint>) -> (r: Result<
    StartupStep,
    Complaint,
>)
    ensures
        match (step, outcome) {
            (StartupStep::SpawnChild, Ok(_)) => r == Ok::<StartupStep, Complaint>(
                StartupStep::Done(None),
            ),
            (StartupStep::SpawnChild, Err(cause)) => r matches Err(complaint) && complaint@
                == over("failed to spawn background daemon process"@, cause@),
            (StartupStep::RestartExisting { announcement, .. }, Ok(_)) => r == Ok::<
                StartupStep,
                Complaint,
            >(StartupStep::Done(Some(announcement))),
            (StartupStep::RestartExisting { .. }, Err(cause)) => r matches Err(complaint)
                && complaint@ == over(
                "failed to request restart for systemd-managed instance"@,
                cause@,
            ),
            (StartupStep::StopExisting { base_url }, Ok(_)) => r == Ok::<StartupStep, Complaint>(
                StartupStep::AwaitStop {
                    base_url,
                    timeout_secs: EXISTING_INSTANCE_SHUTDOWN_TIMEOUT_SECS,
                },
            ),
            (StartupStep::StopExisting { .. }, Err(cause)) => r matches Err(complaint)
                && complaint@ == over(
                "failed to request shutdown for existing standalone instance"@,
                cause@,
            ),
            (StartupStep::AwaitStop { .. }, Ok(_)) => r == Ok::<StartupStep, Complaint>(
                StartupStep::SpawnChild,
            ),
            (StartupStep::AwaitStop { .. }, Err(cause)) => r matches Err(complaint) && complaint@
                == over("existing standalone instance did not stop in time"@, cause@),
            _ => r == Ok::<StartupStep, Complaint>(step),
        },
        r == Ok::<StartupStep, Complaint>(StartupStep::SpawnChild) <==> step is AwaitStop
            && outcome is Ok,
{
    let cause = match outcome {
        Ok(_) => {
            return Ok(
                match step {
                    StartupStep::SpawnChild => StartupStep::Done(None),
                    StartupStep::RestartExisting { announcement, .. } => StartupStep::Done(
                        Some(announcement),
                    ),
                    StartupStep::StopExisting { base_url } => StartupStep::AwaitStop {
                        base_url,
                        timeout_secs: EXISTING_INSTANCE_SHUTDOWN_TIMEOUT_SECS,
                    },
                    StartupStep::AwaitStop { .. } => StartupStep::SpawnChild,
                    other => other,
                },
            );
        },
        Err(cause) => cause,
    };
    let message = match step {
        StartupStep::SpawnChild => "failed to spawn background daemon process",
        StartupStep::RestartExisting { .. } =>
            "failed to request restart for systemd-managed instance",
        StartupStep::StopExisting { .. } =>
            "failed to request shutdown for existing standalone instance",
        StartupStep::AwaitStop { .. } => "existing standalone instance did not stop in time",
        other => {
            return Ok(other);
        },
    };
    Err(Complaint::over(message.to_string(), cause))
}

/// The address to bind to, as text.
pub fn bind_text(runtime: &DaemonRuntimeCli) -> (r: String)
    ensures
        r@ == runtime.host@ + ":"@ + crate::text::decimal(runtime.port as nat),
{
    let mut out = runtime.host.clone();
    out.append(":");
    let port = decimal_text(runtime.port as u128);
    out.append(port.as_str());
    out
}

/// The complaint that an address cannot be bound to.
pub open spec fn bind_complaint(address: Seq<char>, error: Seq<char>) -> Seq<char> {
    "failed to bind "@ + address + ": "@ + error
        + ". another process is likely already using this address; stop it or use --port with another value"@
}

/// The complaint that an address cannot be bound to.
pub fn bind_failure(address: &str, error: &str) -> (r: String)
    ensures
        r@ == bind_complaint(address@, error@),
{
    let mut message = "failed to bind ".to_string();
    message.append(address);
    message.append(": ");
    message.append(error);
    message.append(
        ". another process is likely already using this address; stop it or use --port with another value",
    );
    message
}

/// True if the daemon makes its address known.
pub open spec fn makes_known(runtime: DaemonRuntimeCli) -> bool {
    runtime.existing_instance_policy != ExistingInstancePolicy::Ignore
}

/// True if the daemon makes its address known.
pub fn publishes_endpoint(runtime: &DaemonRuntimeCli) -> (r: bool)
    ensures
        r == makes_known(*runtime),
{
    runtime.existing_instance_policy != ExistingInstancePolicy::Ignore
}

/// How far a daemon is.
#[derive(Debug, Clone, Copy, PartialEq, Eq, Structural)]
pub enum DaemonPhase {
    Initializing,
    Binding,
    Bound,
    Starting,
    Ready,
    Stopping,
}

/// What a service manager is told of it.
pub open spec fn phase_status(phase: DaemonPhase, address: Seq<char>) -> Seq<char> {
    match phase {
        DaemonPhase::Initializing => "initializing runtime context (plugins and cache)"@,
        DaemonPhase::Binding => "binding HTTP listener"@,
        DaemonPhase::Bound => "HTTP listener bound on "@ + address + "; publishing endpoint"@,
        DaemonPhase::Starting => "starting HTTP server"@,
        DaemonPhase::Ready => "ready to serve requests on http://"@ + address,
        DaemonPhase::Stopping => "stopping daemon"@,
    }
}

/// What a service manager is told of it. The address is that of the daemon, once it has one.
pub fn phase_text(phase: DaemonPhase, address: &str) -> (r: String)
    ensures
        r@ == phase_status(phase, address@),
{
    match phase {
        DaemonPhase::Initializing => "initializing runtime context (plugins and cache)".to_string(),
        DaemonPhase::Binding => "binding HTTP listener".to_string(),
        DaemonPhase::Bound => {
            let mut out = "HTTP listener bound on ".to_string();
            out.append(address);
            out.append("; publishing endpoint");
            out
        },
        DaemonPhase::Starting => "starting HTTP server".to_string(),
        DaemonPhase::Ready => {
            let mut out = "ready to serve requests on http://".to_string();
            out.append(address);
            out
        },
        DaemonPhase::Stopping => "stopping daemon".to_string(),
    }
}

/// The configuration as clients are told of it.
pub fn runtime_config(
    runtime: &DaemonRuntimeCli,
    app_version: &str,
    bound_port: u16,
    plugins_dir: &LexicalPath,
    app_data_dir: &LexicalPath,
    plugin_overrides_dir: &Option<LexicalPath>,
) -> (r: RuntimeConfig)
    ensures
        r.app_version@ == app_version@,
        r.host@ == runtime.host@,
        r.port == bound_port,
        r.service_mode@ == crate::instance_control::service_mode_name(runtime.service_mode),
        r.existing_instance_policy@ == crate::instance_control::policy_name(
            runtime.existing_instance_policy,
        ),
        opt_shown(r.plugins_dir) == Some((plugins_dir@, plugins_dir.written())),
        r.enabled_plugins@ == runtime.shared.enabled_plugins@,
        opt_shown(r.app_data_dir) == Some((app_data_dir@, app_data_dir.written())),
        opt_shown(r.plugin_overrides_dir) == opt_shown(*plugin_overrides_dir),
        r.refresh_interval_secs == runtime.refresh_interval_secs,
        r.log_level@ == runtime.shared.log_level@,
{
    RuntimeConfig {
        app_version: app_version.to_string(),
        host: runtime.host.clone(),
        port: bound_port,
        service_mode: runtime.service_mode.as_str().to_string(),
        existing_instance_policy: runtime.existing_instance_policy.as_str().to_string(),
        plugins_dir: Some(plugins_dir.clone()),
        enabled_plugins: runtime.shared.enabled_plugins.clone(),
        app_data_dir: Some(app_data_dir.clone()),
        plugin_overrides_dir: match plugin_overrides_dir {
            Some(path) => Some(path.clone()),
            None => None,
        },
        refresh_interval_secs: runtime.refresh_interval_secs,
        log_level: runtime.shared.log_level.clone(),
    }
}

/// The files to watch for a restart, or why they are not known. The configuration file is not
/// watched in test mode.
pub fn build_restart_watch_inputs(
    runtime: &DaemonRuntimeCli,
    plugins_dir: &LexicalPath,
    plugin_overrides_dir: &Option<LexicalPath>,
    config_path: Result<LexicalPath, Complaint>,
    executable: Result<LexicalPath, String>,
) -> (r: Result<RestartWatchInputs, Complaint>)
    ensures
        !runtime.shared.test_mode && config_path is Err ==> (r matches Err(complaint) && complaint@
            == over("failed to resolve config file path"@, config_path->Err_0@)),
        (runtime.shared.test_mode || config_path is Ok) && executable is Err ==> (r matches Err(
            complaint,
        ) && complaint@ == because_of(
            "failed to resolve current executable"@,
            executable->Err_0@,
        )),
        (runtime.shared.test_mode || config_path is Ok) && executable is Ok ==> (r matches Ok(
            inputs,
        ) && inputs.plugins_dir@ == plugins_dir@ && inputs.plugins_dir.written()
            == plugins_dir.written() && opt_shown(inputs.plugin_overrides_dir) == opt_shown(
            *plugin_overrides_dir,
        ) && inputs.config_file == (if runtime.shared.test_mode {
            None
        } else {
            Some(config_path->Ok_0)
        }) && inputs.binary_file == executable->Ok_0),
{
    let config_file = if runtime.shared.test_mode {
        None
    } else {
        match config_path {
            Ok(path) => Some(path),
            Err(cause) => {
                return Err(
                    Complaint::over("failed to resolve config file path".to_string(), cause),
                );
            },
        }
    };
    let binary_file = match executable {
        Ok(path) => path,
        Err(cause) => {
            return Err(
                Complaint::because("failed to resolve current executable".to_string(), cause),
            );
        },
    };
    Ok(
        RestartWatchInputs {
            plugins_dir: plugins_dir.clone(),
            plugin_overrides_dir: match plugin_overrides_dir {
                Some(path) => Some(path.clone()),
                None => None,
            },
            config_file,
            binary_file,
        },
    )
}

/// What to wait for before the plugins are asked again.
#[derive(Debug, Clone, Copy, PartialEq, Eq, Structural)]
pub enum RefreshWait {
    /// The next tick of the clock.
    Tick,
    /// The next tick of the clock, or so many milliseconds if they pass first.
    TickOrReset(u64),
}

/// What to wait for, given the time until the next reset that is known.
pub fn refresh_wait(until_next_reset: Option<u64>) -> (r: RefreshWait)
    ensures
        r == match until_next_reset {
            Some(delay) => RefreshWait::TickOrReset(delay),
            None => RefreshWait::Tick,
        },
{
    match until_next_reset {
        Some(delay) => RefreshWait::TickOrReset(delay),
        None => RefreshWait::Tick,
    }
}

/// What to do after the plugins were asked.
#[derive(Debug, Clone, Copy, PartialEq, Eq, Structural)]
pub enum RetryStep {
    /// No plugin reports a past reset.
    Done,
    /// A plugin does, but the time for asking again is over.
    Expired,
    /// Ask again after so many milliseconds.
    RetryAfter(u64),
}

/// What to do, given whether a plugin reports a past reset and how long ago the reset was
/// that the plugins were asked for, if they were asked for one.
pub open spec fn next_retry(
    has_past_resets: bool,
    since_reset: Option<u64>,
    retry_delay: u64,
    max_age: u64,
) -> RetryStep {
    if !has_past_resets {
        RetryStep::Done
    } else {
        match since_reset {
            Some(elapsed) => if elapsed < max_age {
                RetryStep::RetryAfter(retry_delay)
            } else {
                RetryStep::Expired
            },
            None => RetryStep::Expired,
        }
    }
}

/// What to do after the plugins were asked; the times are in milliseconds.
pub fn retry_step(
    has_past_resets: bool,
    since_reset: Option<u64>,
    retry_delay: u64,
    max_age: u64,
) -> (r: RetryStep)
    ensures
        r == next_retry(has_past_resets, since_reset, retry_delay, max_age),
{
    if !has_past_resets {
        return RetryStep::Done;
    }
    match since_reset {
        Some(elapsed) => if elapsed < max_age {
            RetryStep::RetryAfter(retry_delay)
        } else {
            RetryStep::Expired
        },
        None => RetryStep::Expired,
    }
}

/// Asking again comes to an end: after `retries` waits the reset is at least as long ago as
/// these waits took, so that only so many fit into the time for asking again. Plugins that were
/// not asked for a reset are not asked again at all.
pub proof fn law_retries_come_to_an_end(
    has_past_resets: bool,
    retries: nat,
    since_reset: u64,
    retry_delay: u64,
    max_age: u64,
)
    requires
        since_reset >= retries * retry_delay,
    ensures
        next_retry(has_past_resets, Some(since_reset), retry_delay, max_age) is RetryAfter
            ==> retries * retry_delay < max_age,
        next_retry(has_past_resets, None, retry_delay, max_age) !is RetryAfter,
{
}

} // verus!
