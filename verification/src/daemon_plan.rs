//! The life of a daemon, step by step. A step is taken once the one before it is done.

use crate::complaint::{over, plain, Complaint, ComplaintView};
use crate::daemon_mode::{bind_failure, publishes_endpoint, DaemonPhase};
use crate::runtime_cli::DaemonRuntimeCli;
use vstd::prelude::*;

verus! {

/// A step in the life of a daemon.
#[derive(Debug, Clone, Copy, PartialEq, Eq, Structural)]
pub enum DaemonAction {
    /// Tell the service manager how far the daemon is.
    Report(DaemonPhase),
    /// Load the plugins and ask them for the first time.
    LoadPlugins,
    /// Ask the plugins again each time that so many seconds have passed.
    RefreshEvery(u64),
    /// Read the address to bind to.
    ReadAddress,
    /// Bind to it.
    Bind,
    /// Look up the address that was bound to.
    LookUpAddress,
    /// Make it known where other programs look for it.
    Publish,
    /// Begin to serve.
    Serve,
    /// Wait until the own service answers.
    AwaitReadiness,
    /// Tell the service manager that the daemon is ready.
    AnnounceReady,
    /// Give signs of life, where the service manager wants them.
    StartWatchdog,
    /// Watch the files whose changes call for a restart.
    WatchFiles,
    /// Serve until the end.
    AwaitEnd,
    /// Stop what goes on beside the service.
    StopTasks,
    /// See whether the service ended well.
    CheckService,
    /// Tell the service manager that the daemon stops.
    AnnounceStop,
}

/// The steps in the life of a daemon, in order. Plugins are asked again only where there is
/// an interval for it, and the address is made known only where that is wanted.
pub open spec fn daemon_steps(refresh_secs: u64, publishes: bool) -> Seq<DaemonAction> {
    seq![DaemonAction::Report(DaemonPhase::Initializing), DaemonAction::LoadPlugins] + (
    if refresh_secs > 0 {
        seq![DaemonAction::RefreshEvery(refresh_secs)]
    } else {
        Seq::empty()
    }) + seq![
        DaemonAction::ReadAddress,
        DaemonAction::Report(DaemonPhase::Binding),
        DaemonAction::Bind,
        DaemonAction::LookUpAddress,
        DaemonAction::Report(DaemonPhase::Bound),
    ] + (if publishes {
        seq![DaemonAction::Publish]
    } else {
        Seq::empty()
    }) + seq![
        DaemonAction::Report(DaemonPhase::Starting),
        DaemonAction::Serve,
        DaemonAction::AwaitReadiness,
        DaemonAction::Report(DaemonPhase::Ready),
        DaemonAction::AnnounceReady,
        DaemonAction::StartWatchdog,
        DaemonAction::WatchFiles,
        DaemonAction::AwaitEnd,
        DaemonAction::StopTasks,
        DaemonAction::CheckService,
        DaemonAction::Report(DaemonPhase::Stopping),
        DaemonAction::AnnounceStop,
    ]
}

/// The steps in the life of a daemon, in order.
pub fn daemon_plan(runtime: &DaemonRuntimeCli) -> (r: Vec<DaemonAction>)
    ensures
        r@ == daemon_steps(
            runtime.refresh_interval_secs,
            crate::daemon_mode::makes_known(*runtime),
        ),
{
    let mut plan: Vec<DaemonAction> = Vec::new();
    plan.push(DaemonAction::Report(DaemonPhase::Initializing));
    plan.push(DaemonAction::LoadPlugins);
    if runtime.refresh_interval_secs > 0 {
        plan.push(DaemonAction::RefreshEvery(runtime.refresh_interval_secs));
    }
    plan.push(DaemonAction::ReadAddress);
    plan.push(DaemonAction::Report(DaemonPhase::Binding));
    plan.push(DaemonAction::Bind);
    plan.push(DaemonAction::LookUpAddress);
    plan.push(DaemonAction::Report(DaemonPhase::Bound));
    if publishes_endpoint(runtime) {
        plan.push(DaemonAction::Publish);
    }
    plan.push(DaemonAction::Report(DaemonPhase::Starting));
    plan.push(DaemonAction::Serve);
    plan.push(DaemonAction::AwaitReadiness);
    plan.push(DaemonAction::Report(DaemonPhase::Ready));
    plan.push(DaemonAction::AnnounceReady);
    plan.push(DaemonAction::StartWatchdog);
    plan.push(DaemonAction::WatchFiles);
    plan.push(DaemonAction::AwaitEnd);
    plan.push(DaemonAction::StopTasks);
    plan.push(DaemonAction::CheckService);
    plan.push(DaemonAction::Report(DaemonPhase::Stopping));
    plan.push(DaemonAction::AnnounceStop);
    assert(plan@ =~= daemon_steps(
        runtime.refresh_interval_secs,
        crate::daemon_mode::makes_known(*runtime),
    ));
    plan
}

/// The complaint with which a daemon ends where a step fails; nothing where it goes on.
pub open spec fn step_complaint(
    action: DaemonAction,
    address: Seq<char>,
    error: ComplaintView,
) -> Option<ComplaintView> {
    match action {
        DaemonAction::LoadPlugins => Some(error),
        DaemonAction::ReadAddress => Some(over("invalid bind address"@, error)),
        DaemonAction::Bind => Some(
            plain(crate::daemon_mode::bind_complaint(address, error.message)),
        ),
        DaemonAction::LookUpAddress => Some(
            over("failed to resolve bound HTTP listener address"@, error),
        ),
        DaemonAction::Publish => Some(over("failed to publish daemon endpoint"@, error)),
        DaemonAction::AwaitReadiness => Some(
            over("HTTP server did not become ready in time"@, error),
        ),
        DaemonAction::AnnounceReady => Some(
            over("failed to notify systemd that daemon startup completed"@, error),
        ),
        DaemonAction::AwaitEnd => Some(over("http server task failed to join"@, error)),
        DaemonAction::CheckService => Some(over("http server failed"@, error)),
        _ => None,
    }
}

/// The complaint with which a daemon ends where a step fails; nothing where it goes on. The
/// address is the one to bind to.
pub fn step_failure(action: DaemonAction, address: &str, error: Complaint) -> (r: Option<Complaint>)
    ensures
        match r {
            Some(complaint) => step_complaint(action, address@, error@) == Some(complaint@),
            None => step_complaint(action, address@, error@) is None,
        },
{
    let message = match action {
        DaemonAction::LoadPlugins => {
            return Some(error);
        },
        DaemonAction::Bind => {
            return Some(Complaint::new(bind_failure(address, error.message.as_str())));
        },
        DaemonAction::ReadAddress => "invalid bind address",
        DaemonAction::LookUpAddress => "failed to resolve bound HTTP listener address",
        DaemonAction::Publish => "failed to publish daemon endpoint",
        DaemonAction::AwaitReadiness => "HTTP server did not become ready in time",
        DaemonAction::AnnounceReady => "failed to notify systemd that daemon startup completed",
        DaemonAction::AwaitEnd => "http server task failed to join",
        DaemonAction::CheckService => "http server failed",
        _ => {
            return None;
        },
    };
    Some(Complaint::over(message.to_string(), error))
}

/// A daemon is announced as ready only after its own service has answered, and the service
/// begins only after the plugins were loaded and an address was bound to.
pub proof fn law_ready_comes_after_an_answer(refresh_secs: u64, publishes: bool, i: int)
    requires
        0 <= i < daemon_steps(refresh_secs, publishes).len(),
        daemon_steps(refresh_secs, publishes)[i] == DaemonAction::AnnounceReady,
    ensures
        i >= 3,
        daemon_steps(refresh_secs, publishes)[i - 2] == DaemonAction::AwaitReadiness,
        daemon_steps(refresh_secs, publishes)[i - 3] == DaemonAction::Serve,
        daemon_steps(refresh_secs, publishes).take(i - 3).contains(DaemonAction::LoadPlugins),
        daemon_steps(refresh_secs, publishes).take(i - 3).contains(DaemonAction::Bind),
{
    let steps = daemon_steps(refresh_secs, publishes);
    let before = steps.take(i - 3);
    assert(before[1] == DaemonAction::LoadPlugins);
    if refresh_secs > 0 {
        assert(before[5] == DaemonAction::Bind);
    } else {
        assert(before[4] == DaemonAction::Bind);
    }
}

/// The address of a daemon is made known exactly where that is wanted, and then only once it
/// is bound to and before the service begins.
pub proof fn law_address_is_made_known_where_wanted(refresh_secs: u64, publishes: bool)
    ensures
        daemon_steps(refresh_secs, publishes).contains(DaemonAction::Publish) == publishes,
        forall|i: int|
            0 <= i < daemon_steps(refresh_secs, publishes).len() && (#[trigger] daemon_steps(
                refresh_secs,
                publishes,
            )[i]) == DaemonAction::Publish ==> i >= 3 && daemon_steps(refresh_secs, publishes)[i
                - 3] == DaemonAction::Bind && daemon_steps(refresh_secs, publishes)[i + 2]
                == DaemonAction::Serve,
{
    let steps = daemon_steps(refresh_secs, publishes);
    if publishes {
        if refresh_secs > 0 {
            assert(steps[8] == DaemonAction::Publish);
        } else {
            assert(steps[7] == DaemonAction::Publish);
        }
    }
}

} // verus!
