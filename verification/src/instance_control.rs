//! Daemons that are running already, and what to ask of them.

use crate::complaint::{because_of, plain, Complaint};
use crate::text::{lowered, same, to_lower, trim, trimmed};
use vstd::prelude::*;

verus! {

/// How long a request to a running daemon may take, in seconds.
pub const HTTP_TIMEOUT_SECS: u64 = 5;

/// How long to wait between two looks at a stopping daemon, in milliseconds.
pub const SHUTDOWN_POLL_INTERVAL_MS: u64 = 150;

/// What to do if a daemon is running already.
#[derive(Debug, Clone, Copy, PartialEq, Eq, Structural)]
pub enum ExistingInstancePolicy {
    Error,
    Ignore,
    Replace,
}

/// Who started the daemon.
#[derive(Debug, Clone, Copy, PartialEq, Eq, Structural)]
pub enum ServiceMode {
    Standalone,
    Systemd,
}

/// A running daemon.
#[derive(Debug)]
pub struct RunningInstance {
    pub base_url: String,
    pub service_mode: ServiceMode,
}

/// The name of a policy.
pub open spec fn policy_name(policy: ExistingInstancePolicy) -> Seq<char> {
    match policy {
        ExistingInstancePolicy::Error => "error"@,
        ExistingInstancePolicy::Ignore => "ignore"@,
        ExistingInstancePolicy::Replace => "replace"@,
    }
}

/// The name of a service mode.
pub open spec fn service_mode_name(mode: ServiceMode) -> Seq<char> {
    match mode {
        ServiceMode::Standalone => "standalone"@,
        ServiceMode::Systemd => "systemd"@,
    }
}

/// A name as it is compared: without white space around it, in lower case.
pub open spec fn name_key(raw: Seq<char>) -> Seq<char> {
    lowered(trimmed(raw))
}

/// The policy that a text names.
pub open spec fn parsed_policy(raw: Seq<char>) -> Option<ExistingInstancePolicy> {
    if name_key(raw) == "error"@ {
        Some(ExistingInstancePolicy::Error)
    } else if name_key(raw) == "ignore"@ {
        Some(ExistingInstancePolicy::Ignore)
    } else if name_key(raw) == "replace"@ {
        Some(ExistingInstancePolicy::Replace)
    } else {
        None
    }
}

/// The service mode that a text names.
pub open spec fn parsed_service_mode(raw: Seq<char>) -> Option<ServiceMode> {
    if name_key(raw) == "standalone"@ {
        Some(ServiceMode::Standalone)
    } else if name_key(raw) == "systemd"@ {
        Some(ServiceMode::Systemd)
    } else {
        None
    }
}

/// A name without white space around it and without capitals is its own key.
proof fn lemma_plain_key(s: Seq<char>)
    requires
        s.len() > 0,
        forall|i: int| 0 <= i < s.len() ==> 'a' <= #[trigger] s[i] <= 'z',
    ensures
        name_key(s) == s,
{
    assert(crate::text::trimmed_start(s) == s);
    assert(crate::text::trimmed_end(s) == s);
    assert(lowered(s) =~= s);
}

/// The complaint about a text that names no policy.
pub open spec fn policy_complaint(raw: Seq<char>) -> Seq<char> {
    "invalid existing_instance value '"@ + raw + "'; expected one of: error, ignore, replace"@
}

/// The complaint about a text that names no service mode.
pub open spec fn service_mode_complaint(raw: Seq<char>) -> Seq<char> {
    "invalid service mode '"@ + raw + "'; expected one of: standalone, systemd"@
}

/// Each policy is what its name is read as.
pub proof fn law_policy_names_read_back(policy: ExistingInstancePolicy)
    ensures
        parsed_policy(policy_name(policy)) == Some(policy),
{
    reveal_strlit("error");
    reveal_strlit("ignore");
    reveal_strlit("replace");
    lemma_plain_key("error"@);
    lemma_plain_key("ignore"@);
    lemma_plain_key("replace"@);
    assert("error"@.len() == 5 && "ignore"@.len() == 6 && "replace"@.len() == 7);
}

/// Each service mode is what its name is read as.
pub proof fn law_service_mode_names_read_back(mode: ServiceMode)
    ensures
        parsed_service_mode(service_mode_name(mode)) == Some(mode),
{
    reveal_strlit("standalone");
    reveal_strlit("systemd");
    lemma_plain_key("standalone"@);
    lemma_plain_key("systemd"@);
    assert("standalone"@.len() == 10 && "systemd"@.len() == 7);
}

impl ExistingInstancePolicy {
    /// The name of the policy.
    pub fn as_str(self) -> (r: &'static str)
        ensures
            r@ == policy_name(self),
    {
        match self {
            ExistingInstancePolicy::Error => "error",
            ExistingInstancePolicy::Ignore => "ignore",
            ExistingInstancePolicy::Replace => "replace",
        }
    }

    /// The policy that a text names, whatever its case and the white space around it.
    pub fn parse(raw: &str) -> (r: Result<Self, String>)
        ensures
            r is Ok <==> parsed_policy(raw@) is Some,
            r matches Ok(policy) ==> parsed_policy(raw@) == Some(policy),
            r matches Err(message) ==> message@ == policy_complaint(raw@),
    {
        let bare = trim(raw);
        let key = to_lower(bare.as_str());
        if same(key.as_str(), "error") {
            Ok(ExistingInstancePolicy::Error)
        } else if same(key.as_str(), "ignore") {
            Ok(ExistingInstancePolicy::Ignore)
        } else if same(key.as_str(), "replace") {
            Ok(ExistingInstancePolicy::Replace)
        } else {
            let mut message = "invalid existing_instance value '".to_string();
            message.append(raw);
            message.append("'; expected one of: error, ignore, replace");
            Err(message)
        }
    }
}

impl ServiceMode {
    /// The name of the service mode.
    pub fn as_str(self) -> (r: &'static str)
        ensures
            r@ == service_mode_name(self),
    {
        match self {
            ServiceMode::Standalone => "standalone",
            ServiceMode::Systemd => "systemd",
        }
    }

    /// The service mode that a text names, whatever its case and the white space around it.
    pub fn parse(raw: &str) -> (r: Result<Self, String>)
        ensures
            r is Ok <==> parsed_service_mode(raw@) is Some,
            r matches Ok(mode) ==> parsed_service_mode(raw@) == Some(mode),
            r matches Err(message) ==> message@ == service_mode_complaint(raw@),
    {
        let bare = trim(raw);
        let key = to_lower(bare.as_str());
        if same(key.as_str(), "standalone") {
            Ok(ServiceMode::Standalone)
        } else if same(key.as_str(), "systemd") {
            Ok(ServiceMode::Systemd)
        } else {
            let mut message = "invalid service mode '".to_string();
            message.append(raw);
            message.append("'; expected one of: standalone, systemd");
            Err(message)
        }
    }
}

/// The URL at which a daemon tells its configuration.
pub fn config_url(base_url: &str) -> (r: String)
    ensures
        r@ == base_url@ + "/v1/config"@,
{
    let mut url = base_url.to_string();
    url.append("/v1/config");
    url
}

/// The URL at which a daemon takes a control request.
pub fn control_url(base_url: &str, action: &str) -> (r: String)
    ensures
        r@ == base_url@ + "/v1/"@ + action@,
{
    let mut url = base_url.to_string();
    url.append("/v1/");
    url.append(action);
    url
}

/// The URL at which a daemon says that it is there.
pub fn health_url(base_url: &str) -> (r: String)
    ensures
        r@ == base_url@ + "/health"@,
{
    let mut url = base_url.to_string();
    url.append("/health");
    url
}

/// True for the status codes of success.
pub open spec fn is_success(status: u16) -> bool {
    200 <= status < 300
}

/// What a daemon told of its configuration.
#[derive(Debug)]
pub struct RuntimeConfigProbe {
    pub app_version: Option<String>,
    pub service_mode: Option<String>,
}

/// The daemon that gave an answer, if the answer is that of a daemon: one that does not
/// say its version is none, and one that does not say who started it was started by hand.
pub fn running_instance_from(base_url: &str, probe: &RuntimeConfigProbe) -> (r: Result<
    RunningInstance,
    Complaint,
>)
    ensures
        r is Ok <==> probe.app_version is Some && (probe.service_mode matches Some(raw)
            ==> parsed_service_mode(raw@) is Some),
        r matches Ok(instance) ==> instance.base_url@ == base_url@ && instance.service_mode == (
        match probe.service_mode {
            Some(raw) => parsed_service_mode(raw@).unwrap(),
            None => ServiceMode::Standalone,
        }),
        r matches Err(complaint) ==> complaint@ == if probe.app_version is None {
            plain("running instance config payload missing appVersion"@)
        } else {
            because_of(
                "invalid remote service mode '"@ + probe.service_mode.unwrap()@ + "'"@,
                service_mode_complaint(probe.service_mode.unwrap()@),
            )
        },
{
    if probe.app_version.is_none() {
        return Err(
            Complaint::new("running instance config payload missing appVersion".to_string()),
        );
    }
    let service_mode = match &probe.service_mode {
        Some(raw) => match ServiceMode::parse(raw.as_str()) {
            Ok(mode) => mode,
            Err(cause) => {
                let mut message = "invalid remote service mode '".to_string();
                message.append(raw.as_str());
                message.append("'");
                return Err(Complaint::because(message, cause));
            },
        },
        None => ServiceMode::Standalone,
    };
    Ok(RunningInstance { base_url: base_url.to_string(), service_mode })
}

/// What the status of a reply to a question for the configuration says: nothing if the reply
/// holds the configuration, else the complaint with the status.
pub fn config_reply(status: u16, status_text: &str) -> (r: Result<(), String>)
    ensures
        r is Ok <==> is_success(status),
        r matches Err(message) ==> message@
            == "running instance config endpoint returned status "@ + status_text@,
{
    if 200 <= status && status < 300 {
        return Ok(());
    }
    let mut message = "running instance config endpoint returned status ".to_string();
    message.append(status_text);
    Err(message)
}

/// What a reply to a control request says: nothing if it was carried out, else the
/// complaint with the status and the body of the reply.
pub fn control_reply(action: &str, url: &str, status: u16, status_text: &str, body: &str) -> (r:
    Result<(), String>)
    ensures
        r is Ok <==> is_success(status),
        r matches Err(message) ==> message@ == action@ + " endpoint "@ + url@
            + " returned status "@ + status_text@ + ": "@ + body@,
{
    if 200 <= status && status < 300 {
        return Ok(());
    }
    let mut message = action.to_string();
    message.append(" endpoint ");
    message.append(url);
    message.append(" returned status ");
    message.append(status_text);
    message.append(": ");
    message.append(body);
    Err(message)
}

/// What to do next while waiting for a daemon to stop.
#[derive(Debug, PartialEq, Eq)]
pub enum WaitStep {
    /// Look whether the daemon still answers.
    Look,
    /// Wait for so many milliseconds.
    Sleep(u64),
    /// The daemon has stopped.
    Stopped,
    /// The daemon did not stop in time.
    TimedOut(String),
}

/// The complaint that a daemon did not stop in time.
pub open spec fn timeout_message(base_url: Seq<char>) -> Seq<char> {
    "timed out waiting for existing instance "@ + base_url + " to stop"@
}

/// What to do at a point in time: look at the daemon as long as there is time left.
pub fn wait_step_at(base_url: &str, now: u64, deadline: u64) -> (r: WaitStep)
    ensures
        now < deadline ==> r == WaitStep::Look,
        now >= deadline ==> (r matches WaitStep::TimedOut(message) && message@ == timeout_message(
            base_url@,
        )),
{
    if now >= deadline {
        let mut message = "timed out waiting for existing instance ".to_string();
        message.append(base_url);
        message.append(" to stop");
        WaitStep::TimedOut(message)
    } else {
        WaitStep::Look
    }
}

/// What to do after a look at the daemon.
pub fn wait_step_after(reachable: bool) -> (r: WaitStep)
    ensures
        r == if reachable {
            WaitStep::Sleep(SHUTDOWN_POLL_INTERVAL_MS)
        } else {
            WaitStep::Stopped
        },
{
    if reachable {
        WaitStep::Sleep(SHUTDOWN_POLL_INTERVAL_MS)
    } else {
        WaitStep::Stopped
    }
}

} // verus!
