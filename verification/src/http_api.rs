//! The rules of the HTTP interface.

use crate::daemon::{chosen_snapshot, opt_views, snapshots_of, CachedPluginSnapshot, DaemonState};
use crate::lexical_path::LexicalPath;
use crate::net::IpAddress;
use crate::outside::{uri_host, uri_host_text};
use crate::text::{
    blank, is_blank, lowered, opt_view, same_ignoring_case, split, split_on, trim, trimmed, views,
};
use vstd::prelude::*;

verus! {

pub const STATUS_OK: u16 = 200;

pub const STATUS_NO_CONTENT: u16 = 204;

pub const STATUS_FORBIDDEN: u16 = 403;

pub const STATUS_NOT_FOUND: u16 = 404;

pub const STATUS_UNAVAILABLE: u16 = 503;

/// What the daemon can be told to do with itself.
#[derive(Debug, Clone, Copy, PartialEq, Eq, Structural)]
pub enum LifecycleCommand {
    Shutdown,
    Restart,
}

/// The configuration as clients are told of it.
#[derive(Debug)]
pub struct RuntimeConfig {
    pub app_version: String,
    pub host: String,
    pub port: u16,
    pub service_mode: String,
    pub existing_instance_policy: String,
    pub plugins_dir: Option<LexicalPath>,
    pub enabled_plugins: String,
    pub app_data_dir: Option<LexicalPath>,
    pub plugin_overrides_dir: Option<LexicalPath>,
    pub refresh_interval_secs: u64,
    pub log_level: String,
}

/// The header that says where a request comes from.
#[derive(Debug)]
pub enum OriginHeader {
    /// The request does not have it.
    Absent,
    /// It is not a text.
    Unreadable,
    /// It is this text.
    Text(String),
}

/// An answer that refuses a request.
#[derive(Debug, PartialEq, Eq)]
pub struct Refusal {
    pub status: u16,
    pub error: String,
}

/// The nonblank pieces between commas, without white space around them.
pub open spec fn listed_ids(pieces: Seq<Seq<char>>) -> Seq<Seq<char>>
    decreases pieces.len(),
{
    if pieces.len() == 0 {
        Seq::empty()
    } else {
        let before = listed_ids(pieces.drop_last());
        if is_blank(pieces.last()) {
            before
        } else {
            before.push(trimmed(pieces.last()))
        }
    }
}

/// The identities that a list names, if it names any.
pub open spec fn requested(raw: Option<Seq<char>>) -> Option<Seq<Seq<char>>> {
    match raw {
        None => None,
        Some(text) => {
            let ids = listed_ids(split_on(text, ','));
            if ids.len() == 0 {
                None
            } else {
                Some(ids)
            }
        },
    }
}

/// The identities that a list names, if it names any.
pub fn parse_plugin_ids(raw: &Option<String>) -> (r: Option<Vec<String>>)
    ensures
        r is Some == requested(opt_view(*raw)) is Some,
        r matches Some(ids) ==> requested(opt_view(*raw)) == Some(views(ids@)),
{
    let text = match raw {
        Some(text) => text,
        None => {
            return None;
        },
    };
    let pieces = split(text.as_str(), ',');
    let ghost all = views(pieces@);
    let mut ids: Vec<String> = Vec::new();
    let mut i: usize = 0;
    assert(all.take(0) =~= Seq::<Seq<char>>::empty());
    assert(views(ids@) =~= Seq::<Seq<char>>::empty());
    while i < pieces.len()
        invariant
            i <= pieces@.len(),
            all == views(pieces@),
            views(ids@) == listed_ids(all.take(i as int)),
        decreases pieces@.len() - i,
    {
        let ghost next = all.take(i + 1);
        assert(next.drop_last() =~= all.take(i as int));
        assert(next.last() == pieces@[i as int]@);
        if !blank(pieces[i].as_str()) {
            let ghost before = ids@;
            ids.push(trim(pieces[i].as_str()));
            assert(views(ids@) =~= views(before).push(trimmed(pieces@[i as int]@)));
        }
        i = i + 1;
    }
    assert(all.take(all.len() as int) =~= all);
    assert(views(ids@).len() == ids@.len());
    if ids.len() == 0 {
        None
    } else {
        Some(ids)
    }
}

/// What a request for usage asks for.
#[derive(Debug, PartialEq, Eq)]
pub struct UsageRequest {
    /// True if the plugins are to be asked again.
    pub refresh: bool,
    pub plugin_ids: Option<Vec<String>>,
}

/// What a request for usage asks for: what is known already, unless it says otherwise.
pub fn usage_request(refresh: Option<bool>, plugin_ids: &Option<String>) -> (r: UsageRequest)
    ensures
        r.refresh == (refresh == Some(true)),
        r.plugin_ids is Some == requested(opt_view(*plugin_ids)) is Some,
        r.plugin_ids matches Some(ids) ==> requested(opt_view(*plugin_ids)) == Some(views(ids@)),
{
    UsageRequest {
        refresh: match refresh {
            Some(answer) => answer,
            None => false,
        },
        plugin_ids: parse_plugin_ids(plugin_ids),
    }
}

/// True for hosts by which a machine reaches itself: `localhost`, or a text that is an
/// address of this kind. `ip` is the address that the host is, if it is one.
pub open spec fn is_loopback_name(host: Seq<char>, ip: Option<IpAddress>) -> bool {
    lowered(host) == lowered("localhost"@) || (ip matches Some(address)
        && address.spec_is_loopback())
}

/// True if a control request from the origin is allowed, given the host that the origin
/// names and the address that the host is.
pub open spec fn origin_allowed(
    origin: OriginHeader,
    host: Option<Seq<char>>,
    ip: Option<IpAddress>,
) -> bool {
    match origin {
        OriginHeader::Absent => true,
        OriginHeader::Unreadable => false,
        OriginHeader::Text(text) => lowered(text@) != lowered("null"@) && match host {
            Some(host) => is_loopback_name(host, ip),
            None => false,
        },
    }
}

/// The host that an origin names.
pub open spec fn host_of_origin(origin: OriginHeader) -> Option<Seq<char>> {
    match origin {
        OriginHeader::Text(text) => uri_host_text(text@),
        _ => None,
    }
}

/// True for hosts by which a machine reaches itself.
pub fn is_loopback_host(host: &str, ip: &Option<IpAddress>) -> (r: bool)
    ensures
        r == is_loopback_name(host@, *ip),
{
    if same_ignoring_case(host, "localhost") {
        return true;
    }
    match ip {
        Some(address) => address.is_loopback(),
        None => false,
    }
}

/// The host that an origin names.
pub fn origin_host(origin: &OriginHeader) -> (r: Option<String>)
    ensures
        opt_view(r) == host_of_origin(*origin),
{
    match origin {
        OriginHeader::Text(text) => uri_host(text.as_str()),
        _ => None,
    }
}

/// True if a control request is allowed, given the host that its origin names.
pub fn origin_is_allowed(origin: &OriginHeader, host: &Option<String>, ip: &Option<IpAddress>) -> (r:
    bool)
    ensures
        r == origin_allowed(*origin, opt_view(*host), *ip),
{
    match origin {
        OriginHeader::Absent => true,
        OriginHeader::Unreadable => false,
        OriginHeader::Text(text) => {
            if same_ignoring_case(text.as_str(), "null") {
                return false;
            }
            match host {
                Some(host) => is_loopback_host(host.as_str(), ip),
                None => false,
            }
        },
    }
}

/// True if a control request from the origin is allowed; `host_ip` is the address that the
/// host of the origin is, if it is one.
pub fn is_control_origin_allowed(origin: &OriginHeader, host_ip: &Option<IpAddress>) -> (r: bool)
    ensures
        r == origin_allowed(*origin, host_of_origin(*origin), *host_ip),
{
    let host = origin_host(origin);
    origin_is_allowed(origin, &host, host_ip)
}

/// The refusal of a control request, if it has to be refused: such requests are taken only
/// from the same machine, and from a browser only on behalf of a page of the same machine.
pub fn validate_control_request(
    remote: &IpAddress,
    origin: &OriginHeader,
    host_ip: &Option<IpAddress>,
    remote_error: &str,
    origin_error: &str,
) -> (r: Option<Refusal>)
    ensures
        r is None <==> remote.spec_is_loopback() && origin_allowed(
            *origin,
            host_of_origin(*origin),
            *host_ip,
        ),
        r matches Some(refusal) ==> refusal.status == STATUS_FORBIDDEN && refusal.error@
            == if !remote.spec_is_loopback() {
            remote_error@
        } else {
            origin_error@
        },
{
    if !remote.is_loopback() {
        return Some(Refusal { status: STATUS_FORBIDDEN, error: remote_error.to_string() });
    }
    if !is_control_origin_allowed(origin, host_ip) {
        return Some(Refusal { status: STATUS_FORBIDDEN, error: origin_error.to_string() });
    }
    None
}

/// A control request that a page of another host made a browser send is always refused,
/// whatever machine the browser runs on.
pub proof fn law_foreign_pages_are_refused(
    origin: OriginHeader,
    host: Seq<char>,
    ip: Option<IpAddress>,
)
    requires
        origin is Text,
        host_of_origin(origin) == Some(host),
        lowered(host) != lowered("localhost"@),
        ip matches Some(address) ==> !address.spec_is_loopback(),
    ensures
        !origin_allowed(origin, host_of_origin(origin), ip),
{
}

/// The names of what a control request does, and of the answers to it.
#[derive(Debug)]
pub struct ControlWords {
    pub action: String,
    pub status: String,
    pub forbidden_remote: String,
    pub forbidden_origin: String,
    pub already_triggered: String,
}

/// The names of what a command does, and of the answers to it.
pub fn control_words(command: LifecycleCommand) -> (r: ControlWords)
    ensures
        command == LifecycleCommand::Shutdown ==> {
            &&& r.action@ == "shutdown"@
            &&& r.status@ == "shutting_down"@
            &&& r.forbidden_remote@ == "shutdown_forbidden_remote"@
            &&& r.forbidden_origin@ == "shutdown_forbidden_origin"@
            &&& r.already_triggered@ == "shutdown_already_triggered"@
        },
        command == LifecycleCommand::Restart ==> {
            &&& r.action@ == "restart"@
            &&& r.status@ == "restarting"@
            &&& r.forbidden_remote@ == "restart_forbidden_remote"@
            &&& r.forbidden_origin@ == "restart_forbidden_origin"@
            &&& r.already_triggered@ == "restart_already_triggered"@
        },
{
    match command {
        LifecycleCommand::Shutdown => ControlWords {
            action: "shutdown".to_string(),
            status: "shutting_down".to_string(),
            forbidden_remote: "shutdown_forbidden_remote".to_string(),
            forbidden_origin: "shutdown_forbidden_origin".to_string(),
            already_triggered: "shutdown_already_triggered".to_string(),
        },
        LifecycleCommand::Restart => ControlWords {
            action: "restart".to_string(),
            status: "restarting".to_string(),
            forbidden_remote: "restart_forbidden_remote".to_string(),
            forbidden_origin: "restart_forbidden_origin".to_string(),
            already_triggered: "restart_already_triggered".to_string(),
        },
    }
}

/// What decides whether a command is still carried out: the first one is, later ones are
/// not.
#[derive(Debug)]
pub struct LifecycleGate {
    armed: bool,
}

/// The answer to a command, and the command itself where it is carried out.
#[derive(Debug)]
pub struct GateReply {
    pub carried_out: Option<LifecycleCommand>,
    pub status: u16,
    /// The state that is reported where the command is carried out, or else the error.
    pub word: String,
}

impl LifecycleGate {
    /// True as long as a command would be carried out.
    pub closed spec fn spec_armed(&self) -> bool {
        self.armed
    }

    /// A gate that lets one command through, or none where commands cannot be carried out.
    pub fn new(available: bool) -> (r: Self)
        ensures
            r.spec_armed() == available,
    {
        LifecycleGate { armed: available }
    }

    /// Lets a command through if it is the first.
    pub fn trigger(&mut self, command: LifecycleCommand, status: &str, already_triggered: &str) -> (r:
        GateReply)
        ensures
            !final(self).spec_armed(),
            old(self).spec_armed() ==> r.carried_out == Some(command) && r.status == STATUS_OK
                && r.word@ == status@,
            !old(self).spec_armed() ==> r.carried_out is None && r.status == STATUS_UNAVAILABLE
                && r.word@ == already_triggered@,
    {
        if self.armed {
            self.armed = false;
            GateReply {
                carried_out: Some(command),
                status: STATUS_OK,
                word: status.to_string(),
            }
        } else {
            GateReply {
                carried_out: None,
                status: STATUS_UNAVAILABLE,
                word: already_triggered.to_string(),
            }
        }
    }
}

/// What comes first for a question about one provider: it is refused where there is no such
/// plugin, and otherwise the plugin is asked again if that is wanted. Returns the plugins to
/// ask again, if any.
pub fn begin_single_usage(state: &DaemonState, provider: &String, refresh: Option<bool>) -> (r:
    Result<Option<Vec<String>>, Refusal>)
    ensures
        r is Ok <==> state.spec_ids().contains(provider@),
        r matches Ok(again) ==> opt_views(again) == if refresh == Some(true) {
            Some(seq![provider@])
        } else {
            None
        },
        r matches Err(refusal) ==> refusal.status == STATUS_NOT_FOUND && refusal.error@
            == "provider_not_found"@,
{
    if !state.has_plugin(provider.as_str()) {
        return Err(
            Refusal { status: STATUS_NOT_FOUND, error: "provider_not_found".to_string() },
        );
    }
    match refresh {
        Some(true) => {
            let mut ids: Vec<String> = Vec::new();
            ids.push(provider.clone());
            assert(views(ids@) =~= seq![provider@]);
            Ok(Some(ids))
        },
        _ => Ok(None),
    }
}

/// The answer to a question about one provider.
#[derive(Debug, PartialEq, Eq)]
pub struct SingleUsage {
    pub status: u16,
    pub snapshot: Option<CachedPluginSnapshot>,
}

/// The answer to a question about one provider: the snapshot that stands for it, or that there
/// is none.
pub fn single_usage(state: &DaemonState, provider: &String) -> (r: SingleUsage)
    ensures
        match chosen_snapshot(snapshots_of(state.spec_cache(), provider@)) {
            Some(expected) => r.status == STATUS_OK && (r.snapshot matches Some(snapshot)
                && snapshot@ == expected),
            None => r.status == STATUS_NO_CONTENT && r.snapshot is None,
        },
{
    match state.cached_one(provider) {
        Some(snapshot) => SingleUsage { status: STATUS_OK, snapshot: Some(snapshot) },
        None => SingleUsage { status: STATUS_NO_CONTENT, snapshot: None },
    }
}

/// How loudly an answer is logged.
#[derive(Debug, Clone, Copy, PartialEq, Eq, Structural)]
pub enum RequestLogLevel {
    Error,
    Warn,
    Info,
}

/// How loudly an answer is logged, by its status.
pub fn request_log_level(status: u16) -> (r: RequestLogLevel)
    ensures
        r == if 500 <= status < 600 {
            RequestLogLevel::Error
        } else if 400 <= status < 500 {
            RequestLogLevel::Warn
        } else {
            RequestLogLevel::Info
        },
{
    if 500 <= status && status < 600 {
        RequestLogLevel::Error
    } else if 400 <= status && status < 500 {
        RequestLogLevel::Warn
    } else {
        RequestLogLevel::Info
    }
}

} // verus!
