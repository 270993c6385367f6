//! The configuration file and the places that belong to it.

use crate::complaint::{because_of, Complaint, ComplaintView};
use crate::lexical_path::{
    components, join_path, joined_text, parent_path, parent_text, LexicalPath,
};
use crate::text::{is_blank, trim, trimmed};
use crate::watch_event::opt_path;
use vstd::prelude::*;

verus! {

pub const CONFIG_FILE_NAME: &'static str = "config.yaml";

pub const RUNTIME_DIR_NAME: &'static str = "runtime";

pub const DAEMON_ENDPOINT_FILE_NAME: &'static str = "daemon-endpoint";

pub const LOCAL_DIR_NAME: &'static str = ".openusage-cli";

pub const DEFAULT_HOST: &'static str = "127.0.0.1";

pub const DEFAULT_PORT: u16 = 0;

pub const DEFAULT_REFRESH_INTERVAL_SECS: u64 = 300;

pub const DEFAULT_ENABLED_PLUGINS: &'static str = "*";

pub const DEFAULT_LOG_LEVEL: &'static str = "error";

/// Hosts that are reached without a proxy.
pub const NO_PROXY_HOSTS: &'static str = "localhost,127.0.0.1,::1";

/// The text of a fresh configuration file.
pub const DEFAULT_CONFIG_TEMPLATE: &'static str = r#"# openusage-cli configuration.
# Print this template explicitly with: openusage-cli --default-config
# CLI flags (and env vars for supported args) override this file.

# HTTP bind host.
host: 127.0.0.1

# HTTP bind port (0 = random port assigned by OS).
port: 0

# Directory with plugin JS files. null = auto-discovery.
# plugins_dir: /path/to/plugins
plugins_dir: null

# List of glob masks for enabled plugin IDs.
# Examples: ["*"] (all), ["codex", "cursor"], ["c*"]
enabled_plugins:
  - "*"

# Directory for provider data/cache. null = platform default.
# app_data_dir: /path/to/app-data
app_data_dir: null

# Directory with plugin override scripts. null = auto-discovery.
# plugin_overrides_dir: /path/to/plugin-overrides
plugin_overrides_dir: null

# Background refresh interval in seconds. 0 disables periodic refresh.
refresh_interval_secs: 300

# Run as background daemon process.
daemon: false

# Behavior when a running daemon instance is already discovered.
# Values: error | ignore | replace
existing_instance: error

# Log level: error, warn, info, debug, trace.
log_level: error

proxy:
  # Enable proxy for outgoing plugin HTTP requests.
  enabled: false
  # Proxy URL, examples:
  # - http://127.0.0.1:7890
  # - socks5h://127.0.0.1:1080
  url: ""
"#;

/// Where the address of the running daemon is published.
#[derive(Debug, PartialEq, Eq)]
pub struct DaemonEndpointPath {
    pub dir: LexicalPath,
    pub endpoint_file: LexicalPath,
}

/// The proxy for outgoing requests.
#[derive(Debug)]
pub struct ProxyConfig {
    pub enabled: bool,
    pub url: String,
}

/// The configuration file; what is absent has a default elsewhere.
#[derive(Debug)]
pub struct AppConfig {
    pub host: Option<String>,
    pub port: Option<u16>,
    pub plugins_dir: Option<LexicalPath>,
    pub enabled_plugins: Option<Vec<String>>,
    pub app_data_dir: Option<LexicalPath>,
    pub plugin_overrides_dir: Option<LexicalPath>,
    pub refresh_interval_secs: Option<u64>,
    pub daemon: Option<bool>,
    pub foreground: Option<bool>,
    pub existing_instance: Option<String>,
    pub log_level: Option<String>,
    pub proxy: Option<ProxyConfig>,
}

/// A configuration and the file it was read from.
#[derive(Debug)]
pub struct LoadedConfig {
    pub path: LexicalPath,
    pub config: AppConfig,
}

/// The directories that the platform gives to this program.
#[derive(Debug)]
pub struct ProjectLocations {
    pub config_dir: LexicalPath,
    pub runtime_dir: Option<LexicalPath>,
    pub data_local_dir: LexicalPath,
}

/// What has to be written for a fresh configuration file.
#[derive(Debug)]
pub struct DefaultConfigWrite {
    /// The directory that has to exist first.
    pub directory: Option<LexicalPath>,
    pub contents: String,
}

impl Default for ProxyConfig {
    fn default() -> (r: Self)
        ensures
            !r.enabled,
            r.url@ == Seq::<char>::empty(),
    {
        ProxyConfig { enabled: false, url: String::new() }
    }
}

impl Default for AppConfig {
    fn default() -> (r: Self)
        ensures
            r.host is None && r.port is None && r.plugins_dir is None,
            r.enabled_plugins is None && r.app_data_dir is None && r.plugin_overrides_dir is None,
            r.refresh_interval_secs is None && r.daemon is None && r.foreground is None,
            r.existing_instance is None && r.log_level is None && r.proxy is None,
    {
        AppConfig {
            host: None,
            port: None,
            plugins_dir: None,
            enabled_plugins: None,
            app_data_dir: None,
            plugin_overrides_dir: None,
            refresh_interval_secs: None,
            daemon: None,
            foreground: None,
            existing_instance: None,
            log_level: None,
            proxy: None,
        }
    }
}

/// A file or directory below another, by its name.
pub open spec fn below(dir: Seq<Seq<char>>, name: Seq<char>) -> Seq<Seq<char>> {
    join_path(dir, components(name))
}

/// The directory for files of this program where the platform gives none.
pub open spec fn local_dir(cwd: Seq<Seq<char>>) -> Seq<Seq<char>> {
    below(cwd, LOCAL_DIR_NAME@)
}

/// The path of the configuration file, if it can be told.
pub open spec fn config_file_path(
    locations: Option<ProjectLocations>,
    cwd: Option<Seq<Seq<char>>>,
) -> Option<Seq<Seq<char>>> {
    match locations {
        Some(known) => Some(below(known.config_dir@, CONFIG_FILE_NAME@)),
        None => match cwd {
            Some(dir) => Some(below(local_dir(dir), CONFIG_FILE_NAME@)),
            None => None,
        },
    }
}

/// The directory for files that live as long as the daemon, if it can be told.
pub open spec fn runtime_dir_path(
    locations: Option<ProjectLocations>,
    cwd: Option<Seq<Seq<char>>>,
) -> Option<Seq<Seq<char>>> {
    match locations {
        Some(known) => Some(
            below(
                match known.runtime_dir {
                    Some(dir) => dir@,
                    None => known.data_local_dir@,
                },
                RUNTIME_DIR_NAME@,
            ),
        ),
        None => match cwd {
            Some(dir) => Some(below(local_dir(dir), RUNTIME_DIR_NAME@)),
            None => None,
        },
    }
}

/// The current directory, if it is known.
pub open spec fn known_path(cwd: Result<LexicalPath, String>) -> Option<Seq<Seq<char>>> {
    match cwd {
        Ok(dir) => Some(dir@),
        Err(_) => None,
    }
}

/// A file of this program where the platform gives no directory, as it is written.
pub open spec fn local_text(cwd: Result<LexicalPath, String>, name: Seq<char>) -> Seq<char> {
    joined_text(joined_text(cwd->Ok_0.written(), LOCAL_DIR_NAME@), name)
}

/// The path of the configuration file as it is written, where it can be told.
pub open spec fn config_file_text(
    locations: Option<ProjectLocations>,
    cwd: Result<LexicalPath, String>,
) -> Seq<char> {
    match locations {
        Some(known) => joined_text(known.config_dir.written(), CONFIG_FILE_NAME@),
        None => local_text(cwd, CONFIG_FILE_NAME@),
    }
}

/// The directory for files that live as long as the daemon as it is written, where it can be
/// told.
pub open spec fn runtime_dir_text(
    locations: Option<ProjectLocations>,
    cwd: Result<LexicalPath, String>,
) -> Seq<char> {
    match locations {
        Some(known) => joined_text(
            match known.runtime_dir {
                Some(dir) => dir.written(),
                None => known.data_local_dir.written(),
            },
            RUNTIME_DIR_NAME@,
        ),
        None => local_text(cwd, RUNTIME_DIR_NAME@),
    }
}

/// The complaint that the current directory is not known, and why.
pub open spec fn no_current_directory(reason: Seq<char>) -> ComplaintView {
    because_of("cannot get current directory"@, reason)
}

/// The complaint that the current directory is not known, and why.
pub fn unknown_current_directory(reason: &str) -> (r: Complaint)
    ensures
        r@ == no_current_directory(reason@),
{
    Complaint::because("cannot get current directory".to_string(), reason.to_string())
}

/// The path of the configuration file. The current directory, or why it is not known, counts
/// only where the platform gives no directory.
pub fn config_path(locations: &Option<ProjectLocations>, cwd: &Result<LexicalPath, String>) -> (r:
    Result<LexicalPath, Complaint>)
    ensures
        r is Ok == config_file_path(*locations, known_path(*cwd)) is Some,
        r matches Ok(path) ==> config_file_path(*locations, known_path(*cwd)) == Some(path@)
            && path.written() == config_file_text(*locations, *cwd),
        r matches Err(complaint) ==> complaint@ == no_current_directory(cwd->Err_0@),
{
    match locations {
        Some(known) => Ok(known.config_dir.join_text(CONFIG_FILE_NAME)),
        None => match cwd {
            Ok(dir) => Ok(dir.join_text(LOCAL_DIR_NAME).join_text(CONFIG_FILE_NAME)),
            Err(reason) => Err(unknown_current_directory(reason.as_str())),
        },
    }
}

/// The directory for files that live as long as the daemon.
pub fn daemon_runtime_dir(
    locations: &Option<ProjectLocations>,
    cwd: &Result<LexicalPath, String>,
) -> (r: Result<LexicalPath, Complaint>)
    ensures
        r is Ok == runtime_dir_path(*locations, known_path(*cwd)) is Some,
        r matches Ok(path) ==> runtime_dir_path(*locations, known_path(*cwd)) == Some(path@)
            && path.written() == runtime_dir_text(*locations, *cwd),
        r matches Err(complaint) ==> complaint@ == no_current_directory(cwd->Err_0@),
{
    match locations {
        Some(known) => match &known.runtime_dir {
            Some(dir) => Ok(dir.join_text(RUNTIME_DIR_NAME)),
            None => Ok(known.data_local_dir.join_text(RUNTIME_DIR_NAME)),
        },
        None => match cwd {
            Ok(dir) => Ok(dir.join_text(LOCAL_DIR_NAME).join_text(RUNTIME_DIR_NAME)),
            Err(reason) => Err(unknown_current_directory(reason.as_str())),
        },
    }
}

/// Where the daemon publishes its address.
pub fn daemon_endpoint_path(
    locations: &Option<ProjectLocations>,
    cwd: &Result<LexicalPath, String>,
) -> (r: Result<DaemonEndpointPath, Complaint>)
    ensures
        r is Ok == runtime_dir_path(*locations, known_path(*cwd)) is Some,
        r matches Ok(path) ==> runtime_dir_path(*locations, known_path(*cwd)) == Some(path.dir@)
            && path.endpoint_file@ == below(path.dir@, DAEMON_ENDPOINT_FILE_NAME@)
            && path.dir.written() == runtime_dir_text(*locations, *cwd)
            && path.endpoint_file.written() == joined_text(
            path.dir.written(),
            DAEMON_ENDPOINT_FILE_NAME@,
        ),
        r matches Err(complaint) ==> complaint@ == no_current_directory(cwd->Err_0@),
{
    match daemon_runtime_dir(locations, cwd) {
        Ok(dir) => Ok(endpoint_path_in(dir)),
        Err(complaint) => Err(complaint),
    }
}

/// Where the daemon publishes its address, given the directory.
pub fn endpoint_path_in(dir: LexicalPath) -> (r: DaemonEndpointPath)
    ensures
        r.dir@ == dir@,
        r.endpoint_file@ == below(dir@, DAEMON_ENDPOINT_FILE_NAME@),
        r.dir.written() == dir.written(),
        r.endpoint_file.written() == joined_text(dir.written(), DAEMON_ENDPOINT_FILE_NAME@),
{
    DaemonEndpointPath { endpoint_file: dir.join_text(DAEMON_ENDPOINT_FILE_NAME), dir }
}

/// What has to be written for a fresh configuration file; nothing if a file is there
/// already and must be kept.
pub fn write_default_config_to_path(path: &LexicalPath, there: bool, overwrite: bool) -> (r: Option<
    DefaultConfigWrite,
>)
    ensures
        r is None <==> there && !overwrite,
        r matches Some(write) ==> write.contents@ == DEFAULT_CONFIG_TEMPLATE@ && opt_path(
            write.directory,
        ) == parent_path(path@) && (write.directory matches Some(dir) ==> dir.written()
            == parent_text(path.written())),
{
    if there && !overwrite {
        return None;
    }
    Some(
        DefaultConfigWrite {
            directory: path.parent(),
            contents: default_config_template().to_string(),
        },
    )
}

/// What has to be written so that there is a configuration file; an existing one is kept.
pub fn write_default_config_if_missing(path: &LexicalPath, there: bool) -> (r: Option<
    DefaultConfigWrite,
>)
    ensures
        r is None <==> there,
        r matches Some(write) ==> write.contents@ == DEFAULT_CONFIG_TEMPLATE@ && opt_path(
            write.directory,
        ) == parent_path(path@) && (write.directory matches Some(dir) ==> dir.written()
            == parent_text(path.written())),
{
    write_default_config_to_path(path, there, false)
}

/// The text of a fresh configuration file.
pub fn default_config_template() -> (r: &'static str)
    ensures
        r@ == DEFAULT_CONFIG_TEMPLATE@,
{
    DEFAULT_CONFIG_TEMPLATE
}

/// The proxy that the configuration asks for.
pub open spec fn configured_proxy(config: AppConfig) -> Option<Seq<char>> {
    match config.proxy {
        Some(proxy) => if proxy.enabled && proxy.url@.len() > 0 {
            Some(proxy.url@)
        } else {
            None
        },
        None => None,
    }
}

/// The proxy that the environment asks for: the first variable that is set decides.
pub open spec fn environment_proxy(values: Seq<Option<String>>) -> Option<Seq<char>>
    decreases values.len(),
{
    if values.len() == 0 {
        None
    } else {
        match values[0] {
            Some(value) => if is_blank(value@) {
                None
            } else {
                Some(trimmed(value@))
            },
            None => environment_proxy(values.drop_first()),
        }
    }
}

/// The proxy that the configuration asks for.
pub fn proxy_from_config(config: &AppConfig) -> (r: Option<String>)
    ensures
        crate::text::opt_view(r) == configured_proxy(*config),
{
    match &config.proxy {
        Some(proxy) => if proxy.enabled && !proxy.url.as_str().is_empty() {
            Some(proxy.url.clone())
        } else {
            None
        },
        None => None,
    }
}

/// The environment variables that may name a proxy, in the order in which they count.
pub fn proxy_variables() -> (r: Vec<String>)
    ensures
        crate::text::views(r@) == seq!["HTTPS_PROXY"@, "https_proxy"@, "HTTP_PROXY"@, "http_proxy"@],
{
    let mut names: Vec<String> = Vec::new();
    names.push("HTTPS_PROXY".to_string());
    names.push("https_proxy".to_string());
    names.push("HTTP_PROXY".to_string());
    names.push("http_proxy".to_string());
    assert(crate::text::views(names@) =~= seq![
        "HTTPS_PROXY"@,
        "https_proxy"@,
        "HTTP_PROXY"@,
        "http_proxy"@,
    ]);
    names
}

/// The proxy that the environment asks for, given the values of the variables.
pub fn proxy_from_env(values: &Vec<Option<String>>) -> (r: Option<String>)
    ensures
        crate::text::opt_view(r) == environment_proxy(values@),
{
    let mut i: usize = 0;
    assert(values@.skip(0) =~= values@);
    while i < values.len()
        invariant
            i <= values@.len(),
            environment_proxy(values@) == environment_proxy(values@.skip(i as int)),
        decreases values@.len() - i,
    {
        assert(values@.skip(i as int).drop_first() =~= values@.skip(i + 1));
        match &values[i] {
            Some(value) => {
                if crate::text::blank(value.as_str()) {
                    return None;
                }
                return Some(trim(value.as_str()));
            },
            None => {},
        }
        i = i + 1;
    }
    None
}

/// A proxy for outgoing requests.
#[derive(Debug)]
pub struct ResolvedProxy {
    pub proxy: reqwest::Proxy,
}

/// The proxy at a URL, for all requests but those to the same machine.
pub open spec fn proxy_at(url: Seq<char>) -> Option<reqwest::Proxy> {
    if url.len() == 0 {
        None
    } else {
        crate::outside::proxy_made(url, NO_PROXY_HOSTS@)
    }
}

/// The proxy at a URL, for all requests but those to the same machine.
pub fn build_proxy(url: &str) -> (r: Option<ResolvedProxy>)
    ensures
        match (r, proxy_at(url@)) {
            (Some(resolved), Some(proxy)) => resolved.proxy == proxy,
            (None, None) => true,
            _ => false,
        },
{
    if url.is_empty() {
        return None;
    }
    resolved_from(crate::outside::make_proxy(url, NO_PROXY_HOSTS))
}

/// The proxy that was made, where one was.
pub fn resolved_from(made: Option<reqwest::Proxy>) -> (r: Option<ResolvedProxy>)
    ensures
        match (r, made) {
            (Some(resolved), Some(proxy)) => resolved.proxy == proxy,
            (None, None) => true,
            _ => false,
        },
{
    match made {
        Some(proxy) => Some(ResolvedProxy { proxy }),
        None => None,
    }
}

/// The proxy that is used: that of the configuration, or else that of the environment. One
/// that cannot be made does not count.
pub fn load_and_resolve_proxy(
    config: &Option<AppConfig>,
    env_values: &Vec<Option<String>>,
) -> (r: Option<ResolvedProxy>)
    ensures
        ({
            let configured = match *config {
                Some(known) => match configured_proxy(known) {
                    Some(url) => proxy_at(url),
                    None => None,
                },
                None => None,
            };
            let environment = match environment_proxy(env_values@) {
                Some(url) => proxy_at(url),
                None => None,
            };
            match r {
                Some(resolved) => if configured is Some {
                    configured == Some(resolved.proxy)
                } else {
                    environment == Some(resolved.proxy)
                },
                None => configured is None && environment is None,
            }
        }),
{
    match config {
        Some(known) => match proxy_from_config(known) {
            Some(url) => match build_proxy(url.as_str()) {
                Some(resolved) => {
                    return Some(resolved);
                },
                None => {},
            },
            None => {},
        },
        None => {},
    }
    match proxy_from_env(env_values) {
        Some(url) => build_proxy(url.as_str()),
        None => None,
    }
}

} // verus!
