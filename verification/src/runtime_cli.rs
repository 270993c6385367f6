//! The options of a run: from the command line, the environment, the configuration file and
//! the defaults, in this order.

use crate::complaint::{because_of, plain, Complaint, ComplaintView};
use crate::config::{
    AppConfig, ProjectLocations, DEFAULT_ENABLED_PLUGINS, DEFAULT_HOST, DEFAULT_LOG_LEVEL,
    DEFAULT_PORT, DEFAULT_REFRESH_INTERVAL_SECS, RUNTIME_DIR_NAME,
};
use crate::instance_control::{policy_complaint, ExistingInstancePolicy, ServiceMode};
use crate::lexical_path::{opt_shown, LexicalPath};
use crate::path_resolution::resolve_app_data_dir;
use crate::text::{blank, clone_opt, join, same, to_lower, trim};
use vstd::prelude::*;

verus! {

pub const VALID_LOG_LEVELS: &'static str = "error, warn, info, debug, trace";

/// How much is logged.
#[derive(Debug, Clone, Copy, PartialEq, Eq, Structural)]
pub enum LogLevel {
    Error,
    Warn,
    Info,
    Debug,
    Trace,
}

/// The name of a level.
pub open spec fn level_name(level: LogLevel) -> Seq<char> {
    match level {
        LogLevel::Error => "error"@,
        LogLevel::Warn => "warn"@,
        LogLevel::Info => "info"@,
        LogLevel::Debug => "debug"@,
        LogLevel::Trace => "trace"@,
    }
}

impl LogLevel {
    /// The name of the level.
    pub fn as_str(self) -> (r: &'static str)
        ensures
            r@ == level_name(self),
    {
        match self {
            LogLevel::Error => "error",
            LogLevel::Warn => "warn",
            LogLevel::Info => "info",
            LogLevel::Debug => "debug",
            LogLevel::Trace => "trace",
        }
    }
}

/// What is asked for.
#[derive(Debug, Clone, Copy, PartialEq, Eq, Structural)]
pub enum QueryType {
    Usage,
    Plugins,
}

/// The name of what is asked for.
pub open spec fn query_name(query_type: QueryType) -> Seq<char> {
    match query_type {
        QueryType::Usage => "usage"@,
        QueryType::Plugins => "plugins"@,
    }
}

/// Where a daemon answers the question.
pub open spec fn query_endpoint(query_type: QueryType) -> Seq<char> {
    match query_type {
        QueryType::Usage => "v1/usage"@,
        QueryType::Plugins => "v1/plugins"@,
    }
}

impl QueryType {
    /// The name of what is asked for.
    pub fn as_str(self) -> (r: &'static str)
        ensures
            r@ == query_name(self),
    {
        match self {
            QueryType::Usage => "usage",
            QueryType::Plugins => "plugins",
        }
    }

    /// Where a daemon answers the question.
    pub fn endpoint_path(self) -> (r: &'static str)
        ensures
            r@ == query_endpoint(self),
    {
        match self {
            QueryType::Usage => "v1/usage",
            QueryType::Plugins => "v1/plugins",
        }
    }

    /// True if the plugins have to run to answer the question without a daemon.
    pub fn requires_local_refresh(self) -> (r: bool)
        ensures
            r == (self == QueryType::Usage),
    {
        match self {
            QueryType::Usage => true,
            QueryType::Plugins => false,
        }
    }

    /// How the question is answered without a daemon.
    pub fn fallback_description(self) -> (r: &'static str)
        ensures
            self == QueryType::Usage ==> r@ == "local plugin execution"@,
            self == QueryType::Plugins ==> r@ == "local plugins response generation"@,
    {
        match self {
            QueryType::Usage => "local plugin execution",
            QueryType::Plugins => "local plugins response generation",
        }
    }
}

impl Default for QueryType {
    fn default() -> (r: Self)
        ensures
            r == QueryType::Usage,
    {
        QueryType::Usage
    }
}

/// The options that all modes share.
#[derive(Debug)]
pub struct SharedRuntimeArgs {
    pub plugins_dir: Option<LexicalPath>,
    pub enabled_plugins: Option<String>,
    pub app_data_dir: Option<LexicalPath>,
    pub plugin_overrides_dir: Option<LexicalPath>,
}

impl Default for SharedRuntimeArgs {
    fn default() -> (r: Self)
        ensures
            r.plugins_dir is None,
            r.enabled_plugins is None,
            r.app_data_dir is None,
            r.plugin_overrides_dir is None,
    {
        SharedRuntimeArgs {
            plugins_dir: None,
            enabled_plugins: None,
            app_data_dir: None,
            plugin_overrides_dir: None,
        }
    }
}

/// The options of a question.
#[derive(Debug)]
pub struct QueryArgs {
    pub shared: SharedRuntimeArgs,
    pub query_type: QueryType,
}

impl Default for QueryArgs {
    fn default() -> (r: Self)
        ensures
            r.query_type == QueryType::Usage,
            r.shared.plugins_dir is None,
            r.shared.enabled_plugins is None,
            r.shared.app_data_dir is None,
            r.shared.plugin_overrides_dir is None,
    {
        QueryArgs { shared: SharedRuntimeArgs::default(), query_type: QueryType::Usage }
    }
}

/// The options of a daemon that the configuration file has too.
#[derive(Debug)]
pub struct DaemonRuntimeArgs {
    pub host: Option<String>,
    pub port: Option<u16>,
    pub shared: SharedRuntimeArgs,
    pub refresh_interval_secs: Option<u64>,
}

impl Default for DaemonRuntimeArgs {
    fn default() -> (r: Self)
        ensures
            r.host is None,
            r.port is None,
            r.refresh_interval_secs is None,
            r.shared.plugins_dir is None,
            r.shared.enabled_plugins is None,
            r.shared.app_data_dir is None,
            r.shared.plugin_overrides_dir is None,
    {
        DaemonRuntimeArgs {
            host: None,
            port: None,
            shared: SharedRuntimeArgs::default(),
            refresh_interval_secs: None,
        }
    }
}

/// The options of a daemon.
#[derive(Debug)]
pub struct RunDaemonArgs {
    pub runtime: DaemonRuntimeArgs,
    pub foreground: Option<bool>,
    pub existing_instance: Option<ExistingInstancePolicy>,
    pub service_mode: Option<ServiceMode>,
    pub daemon_child: bool,
}

/// What the program is told to do.
#[derive(Debug)]
pub enum ModeCommand {
    RunDaemon(RunDaemonArgs),
    Query(QueryArgs),
    ShowDefaultConfig,
    InstallSystemdUnit,
    Version,
}

/// The command line.
#[derive(Debug)]
pub struct Cli {
    pub log_level: Option<LogLevel>,
    pub test_mode: bool,
    pub command: Option<ModeCommand>,
}

/// The variables of the environment, as they are set.
#[derive(Debug)]
pub struct EnvValues {
    /// `OPENUSAGE_PLUGINS_DIR`
    pub plugins_dir: Option<String>,
    /// `OPENUSAGE_ENABLED_PLUGINS`
    pub enabled_plugins: Option<String>,
    /// `OPENUSAGE_APP_DATA_DIR`
    pub app_data_dir: Option<String>,
    /// `OPENUSAGE_PLUGIN_OVERRIDES_DIR`
    pub plugin_overrides_dir: Option<String>,
    /// `OPENUSAGE_LOG_LEVEL`
    pub log_level: Option<String>,
}

/// The options that the environment sets.
#[derive(Debug)]
pub struct EnvOverrides {
    pub plugins_dir: Option<LexicalPath>,
    pub enabled_plugins: Option<String>,
    pub app_data_dir: Option<LexicalPath>,
    pub plugin_overrides_dir: Option<LexicalPath>,
    pub log_level: Option<String>,
}

/// The path that a variable sets; an empty one sets none.
pub open spec fn path_value(value: Option<Seq<char>>) -> Option<(Seq<Seq<char>>, Seq<char>)> {
    match value {
        Some(text) => if text.len() == 0 {
            None
        } else {
            Some((crate::lexical_path::components(text), text))
        },
        None => None,
    }
}

/// The text that a variable sets, without white space around it; a blank one sets none.
pub open spec fn text_value(value: Option<Seq<char>>) -> Option<Seq<char>> {
    match value {
        Some(text) => if crate::text::is_blank(text) {
            None
        } else {
            Some(crate::text::trimmed(text))
        },
        None => None,
    }
}

/// The path that a variable sets.
pub fn env_path(value: &Option<String>) -> (r: Option<LexicalPath>)
    ensures
        opt_shown(r) == path_value(crate::text::opt_view(*value)),
{
    match value {
        Some(text) => {
            let chars = crate::text::chars_of(text.as_str());
            if chars.len() == 0 {
                None
            } else {
                Some(LexicalPath::parse(text.as_str()))
            }
        },
        None => None,
    }
}

/// The text that a variable sets.
pub fn env_string(value: &Option<String>) -> (r: Option<String>)
    ensures
        crate::text::opt_view(r) == text_value(crate::text::opt_view(*value)),
{
    match value {
        Some(text) => {
            if blank(text.as_str()) {
                None
            } else {
                Some(trim(text.as_str()))
            }
        },
        None => None,
    }
}

impl EnvOverrides {
    /// The options that the environment sets.
    pub fn from_values(values: &EnvValues) -> (r: Self)
        ensures
            opt_shown(r.plugins_dir) == path_value(
                crate::text::opt_view(values.plugins_dir),
            ),
            crate::text::opt_view(r.enabled_plugins) == text_value(
                crate::text::opt_view(values.enabled_plugins),
            ),
            opt_shown(r.app_data_dir) == path_value(
                crate::text::opt_view(values.app_data_dir),
            ),
            opt_shown(r.plugin_overrides_dir) == path_value(
                crate::text::opt_view(values.plugin_overrides_dir),
            ),
            crate::text::opt_view(r.log_level) == text_value(
                crate::text::opt_view(values.log_level),
            ),
    {
        EnvOverrides {
            plugins_dir: env_path(&values.plugins_dir),
            enabled_plugins: env_string(&values.enabled_plugins),
            app_data_dir: env_path(&values.app_data_dir),
            plugin_overrides_dir: env_path(&values.plugin_overrides_dir),
            log_level: env_string(&values.log_level),
        }
    }
}

impl Default for EnvOverrides {
    fn default() -> (r: Self)
        ensures
            r.plugins_dir is None,
            r.enabled_plugins is None,
            r.app_data_dir is None,
            r.plugin_overrides_dir is None,
            r.log_level is None,
    {
        EnvOverrides {
            plugins_dir: None,
            enabled_plugins: None,
            app_data_dir: None,
            plugin_overrides_dir: None,
            log_level: None,
        }
    }
}

/// The first of two values that is there.
pub open spec fn either<A>(first: Option<A>, second: Option<A>) -> Option<A> {
    match first {
        Some(value) => Some(value),
        None => second,
    }
}

/// A value, or its default.
pub open spec fn or_default<A>(value: Option<A>, default: A) -> A {
    match value {
        Some(given) => given,
        None => default,
    }
}

fn first_path(a: &Option<LexicalPath>, b: &Option<LexicalPath>, c: &Option<LexicalPath>) -> (r:
    Option<LexicalPath>)
    ensures
        opt_shown(r) == either(
            opt_shown(*a),
            either(opt_shown(*b), opt_shown(*c)),
        ),
{
    match a {
        Some(path) => Some(path.clone()),
        None => match b {
            Some(path) => Some(path.clone()),
            None => match c {
                Some(path) => Some(path.clone()),
                None => None,
            },
        },
    }
}

/// A level as it is compared: without white space around it, in lower case.
pub open spec fn level_key(raw: Seq<char>) -> Seq<char> {
    crate::text::lowered(crate::text::trimmed(raw))
}

/// True for the names of the levels.
pub open spec fn is_level(key: Seq<char>) -> bool {
    key == "error"@ || key == "warn"@ || key == "info"@ || key == "debug"@ || key == "trace"@
}

/// The complaint about a text that names no level.
pub open spec fn level_complaint(raw: Seq<char>) -> Seq<char> {
    "invalid log level '"@ + raw + "'; expected one of: "@ + VALID_LOG_LEVELS@
}

/// The level that a text names, in its usual form.
pub fn normalize_log_level(log_level: String) -> (r: Result<String, String>)
    ensures
        r is Ok == is_level(level_key(log_level@)),
        r matches Ok(level) ==> level@ == level_key(log_level@),
        r matches Err(message) ==> message@ == level_complaint(log_level@),
{
    let bare = trim(log_level.as_str());
    let key = to_lower(bare.as_str());
    if same(key.as_str(), "error") || same(key.as_str(), "warn") || same(key.as_str(), "info")
        || same(key.as_str(), "debug") || same(key.as_str(), "trace") {
        Ok(key)
    } else {
        let mut message = "invalid log level '".to_string();
        message.append(log_level.as_str());
        message.append("'; expected one of: ");
        message.append(VALID_LOG_LEVELS);
        Err(message)
    }
}

/// A level in its usual form stays as it is.
pub proof fn law_normal_level_is_kept(level: LogLevel)
    ensures
        is_level(level_name(level)),
        level_key(level_name(level)) == level_name(level),
{
    reveal_strlit("error");
    reveal_strlit("warn");
    reveal_strlit("info");
    reveal_strlit("debug");
    reveal_strlit("trace");
    let name = level_name(level);
    assert(crate::text::trimmed(name) == name) by {
        reveal_with_fuel(crate::text::trimmed_start, 2);
        reveal_with_fuel(crate::text::trimmed_end, 2);
    }
    assert(crate::text::lowered(name) =~= name);
}

/// The level that was asked for, as it was written.
pub open spec fn raw_level(
    cli: Option<LogLevel>,
    env: Option<Seq<char>>,
    config: Option<Seq<char>>,
) -> Seq<char> {
    or_default(
        either(
            match cli {
                Some(level) => Some(level_name(level)),
                None => None,
            },
            either(env, config),
        ),
        DEFAULT_LOG_LEVEL@,
    )
}

fn pick_level(cli: Option<LogLevel>, env: &Option<String>, config: &Option<String>) -> (r: String)
    ensures
        r@ == raw_level(cli, crate::text::opt_view(*env), crate::text::opt_view(*config)),
{
    match cli {
        Some(level) => level.as_str().to_string(),
        None => match env {
            Some(level) => level.clone(),
            None => match config {
                Some(level) => level.clone(),
                None => DEFAULT_LOG_LEVEL.to_string(),
            },
        },
    }
}

/// The level at which to log before the other options are known. In test mode the
/// configuration does not count.
pub fn resolve_log_level(
    cli: &Cli,
    env_overrides: &EnvOverrides,
    config_log_level: &Option<String>,
) -> (r: Result<String, String>)
    ensures
        ({
            let raw = raw_level(
                cli.log_level,
                crate::text::opt_view(env_overrides.log_level),
                if cli.test_mode {
                    None
                } else {
                    crate::text::opt_view(*config_log_level)
                },
            );
            &&& r is Ok == is_level(level_key(raw))
            &&& r matches Ok(level) ==> level@ == level_key(raw)
            &&& r matches Err(message) ==> message@ == level_complaint(raw)
        }),
{
    let config = if cli.test_mode {
        None
    } else {
        clone_opt(config_log_level)
    };
    normalize_log_level(pick_level(cli.log_level, &env_overrides.log_level, &config))
}

/// The options that all modes share, settled.
#[derive(Debug)]
pub struct SharedRuntimeCli {
    pub plugins_dir: Option<LexicalPath>,
    pub enabled_plugins: String,
    pub app_data_dir: Option<LexicalPath>,
    pub plugin_overrides_dir: Option<LexicalPath>,
    pub test_mode: bool,
    pub log_level: String,
}

/// The options that all modes share, as values.
#[verifier::ext_equal]
pub struct SharedView {
    pub plugins_dir: Option<(Seq<Seq<char>>, Seq<char>)>,
    pub enabled_plugins: Seq<char>,
    pub app_data_dir: Option<(Seq<Seq<char>>, Seq<char>)>,
    pub plugin_overrides_dir: Option<(Seq<Seq<char>>, Seq<char>)>,
    pub test_mode: bool,
    pub log_level: Seq<char>,
}

impl View for SharedRuntimeCli {
    type V = SharedView;

    open spec fn view(&self) -> SharedView {
        SharedView {
            plugins_dir: opt_shown(self.plugins_dir),
            enabled_plugins: self.enabled_plugins@,
            app_data_dir: opt_shown(self.app_data_dir),
            plugin_overrides_dir: opt_shown(self.plugin_overrides_dir),
            test_mode: self.test_mode,
            log_level: self.log_level@,
        }
    }
}

/// The masks of a configuration as one text.
pub open spec fn joined_masks(masks: Option<Vec<String>>) -> Option<Seq<char>> {
    match masks {
        Some(list) => Some(crate::text::joined(crate::text::views(list@), ","@)),
        None => None,
    }
}

/// The options that all modes share, settled.
pub open spec fn shared_runtime(
    args: SharedRuntimeArgs,
    test_mode: bool,
    log_level: Seq<char>,
    env: EnvOverrides,
    config: AppConfig,
) -> SharedView {
    SharedView {
        plugins_dir: either(
            opt_shown(args.plugins_dir),
            either(
                opt_shown(env.plugins_dir),
                opt_shown(config.plugins_dir),
            ),
        ),
        enabled_plugins: or_default(
            either(
                crate::text::opt_view(args.enabled_plugins),
                either(
                    crate::text::opt_view(env.enabled_plugins),
                    joined_masks(config.enabled_plugins),
                ),
            ),
            DEFAULT_ENABLED_PLUGINS@,
        ),
        app_data_dir: either(
            opt_shown(args.app_data_dir),
            either(
                opt_shown(env.app_data_dir),
                opt_shown(config.app_data_dir),
            ),
        ),
        plugin_overrides_dir: either(
            opt_shown(args.plugin_overrides_dir),
            either(
                opt_shown(env.plugin_overrides_dir),
                opt_shown(config.plugin_overrides_dir),
            ),
        ),
        test_mode,
        log_level,
    }
}

/// The options that all modes share, settled.
pub fn resolve_shared_runtime(
    mode_args: &SharedRuntimeArgs,
    test_mode: bool,
    log_level: String,
    env: &EnvOverrides,
    config: &AppConfig,
) -> (r: SharedRuntimeCli)
    ensures
        r@ == shared_runtime(*mode_args, test_mode, log_level@, *env, *config),
{
    let enabled_plugins = match &mode_args.enabled_plugins {
        Some(masks) => masks.clone(),
        None => match &env.enabled_plugins {
            Some(masks) => masks.clone(),
            None => match &config.enabled_plugins {
                Some(list) => join(list, ","),
                None => DEFAULT_ENABLED_PLUGINS.to_string(),
            },
        },
    };
    SharedRuntimeCli {
        plugins_dir: first_path(&mode_args.plugins_dir, &env.plugins_dir, &config.plugins_dir),
        enabled_plugins,
        app_data_dir: first_path(&mode_args.app_data_dir, &env.app_data_dir, &config.app_data_dir),
        plugin_overrides_dir: first_path(
            &mode_args.plugin_overrides_dir,
            &env.plugin_overrides_dir,
            &config.plugin_overrides_dir,
        ),
        test_mode,
        log_level,
    }
}

/// What the command line sets counts, whatever the environment and the configuration say; what
/// the environment sets counts, whatever the configuration says.
pub proof fn law_nearer_source_wins(
    args: SharedRuntimeArgs,
    test_mode: bool,
    log_level: Seq<char>,
    env: EnvOverrides,
    config: AppConfig,
)
    ensures
        ({
            let settled = shared_runtime(args, test_mode, log_level, env, config);
            &&& args.plugins_dir matches Some(path) ==> settled.plugins_dir == Some((path@, path.written()))
            &&& args.enabled_plugins matches Some(masks) ==> settled.enabled_plugins == masks@
            &&& args.app_data_dir matches Some(path) ==> settled.app_data_dir == Some((path@, path.written()))
            &&& args.plugin_overrides_dir matches Some(path) ==> settled.plugin_overrides_dir
                == Some((path@, path.written()))
            &&& args.plugins_dir is None ==> (env.plugins_dir matches Some(path)
                ==> settled.plugins_dir == Some((path@, path.written())))
            &&& args.enabled_plugins is None ==> (env.enabled_plugins matches Some(masks)
                ==> settled.enabled_plugins == masks@)
            &&& args.app_data_dir is None ==> (env.app_data_dir matches Some(path)
                ==> settled.app_data_dir == Some((path@, path.written())))
            &&& args.plugin_overrides_dir is None ==> (env.plugin_overrides_dir matches Some(path)
                ==> settled.plugin_overrides_dir == Some((path@, path.written())))
        }),
{
}

/// The options of a question, settled.
#[derive(Debug)]
pub struct QueryRuntimeCli {
    pub shared: SharedRuntimeCli,
    pub query_type: QueryType,
}

/// The options of a daemon, settled.
#[derive(Debug)]
pub struct DaemonRuntimeCli {
    pub shared: SharedRuntimeCli,
    pub foreground: bool,
    pub host: String,
    pub port: u16,
    pub refresh_interval_secs: u64,
    pub existing_instance_policy: ExistingInstancePolicy,
    pub service_mode: ServiceMode,
    pub daemon_child: bool,
}

/// What the program is to do, with all options settled.
#[derive(Debug)]
pub enum RuntimeCli {
    Query(QueryRuntimeCli),
    RunDaemon(DaemonRuntimeCli),
}

/// The policy of a configuration; none where it is not set or not a policy.
pub open spec fn config_policy(config: AppConfig) -> Option<ExistingInstancePolicy> {
    match config.existing_instance {
        Some(raw) => crate::instance_control::parsed_policy(raw@),
        None => None,
    }
}

/// True if the options of a daemon are settled as its sources say.
pub open spec fn is_daemon_runtime(
    settled: DaemonRuntimeCli,
    args: RunDaemonArgs,
    test_mode: bool,
    log_level: Seq<char>,
    env: EnvOverrides,
    config: AppConfig,
) -> bool {
    &&& settled.shared@ == shared_runtime(args.runtime.shared, test_mode, log_level, env, config)
    &&& settled.foreground == or_default(either(args.foreground, config.foreground), false)
    &&& settled.host@ == or_default(
        either(crate::text::opt_view(args.runtime.host), crate::text::opt_view(config.host)),
        DEFAULT_HOST@,
    )
    &&& settled.port == or_default(either(args.runtime.port, config.port), DEFAULT_PORT)
    &&& settled.refresh_interval_secs == or_default(
        either(args.runtime.refresh_interval_secs, config.refresh_interval_secs),
        DEFAULT_REFRESH_INTERVAL_SECS,
    )
    &&& settled.existing_instance_policy == or_default(
        either(args.existing_instance, config_policy(config)),
        ExistingInstancePolicy::Error,
    )
    &&& settled.service_mode == or_default(args.service_mode, ServiceMode::Standalone)
    &&& settled.daemon_child == args.daemon_child
}

/// True if what is settled, or the complaint, is what the sources say.
pub open spec fn is_settled(
    r: Result<RuntimeCli, ComplaintView>,
    cli: Cli,
    env: EnvOverrides,
    config: AppConfig,
) -> bool {
    let raw = raw_level(
        cli.log_level,
        crate::text::opt_view(env.log_level),
        crate::text::opt_view(config.log_level),
    );
    let level = level_key(raw);
    if !is_level(level) {
        r == Err::<RuntimeCli, ComplaintView>(plain(level_complaint(raw)))
    } else {
        match cli.command {
            Some(ModeCommand::Query(args)) => {
                &&& r matches Ok(RuntimeCli::Query(settled))
                &&& settled.query_type == args.query_type
                &&& settled.shared@ == shared_runtime(
                    args.shared,
                    cli.test_mode,
                    level,
                    env,
                    config,
                )
            },
            None => {
                &&& r matches Ok(RuntimeCli::Query(settled))
                &&& settled.query_type == QueryType::Usage
                &&& settled.shared@ == shared_runtime(
                    SharedRuntimeArgs {
                        plugins_dir: None,
                        enabled_plugins: None,
                        app_data_dir: None,
                        plugin_overrides_dir: None,
                    },
                    cli.test_mode,
                    level,
                    env,
                    config,
                )
            },
            Some(ModeCommand::RunDaemon(args)) => if config.existing_instance is Some
                && config_policy(config) is None {
                r == Err::<RuntimeCli, ComplaintView>(
                    because_of(
                        "invalid existing_instance value '"@ + config.existing_instance->0@ + "'"@,
                        policy_complaint(config.existing_instance->0@),
                    ),
                )
            } else {
                &&& r matches Ok(RuntimeCli::RunDaemon(settled))
                &&& is_daemon_runtime(settled, args, cli.test_mode, level, env, config)
            },
            _ => r == Err::<RuntimeCli, ComplaintView>(
                plain("internal error: non-runtime command reached runtime option resolver"@),
            ),
        }
    }
}

/// A result with its complaint as a value.
pub open spec fn with_complaint_view<A>(r: Result<A, Complaint>) -> Result<A, ComplaintView> {
    match r {
        Ok(value) => Ok(value),
        Err(complaint) => Err(complaint@),
    }
}

fn daemon_runtime(
    args: &RunDaemonArgs,
    shared: SharedRuntimeCli,
    config: &AppConfig,
) -> (r: Result<DaemonRuntimeCli, Complaint>)
    ensures
        r is Err == (config.existing_instance is Some && config_policy(*config) is None),
        r matches Err(complaint) ==> complaint@ == because_of(
            "invalid existing_instance value '"@ + config.existing_instance->0@ + "'"@,
            policy_complaint(config.existing_instance->0@),
        ),
        r matches Ok(settled) ==> (settled.shared == shared && settled.foreground == or_default(
            either(args.foreground, config.foreground),
            false,
        ) && settled.host@ == or_default(
            either(crate::text::opt_view(args.runtime.host), crate::text::opt_view(config.host)),
            DEFAULT_HOST@,
        ) && settled.port == or_default(either(args.runtime.port, config.port), DEFAULT_PORT)
            && settled.refresh_interval_secs == or_default(
            either(args.runtime.refresh_interval_secs, config.refresh_interval_secs),
            DEFAULT_REFRESH_INTERVAL_SECS,
        ) && settled.existing_instance_policy == or_default(
            either(args.existing_instance, config_policy(*config)),
            ExistingInstancePolicy::Error,
        ) && settled.service_mode == or_default(args.service_mode, ServiceMode::Standalone)
            && settled.daemon_child == args.daemon_child),
{
    let host = match &args.runtime.host {
        Some(host) => host.clone(),
        None => match &config.host {
            Some(host) => host.clone(),
            None => DEFAULT_HOST.to_string(),
        },
    };
    let port = match args.runtime.port {
        Some(port) => port,
        None => match config.port {
            Some(port) => port,
            None => DEFAULT_PORT,
        },
    };
    let refresh_interval_secs = match args.runtime.refresh_interval_secs {
        Some(secs) => secs,
        None => match config.refresh_interval_secs {
            Some(secs) => secs,
            None => DEFAULT_REFRESH_INTERVAL_SECS,
        },
    };
    let from_config = match &config.existing_instance {
        Some(raw) => match ExistingInstancePolicy::parse(raw.as_str()) {
            Ok(policy) => Some(policy),
            Err(cause) => {
                let mut message = "invalid existing_instance value '".to_string();
                message.append(raw.as_str());
                message.append("'");
                return Err(Complaint::because(message, cause));
            },
        },
        None => None,
    };
    let existing_instance_policy = match args.existing_instance {
        Some(policy) => policy,
        None => match from_config {
            Some(policy) => policy,
            None => ExistingInstancePolicy::Error,
        },
    };
    let foreground = match args.foreground {
        Some(foreground) => foreground,
        None => match config.foreground {
            Some(foreground) => foreground,
            None => false,
        },
    };
    let service_mode = match args.service_mode {
        Some(mode) => mode,
        None => ServiceMode::Standalone,
    };
    Ok(
        DaemonRuntimeCli {
            shared,
            foreground,
            host,
            port,
            refresh_interval_secs,
            existing_instance_policy,
            service_mode,
            daemon_child: args.daemon_child,
        },
    )
}

impl RuntimeCli {
    /// Settles the options: the command line comes first, then the environment, then the
    /// configuration, then the defaults.
    pub fn from_sources(cli: Cli, env: EnvOverrides, config: AppConfig) -> (r: Result<Self, Complaint>)
        ensures
            is_settled(with_complaint_view(r), cli, env, config),
    {
        let raw = pick_level(cli.log_level, &env.log_level, &config.log_level);
        let log_level = match normalize_log_level(raw) {
            Ok(level) => level,
            Err(message) => {
                return Err(Complaint::new(message));
            },
        };
        match &cli.command {
            Some(ModeCommand::Query(args)) => {
                let shared = resolve_shared_runtime(
                    &args.shared,
                    cli.test_mode,
                    log_level,
                    &env,
                    &config,
                );
                Ok(RuntimeCli::Query(QueryRuntimeCli { shared, query_type: args.query_type }))
            },
            Some(ModeCommand::RunDaemon(args)) => {
                let shared = resolve_shared_runtime(
                    &args.runtime.shared,
                    cli.test_mode,
                    log_level,
                    &env,
                    &config,
                );
                match daemon_runtime(args, shared, &config) {
                    Ok(settled) => Ok(RuntimeCli::RunDaemon(settled)),
                    Err(complaint) => Err(complaint),
                }
            },
            None => {
                let args = QueryArgs::default();
                let shared = resolve_shared_runtime(
                    &args.shared,
                    cli.test_mode,
                    log_level,
                    &env,
                    &config,
                );
                Ok(RuntimeCli::Query(QueryRuntimeCli { shared, query_type: args.query_type }))
            },
            Some(ModeCommand::ShowDefaultConfig) | Some(ModeCommand::InstallSystemdUnit)
            | Some(ModeCommand::Version) => Err(
                Complaint::new(
                    "internal error: non-runtime command reached runtime option resolver".to_string(),
                ),
            ),
        }
    }
}

/// The directories that a run writes to.
#[derive(Debug)]
pub struct RuntimeDirectories {
    pub app_data_dir: LexicalPath,
    /// Where a run in test mode publishes its endpoint.
    pub test_runtime_dir: Option<LexicalPath>,
}

/// The directories that a run writes to, or the complaint that comes of it.
pub fn resolve_runtime_directories(
    shared: &SharedRuntimeCli,
    locations: &Option<ProjectLocations>,
    cwd: &Result<LexicalPath, String>,
) -> (r: Result<RuntimeDirectories, Complaint>)
    ensures
        r matches Ok(dirs) ==> crate::lexical_path::opt_shown(dirs.test_runtime_dir)
            == if shared.test_mode {
            Some(
                (
                    crate::lexical_path::join_path(
                        dirs.app_data_dir@,
                        crate::lexical_path::components(RUNTIME_DIR_NAME@),
                    ),
                    crate::lexical_path::joined_text(
                        dirs.app_data_dir.written(),
                        RUNTIME_DIR_NAME@,
                    ),
                ),
            )
        } else {
            None
        },
        match (
            r,
            crate::path_resolution::app_data_dir(
                crate::watch_event::opt_path(shared.app_data_dir),
                shared.test_mode,
                *locations,
                *cwd,
            ),
        ) {
            (Ok(dirs), Ok(path)) => dirs.app_data_dir@ == path && dirs.app_data_dir.written()
                == crate::path_resolution::app_data_text(shared.app_data_dir, *locations, *cwd),
            (Err(complaint), Err(owed)) => complaint@ == owed,
            _ => false,
        },
{
    let given = match &shared.app_data_dir {
        Some(path) => Some(path.clone()),
        None => None,
    };
    match resolve_app_data_dir(given, shared.test_mode, locations, cwd) {
        Ok(app_data_dir) => {
            let test_runtime_dir = if shared.test_mode {
                Some(app_data_dir.join_text(RUNTIME_DIR_NAME))
            } else {
                None
            };
            Ok(RuntimeDirectories { app_data_dir, test_runtime_dir })
        },
        Err(complaint) => Err(complaint),
    }
}

} // verus!
