//! Where the options of a run come from, and where its files are.

use crate::complaint::Complaint;
use crate::config::{
    build_proxy, config_path, daemon_endpoint_path, daemon_runtime_dir, default_config_template,
    endpoint_path_in, environment_proxy, load_and_resolve_proxy, proxy_from_config, proxy_from_env,
    proxy_variables, resolved_from, unknown_current_directory, write_default_config_if_missing,
    write_default_config_to_path, AppConfig, DaemonEndpointPath, DefaultConfigWrite,
    ProjectLocations, ProxyConfig, ResolvedProxy,
};
use crate::http_laws::{is_same_word, law_case_does_not_matter};
use crate::instance_control::ExistingInstancePolicy;
use crate::lexical_path::LexicalPath;
use crate::outside::proxy_made;
use crate::runtime_cli::{
    env_path, env_string, normalize_log_level, resolve_log_level, resolve_runtime_directories,
    resolve_shared_runtime, Cli, EnvOverrides, EnvValues, LogLevel, ModeCommand, QueryArgs,
    QueryType, RuntimeCli, RuntimeDirectories, SharedRuntimeArgs, SharedRuntimeCli,
};
use crate::startup_laws::{is_same_path, reads_as};
use crate::text::{lowered, opt_view, views};
use crate::text_laws::law_trimming_takes_the_ends;
use vstd::prelude::*;

verus! {

/// Each level and each question has its own name.
pub proof fn law_levels_and_questions_have_names(
    level: LogLevel,
    level_text: &'static str,
    question: QueryType,
    name: &'static str,
    place: &'static str,
    local: bool,
    how: &'static str,
)
    requires
        call_ensures(LogLevel::as_str, (level,), level_text),
        call_ensures(QueryType::as_str, (question,), name),
        call_ensures(QueryType::endpoint_path, (question,), place),
        call_ensures(QueryType::requires_local_refresh, (question,), local),
        call_ensures(QueryType::fallback_description, (question,), how),
    ensures
        level is Error ==> level_text@ == "error"@,
        level is Warn ==> level_text@ == "warn"@,
        level is Info ==> level_text@ == "info"@,
        level is Debug ==> level_text@ == "debug"@,
        level is Trace ==> level_text@ == "trace"@,
        question is Usage ==> name@ == "usage"@ && place@ == "v1/usage"@ && local && how@
            == "local plugin execution"@,
        question is Plugins ==> name@ == "plugins"@ && place@ == "v1/plugins"@ && !local && how@
            == "local plugins response generation"@,
{
}

/// A level is read from its name, whatever white space stands around it and in whatever case
/// it is, and is written in small letters; any other text is refused. `t` is what stands
/// between the white space.
pub proof fn law_level_is_read_from_its_name(
    raw: String,
    a: Seq<char>,
    t: Seq<char>,
    b: Seq<char>,
    r: Result<String, String>,
)
    requires
        call_ensures(normalize_log_level, (raw,), r),
        reads_as(raw@, a, t, b),
    ensures
        is_same_word(t, "error"@) ==> (r matches Ok(level) && level@ == "error"@),
        is_same_word(t, "warn"@) ==> (r matches Ok(level) && level@ == "warn"@),
        is_same_word(t, "info"@) ==> (r matches Ok(level) && level@ == "info"@),
        is_same_word(t, "debug"@) ==> (r matches Ok(level) && level@ == "debug"@),
        is_same_word(t, "trace"@) ==> (r matches Ok(level) && level@ == "trace"@),
        !is_same_word(t, "error"@) && !is_same_word(t, "warn"@) && !is_same_word(t, "info"@)
            && !is_same_word(t, "debug"@) && !is_same_word(t, "trace"@) ==> (r matches Err(message)
            && message@ == "invalid log level '"@ + raw@
            + "'; expected one of: error, warn, info, debug, trace"@),
{
    reveal_strlit("error");
    reveal_strlit("warn");
    reveal_strlit("info");
    reveal_strlit("debug");
    reveal_strlit("trace");
    reveal_strlit("'; expected one of: ");
    reveal_strlit("error, warn, info, debug, trace");
    reveal_strlit("'; expected one of: error, warn, info, debug, trace");
    law_trimming_takes_the_ends(a, t, b);
    assert(lowered("error"@) =~= "error"@);
    assert(lowered("warn"@) =~= "warn"@);
    assert(lowered("info"@) =~= "info"@);
    assert(lowered("debug"@) =~= "debug"@);
    assert(lowered("trace"@) =~= "trace"@);
    law_case_does_not_matter(t, "error"@);
    law_case_does_not_matter(t, "warn"@);
    law_case_does_not_matter(t, "info"@);
    law_case_does_not_matter(t, "debug"@);
    law_case_does_not_matter(t, "trace"@);
    match r {
        Err(message) => {
            assert(message@ =~= "invalid log level '"@ + raw@
                + "'; expected one of: error, warn, info, debug, trace"@);
        },
        Ok(_) => {},
    }
}

/// The level comes from the command line, else from the environment, else from the
/// configuration, which does not count in test mode, and else it is that of errors.
/// `normal` is what becomes of the text that counts.
pub proof fn law_level_comes_from_the_nearest_source(
    cli: &Cli,
    env: &EnvOverrides,
    config: &Option<String>,
    name: &'static str,
    chosen: String,
    normal: Result<String, String>,
    r: Result<String, String>,
)
    requires
        call_ensures(resolve_log_level, (cli, env, config), r),
        call_ensures(normalize_log_level, (chosen,), normal),
        cli.log_level matches Some(level) ==> call_ensures(LogLevel::as_str, (level,), name)
            && chosen@ == name@,
        cli.log_level is None ==> (env.log_level matches Some(text) ==> chosen@ == text@),
        cli.log_level is None && env.log_level is None && !cli.test_mode ==> (
        *config matches Some(text) ==> chosen@ == text@),
        cli.log_level is None && env.log_level is None && (cli.test_mode || *config is None)
            ==> chosen@ == "error"@,
    ensures
        r is Ok <==> normal is Ok,
        r matches Ok(level) ==> level@ == normal->Ok_0@,
        r matches Err(message) ==> message@ == normal->Err_0@,
{
}

/// A variable of the environment that is empty sets no path, and one that is blank sets no
/// text; any other sets what it holds, a text without the white space around it.
pub proof fn law_empty_variables_set_nothing(
    value: &Option<String>,
    a: Seq<char>,
    t: Seq<char>,
    b: Seq<char>,
    path: Option<LexicalPath>,
    text: Option<String>,
    parsed: LexicalPath,
    held: &str,
)
    requires
        call_ensures(env_path, (value,), path),
        call_ensures(env_string, (value,), text),
        *value matches Some(known) ==> reads_as(known@, a, t, b) && held@ == known@,
        call_ensures(LexicalPath::parse, (held,), parsed),
    ensures
        *value is None ==> path is None && text is None,
        *value matches Some(known) ==> known@.len() == 0 ==> path is None,
        *value matches Some(known) ==> known@.len() > 0 ==> is_same_path(path, Some(parsed)),
        *value is Some && t.len() == 0 ==> text is None,
        *value is Some && t.len() > 0 ==> (text matches Some(shown) && shown@ == t),
{
    if *value is Some {
        law_trimming_takes_the_ends(a, t, b);
    }
}

/// Each option of the environment comes from its own variable.
pub proof fn law_variables_set_their_own_options(
    values: &EnvValues,
    plugins_dir: Option<LexicalPath>,
    enabled_plugins: Option<String>,
    app_data_dir: Option<LexicalPath>,
    overrides_dir: Option<LexicalPath>,
    log_level: Option<String>,
    r: EnvOverrides,
)
    requires
        call_ensures(EnvOverrides::from_values, (values,), r),
        call_ensures(env_path, (&values.plugins_dir,), plugins_dir),
        call_ensures(env_string, (&values.enabled_plugins,), enabled_plugins),
        call_ensures(env_path, (&values.app_data_dir,), app_data_dir),
        call_ensures(env_path, (&values.plugin_overrides_dir,), overrides_dir),
        call_ensures(env_string, (&values.log_level,), log_level),
    ensures
        is_same_path(r.plugins_dir, plugins_dir),
        opt_view(r.enabled_plugins) == opt_view(enabled_plugins),
        is_same_path(r.app_data_dir, app_data_dir),
        is_same_path(r.plugin_overrides_dir, overrides_dir),
        opt_view(r.log_level) == opt_view(log_level),
{
}

/// True if a path is the first of three that is given, or none where none is.
pub open spec fn is_first_path(
    path: Option<LexicalPath>,
    a: Option<LexicalPath>,
    b: Option<LexicalPath>,
    c: Option<LexicalPath>,
) -> bool {
    &&& a is Some ==> is_same_path(path, a)
    &&& a is None && b is Some ==> is_same_path(path, b)
    &&& a is None && b is None ==> is_same_path(path, c)
}

/// True if the options that all modes share come from the nearest source that sets them: the
/// command line, then the environment, then the configuration, then the default.
pub open spec fn is_nearest(
    r: SharedRuntimeCli,
    args: SharedRuntimeArgs,
    env: EnvOverrides,
    config: AppConfig,
) -> bool {
    &&& is_first_path(r.plugins_dir, args.plugins_dir, env.plugins_dir, config.plugins_dir)
    &&& is_first_path(r.app_data_dir, args.app_data_dir, env.app_data_dir, config.app_data_dir)
    &&& is_first_path(
        r.plugin_overrides_dir,
        args.plugin_overrides_dir,
        env.plugin_overrides_dir,
        config.plugin_overrides_dir,
    )
    &&& args.enabled_plugins matches Some(masks) ==> r.enabled_plugins@ == masks@
    &&& args.enabled_plugins is None ==> (env.enabled_plugins matches Some(masks)
        ==> r.enabled_plugins@ == masks@)
    &&& args.enabled_plugins is None && env.enabled_plugins is None ==> match config.enabled_plugins {
        Some(list) => r.enabled_plugins@ == crate::text::joined(views(list@), ","@),
        None => r.enabled_plugins@ == "*"@,
    }
}

/// The options that all modes share come from the nearest source.
pub proof fn law_shared_options_come_from_the_nearest_source(
    args: &SharedRuntimeArgs,
    test_mode: bool,
    level: String,
    env: &EnvOverrides,
    config: &AppConfig,
    r: SharedRuntimeCli,
)
    requires
        call_ensures(resolve_shared_runtime, (args, test_mode, level, env, config), r),
    ensures
        is_nearest(r, *args, *env, *config),
        r.test_mode == test_mode,
        r.log_level@ == level@,
{
}

/// A run is what the command line tells: a question, or a daemon; without a command it is the
/// question for usage. Each of its options comes from the nearest source. `level` is what
/// becomes of the level, `policy` what the policy of the configuration is read as.
pub proof fn law_options_come_from_the_nearest_source(
    cli: Cli,
    env: EnvOverrides,
    config: AppConfig,
    name: &'static str,
    chosen: String,
    level: Result<String, String>,
    raw: &str,
    policy: Result<ExistingInstancePolicy, String>,
    r: Result<RuntimeCli, Complaint>,
)
    requires
        call_ensures(RuntimeCli::from_sources, (cli, env, config), r),
        call_ensures(normalize_log_level, (chosen,), level),
        cli.log_level matches Some(own) ==> call_ensures(LogLevel::as_str, (own,), name) && chosen@
            == name@,
        cli.log_level is None ==> (env.log_level matches Some(text) ==> chosen@ == text@),
        cli.log_level is None && env.log_level is None ==> (config.log_level matches Some(text)
            ==> chosen@ == text@),
        cli.log_level is None && env.log_level is None && config.log_level is None ==> chosen@
            == "error"@,
        call_ensures(ExistingInstancePolicy::parse, (raw,), policy),
        config.existing_instance matches Some(text) ==> raw@ == text@,
    ensures
        level matches Err(message) ==> (r matches Err(complaint) && complaint.message@ == message@
            && complaint.causes@.len() == 0),
        level is Ok ==> (cli.command matches Some(ModeCommand::Query(args)) ==> (r matches Ok(
            RuntimeCli::Query(run),
        ) && run.query_type == args.query_type && is_nearest(run.shared, args.shared, env, config)
            && run.shared.test_mode == cli.test_mode && run.shared.log_level@ == level->Ok_0@)),
        level is Ok && cli.command is None ==> (r matches Ok(RuntimeCli::Query(run))
            && run.query_type is Usage && run.shared.test_mode == cli.test_mode
            && run.shared.log_level@ == level->Ok_0@ && is_nearest(
            run.shared,
            SharedRuntimeArgs {
                plugins_dir: None,
                enabled_plugins: None,
                app_data_dir: None,
                plugin_overrides_dir: None,
            },
            env,
            config,
        )),
        level is Ok && config.existing_instance is Some && policy is Err ==> (cli.command matches Some(
            ModeCommand::RunDaemon(args),
        ) ==> (r matches Err(complaint) && complaint.message@
            == "invalid existing_instance value '"@ + raw@ + "'"@ && complaint.causes@.len() == 1
            && complaint.causes@[0]@ == policy->Err_0@)),
        level is Ok && (config.existing_instance is None || policy is Ok) ==> (
        cli.command matches Some(ModeCommand::RunDaemon(args)) ==> (r matches Ok(
            RuntimeCli::RunDaemon(run),
        ) && is_nearest(run.shared, args.runtime.shared, env, config) && run.shared.test_mode
            == cli.test_mode && run.shared.log_level@ == level->Ok_0@)),
        level is Ok ==> (cli.command matches Some(command) ==> command is ShowDefaultConfig
            || command is InstallSystemdUnit || command is Version ==> (r matches Err(complaint)
            && complaint.message@
            == "internal error: non-runtime command reached runtime option resolver"@
            && complaint.causes@.len() == 0)),
{
    match r {
        Err(complaint) => {
            assert(views(complaint.causes@).len() == complaint.causes@.len());
            if complaint.causes@.len() > 0 {
                assert(views(complaint.causes@)[0] == complaint.causes@[0]@);
            }
        },
        Ok(_) => {},
    }
}

/// The options of a daemon alone: what the command line sets counts, else the configuration,
/// else the default. A daemon that is not told who started it was started by hand.
pub proof fn law_daemon_options_come_from_the_nearest_source(
    cli: Cli,
    env: EnvOverrides,
    config: AppConfig,
    raw: &str,
    policy: Result<ExistingInstancePolicy, String>,
    r: Result<RuntimeCli, Complaint>,
)
    requires
        call_ensures(RuntimeCli::from_sources, (cli, env, config), r),
        call_ensures(ExistingInstancePolicy::parse, (raw,), policy),
        config.existing_instance matches Some(text) ==> raw@ == text@,
    ensures
        r matches Ok(RuntimeCli::RunDaemon(run)) ==> (cli.command matches Some(
            ModeCommand::RunDaemon(args),
        ) && {
            &&& args.runtime.host matches Some(host) ==> run.host@ == host@
            &&& args.runtime.host is None ==> (config.host matches Some(host) ==> run.host@ == host@)
            &&& args.runtime.host is None && config.host is None ==> run.host@ == "127.0.0.1"@
            &&& args.runtime.port matches Some(port) ==> run.port == port
            &&& args.runtime.port is None ==> (config.port matches Some(port) ==> run.port == port)
            &&& args.runtime.port is None && config.port is None ==> run.port == 0
            &&& args.runtime.refresh_interval_secs matches Some(secs)
                ==> run.refresh_interval_secs == secs
            &&& args.runtime.refresh_interval_secs is None ==> (
            config.refresh_interval_secs matches Some(secs) ==> run.refresh_interval_secs == secs)
            &&& args.runtime.refresh_interval_secs is None && config.refresh_interval_secs is None
                ==> run.refresh_interval_secs == 300
            &&& args.foreground matches Some(answer) ==> run.foreground == answer
            &&& args.foreground is None ==> (config.foreground matches Some(answer)
                ==> run.foreground == answer)
            &&& args.foreground is None && config.foreground is None ==> !run.foreground
            &&& args.existing_instance matches Some(own) ==> run.existing_instance_policy == own
            &&& args.existing_instance is None && config.existing_instance is Some ==> policy
                == Ok::<_, String>(run.existing_instance_policy)
            &&& args.existing_instance is None && config.existing_instance is None
                ==> run.existing_instance_policy is Error
            &&& args.service_mode matches Some(mode) ==> run.service_mode == mode
            &&& args.service_mode is None ==> run.service_mode is Standalone
            &&& run.daemon_child == args.daemon_child
        }),
{
}

/// Nothing is set by default.
pub proof fn law_defaults_set_nothing(
    shared: SharedRuntimeArgs,
    query: QueryArgs,
    env: EnvOverrides,
    config: AppConfig,
    proxy: ProxyConfig,
    question: QueryType,
)
    requires
        call_ensures(SharedRuntimeArgs::default, (), shared),
        call_ensures(QueryArgs::default, (), query),
        call_ensures(EnvOverrides::default, (), env),
        call_ensures(AppConfig::default, (), config),
        call_ensures(ProxyConfig::default, (), proxy),
        call_ensures(QueryType::default, (), question),
    ensures
        shared.plugins_dir is None && shared.enabled_plugins is None && shared.app_data_dir is None
            && shared.plugin_overrides_dir is None,
        query.query_type is Usage,
        question is Usage,
        env.plugins_dir is None && env.enabled_plugins is None && env.app_data_dir is None
            && env.plugin_overrides_dir is None && env.log_level is None,
        config.host is None && config.port is None && config.plugins_dir is None
            && config.enabled_plugins is None && config.app_data_dir is None
            && config.plugin_overrides_dir is None && config.refresh_interval_secs is None
            && config.daemon is None && config.foreground is None && config.existing_instance is None
            && config.log_level is None && config.proxy is None,
        !proxy.enabled && proxy.url@.len() == 0,
{
}

/// True if a path is written as a directory and a name below it.
pub open spec fn is_written_below(path: LexicalPath, dir: Seq<char>, name: Seq<char>) -> bool {
    path.written() == if dir.len() > 0 && dir.last() == '/' {
        dir + name
    } else {
        dir + seq!['/'] + name
    }
}

/// True if a complaint says that the current directory is not known, and why.
pub open spec fn is_lost(complaint: Complaint, reason: Seq<char>) -> bool {
    complaint.message@ == "cannot get current directory"@ && complaint.causes@.len() == 1
        && complaint.causes@[0]@ == reason
}

proof fn lemma_lost(complaint: Complaint, reason: Seq<char>)
    requires
        complaint@ == crate::config::no_current_directory(reason),
    ensures
        is_lost(complaint, reason),
{
    assert(views(complaint.causes@).len() == complaint.causes@.len());
    assert(views(complaint.causes@)[0] == complaint.causes@[0]@);
}

/// The configuration file is `config.yaml` in the directory of the platform, or else in
/// `.openusage-cli` below the current directory. Where neither is known it is said why.
pub proof fn law_configuration_has_its_place(
    locations: &Option<ProjectLocations>,
    cwd: &Result<LexicalPath, String>,
    r: Result<LexicalPath, Complaint>,
)
    requires
        call_ensures(config_path, (locations, cwd), r),
        *locations matches Some(known) ==> known.config_dir.written().len() > 0,
        *cwd matches Ok(dir) ==> dir.written().len() > 0,
    ensures
        *locations matches Some(known) ==> (r matches Ok(path) && is_written_below(
            path,
            known.config_dir.written(),
            "config.yaml"@,
        )),
        *locations is None ==> (*cwd matches Ok(dir) ==> (r matches Ok(path) && is_written_below(
            path,
            dir.written(),
            ".openusage-cli/config.yaml"@,
        ))),
        *locations is None ==> (*cwd matches Err(reason) ==> (r matches Err(complaint) && is_lost(
            complaint,
            reason@,
        ))),
{
    reveal_strlit("config.yaml");
    reveal_strlit(".openusage-cli");
    reveal_strlit(".openusage-cli/config.yaml");
    match r {
        Ok(path) => {
            match (*locations, *cwd) {
                (None, Ok(dir)) => {
                    lemma_two_below(path, dir, ".openusage-cli"@, "config.yaml"@);
                    assert(".openusage-cli"@ + seq!['/'] + "config.yaml"@
                        =~= ".openusage-cli/config.yaml"@);
                },
                _ => {},
            }
        },
        Err(complaint) => {
            match *cwd {
                Err(reason) => {
                    lemma_lost(complaint, reason@);
                },
                Ok(_) => {},
            }
        },
    }
}

proof fn lemma_two_below(path: LexicalPath, dir: LexicalPath, first: Seq<char>, second: Seq<char>)
    requires
        dir.written().len() > 0,
        first.len() > 0,
        first[0] != '/',
        first.last() != '/',
        second.len() > 0,
        second[0] != '/',
        path.written() == crate::lexical_path::joined_text(
            crate::lexical_path::joined_text(dir.written(), first),
            second,
        ),
    ensures
        is_written_below(path, dir.written(), first + seq!['/'] + second),
{
    let inner = crate::lexical_path::joined_text(dir.written(), first);
    assert(inner.last() == first.last());
    if dir.written().last() == '/' {
        assert(path.written() =~= dir.written() + (first + seq!['/'] + second));
    } else {
        assert(path.written() =~= dir.written() + seq!['/'] + (first + seq!['/'] + second));
    }
}

/// What lives as long as the daemon is kept in `runtime`, below the directory that the
/// platform has for that, or else for data, or else in `.openusage-cli` below the current
/// directory. The address of the daemon is kept there in `daemon-endpoint`.
pub proof fn law_daemon_has_its_place(
    locations: &Option<ProjectLocations>,
    cwd: &Result<LexicalPath, String>,
    dir: Result<LexicalPath, Complaint>,
    r: Result<DaemonEndpointPath, Complaint>,
)
    requires
        call_ensures(daemon_runtime_dir, (locations, cwd), dir),
        call_ensures(daemon_endpoint_path, (locations, cwd), r),
        *locations matches Some(known) ==> known.data_local_dir.written().len() > 0 && (
        known.runtime_dir matches Some(own) ==> own.written().len() > 0),
        *cwd matches Ok(here) ==> here.written().len() > 0,
    ensures
        *locations matches Some(known) ==> (known.runtime_dir matches Some(own) ==> (
        dir matches Ok(path) && is_written_below(path, own.written(), "runtime"@))),
        *locations matches Some(known) ==> known.runtime_dir is None ==> (dir matches Ok(path)
            && is_written_below(path, known.data_local_dir.written(), "runtime"@)),
        *locations is None ==> (*cwd matches Ok(here) ==> (dir matches Ok(path)
            && is_written_below(path, here.written(), ".openusage-cli/runtime"@))),
        *locations is None ==> (*cwd matches Err(reason) ==> (dir matches Err(complaint)
            && is_lost(complaint, reason@))),
        r is Ok <==> dir is Ok,
        r matches Ok(place) ==> is_same_path(Some(place.dir), Some(dir->Ok_0)) && is_written_below(
            place.endpoint_file,
            dir->Ok_0.written(),
            "daemon-endpoint"@,
        ),
        r matches Err(complaint) ==> (*cwd matches Err(reason) ==> is_lost(complaint, reason@)),
{
    reveal_strlit("runtime");
    reveal_strlit(".openusage-cli");
    reveal_strlit(".openusage-cli/runtime");
    reveal_strlit("daemon-endpoint");
    match dir {
        Ok(path) => {
            match (*locations, *cwd) {
                (None, Ok(here)) => {
                    lemma_two_below(path, here, ".openusage-cli"@, "runtime"@);
                    assert(".openusage-cli"@ + seq!['/'] + "runtime"@
                        =~= ".openusage-cli/runtime"@);
                },
                _ => {},
            }
        },
        Err(complaint) => {
            match *cwd {
                Err(reason) => {
                    lemma_lost(complaint, reason@);
                },
                Ok(_) => {},
            }
        },
    }
    match (r, *cwd) {
        (Err(complaint), Err(reason)) => {
            lemma_lost(complaint, reason@);
        },
        _ => {},
    }
}

/// The address is kept in `daemon-endpoint` below whatever directory is given, and a current
/// directory that is not known is complained about with the reason.
pub proof fn law_endpoint_lies_in_its_directory(
    dir: LexicalPath,
    place: DaemonEndpointPath,
    reason: &str,
    complaint: Complaint,
)
    requires
        call_ensures(endpoint_path_in, (dir,), place),
        call_ensures(unknown_current_directory, (reason,), complaint),
        dir.written().len() > 0,
    ensures
        is_same_path(Some(place.dir), Some(dir)),
        is_written_below(place.endpoint_file, dir.written(), "daemon-endpoint"@),
        is_lost(complaint, reason@),
{
    reveal_strlit("daemon-endpoint");
    lemma_lost(complaint, reason@);
}

/// A configuration file that is there is kept, unless it is to be overwritten. Else the
/// template is written, into the directory of the path.
pub proof fn law_configuration_is_kept(
    path: &LexicalPath,
    there: bool,
    overwrite: bool,
    template: &'static str,
    up: Option<LexicalPath>,
    r: Option<DefaultConfigWrite>,
    if_missing: Option<DefaultConfigWrite>,
)
    requires
        call_ensures(default_config_template, (), template),
        call_ensures(LexicalPath::parent, (path,), up),
        call_ensures(write_default_config_to_path, (path, there, overwrite), r),
        call_ensures(write_default_config_if_missing, (path, there), if_missing),
    ensures
        there && !overwrite ==> r is None,
        !there || overwrite ==> (r matches Some(write) && write.contents@ == template@
            && is_same_path(write.directory, up)),
        there ==> if_missing is None,
        !there ==> (if_missing matches Some(write) && write.contents@ == template@ && is_same_path(
            write.directory,
            up,
        )),
{
}

/// The proxy of the configuration counts where it is enabled and has a URL.
pub proof fn law_enabled_proxy_counts(config: &AppConfig, r: Option<String>)
    requires
        call_ensures(proxy_from_config, (config,), r),
    ensures
        config.proxy is None ==> r is None,
        config.proxy matches Some(proxy) ==> !proxy.enabled || proxy.url@.len() == 0 ==> r is None,
        config.proxy matches Some(proxy) ==> proxy.enabled && proxy.url@.len() > 0 ==> (
        r matches Some(url) && url@ == proxy.url@),
{
}

/// The variables that may name a proxy are those for secure requests, then those for others,
/// each in capitals first.
pub proof fn law_proxy_variables_are_four(r: Vec<String>)
    requires
        call_ensures(proxy_variables, (), r),
    ensures
        r@.len() == 4,
        r@[0]@ == "HTTPS_PROXY"@,
        r@[1]@ == "https_proxy"@,
        r@[2]@ == "HTTP_PROXY"@,
        r@[3]@ == "http_proxy"@,
{
    let all = views(r@);
    assert(all.len() == r@.len());
    assert(all[0] == r@[0]@ && all[1] == r@[1]@ && all[2] == r@[2]@ && all[3] == r@[3]@);
}

proof fn lemma_environment_proxy(values: Seq<Option<String>>, i: int)
    requires
        0 <= i <= values.len(),
        forall|k: int| 0 <= k < i ==> #[trigger] values[k] is None,
    ensures
        environment_proxy(values) == environment_proxy(values.skip(i)),
    decreases i,
{
    if i == 0 {
        assert(values.skip(0) =~= values);
    } else {
        let rest = values.drop_first();
        assert(values[0] is None);
        assert forall|k: int| 0 <= k < i - 1 implies #[trigger] rest[k] is None by {
            assert(rest[k] == values[k + 1]);
        }
        lemma_environment_proxy(rest, i - 1);
        assert(rest.skip(i - 1) =~= values.skip(i));
    }
}

/// The first variable that is set decides, also where it is blank: then there is no proxy.
pub proof fn law_first_set_variable_decides(
    values: &Vec<Option<String>>,
    i: int,
    a: Seq<char>,
    t: Seq<char>,
    b: Seq<char>,
    r: Option<String>,
)
    requires
        call_ensures(proxy_from_env, (values,), r),
        0 <= i <= values@.len(),
        forall|k: int| 0 <= k < i ==> #[trigger] values@[k] is None,
        i < values@.len() ==> (values@[i] matches Some(text) && reads_as(text@, a, t, b)),
    ensures
        i == values@.len() ==> r is None,
        i < values@.len() && t.len() == 0 ==> r is None,
        i < values@.len() && t.len() > 0 ==> (r matches Some(url) && url@ == t),
{
    lemma_environment_proxy(values@, i);
    let rest = values@.skip(i);
    if i < values@.len() {
        law_trimming_takes_the_ends(a, t, b);
        assert(rest[0] == values@[i]);
    } else {
        assert(rest.len() == 0);
    }
}

/// A proxy is made of a URL that is not empty, and is not used for requests to the own
/// machine.
pub proof fn law_own_machine_needs_no_proxy(
    url: &str,
    made: Option<reqwest::Proxy>,
    kept: Option<ResolvedProxy>,
    r: Option<ResolvedProxy>,
)
    requires
        call_ensures(build_proxy, (url,), r),
        call_ensures(resolved_from, (made,), kept),
    ensures
        url@.len() == 0 ==> r is None,
        url@.len() > 0 ==> match proxy_made(url@, "localhost,127.0.0.1,::1"@) {
            Some(proxy) => r matches Some(resolved) && resolved.proxy == proxy,
            None => r is None,
        },
        made is None ==> kept is None,
        made matches Some(proxy) ==> (kept matches Some(resolved) && resolved.proxy == proxy),
{
}

/// The proxy of the configuration is used; that of the environment only where the
/// configuration has none that can be made.
pub proof fn law_configured_proxy_goes_first(
    config: &Option<AppConfig>,
    values: &Vec<Option<String>>,
    from_config: Option<String>,
    config_text: &str,
    first: Option<ResolvedProxy>,
    from_env: Option<String>,
    env_text: &str,
    second: Option<ResolvedProxy>,
    r: Option<ResolvedProxy>,
)
    requires
        call_ensures(load_and_resolve_proxy, (config, values), r),
        *config matches Some(known) ==> call_ensures(proxy_from_config, (&known,), from_config),
        *config is None ==> from_config is None,
        from_config matches Some(url) ==> config_text@ == url@,
        call_ensures(build_proxy, (config_text,), first),
        call_ensures(proxy_from_env, (values,), from_env),
        from_env matches Some(url) ==> env_text@ == url@,
        call_ensures(build_proxy, (env_text,), second),
    ensures
        from_config is Some && first is Some ==> (r matches Some(used) && used.proxy
            == first.unwrap().proxy),
        (from_config is None || first is None) && from_env is Some && second is Some ==> (
        r matches Some(used) && used.proxy == second.unwrap().proxy),
        (from_config is None || first is None) && (from_env is None || second is None)
            ==> r is None,
{
}

/// In test mode a run keeps what lives as long as the daemon below its own data, and only
/// then.
pub proof fn law_test_run_keeps_to_itself(
    shared: &SharedRuntimeCli,
    locations: &Option<ProjectLocations>,
    cwd: &Result<LexicalPath, String>,
    r: Result<RuntimeDirectories, Complaint>,
)
    requires
        call_ensures(resolve_runtime_directories, (shared, locations, cwd), r),
    ensures
        shared.app_data_dir matches Some(path) ==> (r matches Ok(dirs) && dirs.app_data_dir@
            == path@ && dirs.app_data_dir.written() == path.written()),
        shared.app_data_dir is None && shared.test_mode ==> (r matches Err(complaint)
            && complaint.message@ == "--app-data-dir is required when --test-mode is enabled"@),
        shared.app_data_dir is None && !shared.test_mode ==> (*locations matches Some(known) ==> (
        r matches Ok(dirs) && dirs.app_data_dir@ == known.data_local_dir@)),
        shared.app_data_dir is None && !shared.test_mode && *locations is None ==> (
        *cwd matches Ok(here) ==> here.written().len() > 0 ==> (r matches Ok(dirs)
            && is_written_below(dirs.app_data_dir, here.written(), ".openusage-cli"@))),
        shared.app_data_dir is None && !shared.test_mode && *locations is None ==> (
        *cwd matches Err(reason) ==> (r matches Err(complaint) && is_lost(complaint, reason@))),
        !shared.test_mode ==> (r matches Ok(dirs) ==> dirs.test_runtime_dir is None),
        shared.test_mode ==> (r matches Ok(dirs) ==> dirs.app_data_dir.written().len() > 0 ==> (
        dirs.test_runtime_dir matches Some(own) && is_written_below(
            own,
            dirs.app_data_dir.written(),
            "runtime"@,
        ))),
{
    reveal_strlit("runtime");
    reveal_strlit(".openusage-cli");
    match (r, *cwd) {
        (Err(complaint), Err(reason)) => {
            if shared.app_data_dir is None && !shared.test_mode && *locations is None {
                lemma_lost(complaint, reason@);
            }
        },
        _ => {},
    }
}

} // verus!
