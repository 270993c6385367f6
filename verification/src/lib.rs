pub mod argument_laws;
pub mod cli_preparse;
pub mod complaint;
pub mod config;
pub mod daemon;
pub mod daemon_laws;
pub mod daemon_mode;
pub mod daemon_plan;
pub mod discovery;
pub mod edit_distance;
pub mod enabled_plugins;
pub mod event_laws;
pub mod http_api;
pub mod http_laws;
pub mod instance_control;
pub mod lexical_path;
pub mod log_summary;
pub mod net;
pub mod option_laws;
pub mod outside;
pub mod path_laws;
pub mod path_resolution;
pub mod place_laws;
pub mod plugin_engine;
pub mod provider_watch;
pub mod query;
pub mod refresh;
pub mod restart_laws;
pub mod restart_watcher;
pub mod runtime_cli;
pub mod runtime_context;
pub mod service_laws;
pub mod startup_laws;
pub mod subscription_laws;
pub mod systemd;
pub mod table;
pub mod text;
pub mod text_laws;
pub mod text_order;
pub mod watch_event;
pub mod watch_laws;
