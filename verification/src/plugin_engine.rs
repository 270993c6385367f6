//! Plugins, what they return, and how their results become outputs.

pub mod account_laws;
pub mod accounts;
pub mod js_value;
pub mod lifecycle_laws;
pub mod line_laws;
pub mod lines;
pub mod manifest;
pub mod output;
pub mod override_lifecycle;
pub mod patch_laws;
pub mod run_laws;
pub mod runtime;
pub mod script_outline;
pub mod script_patch;
