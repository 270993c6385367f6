//! What a process needs to ask plugins, put together.

use crate::complaint::{over, plain, Complaint};
use crate::daemon::DaemonState;
use crate::enabled_plugins::select_plugins;
use crate::lexical_path::LexicalPath;
use crate::plugin_engine::manifest::LoadedPlugin;
use crate::runtime_cli::SharedRuntimeCli;
use vstd::prelude::*;

verus! {

/// The state of a process that has its plugins, or why there is none: the plugins of the
/// directory that are enabled, and the directory of the overrides. The complaint about the
/// plugins comes before that about the overrides.
pub fn initial_state(
    shared: &SharedRuntimeCli,
    app_version: &str,
    app_data_dir: &LexicalPath,
    plugins_dir: &LexicalPath,
    loaded: Vec<LoadedPlugin>,
    plugin_overrides_dir: Result<Option<LexicalPath>, Complaint>,
) -> (r: Result<DaemonState, Complaint>)
    ensures
        ({
            let masks = crate::enabled_plugins::masks_of(shared.enabled_plugins@);
            let kept = crate::enabled_plugins::enabled_only(loaded@, masks);
            let compiled = crate::outside::masks_compile(masks, usize::BITS as int);
            &&& r is Ok == (loaded@.len() > 0 && crate::enabled_plugins::mask_complaint(masks)
                is None && compiled && kept.len() > 0 && plugin_overrides_dir is Ok)
            &&& r matches Ok(state) ==> {
                &&& state.spec_plugins() == kept
                &&& state.spec_app_data_dir()@ == app_data_dir@
                &&& state.spec_app_data_dir().written() == app_data_dir.written()
                &&& state.spec_app_version()@ == app_version@
                &&& plugin_overrides_dir == Ok::<Option<LexicalPath>, Complaint>(
                    state.spec_plugin_overrides_dir(),
                )
                &&& state.spec_cache() == Map::<
                    Seq<char>,
                    Seq<crate::daemon::SnapshotView>,
                >::empty()
            }
            &&& r matches Err(complaint) ==> if loaded@.len() == 0 {
                complaint@ == plain(
                    crate::enabled_plugins::no_plugins_text(plugins_dir.written()),
                )
            } else if crate::enabled_plugins::mask_complaint(masks) is Some {
                complaint@ == over(
                    crate::enabled_plugins::bad_masks_text(shared.enabled_plugins@),
                    crate::enabled_plugins::mask_complaint(masks)->0,
                )
            } else if !compiled {
                crate::enabled_plugins::is_unusable_masks_complaint(
                    complaint@,
                    shared.enabled_plugins@,
                )
            } else if kept.len() == 0 {
                complaint@ == plain(
                    crate::enabled_plugins::none_enabled_text(
                        shared.enabled_plugins@,
                        crate::daemon::plugin_ids(loaded@),
                    ),
                )
            } else {
                complaint@ == over(
                    "failed to resolve plugin overrides directory"@,
                    plugin_overrides_dir->Err_0@,
                )
            }
        }),
{
    let plugins = match select_plugins(loaded, plugins_dir, shared.enabled_plugins.as_str()) {
        Ok(plugins) => plugins,
        Err(complaint) => {
            return Err(complaint);
        },
    };
    match plugin_overrides_dir {
        Ok(dir) => Ok(
            DaemonState::new(plugins, app_data_dir.clone(), app_version.to_string(), dir),
        ),
        Err(cause) => Err(
            Complaint::over("failed to resolve plugin overrides directory".to_string(), cause),
        ),
    }
}

} // verus!
