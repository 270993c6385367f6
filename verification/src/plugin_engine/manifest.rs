//! What a plugin says of itself.

use crate::lexical_path::LexicalPath;
use vstd::prelude::*;

verus! {

/// A line that a plugin announces.
#[derive(Debug)]
pub struct ManifestLine {
    pub line_type: String,
    pub label: String,
    pub scope: String,
    /// The place among the lines that may stand for the plugin, if it is one of them.
    pub primary_order: Option<u32>,
}

/// A link that belongs to a plugin.
#[derive(Debug)]
pub struct PluginLink {
    pub label: String,
    pub url: String,
}

/// The manifest of a plugin.
#[derive(Debug)]
pub struct PluginManifest {
    pub schema_version: u32,
    pub id: String,
    pub name: String,
    pub version: String,
    pub entry: String,
    pub icon: String,
    pub brand_color: Option<String>,
    pub lines: Vec<ManifestLine>,
    pub links: Vec<PluginLink>,
}

/// A plugin that was read from disk.
#[derive(Debug)]
pub struct LoadedPlugin {
    pub manifest: PluginManifest,
    pub plugin_dir: LexicalPath,
    pub entry_script: String,
    pub icon_data_url: String,
}

} // verus!
