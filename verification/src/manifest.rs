//! The manifest that describes a content mod.

use vstd::prelude::*;

verus! {

/// Another mod that a mod needs, and the version it needs of it.
#[derive(Debug, Clone)]
pub struct ModDependency {
    pub mod_id: String,
    pub version: String,
}

/// Identity, version and dependencies of a content mod.
#[derive(Debug, Clone)]
pub struct ModManifest {
    pub mod_id: String,
    pub name: String,
    pub version: String,
    pub mod_api_version: u32,
    pub dependencies: Vec<ModDependency>,
    pub description: Option<String>,
    pub authors: Option<Vec<String>>,
}

} // verus!
