//! The part of a `package.json` that the commands read.

use crate::text_map::TextMap;
use vstd::prelude::*;

verus! {

/// Catalogs by name, each from package name to version range. The unnamed catalog is
/// called `default`.
pub type CatalogMap = TextMap<TextMap<String>>;

/// The object form of `package.json#workspaces`.
#[derive(Debug)]
pub struct Workspaces {
    pub catalog: TextMap<String>,
    pub catalogs: CatalogMap,
}

/// A parsed `package.json`.
#[derive(Debug)]
pub struct PackageJson {
    pub name: Option<String>,
    pub version: Option<String>,
    pub dependencies: TextMap<String>,
    pub dev_dependencies: TextMap<String>,
    pub peer_dependencies: TextMap<String>,
    pub optional_dependencies: TextMap<String>,
    pub workspaces: Option<Workspaces>,
    pub pnpm_catalog: TextMap<String>,
    pub pnpm_catalogs: CatalogMap,
}

impl PackageJson {
    /// The manifest of a directory that has none: every field absent or empty.
    pub open spec fn is_default(self) -> bool {
        &&& self.name is None
        &&& self.version is None
        &&& self.dependencies@ == Map::<Seq<char>, String>::empty()
        &&& self.dev_dependencies@ == Map::<Seq<char>, String>::empty()
        &&& self.peer_dependencies@ == Map::<Seq<char>, String>::empty()
        &&& self.optional_dependencies@ == Map::<Seq<char>, String>::empty()
        &&& self.workspaces is None
        &&& self.pnpm_catalog@ == Map::<Seq<char>, String>::empty()
        &&& self.pnpm_catalogs@ == Map::<Seq<char>, TextMap<String>>::empty()
    }
}

impl Default for PackageJson {
    fn default() -> (m: PackageJson)
        ensures
            m.is_default(),
    {
        PackageJson {
            name: None,
            version: None,
            dependencies: TextMap::new(),
            dev_dependencies: TextMap::new(),
            peer_dependencies: TextMap::new(),
            optional_dependencies: TextMap::new(),
            workspaces: None,
            pnpm_catalog: TextMap::new(),
            pnpm_catalogs: TextMap::new(),
        }
    }
}

/// The manifest of a directory that has none names nothing and depends on nothing.
pub proof fn default_manifests_are_empty(m: PackageJson, name: Seq<char>)
    requires
        m.is_default(),
    ensures
        m.name is None && m.version is None && m.workspaces is None,
        !m.dependencies@.contains_key(name) && !m.dev_dependencies@.contains_key(name),
        !m.peer_dependencies@.contains_key(name) && !m.optional_dependencies@.contains_key(name),
        !m.pnpm_catalog@.contains_key(name) && !m.pnpm_catalogs@.contains_key(name),
{
}

} // verus!
