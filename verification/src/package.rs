//! Information on a package offered by a particular package manager.  A
//! package is always scoped to the descriptor that produced it.

use vstd::prelude::*;

use crate::manager::PackageManager;
use crate::text::str_eq;
use crate::version::Version;

verus! {

/// Information on a package from a particular package manager.
#[derive(Debug)]
pub struct Package {
    pub name: String,
    pub owner: PackageManager,
    pub version: Version,
    pub description: String,
}

impl Package {
    /// Make a new blank package.
    pub fn new() -> (r: Package)
        ensures
            r.name@ == Seq::<char>::empty(),
            r.description@ == Seq::<char>::empty(),
            r.owner@.name == Seq::<char>::empty(),
            r.version.repr_spec() == Seq::<char>::empty(),
            !r.version.semantic_spec(),
    {
        Package {
            name: String::new(),
            owner: PackageManager::new(),
            version: Version::new(),
            description: String::new(),
        }
    }

    /// Return whether the package has the specified name.
    pub fn is_called(&self, name: &str) -> (r: bool)
        ensures
            r == (self.name@ == name@),
    {
        str_eq(self.name.as_str(), name)
    }

    /// Return the package name.
    pub fn get_name(&self) -> (r: String)
        ensures
            r@ == self.name@,
    {
        self.name.clone()
    }

    /// Return the description of the package.
    pub fn get_description(&self) -> (r: String)
        ensures
            r@ == self.description@,
    {
        self.description.clone()
    }

    /// Return the package version.
    pub fn get_version(self) -> (r: Version)
        ensures
            r == self.version,
    {
        self.version
    }

    /// Return the package manager that owns this package.
    pub fn get_manager(self) -> (r: PackageManager)
        ensures
            r@ == self.owner@,
    {
        self.owner
    }
}

} // verus!
