//! A universal package manager library: descriptions of package managers are
//! read from small configuration files, merged into a registry with
//! precedence-ordered deduplication, and exposed through descriptors whose
//! command templates resolve to process specifications.  Version strings are
//! classified as semantic or not and compared accordingly.

pub mod manager;
pub mod package;
pub mod registry;
pub mod semver;
pub mod text;
pub mod version;
