//! Version strings as reported by package managers.  A version is classified
//! on construction as semantic (it matches the SemVer 2.0.0 grammar) or not;
//! equality compares the `MAJOR.MINOR.PATCH` digit groups of semantic
//! versions and the raw text of non-semantic ones.

use vstd::prelude::*;

use crate::semver::{check_semver, core_triple_matches, is_semver, same_core_triple};

verus! {

/// The error returned when the semantic flag is forced to `true` on a
/// representation that does not match the SemVer grammar.
#[derive(Debug, PartialEq, Eq, Structural)]
pub struct ValidationError;

/// A version string together with its classification.  For semantic
/// versioning alone a dedicated semver library would do; this type also
/// admits non-semantic versions.
#[derive(Debug)]
pub struct Version {
    representation: String,
    semantic: bool,
}

/// What it means for two versions to be equal: the classifications agree,
/// semantic versions agree on their `MAJOR.MINOR.PATCH` digit groups
/// (prerelease and build metadata are ignored by design), and non-semantic
/// versions have identical raw text.
pub open spec fn version_eq(a: Version, b: Version) -> bool {
    &&& a.semantic_spec() == b.semantic_spec()
    &&& (a.semantic_spec() ==> same_core_triple(a.repr_spec(), b.repr_spec()))
    &&& (!a.semantic_spec() ==> a.repr_spec() == b.repr_spec())
}

impl Version {
    /// The characters of the raw version string.
    pub closed spec fn repr_spec(&self) -> Seq<char> {
        self.representation@
    }

    /// Whether this version is classified as semantic.
    pub closed spec fn semantic_spec(&self) -> bool {
        self.semantic
    }

    #[verifier::type_invariant]
    spec fn wf(self) -> bool {
        self.semantic ==> is_semver(self.representation@)
    }

    /// Create an empty version that is not semantic.
    pub fn new() -> (r: Version)
        ensures
            r.repr_spec() == Seq::<char>::empty(),
            !r.semantic_spec(),
    {
        Version { representation: String::new(), semantic: false }
    }

    /// Create a version from a string slice, classifying it against the
    /// SemVer 2.0.0 grammar.
    pub fn from_str(representation: &str) -> (r: Version)
        ensures
            r.repr_spec() == representation@,
            r.semantic_spec() == is_semver(representation@),
    {
        let semantic = check_semver(representation);
        Version { representation: representation.to_owned(), semantic }
    }

    /// Create a version from an owned string, classifying it against the
    /// SemVer 2.0.0 grammar.
    pub fn from_string(representation: String) -> (r: Version)
        ensures
            r.repr_spec() == representation@,
            r.semantic_spec() == is_semver(representation@),
    {
        let semantic = check_semver(representation.as_str());
        Version { representation, semantic }
    }

    /// Get the string representation of the version.
    pub fn get_representation(&self) -> (r: String)
        ensures
            r@ == self.repr_spec(),
    {
        self.representation.clone()
    }

    /// Change the version, reclassifying the new representation.
    pub fn set_representation(&mut self, val: String)
        ensures
            final(self).repr_spec() == val@,
            final(self).semantic_spec() == is_semver(val@),
    {
        let semantic = check_semver(val.as_str());
        *self = Version { representation: val, semantic };
    }

    /// Check if a representation matches the SemVer 2.0.0 grammar.
    pub fn is_semantic(representation: &str) -> (r: bool)
        ensures
            r == is_semver(representation@),
    {
        check_semver(representation)
    }

    /// Explicitly set whether the version is semantic.  Setting `true` fails
    /// when the representation does not pass `is_semantic`; setting `false`
    /// always succeeds.  The representation itself is never changed.
    pub fn set_semantic(&mut self, val: bool) -> (r: Result<(), ValidationError>)
        ensures
            val && !is_semver(old(self).repr_spec()) ==> r is Err && *final(self) == *old(self),
            !(val && !is_semver(old(self).repr_spec())) ==> r is Ok
                && final(self).semantic_spec() == val && final(self).repr_spec() == old(
                self,
            ).repr_spec(),
    {
        if val && !check_semver(self.representation.as_str()) {
            return Err(ValidationError);
        }
        let representation = self.representation.clone();
        *self = Version { representation, semantic: val };
        Ok(())
    }

    /// Is this a semantic version?
    pub fn get_semantic(&self) -> (r: bool)
        ensures
            r == self.semantic_spec(),
    {
        self.semantic
    }
}

impl PartialEq for Version {
    fn eq(&self, other: &Version) -> (r: bool) {
        proof {
            use_type_invariant(self);
            use_type_invariant(other);
        }
        if self.semantic != other.semantic {
            false
        } else if self.semantic {
            core_triple_matches(self.representation.as_str(), other.representation.as_str())
        } else {
            self.representation == other.representation
        }
    }
}

impl vstd::std_specs::cmp::PartialEqSpecImpl for Version {
    open spec fn obeys_eq_spec() -> bool {
        true
    }

    open spec fn eq_spec(&self, other: &Version) -> bool {
        version_eq(*self, *other)
    }
}

/// Two semantic versions are equal exactly when their `MAJOR.MINOR.PATCH`
/// digit groups coincide; prerelease and build metadata never matter.
pub proof fn lemma_semantic_eq_ignores_metadata(a: Version, b: Version)
    requires
        a.semantic_spec(),
        b.semantic_spec(),
    ensures
        version_eq(a, b) <==> same_core_triple(a.repr_spec(), b.repr_spec()),
{
}

/// Two non-semantic versions are equal exactly when their raw strings are
/// identical.
pub proof fn lemma_non_semantic_eq_is_exact(a: Version, b: Version)
    requires
        !a.semantic_spec(),
        !b.semantic_spec(),
    ensures
        version_eq(a, b) <==> a.repr_spec() == b.repr_spec(),
{
}

/// Versions whose classifications differ are never equal, whatever their raw
/// strings hold.
pub proof fn lemma_mixed_classification_never_eq(a: Version, b: Version)
    requires
        a.semantic_spec() != b.semantic_spec(),
    ensures
        !version_eq(a, b),
{
}

} // verus!
