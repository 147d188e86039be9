//! Class file format versions.

use vstd::prelude::*;

verus! {

/// The `major.minor` version a class file declares.
#[derive(Debug, Clone, Copy, PartialEq, Eq, PartialOrd, Ord, Hash)]
pub struct JavaVersion {
    pub major: u16,
    pub minor: u16,
}

impl JavaVersion {
    /// Whether this version is at least `major.minor`, comparing the major number first.
    pub open spec fn spec_supports(&self, major: u16, minor: u16) -> bool {
        self.major > major || (self.major == major && self.minor >= minor)
    }

    #[verifier::when_used_as_spec(spec_supports)]
    pub fn supports(&self, major: u16, minor: u16) -> (r: bool)
        ensures
            r == self.spec_supports(major, minor),
    {
        self.major > major || (self.major == major && self.minor >= minor)
    }

    pub open spec fn spec_supports_version(&self, version: &JavaVersion) -> bool {
        self.spec_supports(version.major, version.minor)
    }

    #[verifier::when_used_as_spec(spec_supports_version)]
    pub fn supports_version(&self, version: &JavaVersion) -> (r: bool)
        ensures
            r == self.spec_supports_version(version),
    {
        self.supports(version.major, version.minor)
    }

    /// `supports` is a total preorder on versions: reflexive, transitive, and any two
    /// versions are comparable.
    pub proof fn lemma_supports_order(a: JavaVersion, b: JavaVersion, c: JavaVersion)
        ensures
            a.spec_supports_version(&a),
            a.spec_supports_version(&b) && b.spec_supports_version(&c) ==> a.spec_supports_version(&c),
            a.spec_supports_version(&b) || b.spec_supports_version(&a),
            a.spec_supports_version(&b) && b.spec_supports_version(&a) ==> a == b,
    {
    }
}

} // verus!
