//! The version that a line declares for its format.

use std::cmp::Ordering;
use vstd::prelude::*;
use vstd::std_specs::cmp::PartialOrdSpecImpl;

verus! {

/// A format version. Versions are ordered by their major number, and by their
/// minor number where the major numbers agree.
#[derive(Clone, Copy, Debug, PartialEq, Eq, Structural, Ord)]
pub struct Version {
    pub major: u32,
    pub minor: u32,
}

impl Default for Version {
    fn default() -> (r: Version)
        ensures
            r == (Version { major: 1, minor: 0 }),
    {
        Version { major: 1, minor: 0 }
    }
}

impl Version {
    /// How two versions are ordered: by major number, then by minor number.
    pub open spec fn cmp_spec(&self, other: &Version) -> Ordering {
        if self.major < other.major {
            Ordering::Less
        } else if self.major > other.major {
            Ordering::Greater
        } else if self.minor < other.minor {
            Ordering::Less
        } else if self.minor > other.minor {
            Ordering::Greater
        } else {
            Ordering::Equal
        }
    }

    /// Orders two versions: by major number, then by minor number.
    pub fn cmp(&self, other: &Version) -> (o: Ordering)
        ensures
            o == self.cmp_spec(other),
    {
        if self.major < other.major {
            Ordering::Less
        } else if self.major > other.major {
            Ordering::Greater
        } else if self.minor < other.minor {
            Ordering::Less
        } else if self.minor > other.minor {
            Ordering::Greater
        } else {
            Ordering::Equal
        }
    }
}

impl PartialOrd for Version {
    fn partial_cmp(&self, other: &Version) -> (r: Option<Ordering>) {
        Some(self.cmp(other))
    }
}

impl PartialOrdSpecImpl for Version {
    open spec fn obeys_partial_cmp_spec() -> bool {
        true
    }

    open spec fn partial_cmp_spec(&self, other: &Version) -> Option<Ordering> {
        Some(self.cmp_spec(other))
    }
}

} // verus!
