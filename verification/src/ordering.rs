//! The order of plugin versions: by major, then by minor, and among builds of
//! one `major.minor` the nightly build before the release.

use crate::versions::PluginVersion;
use std::cmp::Ordering;
use vstd::prelude::*;
use vstd::std_specs::cmp::PartialOrdSpecImpl;

verus! {

/// `a` comes strictly before `b`.
pub open spec fn precedes(a: PluginVersion, b: PluginVersion) -> bool {
    ||| a.major < b.major
    ||| a.major == b.major && a.minor < b.minor
    ||| a.major == b.major && a.minor == b.minor && a.nightly && !b.nightly
}

/// How `a` stands to `b` in the order of plugin versions.
pub open spec fn order_of(a: PluginVersion, b: PluginVersion) -> Ordering {
    if precedes(a, b) {
        Ordering::Less
    } else if precedes(b, a) {
        Ordering::Greater
    } else {
        Ordering::Equal
    }
}

impl PartialOrd for PluginVersion {
    fn partial_cmp(&self, other: &Self) -> (r: Option<Ordering>) {
        if self.major < other.major {
            Some(Ordering::Less)
        } else if self.major > other.major {
            Some(Ordering::Greater)
        } else if self.minor < other.minor {
            Some(Ordering::Less)
        } else if self.minor > other.minor {
            Some(Ordering::Greater)
        } else if self.nightly && !other.nightly {
            Some(Ordering::Less)
        } else if !self.nightly && other.nightly {
            Some(Ordering::Greater)
        } else {
            Some(Ordering::Equal)
        }
    }
}

impl PartialOrdSpecImpl for PluginVersion {
    open spec fn obeys_partial_cmp_spec() -> bool {
        true
    }

    open spec fn partial_cmp_spec(&self, other: &Self) -> Option<Ordering> {
        Some(order_of(*self, *other))
    }
}

/// Whether `a` is the better candidate of the two: the later version.
pub fn outranks(a: &PluginVersion, b: &PluginVersion) -> (r: bool)
    ensures
        r == precedes(*b, *a),
{
    a > b
}

/// Among builds of one `major.minor` the nightly build comes strictly before
/// the release.
pub proof fn law_nightly_before_release(a: PluginVersion, b: PluginVersion)
    requires
        a.major == b.major,
        a.minor == b.minor,
        a.nightly,
        !b.nightly,
    ensures
        order_of(a, b) == Ordering::Less,
        order_of(b, a) == Ordering::Greater,
{
}

/// Versions that differ in major or minor are ordered by these numbers,
/// whatever their nightly flags.
pub proof fn law_numeric_order(a: PluginVersion, b: PluginVersion)
    requires
        a.major != b.major || a.minor != b.minor,
    ensures
        order_of(a, b) == (if a.major < b.major || (a.major == b.major && a.minor < b.minor) {
            Ordering::Less
        } else {
            Ordering::Greater
        }),
        order_of(a, b) == order_of(
            PluginVersion { nightly: !a.nightly, ..a },
            PluginVersion { nightly: !b.nightly, ..b },
        ),
{
}

/// The order is total: two versions are equal, or one precedes the other, and
/// never both; and it is transitive.
pub proof fn law_total_order(a: PluginVersion, b: PluginVersion, c: PluginVersion)
    ensures
        order_of(a, b) == Ordering::Equal <==> a == b,
        order_of(a, b) == Ordering::Less <==> order_of(b, a) == Ordering::Greater,
        precedes(a, b) && precedes(b, c) ==> precedes(a, c),
        !(precedes(a, b) && precedes(b, a)),
{
}

} // verus!
