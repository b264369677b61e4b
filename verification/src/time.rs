//! Picosecond-precision duration model.

use vstd::prelude::*;

verus! {

/// Total nanosecond count of a standard `Duration`; a fixed function of the
/// duration value alone.
pub uninterp spec fn duration_as_nanos(d: core::time::Duration) -> u128;

/// Largest nanosecond count a standard `Duration` can hold: `u64::MAX`
/// seconds plus a sub-second part strictly below one billion nanoseconds.
pub open spec fn max_duration_nanos() -> int {
    0xFFFF_FFFF_FFFF_FFFFint * 1_000_000_000 + 999_999_999
}

/// Relies on `Duration::as_nanos`: returns the total number of nanoseconds
/// in the duration, which is a function of the duration alone and is bounded
/// by `u64::MAX` seconds plus at most `999_999_999` sub-second nanoseconds.
pub assume_specification[ core::time::Duration::as_nanos ](
    d: &core::time::Duration,
) -> (r: u128)
    ensures
        r == duration_as_nanos(*d),
        r <= max_duration_nanos(),
;

/// Picosecond-precise duration.
///
/// Standard durations resolve to whole nanoseconds; averaged batch timings
/// can be finer than that, so elapsed time is kept as a picosecond count.
#[derive(Clone, Copy, Debug, PartialEq, Eq, Structural)]
pub struct FineDuration {
    pub picos: u128,
}

impl Default for FineDuration {
    /// A zero-valued duration.
    fn default() -> (r: Self)
        ensures
            r.picos == 0,
    {
        FineDuration { picos: 0 }
    }
}

impl PartialOrd for FineDuration {
    /// Ordering is total and numeric: by the picosecond count.
    fn partial_cmp(&self, other: &Self) -> (r: Option<core::cmp::Ordering>) {
        if self.picos < other.picos {
            Some(core::cmp::Ordering::Less)
        } else if self.picos == other.picos {
            Some(core::cmp::Ordering::Equal)
        } else {
            Some(core::cmp::Ordering::Greater)
        }
    }
}

impl vstd::std_specs::cmp::PartialOrdSpecImpl for FineDuration {
    open spec fn obeys_partial_cmp_spec() -> bool {
        true
    }

    open spec fn partial_cmp_spec(&self, other: &Self) -> Option<core::cmp::Ordering> {
        if self.picos < other.picos {
            Some(core::cmp::Ordering::Less)
        } else if self.picos == other.picos {
            Some(core::cmp::Ordering::Equal)
        } else {
            Some(core::cmp::Ordering::Greater)
        }
    }
}

impl From<core::time::Duration> for FineDuration {
    /// Converts a standard duration exactly: one nanosecond is a thousand
    /// picoseconds, and even the maximum representable standard duration
    /// stays within the 128-bit picosecond range.
    fn from(duration: core::time::Duration) -> (r: Self)
        ensures
            r.picos == duration_as_nanos(duration) * 1000,
    {
        FineDuration { picos: duration.as_nanos() * 1000 }
    }
}

impl vstd::std_specs::convert::FromSpecImpl<core::time::Duration> for FineDuration {
    open spec fn obeys_from_spec() -> bool {
        true
    }

    open spec fn from_spec(d: core::time::Duration) -> Self {
        FineDuration { picos: (duration_as_nanos(d) * 1000) as u128 }
    }
}

} // verus!
