//! Points in time, as the supervisor needs them: to stamp the start of a
//! process and to tell how long it has been up.

use vstd::prelude::*;

verus! {

/// A point in time: whole seconds since the start of 1970 (UTC) and the
/// nanoseconds that follow them.
#[derive(Clone, Copy, Debug, PartialEq, Eq, Structural)]
pub struct Moment {
    pub secs: i64,
    pub nanos: u32,
}

/// Nanoseconds in one second.
pub open spec fn nanos_per_second() -> int {
    1_000_000_000
}

impl Moment {
    /// The distance of this moment from the start of 1970, in nanoseconds.
    pub open spec fn total_nanos(self) -> int {
        self.secs * nanos_per_second() + self.nanos
    }

    /// Whether at least `seconds` seconds lie between `earlier` and this
    /// moment.
    pub open spec fn is_at_least_after(self, earlier: Moment, seconds: int) -> bool {
        self.total_nanos() - earlier.total_nanos() >= seconds * nanos_per_second()
    }

    /// The whole seconds from `earlier` to this moment: zero where this
    /// moment is not the later one, and no more than a `u64` holds.
    pub open spec fn whole_seconds_after(self, earlier: Moment) -> int {
        let d = self.total_nanos() - earlier.total_nanos();
        if d <= 0 {
            0
        } else if d / nanos_per_second() > u64::MAX {
            u64::MAX as int
        } else {
            d / nanos_per_second()
        }
    }

    fn nanos_since_epoch(&self) -> (r: i128)
        ensures
            r == self.total_nanos(),
            -9_223_372_036_854_775_808_000_000_000 <= r <= 9_223_372_041_149_743_102_000_000_000,
    {
        let s: i128 = self.secs as i128;
        let n: i128 = self.nanos as i128;
        assert(s * 1_000_000_000 >= -9_223_372_036_854_775_808 * 1_000_000_000) by (nonlinear_arith)
            requires
                s >= -9_223_372_036_854_775_808,
        ;
        assert(s * 1_000_000_000 <= 9_223_372_036_854_775_807 * 1_000_000_000) by (nonlinear_arith)
            requires
                s <= 9_223_372_036_854_775_807,
        ;
        s * 1_000_000_000 + n
    }

    /// Whether at least `seconds` seconds lie between `earlier` and `self`.
    pub fn at_least_after(&self, earlier: &Moment, seconds: i64) -> (r: bool)
        ensures
            r == self.is_at_least_after(*earlier, seconds as int),
    {
        let d: i128 = self.nanos_since_epoch() - earlier.nanos_since_epoch();
        let wanted: i128 = seconds as i128;
        assert(wanted * 1_000_000_000 >= -9_223_372_036_854_775_808 * 1_000_000_000) by (nonlinear_arith)
            requires
                wanted >= -9_223_372_036_854_775_808,
        ;
        assert(wanted * 1_000_000_000 <= 9_223_372_036_854_775_807 * 1_000_000_000) by (nonlinear_arith)
            requires
                wanted <= 9_223_372_036_854_775_807,
        ;
        d >= wanted * 1_000_000_000
    }

    /// The whole seconds from `earlier` to `self`: zero where `self` is not
    /// the later one, and no more than a `u64` holds.
    pub fn seconds_after(&self, earlier: &Moment) -> (r: u64)
        ensures
            r == self.whole_seconds_after(*earlier),
    {
        let d: i128 = self.nanos_since_epoch() - earlier.nanos_since_epoch();
        if d <= 0 {
            0
        } else {
            let q: i128 = d / 1_000_000_000;
            if q > 18_446_744_073_709_551_615 {
                u64::MAX
            } else {
                q as u64
            }
        }
    }
}

/// The current time. `chrono::Local::now` reads the system clock;
/// `timestamp` and `timestamp_subsec_nanos` take the result apart. Nothing
/// is claimed of the result.
#[verifier::external_body]
pub(crate) fn now() -> Moment {
    let t = chrono::Local::now();
    Moment { secs: t.timestamp(), nanos: t.timestamp_subsec_nanos() }
}

} // verus!
