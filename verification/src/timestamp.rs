//! Points in time as whole seconds since the Unix epoch plus nanoseconds.

use crate::encoding::{le_bytes, push_u32, push_u64};
use vstd::prelude::*;

verus! {

/// A point in time: `secs` whole seconds since 1970-01-01T00:00:00Z and
/// `nanos` nanoseconds after that second.
#[derive(Debug, Clone, Copy, PartialEq, Eq, Hash, Structural)]
pub struct Timestamp {
    pub secs: i64,
    pub nanos: u32,
}

/// The clock of the `chrono` crate: `Utc::now()` as the seconds of its
/// `timestamp` and the nanoseconds of its `timestamp_subsec_nanos`.
/// Nothing is known of the reading. (`Utc::now` does not return where the
/// system's clock reads a time before 1970.)
#[verifier::external_body]
fn utc_now() -> (i64, u32) {
    let now = chrono::Utc::now();
    (now.timestamp(), now.timestamp_subsec_nanos())
}

/// The eight-byte two's complement of a signed number of seconds.
pub open spec fn unsigned_seconds(secs: i64) -> nat {
    if secs >= 0 {
        secs as nat
    } else {
        (secs + 0x1_0000_0000_0000_0000) as nat
    }
}

impl Timestamp {
    /// The point in time as a number of nanoseconds since the epoch.
    pub open spec fn total_nanos(self) -> int {
        self.secs * 1_000_000_000 + self.nanos
    }

    /// The canonical encoding: the seconds in eight bytes (two's complement),
    /// then the nanoseconds in four, both little-endian.
    pub open spec fn encoding(self) -> Seq<u8> {
        le_bytes(unsigned_seconds(self.secs), 8) + le_bytes(self.nanos as nat, 4)
    }

    /// Whole seconds from `earlier` to `self`, rounded toward zero.
    pub open spec fn spec_seconds_since(self, earlier: Timestamp) -> int {
        let span = self.total_nanos() - earlier.total_nanos();
        if span >= 0 {
            span / 1_000_000_000
        } else {
            -((-span) / 1_000_000_000)
        }
    }

    /// The point in time with the given parts.
    pub fn new(secs: i64, nanos: u32) -> (r: Self)
        ensures
            r == (Timestamp { secs, nanos }),
    {
        Timestamp { secs, nanos }
    }

    /// The start of the given second.
    pub fn from_secs(secs: i64) -> (r: Self)
        ensures
            r == (Timestamp { secs, nanos: 0 }),
    {
        Timestamp { secs, nanos: 0 }
    }

    /// The current time by the system's clock.
    pub fn now() -> Self {
        let (secs, nanos) = utc_now();
        Timestamp { secs, nanos }
    }

    /// Whole seconds from `earlier` to `self`, rounded toward zero.
    pub fn seconds_since(&self, earlier: &Timestamp) -> (r: i128)
        ensures
            r == self.spec_seconds_since(*earlier),
            -0x2_0000_0000_0000_0000 < r < 0x2_0000_0000_0000_0000,
    {
        let later_nanos: i128 = self.secs as i128 * 1_000_000_000 + self.nanos as i128;
        let earlier_nanos: i128 = earlier.secs as i128 * 1_000_000_000 + earlier.nanos as i128;
        let span: i128 = later_nanos - earlier_nanos;
        if span >= 0 {
            let magnitude: u128 = span as u128;
            (magnitude / 1_000_000_000) as i128
        } else {
            let magnitude: u128 = (-span) as u128;
            -((magnitude / 1_000_000_000) as i128)
        }
    }

    /// Whether `self` is strictly later than `other`.
    pub fn is_after(&self, other: &Timestamp) -> (r: bool)
        ensures
            r == (self.total_nanos() > other.total_nanos()),
    {
        let a: i128 = self.secs as i128 * 1_000_000_000 + self.nanos as i128;
        let b: i128 = other.secs as i128 * 1_000_000_000 + other.nanos as i128;
        a > b
    }

    /// Appends the canonical encoding to `out`.
    pub fn encode_into(&self, out: &mut Vec<u8>)
        ensures
            final(out)@ == old(out)@ + self.encoding(),
    {
        let ghost before = out@;
        let raw: u64 = if self.secs >= 0 {
            self.secs as u64
        } else {
            u64::MAX - (-(self.secs + 1)) as u64
        };
        push_u64(out, raw);
        push_u32(out, self.nanos);
        assert(out@ =~= before + self.encoding());
    }
}

} // verus!
