//! Spans of time, points on the monotonic clock and points in UTC.

use chrono::{TimeZone, Utc};
use vstd::prelude::*;

verus! {

/// How many nanoseconds a second has.
pub const NANOS_PER_SEC: u32 = 1_000_000_000;

/// The longest span of time, in nanoseconds.
pub open spec fn max_nanos() -> nat {
    (u64::MAX * 1_000_000_000 + 999_999_999) as nat
}

/// A span of time, to the nanosecond.
#[derive(Debug, Clone, Copy, PartialEq, Eq)]
pub struct Duration {
    secs: u64,
    nanos: u32,
}

impl View for Duration {
    type V = nat;

    /// The span in nanoseconds.
    closed spec fn view(&self) -> nat {
        (self.secs * 1_000_000_000 + self.nanos) as nat
    }
}

impl Duration {
    #[verifier::type_invariant]
    spec fn well_formed(self) -> bool {
        self.nanos < 1_000_000_000
    }

    /// `secs` seconds and `nanos` nanoseconds.
    pub fn new(secs: u64, nanos: u32) -> (out: Self)
        requires
            nanos < NANOS_PER_SEC,
        ensures
            out@ == secs * 1_000_000_000 + nanos,
    {
        Duration { secs, nanos }
    }

    /// `secs` seconds.
    pub fn from_secs(secs: u64) -> (out: Self)
        ensures
            out@ == secs * 1_000_000_000,
    {
        Duration { secs, nanos: 0 }
    }

    /// `millis` milliseconds.
    pub fn from_millis(millis: u64) -> (out: Self)
        ensures
            out@ == millis * 1_000_000,
    {
        Duration { secs: millis / 1000, nanos: (millis % 1000) as u32 * 1_000_000 }
    }

    /// The whole seconds of the span.
    pub fn as_secs(&self) -> (out: u64)
        ensures
            out == self@ / 1_000_000_000,
    {
        proof {
            use_type_invariant(self);
        }
        self.secs
    }

    /// The nanoseconds beyond the whole seconds.
    pub fn subsec_nanos(&self) -> (out: u32)
        ensures
            out == self@ % 1_000_000_000,
            out < NANOS_PER_SEC,
    {
        proof {
            use_type_invariant(self);
        }
        self.nanos
    }

    /// Whether the span is no time at all.
    pub fn is_zero(&self) -> (yes: bool)
        ensures
            yes == (self@ == 0),
    {
        self.secs == 0 && self.nanos == 0
    }

    /// Whether this span is no longer than `other`.
    pub fn at_most(&self, other: &Duration) -> (yes: bool)
        ensures
            yes == (self@ <= other@),
    {
        proof {
            use_type_invariant(self);
            use_type_invariant(other);
        }
        self.secs < other.secs || (self.secs == other.secs && self.nanos <= other.nanos)
    }

    /// `times` times this span, or the longest span where that is longer.
    pub fn saturating_mul(self, times: u32) -> (out: Self)
        ensures
            out@ == if self@ * times <= max_nanos() {
                (self@ * times) as nat
            } else {
                max_nanos()
            },
    {
        proof {
            use_type_invariant(&self);
        }
        let secs: u128 = self.secs as u128;
        let nanos: u64 = self.nanos as u64;
        let k: u64 = times as u64;
        assert(nanos * k <= 1_000_000_000 * 0xFFFF_FFFF) by (nonlinear_arith)
            requires
                nanos <= 1_000_000_000,
                k <= 0xFFFF_FFFF,
        ;
        assert(secs * k <= 0xFFFF_FFFF_FFFF_FFFF * 0xFFFF_FFFF) by (nonlinear_arith)
            requires
                secs <= 0xFFFF_FFFF_FFFF_FFFF,
                k <= 0xFFFF_FFFF,
        ;
        let low: u64 = nanos * k;
        let high: u128 = secs * (k as u128) + (low / 1_000_000_000) as u128;
        assert(self@ * k == secs * k * 1_000_000_000 + nanos * k) by (nonlinear_arith)
            requires
                self@ == secs * 1_000_000_000 + nanos,
        ;
        assert(self@ * k == high * 1_000_000_000 + low % 1_000_000_000);
        if high <= u64::MAX as u128 {
            Duration { secs: high as u64, nanos: (low % 1_000_000_000) as u32 }
        } else {
            Duration { secs: u64::MAX, nanos: 999_999_999 }
        }
    }

    /// A quarter of this span.
    pub fn quarter(&self) -> (out: Self)
        ensures
            out@ == self@ / 4,
    {
        proof {
            use_type_invariant(self);
        }
        let rest: u64 = (self.secs % 4) * 1_000_000_000 + self.nanos as u64;
        assert(rest / 4 < 1_000_000_000);
        Duration { secs: self.secs / 4, nanos: (rest / 4) as u32 }
    }

    /// The longer of this span and `other`.
    pub fn max_with(self, other: Duration) -> (out: Self)
        ensures
            out@ == if self@ <= other@ {
                other@
            } else {
                self@
            },
    {
        if self.at_most(&other) {
            other
        } else {
            self
        }
    }

    /// How much longer this span is than `other`, or nothing.
    pub fn saturating_sub(&self, other: &Duration) -> (out: Self)
        ensures
            out@ == if other@ <= self@ {
                (self@ - other@) as nat
            } else {
                0
            },
    {
        proof {
            use_type_invariant(self);
            use_type_invariant(other);
        }
        if !other.at_most(self) {
            return Duration { secs: 0, nanos: 0 };
        }
        if self.nanos >= other.nanos {
            Duration { secs: self.secs - other.secs, nanos: self.nanos - other.nanos }
        } else {
            Duration {
                secs: self.secs - other.secs - 1,
                nanos: NANOS_PER_SEC - other.nanos + self.nanos,
            }
        }
    }

    /// The sum of two spans, where it is not too long.
    pub fn checked_add(&self, other: &Duration) -> (out: Option<Self>)
        ensures
            match out {
                Some(sum) => sum@ == self@ + other@,
                None => self@ + other@ > max_nanos(),
            },
    {
        proof {
            use_type_invariant(self);
            use_type_invariant(other);
        }
        let nanos: u32 = self.nanos + other.nanos;
        let carry: u128 = if nanos >= NANOS_PER_SEC {
            1
        } else {
            0
        };
        let secs: u128 = self.secs as u128 + other.secs as u128 + carry;
        if secs > u64::MAX as u128 {
            None
        } else if nanos >= NANOS_PER_SEC {
            Some(Duration { secs: secs as u64, nanos: nanos - NANOS_PER_SEC })
        } else {
            Some(Duration { secs: secs as u64, nanos })
        }
    }
}

impl Default for Duration {
    fn default() -> (out: Self)
        ensures
            out@ == 0,
    {
        Duration { secs: 0, nanos: 0 }
    }
}

/// A span of time as a configuration file writes it, such as `5s` or `10m`.
#[derive(Debug, Clone, Copy, PartialEq, Eq)]
pub struct HumanDuration(pub Duration);

impl Default for HumanDuration {
    fn default() -> (out: Self)
        ensures
            out.0@ == 0,
    {
        HumanDuration(Duration::default())
    }
}

/// A point on the monotonic clock, by its distance from where the clock began.
#[derive(Debug, Clone, Copy, PartialEq, Eq)]
pub struct Instant {
    pub since_start: Duration,
}

impl View for Instant {
    type V = nat;

    /// The distance from where the clock began, in nanoseconds.
    open spec fn view(&self) -> nat {
        self.since_start@
    }
}

impl Instant {
    /// How long `earlier` was before this point; nothing where it was not.
    pub fn saturating_duration_since(&self, earlier: Instant) -> (out: Duration)
        ensures
            out@ == if earlier@ <= self@ {
                (self@ - earlier@) as nat
            } else {
                0
            },
    {
        self.since_start.saturating_sub(&earlier.since_start)
    }

    /// The point `span` later, where the clock reaches it.
    pub fn checked_add(&self, span: Duration) -> (out: Option<Instant>)
        ensures
            match out {
                Some(later) => later@ == self@ + span@,
                None => self@ + span@ > max_nanos(),
            },
    {
        match self.since_start.checked_add(&span) {
            Some(sum) => Some(Instant { since_start: sum }),
            None => None,
        }
    }

    /// Whether this point comes after `other`.
    pub fn after(&self, other: Instant) -> (yes: bool)
        ensures
            yes == (self@ > other@),
    {
        !self.since_start.at_most(&other.since_start)
    }
}

/// A point in UTC: seconds since 1970 and nanoseconds beyond them.
#[derive(Debug, Clone, Copy, PartialEq, Eq)]
pub struct Timestamp {
    secs: i64,
    nanos: u32,
}

impl View for Timestamp {
    type V = int;

    /// The nanoseconds since 1970.
    closed spec fn view(&self) -> int {
        self.secs * 1_000_000_000 + self.nanos
    }
}

/// The first second of the calendar: that of the year -262143.
pub const FIRST_SECOND: i64 = -8_334_601_228_800;

/// The last second of the calendar: that of the year 262142.
pub const LAST_SECOND: i64 = 8_210_266_876_799;

/// The second `secs` after 1970 is in the calendar.
pub open spec fn second_in_calendar(secs: int) -> bool {
    FIRST_SECOND <= secs <= LAST_SECOND
}

/// The point `nanos` nanoseconds after 1970 is in the calendar.
pub open spec fn in_calendar(nanos: int) -> bool {
    second_in_calendar(nanos / 1_000_000_000)
}

/// `timestamp_opt` of chrono's `Utc` has the seconds of the years from -262143 to
/// 262142 and no others.
#[verifier::external_body]
pub(crate) fn timestamp_in_range(secs: i64) -> (yes: bool)
    ensures
        yes == second_in_calendar(secs as int),
{
    Utc.timestamp_opt(secs, 0).single().is_some()
}

/// `from_std` of chrono's `Duration` takes a span of at most `i64::MAX`
/// milliseconds.
#[verifier::external_body]
pub(crate) fn chrono_span_fits(secs: u64, nanos: u32) -> (yes: bool)
    requires
        nanos < NANOS_PER_SEC,
    ensures
        yes == (secs * 1_000_000_000 + nanos <= i64::MAX * 1_000_000),
{
    chrono::Duration::from_std(std::time::Duration::new(secs, nanos)).is_ok()
}

impl Timestamp {
    #[verifier::type_invariant]
    spec fn well_formed(self) -> bool {
        self.nanos < 1_000_000_000 && second_in_calendar(self.secs as int)
    }

    /// The point `secs` seconds and `nanos` nanoseconds after 1970.
    pub fn new(secs: i64, nanos: u32) -> (out: Self)
        requires
            nanos < NANOS_PER_SEC,
            second_in_calendar(secs as int),
        ensures
            out@ == secs * 1_000_000_000 + nanos,
    {
        Timestamp { secs, nanos }
    }

    /// The whole seconds since 1970.
    pub fn secs(&self) -> (out: i64)
        ensures
            out == self@ / 1_000_000_000,
            in_calendar(self@),
    {
        proof {
            use_type_invariant(self);
        }
        self.secs
    }

    /// The nanoseconds beyond the whole seconds.
    pub fn subsec_nanos(&self) -> (out: u32)
        ensures
            out == self@ % 1_000_000_000,
            out < NANOS_PER_SEC,
    {
        proof {
            use_type_invariant(self);
        }
        self.nanos
    }

    /// Whether this point comes before `other`.
    pub fn before(&self, other: &Timestamp) -> (yes: bool)
        ensures
            yes == (self@ < other@),
    {
        proof {
            use_type_invariant(self);
            use_type_invariant(other);
        }
        self.secs < other.secs || (self.secs == other.secs && self.nanos < other.nanos)
    }

    /// The point at which what lives `ttl` from here on ends. A span that is too
    /// long for the calendar counts as none.
    pub fn expiry(&self, ttl: Duration) -> (out: Self)
        requires
            in_calendar(self@ + lifetime(ttl@)),
        ensures
            out@ == self@ + lifetime(ttl@),
    {
        proof {
            use_type_invariant(self);
        }
        let secs: u64 = ttl.as_secs();
        let nanos: u32 = ttl.subsec_nanos();
        if !chrono_span_fits(secs, nanos) {
            return *self;
        }
        let sum: u32 = self.nanos + nanos;
        if sum >= NANOS_PER_SEC {
            Timestamp { secs: self.secs + secs as i64 + 1, nanos: sum - NANOS_PER_SEC }
        } else {
            Timestamp { secs: self.secs + secs as i64, nanos: sum }
        }
    }
}

/// How long something lives that is to live `ttl` nanoseconds: `i64::MAX`
/// milliseconds are the most that counts.
pub open spec fn lifetime(ttl: nat) -> nat {
    if ttl <= i64::MAX * 1_000_000 {
        ttl
    } else {
        0
    }
}

/// What is to live for a time lives for that time, up to `i64::MAX` milliseconds.
pub proof fn law_lifetimes_are_kept(ttl: nat)
    ensures
        ttl <= 9_223_372_036_854_775_807_000_000 ==> lifetime(ttl) == ttl,
        ttl > 9_223_372_036_854_775_807_000_000 ==> lifetime(ttl) == 0,
{
}

} // verus!
