//! Points in time and spans of time.
use vstd::prelude::*;

use chrono::{DateTime, Utc};

verus! {

/// The first second that a timestamp can hold: the start of the year -262143.
pub const FIRST_SECOND: i64 = -8_334_601_228_800;

/// The last second that a timestamp can hold: the end of the year 262142.
pub const LAST_SECOND: i64 = 8_210_266_876_799;

/// Whether a second since the Unix epoch and a fraction in nanoseconds name a point in time. The
/// fraction runs past a full second only for a leap second, which is counted with the last second
/// of its minute.
pub open spec fn is_instant(secs: int, nanos: int) -> bool {
    &&& FIRST_SECOND <= secs <= LAST_SECOND
    &&& 0 <= nanos < 2_000_000_000
    &&& nanos >= 1_000_000_000 ==> secs % 60 == 59
}

/// A point in time in UTC, with a resolution of one nanosecond.
#[derive(Clone, Copy, Debug, PartialEq, Eq, Structural)]
pub struct Timestamp {
    secs: i64,
    nanos: u32,
}

/// How many nanoseconds passed from `(s2, n2)` to `(s1, n1)`. A leap second on either side counts
/// where the other side lies beyond it within the day.
pub open spec fn nanos_between(s1: int, n1: int, s2: int, n2: int) -> int {
    let leap: int = if s1 % 86_400 > s2 % 86_400 && n2 >= 1_000_000_000 {
        1
    } else if s1 % 86_400 < s2 % 86_400 && n1 >= 1_000_000_000 {
        -1
    } else {
        0
    };
    (s1 - s2 + leap) * 1_000_000_000 + (n1 - n2)
}

/// The whole seconds in a span of nanoseconds, with what is left cut off.
pub open spec fn whole_seconds(nanos: int) -> int {
    if nanos >= 0 {
        nanos / 1_000_000_000
    } else {
        -((-nanos) / 1_000_000_000)
    }
}

/// The text of a point in time under a strftime pattern, as chrono's `DateTime::format` gives it.
pub uninterp spec fn timestamp_text(secs: int, nanos: int, pattern: Seq<char>) -> Seq<char>;

/// The text of a point in time as chrono displays it, such as `2026-01-10 12:00:00 UTC`.
pub uninterp spec fn timestamp_display(secs: int, nanos: int) -> Seq<char>;

/// The pattern of timestamps in backup paths. Millisecond precision keeps two backups that start
/// within one second apart.
pub const PATH_TIMESTAMP_FORMAT: &'static str = "%Y%m%dT%H%M%S%3fZ";

/// The pattern of timestamps in the summary of a staleness check.
pub const CHECK_TIMESTAMP_FORMAT: &'static str = "%Y-%m-%dT%H:%M:%SZ";

impl Timestamp {
    /// The seconds since the Unix epoch, leap seconds not counted.
    pub closed spec fn secs(self) -> int {
        self.secs as int
    }

    /// The nanoseconds since the last whole second.
    pub closed spec fn nanos(self) -> int {
        self.nanos as int
    }

    /// Every timestamp names a point in time.
    #[verifier::type_invariant]
    pub open spec fn valid(self) -> bool {
        is_instant(self.secs(), self.nanos())
    }

    /// The place of this point in time among all points in time.
    pub open spec fn instant(self) -> int {
        self.secs() * 2_000_000_000 + self.nanos()
    }

    /// The nanoseconds that passed from `earlier` to this point in time.
    pub open spec fn nanos_since(self, earlier: Timestamp) -> int {
        nanos_between(self.secs(), self.nanos(), earlier.secs(), earlier.nanos())
    }

    /// Whether two points in time fall into the same millisecond.
    pub open spec fn same_millisecond(self, other: Timestamp) -> bool {
        self.secs() == other.secs() && self.nanos() / 1_000_000 == other.nanos() / 1_000_000
    }

    /// The text of this point in time under a strftime pattern.
    pub open spec fn text(self, pattern: Seq<char>) -> Seq<char> {
        timestamp_text(self.secs(), self.nanos(), pattern)
    }

    /// The point in time that lies `secs` seconds and `nanos` nanoseconds after the Unix epoch, if
    /// these name one.
    pub fn from_parts(secs: i64, nanos: u32) -> (r: Option<Timestamp>)
        ensures
            r is Some <==> is_instant(secs as int, nanos as int),
            r matches Some(t) ==> t.secs() == secs && t.nanos() == nanos,
    {
        Timestamp::from_timestamp(secs, nanos)
    }

    /// This is chrono's `DateTime::from_timestamp`: it gives a value exactly for the seconds and
    /// nanoseconds that name a point in time, and that value keeps both.
    #[verifier::external_body]
    fn from_timestamp(secs: i64, nanos: u32) -> (r: Option<Timestamp>)
        ensures
            r is Some <==> is_instant(secs as int, nanos as int),
            r matches Some(t) ==> t.secs() == secs && t.nanos() == nanos,
    {
        let t: DateTime<Utc> = DateTime::from_timestamp(secs, nanos)?;
        Some(Timestamp { secs: t.timestamp(), nanos: t.timestamp_subsec_nanos() })
    }

    /// The current time, as chrono's `Utc::now` reads it from the system clock. Nothing is
    /// promised but that it is a point in time. A clock that stands before the Unix epoch makes
    /// `Utc::now` panic.
    #[verifier::external_body]
    pub(crate) fn now() -> (r: Timestamp)
        ensures
            r.valid(),
    {
        let t: DateTime<Utc> = Utc::now();
        Timestamp { secs: t.timestamp(), nanos: t.timestamp_subsec_nanos() }
    }

    /// The span from `earlier` to this point in time, in whole seconds and the nanoseconds left
    /// over, which carry the same sign.
    ///
    /// This is chrono's `DateTime::signed_duration_since`, taken apart by `num_seconds` and
    /// `subsec_nanos`.
    #[verifier::external_body]
    fn signed_duration_since(&self, earlier: &Timestamp) -> (r: (i64, i32))
        requires
            self.valid(),
            earlier.valid(),
        ensures
            r.0 * 1_000_000_000 + r.1 == self.nanos_since(*earlier),
            -1_000_000_000 < r.1 < 1_000_000_000,
            r.0 > 0 ==> r.1 >= 0,
            r.0 < 0 ==> r.1 <= 0,
    {
        let a: DateTime<Utc> = DateTime::from_timestamp(self.secs, self.nanos).unwrap();
        let b: DateTime<Utc> = DateTime::from_timestamp(earlier.secs, earlier.nanos).unwrap();
        let d = a.signed_duration_since(b);
        (d.num_seconds(), d.subsec_nanos())
    }

    /// The text of this point in time under one of the two patterns in use.
    ///
    /// This is chrono's `DateTime::format`. The text under the pattern of backup paths names the
    /// millisecond, so no two points in time in different milliseconds share it, and it is made
    /// up of digits, `T`, `Z` and, for years beyond four digits, a sign.
    #[verifier::external_body]
    pub(crate) fn format(&self, pattern: &str) -> (r: String)
        requires
            self.valid(),
            pattern@ == PATH_TIMESTAMP_FORMAT@ || pattern@ == CHECK_TIMESTAMP_FORMAT@,
        ensures
            r@ == timestamp_text(self.secs(), self.nanos(), pattern@),
            pattern@ == PATH_TIMESTAMP_FORMAT@ ==> !r@.contains('/'),
            pattern@ == PATH_TIMESTAMP_FORMAT@ ==> forall|other: Timestamp|
                other.valid() && #[trigger] other.text(pattern@) == r@ ==> self.same_millisecond(
                    other,
                ),
    {
        let t: DateTime<Utc> = DateTime::from_timestamp(self.secs, self.nanos).unwrap();
        t.format(pattern).to_string()
    }

    /// The text of this point in time, such as `2026-01-10 12:00:00 UTC`.
    ///
    /// This is the `Display` text of chrono's `DateTime<Utc>`.
    #[verifier::external_body]
    pub(crate) fn display(&self) -> (r: String)
        requires
            self.valid(),
        ensures
            r@ == timestamp_display(self.secs(), self.nanos()),
    {
        let t: DateTime<Utc> = DateTime::from_timestamp(self.secs, self.nanos).unwrap();
        t.to_string()
    }

    /// The seconds since the Unix epoch, leap seconds not counted.
    pub fn unix_secs(&self) -> (r: i64)
        ensures
            r == self.secs(),
    {
        self.secs
    }

    /// The nanoseconds since the last whole second.
    pub fn subsec_nanos(&self) -> (r: u32)
        ensures
            r == self.nanos(),
    {
        self.nanos
    }

    /// Whether this point in time does not lie after `other`.
    pub fn is_at_most(&self, other: &Timestamp) -> (r: bool)
        ensures
            r == (self.instant() <= other.instant()),
    {
        proof {
            use_type_invariant(self);
            use_type_invariant(other);
        }
        self.secs < other.secs || (self.secs == other.secs && self.nanos <= other.nanos)
    }

    /// The whole seconds that passed from `earlier` to this point in time; negative where
    /// `earlier` lies after it.
    pub fn seconds_since(&self, earlier: &Timestamp) -> (r: i64)
        ensures
            r == whole_seconds(self.nanos_since(*earlier)),
    {
        proof {
            use_type_invariant(self);
            use_type_invariant(earlier);
        }
        let (secs, nanos) = self.signed_duration_since(earlier);
        proof {
            let d = self.nanos_since(*earlier);
            assert(d == secs * 1_000_000_000 + nanos);
            if secs > 0 || (secs == 0 && nanos >= 0) {
                assert(d / 1_000_000_000 == secs) by (nonlinear_arith)
                    requires
                        d == secs * 1_000_000_000 + nanos,
                        0 <= nanos < 1_000_000_000,
                ;
            } else {
                assert((-d) / 1_000_000_000 == -secs) by (nonlinear_arith)
                    requires
                        d == secs * 1_000_000_000 + nanos,
                        -1_000_000_000 < nanos <= 0,
                ;
            }
        }
        secs
    }

    /// Whether at least `days` days passed from `earlier` to this point in time.
    pub fn is_days_after(&self, earlier: &Timestamp, days: u32) -> (r: bool)
        ensures
            r == (self.nanos_since(*earlier) >= days * 86_400_000_000_000),
    {
        proof {
            use_type_invariant(self);
            use_type_invariant(earlier);
        }
        let (secs, nanos) = self.signed_duration_since(earlier);
        secs as i128 * 1_000_000_000 + nanos as i128 >= days as i128 * 86_400_000_000_000
    }
}

/// A span of time that is not negative, with a resolution of one nanosecond.
#[derive(Clone, Copy, Debug, PartialEq, Eq, PartialOrd, Ord, Structural)]
pub struct Duration {
    nanos: u128,
}

/// The longest span: as many seconds as 64 bits hold, and just under one more.
pub const LONGEST_NANOS: u128 = 18_446_744_073_709_551_615_999_999_999;

impl Duration {
    /// The length of the span in nanoseconds.
    pub closed spec fn nanos(self) -> nat {
        self.nanos as nat
    }

    /// The whole seconds of a span fit into 64 bits.
    #[verifier::type_invariant]
    pub open spec fn valid(self) -> bool {
        self.nanos() <= LONGEST_NANOS
    }

    /// The length of the span in whole milliseconds.
    pub open spec fn millis(self) -> nat {
        self.nanos() / 1_000_000
    }

    /// The span of `secs` seconds.
    pub fn from_secs(secs: u64) -> (r: Duration)
        ensures
            r.nanos() == secs * 1_000_000_000,
    {
        Duration { nanos: secs as u128 * 1_000_000_000 }
    }

    /// The span of `millis` milliseconds.
    pub fn from_millis(millis: u64) -> (r: Duration)
        ensures
            r.nanos() == millis * 1_000_000,
            r.millis() == millis,
    {
        Duration { nanos: millis as u128 * 1_000_000 }
    }

    /// The span of `secs` seconds and `nanos` nanoseconds.
    pub fn new(secs: u64, nanos: u32) -> (r: Duration)
        requires
            nanos < 1_000_000_000,
        ensures
            r.nanos() == secs * 1_000_000_000 + nanos,
    {
        Duration { nanos: secs as u128 * 1_000_000_000 + nanos as u128 }
    }

    /// The whole seconds of the span.
    pub fn as_secs(&self) -> (r: u64)
        ensures
            r == self.nanos() / 1_000_000_000,
    {
        proof {
            use_type_invariant(self);
        }
        (self.nanos / 1_000_000_000) as u64
    }

    /// The nanoseconds of the span beyond its whole seconds.
    pub fn subsec_nanos(&self) -> (r: u32)
        ensures
            r == self.nanos() % 1_000_000_000,
    {
        (self.nanos % 1_000_000_000) as u32
    }

    /// The whole milliseconds of the span.
    pub fn as_millis(&self) -> (r: u128)
        ensures
            r == self.millis(),
    {
        self.nanos / 1_000_000
    }

    /// Whether this span is longer than `other`.
    pub fn is_longer_than(&self, other: &Duration) -> (r: bool)
        ensures
            r == (self.nanos() > other.nanos()),
    {
        self.nanos > other.nanos
    }

    /// Twice this span, or `limit` where that is shorter.
    pub fn doubled_up_to(&self, limit: &Duration) -> (r: Duration)
        ensures
            r.nanos() == if 2 * self.nanos() < limit.nanos() {
                2 * self.nanos()
            } else {
                limit.nanos()
            },
    {
        proof {
            use_type_invariant(self);
            use_type_invariant(limit);
        }
        if 2 * self.nanos < limit.nanos {
            Duration { nanos: 2 * self.nanos }
        } else {
            *limit
        }
    }
}

/// Points in time stand in the order of their seconds, and within a second of their nanoseconds.
pub proof fn law_instants_follow_the_clock(a: Timestamp, b: Timestamp)
    requires
        a.valid(),
        b.valid(),
    ensures
        a.instant() <= b.instant() <==> a.secs() < b.secs() || (a.secs() == b.secs() && a.nanos()
            <= b.nanos()),
        a.instant() == b.instant() <==> a.secs() == b.secs() && a.nanos() == b.nanos(),
{
}

/// Apart from leap seconds, what passed between two points in time is the difference of their
/// distances from the Unix epoch. A leap second shifts this by less than two seconds.
pub proof fn law_spans_are_differences(later: Timestamp, earlier: Timestamp)
    requires
        later.valid(),
        earlier.valid(),
    ensures
        later.nanos() < 1_000_000_000 && earlier.nanos() < 1_000_000_000 ==> later.nanos_since(
            earlier,
        ) == (later.secs() * 1_000_000_000 + later.nanos()) - (earlier.secs() * 1_000_000_000
            + earlier.nanos()),
        -2_000_000_000 < later.nanos_since(earlier) - (later.secs() - earlier.secs())
            * 1_000_000_000 < 2_000_000_000,
        later.nanos_since(earlier) == -earlier.nanos_since(later),
        later.nanos_since(later) == 0,
{
}

/// The whole seconds of a span are as many as fit into it, and a span in the other direction has
/// as many, counted backwards.
pub proof fn law_whole_seconds_fit(nanos: int)
    ensures
        nanos >= 0 ==> whole_seconds(nanos) * 1_000_000_000 <= nanos < (whole_seconds(nanos) + 1)
            * 1_000_000_000,
        whole_seconds(-nanos) == -whole_seconds(nanos),
{
}

/// Points in time share a millisecond exactly where no boundary of a millisecond lies between
/// them; then they are less than a millisecond apart.
pub proof fn law_milliseconds_are_shared(a: Timestamp, b: Timestamp)
    requires
        a.valid(),
        b.valid(),
    ensures
        a.same_millisecond(b) <==> a.secs() == b.secs() && exists|ms: int|
            #![trigger ms * 1_000_000]
            ms * 1_000_000 <= a.nanos() < ms * 1_000_000 + 1_000_000 && ms * 1_000_000 <= b.nanos()
                < ms * 1_000_000 + 1_000_000,
        a.same_millisecond(b) ==> -1_000_000 < a.nanos_since(b) < 1_000_000,
{
    if a.same_millisecond(b) {
        let ms = a.nanos() / 1_000_000;
        assert(ms * 1_000_000 <= a.nanos() < ms * 1_000_000 + 1_000_000);
    }
}

/// The whole milliseconds of a span are as many as fit into it.
pub proof fn law_whole_milliseconds_fit(d: Duration)
    ensures
        d.millis() * 1_000_000 <= d.nanos() < (d.millis() + 1) * 1_000_000,
{
}

} // verus!
