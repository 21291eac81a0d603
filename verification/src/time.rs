//! Instants in UTC, at nanosecond resolution, and the time that passes between them.
//!
//! A [`Timestamp`] holds what an instant of the `chrono` crate holds: the seconds since
//! 1970-01-01 00:00:00 UTC without leap seconds, and the nanoseconds since the start of that
//! second. Nanoseconds of one second or more stand for a leap second, which only the last
//! second of a minute can have.

use vstd::prelude::*;

verus! {

/// The first second that an instant can have: the start of the year -262143.
pub const MIN_SECS: i64 = -8_334_601_228_800;

/// The last second that an instant can have: the end of the year 262142.
pub const MAX_SECS: i64 = 8_210_266_876_799;

/// The largest number of whole days that a span of time can have.
pub const MAX_SPAN_DAYS: i64 = 106_751_991_167;

/// Whether seconds and nanoseconds make an instant.
pub open spec fn is_instant(secs: int, nanos: int) -> bool {
    &&& MIN_SECS <= secs <= MAX_SECS
    &&& 0 <= nanos < 2_000_000_000
    &&& nanos >= 1_000_000_000 ==> secs % 60 == 59
}

/// The second that a leap second adds to, or takes from, the difference of two instants. It
/// counts only where the leap second lies between the two times of day.
pub open spec fn leap_between(
    from_secs: int,
    from_nanos: int,
    to_secs: int,
    to_nanos: int,
) -> int {
    if to_secs % 86_400 > from_secs % 86_400 && from_nanos >= 1_000_000_000 {
        1
    } else if to_secs % 86_400 < from_secs % 86_400 && to_nanos >= 1_000_000_000 {
        -1
    } else {
        0
    }
}

/// The nanoseconds from one instant to another; negative where the second comes first.
pub open spec fn nanos_between(
    from_secs: int,
    from_nanos: int,
    to_secs: int,
    to_nanos: int,
) -> int {
    (to_secs - from_secs + leap_between(from_secs, from_nanos, to_secs, to_nanos)) * 1_000_000_000
        + (to_nanos - from_nanos)
}

/// The text in which `chrono` displays the instant of the given seconds and nanoseconds in UTC.
pub uninterp spec fn utc_display(secs: i64, nanos: u32) -> Seq<char>;

/// Calls `chrono::DateTime::<Utc>::from_timestamp` and reads the seconds and nanoseconds of
/// its result back. It accepts exactly what [`is_instant`] says, and changes neither number.
#[verifier::external_body]
fn instant_of(secs: i64, nanos: u32) -> (r: Option<(i64, u32)>)
    ensures
        r is Some <==> is_instant(secs as int, nanos as int),
        r is Some ==> r->0 == (secs, nanos),
{
    chrono::DateTime::<chrono::Utc>::from_timestamp(secs, nanos)
        .map(|t| (t.timestamp(), t.timestamp_subsec_nanos()))
}

/// Calls `chrono::DateTime::<Utc>::signed_duration_since`, which `-` on two instants is. The
/// result is the whole seconds of the difference and the nanoseconds beyond them, both with
/// the sign of the difference.
#[verifier::external_body]
fn difference(to: (i64, u32), from: (i64, u32)) -> (r: (i64, i32))
    requires
        is_instant(to.0 as int, to.1 as int),
        is_instant(from.0 as int, from.1 as int),
    ensures
        -1_000_000_000 < r.1 < 1_000_000_000,
        r.0 > 0 ==> r.1 >= 0,
        r.0 < 0 ==> r.1 <= 0,
        r.0 * 1_000_000_000 + r.1 == nanos_between(
            from.0 as int,
            from.1 as int,
            to.0 as int,
            to.1 as int,
        ),
{
    let to = chrono::DateTime::<chrono::Utc>::from_timestamp(to.0, to.1).unwrap();
    let from = chrono::DateTime::<chrono::Utc>::from_timestamp(from.0, from.1).unwrap();
    let delta = to.signed_duration_since(from);
    (delta.num_seconds(), delta.subsec_nanos())
}

/// Calls `chrono::TimeDelta::try_days` and gives the seconds of the span. There is a span of
/// that many days exactly where its milliseconds fit in an `i64`.
#[verifier::external_body]
fn seconds_in_days(days: i64) -> (r: Option<i64>)
    ensures
        r is Some <==> -MAX_SPAN_DAYS <= days <= MAX_SPAN_DAYS,
        r is Some ==> r->0 == days * 86_400,
{
    chrono::TimeDelta::try_days(days).map(|d| d.num_seconds())
}

/// Calls the `Display` of `chrono::DateTime<Utc>`. The layout of the text is not stated.
#[verifier::external_body]
fn display_of(secs: i64, nanos: u32) -> (r: String)
    requires
        is_instant(secs as int, nanos as int),
    ensures
        r@ == utc_display(secs, nanos),
{
    chrono::DateTime::<chrono::Utc>::from_timestamp(secs, nanos).unwrap().to_string()
}

/// An instant in UTC.
#[derive(Debug, Clone, Copy, PartialEq, Eq, Structural)]
pub struct Timestamp {
    secs: i64,
    nanos: u32,
}

impl Timestamp {
    #[verifier::type_invariant]
    spec fn valid(self) -> bool {
        is_instant(self.secs as int, self.nanos as int)
    }

    /// The seconds since 1970-01-01 00:00:00 UTC, without leap seconds.
    pub closed spec fn spec_secs(self) -> i64 {
        self.secs
    }

    /// The nanoseconds since the start of the second.
    pub closed spec fn spec_nanos(self) -> u32 {
        self.nanos
    }

    /// The instant of the given seconds and nanoseconds, if there is one.
    pub fn new(secs: i64, nanos: u32) -> (r: Option<Timestamp>)
        ensures
            r is Some <==> is_instant(secs as int, nanos as int),
            r is Some ==> r->0.spec_secs() == secs && r->0.spec_nanos() == nanos,
    {
        match instant_of(secs, nanos) {
            Some(parts) => Some(Timestamp { secs: parts.0, nanos: parts.1 }),
            None => None,
        }
    }

    /// The seconds since 1970-01-01 00:00:00 UTC, without leap seconds.
    #[verifier::when_used_as_spec(spec_secs)]
    pub fn secs(self) -> (r: i64)
        ensures
            r == self.spec_secs(),
            MIN_SECS <= r <= MAX_SECS,
    {
        proof {
            use_type_invariant(&self);
        }
        self.secs
    }

    /// The nanoseconds since the start of the second; one second or more in a leap second.
    #[verifier::when_used_as_spec(spec_nanos)]
    pub fn nanos(self) -> (r: u32)
        ensures
            r == self.spec_nanos(),
            r < 2_000_000_000,
    {
        proof {
            use_type_invariant(&self);
        }
        self.nanos
    }

    /// Whether this instant comes before `other`: by its second, then by its nanoseconds.
    pub open spec fn before(self, other: Timestamp) -> bool {
        ||| self.spec_secs() < other.spec_secs()
        ||| self.spec_secs() == other.spec_secs() && self.spec_nanos() < other.spec_nanos()
    }

    /// Whether this instant comes before `other`.
    pub fn is_before(self, other: Timestamp) -> (r: bool)
        ensures
            r == self.before(other),
    {
        self.secs < other.secs || (self.secs == other.secs && self.nanos < other.nanos)
    }

    /// The nanoseconds that pass from this instant to `later`.
    pub open spec fn nanos_until(self, later: Timestamp) -> int {
        nanos_between(
            self.spec_secs() as int,
            self.spec_nanos() as int,
            later.spec_secs() as int,
            later.spec_nanos() as int,
        )
    }

    /// Whether strictly more than `days` days pass from this instant to `later`.
    pub fn more_than_days_before(self, days: i64, later: Timestamp) -> (r: bool)
        requires
            -MAX_SPAN_DAYS <= days <= MAX_SPAN_DAYS,
        ensures
            r == (self.nanos_until(later) > days * 86_400_000_000_000),
    {
        proof {
            use_type_invariant(&self);
            use_type_invariant(&later);
        }
        let passed: (i64, i32) = difference((later.secs, later.nanos), (self.secs, self.nanos));
        match seconds_in_days(days) {
            Some(span) => passed.0 > span || (passed.0 == span && passed.1 > 0),
            None => false,
        }
    }

    /// The text in which the instant is displayed.
    pub fn display(self) -> (r: String)
        ensures
            r@ == utc_display(self.spec_secs(), self.spec_nanos()),
    {
        proof {
            use_type_invariant(&self);
        }
        display_of(self.secs, self.nanos)
    }
}

/// Whether a span of `days` days can be measured.
pub fn is_span(days: i64) -> (r: bool)
    ensures
        r == (-MAX_SPAN_DAYS <= days <= MAX_SPAN_DAYS),
{
    seconds_in_days(days).is_some()
}

/// Two instants of which neither comes before the other are the same.
pub proof fn lemma_instants_ordered(a: Timestamp, b: Timestamp)
    ensures
        a == b || a.before(b) || b.before(a),
{
}

/// Instants are ordered by their seconds, and within a second by their nanoseconds.
pub proof fn law_order_of_instants(a: Timestamp, b: Timestamp)
    ensures
        a.before(b) <==> a.secs() < b.secs() || (a.secs() == b.secs() && a.nanos() < b.nanos()),
{
}

/// Apart from leap seconds, the time between two instants is the difference of their seconds and
/// nanoseconds. A leap second changes it by a second at most.
pub proof fn law_time_between(a: Timestamp, b: Timestamp)
    ensures
        ({
            let plain = (b.secs() - a.secs()) * 1_000_000_000 + (b.nanos() - a.nanos());
            &&& a.nanos() < 1_000_000_000 && b.nanos() < 1_000_000_000 ==> a.nanos_until(b) == plain
            &&& plain - 1_000_000_000 <= a.nanos_until(b) <= plain + 1_000_000_000
        }),
{
}

/// A leap second counts where it lies between the two times of day. At the start of the time it adds
/// a second to it where the end has the later time of day; at the end it takes a second off where the
/// start has the later one. Otherwise it does not count.
pub proof fn law_leap_seconds(a: Timestamp, b: Timestamp)
    ensures
        ({
            let plain = (b.secs() - a.secs()) * 1_000_000_000 + (b.nanos() - a.nanos());
            let day: int = 86_400;
            let up = a.secs() as int % day < b.secs() as int % day;
            let down = a.secs() as int % day > b.secs() as int % day;
            a.nanos_until(b) - plain == if up && a.nanos() >= 1_000_000_000 {
                1_000_000_000int
            } else if down && b.nanos() >= 1_000_000_000 {
                -1_000_000_000int
            } else {
                0
            }
        }),
{
}

/// Which numbers make an instant: a second that a date can have, and a nanosecond within it, or
/// within the leap second after the last of a minute.
pub proof fn law_instants(secs: int, nanos: int)
    ensures
        is_instant(secs, nanos) <==> {
            &&& -8_334_601_228_800 <= secs <= 8_210_266_876_799
            &&& 0 <= nanos < 1_000_000_000 || (1_000_000_000 <= nanos < 2_000_000_000 && secs % 60
                == 59)
        },
{
}

/// From one instant to another passes as much time as back, with the other sign.
pub proof fn law_time_back(a: Timestamp, b: Timestamp)
    ensures
        a.nanos_until(b) == -b.nanos_until(a),
        a.nanos_until(a) == 0,
{
}

} // verus!
