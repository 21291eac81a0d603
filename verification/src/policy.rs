//! The retention policy: the two settings of the user, and when a version counts as old.
//!
//! The current time is always an argument, so that every decision can be repeated.

use crate::time::{is_span, Timestamp, MAX_SPAN_DAYS};
use vstd::prelude::*;

verus! {

/// What to keep, by age and by number.
#[derive(Debug, Clone, Copy, PartialEq, Eq, Structural)]
pub struct Policy {
    /// Delete build images strictly older than this many days.
    pub older_than_days: i64,
    /// Always keep at least this many of the most recent build versions, whatever their age.
    /// Versions with other tags do not count toward this minimum.
    pub keep_at_least: usize,
}

impl Policy {
    /// Whether a span of `older_than_days` days can be measured at all. It is some 292 million
    /// years long at most.
    pub open spec fn measurable(self) -> bool {
        -MAX_SPAN_DAYS <= self.older_than_days <= MAX_SPAN_DAYS
    }

    /// Whether a version created at `created_at` is strictly older than the cutoff at `now`.
    pub open spec fn older(self, created_at: Timestamp, now: Timestamp) -> bool {
        created_at.nanos_until(now) > self.older_than_days * 86_400_000_000_000
    }

    /// Whether a span of `older_than_days` days can be measured.
    pub fn is_measurable(&self) -> (r: bool)
        ensures
            r == self.measurable(),
    {
        is_span(self.older_than_days)
    }

    /// Whether `created_at` is strictly older than the cutoff measured from `now`.
    pub fn is_older_than_cutoff(&self, created_at: Timestamp, now: Timestamp) -> (r: bool)
        requires
            self.measurable(),
        ensures
            r == self.older(created_at, now),
    {
        created_at.more_than_days_before(self.older_than_days, now)
    }
}

/// What is old stays old, and what was created before something old is old too. This holds apart
/// from leap seconds, which a time of day may or may not count.
pub proof fn law_age_only_grows(
    policy: Policy,
    created_at: Timestamp,
    now: Timestamp,
    earlier: Timestamp,
    later: Timestamp,
)
    requires
        policy.older(created_at, now),
        earlier == created_at || earlier.before(created_at),
        later == now || now.before(later),
        created_at.nanos() < 1_000_000_000,
        now.nanos() < 1_000_000_000,
        earlier.nanos() < 1_000_000_000,
        later.nanos() < 1_000_000_000,
    ensures
        policy.older(earlier, later),
{
}

/// Apart from leap seconds, a version is older than the cutoff exactly where strictly more than
/// that many days of 86400 seconds lie between its creation and now, to the nanosecond.
pub proof fn law_older_by_the_clock(policy: Policy, created_at: Timestamp, now: Timestamp)
    requires
        created_at.nanos() < 1_000_000_000,
        now.nanos() < 1_000_000_000,
    ensures
        ({
            let seconds = now.secs() - created_at.secs();
            let cutoff = policy.older_than_days * 86_400;
            policy.older(created_at, now) <==> seconds > cutoff || (seconds == cutoff
                && now.nanos() > created_at.nanos())
        }),
{
}

/// A version that was created exactly as many days ago as the policy says, or later, is not older,
/// whatever that number is; one that was created a nanosecond earlier is.
pub proof fn law_cutoff_is_strict(policy: Policy, created_at: Timestamp, now: Timestamp)
    requires
        created_at.nanos() < 1_000_000_000,
        now.nanos() < 1_000_000_000,
    ensures
        ({
            let passed = (now.secs() - created_at.secs()) * 1_000_000_000 + (now.nanos()
                - created_at.nanos());
            let span = policy.older_than_days * 24 * 60 * 60 * 1_000_000_000;
            &&& passed <= span ==> !policy.older(created_at, now)
            &&& passed > span ==> policy.older(created_at, now)
        }),
{
}

/// With leap seconds too, a version is older exactly where more time has passed since its creation
/// than the days of the policy take.
pub proof fn law_older_by_time_passed(policy: Policy, created_at: Timestamp, now: Timestamp)
    ensures
        policy.older(created_at, now) <==> created_at.nanos_until(now) > policy.older_than_days
            * 86_400 * 1_000_000_000,
{
}

/// Leap seconds shift the cutoff by less than three seconds.
pub proof fn law_older_within_seconds(policy: Policy, created_at: Timestamp, now: Timestamp)
    requires
        created_at.nanos() < 2_000_000_000,
        now.nanos() < 2_000_000_000,
    ensures
        ({
            let beyond = now.secs() - created_at.secs() - policy.older_than_days * 86_400;
            &&& beyond >= 3 ==> policy.older(created_at, now)
            &&& beyond <= -3 ==> !policy.older(created_at, now)
        }),
{
}

/// The minimum that is kept has no part in the age.
pub proof fn law_age_ignores_the_minimum(
    policy: Policy,
    other: Policy,
    created_at: Timestamp,
    now: Timestamp,
)
    requires
        policy.older_than_days == other.older_than_days,
    ensures
        policy.older(created_at, now) == other.older(created_at, now),
{
}

/// A number of days can be measured exactly where its milliseconds, and those of its negative, fit
/// in 64 bits.
pub proof fn law_measurable_spans(policy: Policy)
    ensures
        policy.measurable() <==> -i64::MAX <= policy.older_than_days * 86_400_000 <= i64::MAX,
{
}

} // verus!
