//! Instants and whole-second spans, kept as plain integers, with the calendar
//! arithmetic done by `chrono`.

use vstd::prelude::*;
use chrono::{DateTime, TimeDelta};

verus! {

/// Nanoseconds in one second.
pub const NANOS_PER_SECOND: u32 = 1_000_000_000;

/// Seconds from the epoch to the earliest instant `chrono` represents,
/// the first second of the year -262143.
pub const MIN_SECONDS: i64 = -8_334_601_228_800;

/// Seconds from the epoch to the last second `chrono` represents,
/// the end of the year 262142.
pub const MAX_SECONDS: i64 = 8_210_266_876_799;

/// The largest number of whole seconds a `chrono::TimeDelta` holds
/// (`i64::MAX` milliseconds, rounded down).
pub const MAX_SPAN_SECONDS: i64 = 9_223_372_036_854_775;

/// True when `nanos` nanoseconds from the epoch is an instant that can be represented.
pub open spec fn representable(nanos: int) -> bool {
    MIN_SECONDS * NANOS_PER_SECOND <= nanos < (MAX_SECONDS + 1) * NANOS_PER_SECOND
}

/// The first instant that can be represented, in nanoseconds from the epoch.
pub open spec fn first_instant() -> int {
    MIN_SECONDS * NANOS_PER_SECOND
}

/// The last instant that can be represented, in nanoseconds from the epoch.
pub open spec fn last_instant() -> int {
    (MAX_SECONDS + 1) * NANOS_PER_SECOND - 1
}

/// The whole seconds of `magnitude` units of `unit` seconds each, where that
/// many seconds fit in a span.
pub open spec fn span_seconds(magnitude: int, unit: int) -> Option<i64> {
    if -MAX_SPAN_SECONDS <= magnitude * unit <= MAX_SPAN_SECONDS {
        Some((magnitude * unit) as i64)
    } else {
        None
    }
}

/// A signed length of time in whole seconds.
#[derive(Clone, Copy, Debug, PartialEq, Eq, Structural)]
pub struct TimeSpan {
    pub seconds: i64,
}

impl View for TimeSpan {
    type V = int;

    open spec fn view(&self) -> int {
        self.seconds as int
    }
}

/// `chrono::TimeDelta::try_days`, read back with `num_seconds`: the days
/// as seconds, or nothing when they exceed what a `TimeDelta` holds.
#[verifier::external_body]
fn days_as_seconds(days: i64) -> (r: Option<i64>)
    ensures
        r == span_seconds(days as int, 86_400),
{
    match TimeDelta::try_days(days) {
        Some(delta) => Some(delta.num_seconds()),
        None => None,
    }
}

/// `chrono::TimeDelta::try_hours`, read back with `num_seconds`: the hours
/// as seconds, or nothing when they exceed what a `TimeDelta` holds.
#[verifier::external_body]
fn hours_as_seconds(hours: i64) -> (r: Option<i64>)
    ensures
        r == span_seconds(hours as int, 3_600),
{
    match TimeDelta::try_hours(hours) {
        Some(delta) => Some(delta.num_seconds()),
        None => None,
    }
}

/// `chrono::TimeDelta::try_minutes`, read back with `num_seconds`: the
/// minutes as seconds, or nothing when they exceed what a `TimeDelta` holds.
#[verifier::external_body]
fn minutes_as_seconds(minutes: i64) -> (r: Option<i64>)
    ensures
        r == span_seconds(minutes as int, 60),
{
    match TimeDelta::try_minutes(minutes) {
        Some(delta) => Some(delta.num_seconds()),
        None => None,
    }
}

/// `chrono::TimeDelta::try_seconds`, read back with `num_seconds`: the
/// seconds themselves, or nothing when they exceed what a `TimeDelta` holds.
#[verifier::external_body]
fn seconds_as_seconds(seconds: i64) -> (r: Option<i64>)
    ensures
        r == span_seconds(seconds as int, 1),
{
    match TimeDelta::try_seconds(seconds) {
        Some(delta) => Some(delta.num_seconds()),
        None => None,
    }
}

impl TimeSpan {
    /// A span of `days` days, if that many seconds fit in a span.
    pub fn days(days: i64) -> (r: Option<TimeSpan>)
        ensures
            r == TimeSpan::of(span_seconds(days as int, 86_400)),
    {
        match days_as_seconds(days) {
            Some(seconds) => Some(TimeSpan { seconds }),
            None => None,
        }
    }

    /// A span of `hours` hours, if that many seconds fit in a span.
    pub fn hours(hours: i64) -> (r: Option<TimeSpan>)
        ensures
            r == TimeSpan::of(span_seconds(hours as int, 3_600)),
    {
        match hours_as_seconds(hours) {
            Some(seconds) => Some(TimeSpan { seconds }),
            None => None,
        }
    }

    /// A span of `minutes` minutes, if that many seconds fit in a span.
    pub fn minutes(minutes: i64) -> (r: Option<TimeSpan>)
        ensures
            r == TimeSpan::of(span_seconds(minutes as int, 60)),
    {
        match minutes_as_seconds(minutes) {
            Some(seconds) => Some(TimeSpan { seconds }),
            None => None,
        }
    }

    /// A span of `seconds` seconds, if that many fit in a span.
    pub fn seconds(seconds: i64) -> (r: Option<TimeSpan>)
        ensures
            r == TimeSpan::of(span_seconds(seconds as int, 1)),
    {
        match seconds_as_seconds(seconds) {
            Some(seconds) => Some(TimeSpan { seconds }),
            None => None,
        }
    }

    /// The span that holds the given seconds, where there are any.
    pub open spec fn of(seconds: Option<i64>) -> Option<TimeSpan> {
        match seconds {
            Some(seconds) => Some(TimeSpan { seconds }),
            None => None,
        }
    }
}

/// An instant on the UTC time line: whole seconds from the epoch and the
/// nanoseconds into that second, within the years that `chrono` represents.
#[derive(Clone, Copy, Debug, PartialEq, Eq, Structural)]
pub struct Timestamp {
    secs: i64,
    nanos: u32,
}

impl View for Timestamp {
    type V = int;

    /// Nanoseconds from the epoch.
    closed spec fn view(&self) -> int {
        self.secs * NANOS_PER_SECOND + self.nanos
    }
}

/// The instant `by` seconds after the one at `secs` seconds and `nanos`
/// nanoseconds, where both lie in the represented range.
pub open spec fn shifted(secs: i64, nanos: u32, by: i64) -> Option<(i64, u32)> {
    if MIN_SECONDS <= secs + by <= MAX_SECONDS {
        Some(((secs + by) as i64, nanos))
    } else {
        None
    }
}

/// `chrono::NaiveDateTime::checked_add_signed` on the instant that
/// `chrono::DateTime::from_timestamp` makes of `secs` and `nanos`, with a
/// `TimeDelta` of `by` seconds: the seconds move by `by` and the nanoseconds
/// stay, or nothing comes back when the sum leaves the represented years.
#[verifier::external_body]
fn shift_instant(secs: i64, nanos: u32, by: i64) -> (r: Option<(i64, u32)>)
    requires
        MIN_SECONDS <= secs <= MAX_SECONDS,
        nanos < NANOS_PER_SECOND,
    ensures
        r == shifted(secs, nanos, by),
{
    let start = DateTime::from_timestamp(secs, nanos)?.naive_utc();
    let moved = start.checked_add_signed(TimeDelta::try_seconds(by)?)?.and_utc();
    Some((moved.timestamp(), moved.timestamp_subsec_nanos()))
}

/// The date and time of an instant, given in nanoseconds from the epoch, as
/// `chrono` writes them in UTC: the date, a blank, the time of day, and the
/// fraction of the second where there is one.
pub uninterp spec fn written(instant: int) -> Seq<char>;

/// `chrono::NaiveDateTime`'s `to_string`, on the date and time that
/// `chrono::DateTime::from_timestamp` makes of the instant. Every instant lies
/// in the range that `from_timestamp` accepts.
#[verifier::external_body]
fn utc_text(t: &Timestamp) -> (r: String)
    ensures
        r@ == written(t@),
{
    match DateTime::from_timestamp(t.secs, t.nanos) {
        Some(at) => at.naive_utc().to_string(),
        None => String::new(),
    }
}

/// The instant of a clock that stands `secs` seconds and `nanos` nanoseconds
/// from the epoch, after it or before it, in nanoseconds from the epoch. A
/// clock beyond the instants that can be represented counts as the first or
/// the last of them.
pub open spec fn clock_instant(after_epoch: bool, secs: u64, nanos: u32) -> int {
    let exact = if after_epoch {
        secs * NANOS_PER_SECOND + nanos
    } else {
        -(secs * NANOS_PER_SECOND + nanos)
    };
    if exact < first_instant() {
        first_instant()
    } else if exact > last_instant() {
        last_instant()
    } else {
        exact
    }
}

/// `std::time::SystemTime::now`, measured from `std::time::UNIX_EPOCH` with
/// `duration_since`: whether the clock stands at the epoch or after it, and
/// how far from the epoch it stands, in whole seconds and the nanoseconds
/// beyond them. The nanoseconds are less than a second.
#[verifier::external_body]
fn clock_offset() -> (r: (bool, u64, u32))
    ensures
        r.2 < NANOS_PER_SECOND,
{
    match std::time::SystemTime::now().duration_since(std::time::UNIX_EPOCH) {
        Ok(since) => (true, since.as_secs(), since.subsec_nanos()),
        Err(before) => (false, before.duration().as_secs(), before.duration().subsec_nanos()),
    }
}

impl Timestamp {
    #[verifier::type_invariant]
    spec fn in_range(self) -> bool {
        MIN_SECONDS <= self.secs <= MAX_SECONDS && self.nanos < NANOS_PER_SECOND
    }

    /// The instant `secs` seconds and `nanos` nanoseconds after the epoch, if
    /// `nanos` is less than a second and the instant can be represented.
    pub fn from_parts(secs: i64, nanos: u32) -> (r: Option<Timestamp>)
        ensures
            r is Some <==> MIN_SECONDS <= secs <= MAX_SECONDS && nanos < NANOS_PER_SECOND,
            r is Some ==> r->0@ == secs * NANOS_PER_SECOND + nanos,
    {
        if MIN_SECONDS <= secs && secs <= MAX_SECONDS && nanos < NANOS_PER_SECOND {
            Some(Timestamp { secs, nanos })
        } else {
            None
        }
    }

    /// The last instant that can be represented.
    pub fn latest() -> (r: Timestamp)
        ensures
            r@ == last_instant(),
    {
        Timestamp { secs: MAX_SECONDS, nanos: NANOS_PER_SECOND - 1 }
    }

    /// The instant of a clock that stands `secs` seconds and `nanos`
    /// nanoseconds from the epoch, after it if `after_epoch`, else before it.
    /// A clock beyond the instants that can be represented gives the first or
    /// the last of them.
    pub fn from_clock(after_epoch: bool, secs: u64, nanos: u32) -> (r: Timestamp)
        ensures
            r@ == clock_instant(after_epoch, secs, nanos),
            representable(r@),
    {
        let carry: u32 = nanos / NANOS_PER_SECOND;
        let rest: u32 = nanos % NANOS_PER_SECOND;
        let whole: u128 = secs as u128 + carry as u128;
        assert(secs * NANOS_PER_SECOND + nanos == whole * NANOS_PER_SECOND + rest);
        if after_epoch {
            if whole > MAX_SECONDS as u128 {
                Timestamp { secs: MAX_SECONDS, nanos: NANOS_PER_SECOND - 1 }
            } else {
                Timestamp { secs: whole as i64, nanos: rest }
            }
        } else if rest == 0 {
            if whole > (-MIN_SECONDS) as u128 {
                Timestamp { secs: MIN_SECONDS, nanos: 0 }
            } else {
                Timestamp { secs: -(whole as i64), nanos: 0 }
            }
        } else {
            if whole >= (-MIN_SECONDS) as u128 {
                Timestamp { secs: MIN_SECONDS, nanos: 0 }
            } else {
                Timestamp { secs: -(whole as i64) - 1, nanos: NANOS_PER_SECOND - rest }
            }
        }
    }

    /// What the system clock reads, or the first or last instant that can be
    /// represented where the clock is beyond them.
    pub fn now() -> (r: Timestamp)
        ensures
            representable(r@),
    {
        let (after_epoch, secs, nanos) = clock_offset();
        Timestamp::from_clock(after_epoch, secs, nanos)
    }

    /// Whole seconds from the epoch, rounded towards the past.
    pub fn secs(&self) -> (r: i64)
        ensures
            r == self@ / (NANOS_PER_SECOND as int),
            MIN_SECONDS <= r <= MAX_SECONDS,
            representable(self@),
    {
        proof {
            use_type_invariant(self);
            lemma_parts(self.secs as int, self.nanos as int);
        }
        self.secs
    }

    /// Nanoseconds into the second.
    pub fn nanos(&self) -> (r: u32)
        ensures
            r == self@ % (NANOS_PER_SECOND as int),
            r < NANOS_PER_SECOND,
    {
        proof {
            use_type_invariant(self);
            lemma_parts(self.secs as int, self.nanos as int);
        }
        self.nanos
    }

    /// The instant `span` later (earlier for a negative span), if it can be
    /// represented.
    pub fn checked_add(&self, span: TimeSpan) -> (r: Option<Timestamp>)
        ensures
            r is Some <==> representable(self@ + span@ * NANOS_PER_SECOND),
            r is Some ==> r->0@ == self@ + span@ * NANOS_PER_SECOND,
    {
        proof {
            use_type_invariant(self);
        }
        match shift_instant(self.secs, self.nanos, span.seconds) {
            Some((secs, nanos)) => Some(Timestamp { secs, nanos }),
            None => None,
        }
    }

    /// The instant `span` earlier (later for a negative span), if it can be
    /// represented.
    pub fn checked_sub(&self, span: TimeSpan) -> (r: Option<Timestamp>)
        ensures
            r is Some <==> representable(self@ - span@ * NANOS_PER_SECOND),
            r is Some ==> r->0@ == self@ - span@ * NANOS_PER_SECOND,
    {
        proof {
            use_type_invariant(self);
        }
        if span.seconds == i64::MIN {
            return None;
        }
        match shift_instant(self.secs, self.nanos, -span.seconds) {
            Some((secs, nanos)) => Some(Timestamp { secs, nanos }),
            None => None,
        }
    }

    /// The date and time of this instant in UTC, written out.
    pub fn to_text(&self) -> (r: String)
        ensures
            r@ == written(self@),
    {
        utc_text(self)
    }

    /// Whether this instant is `other` or earlier.
    pub fn le(&self, other: &Timestamp) -> (r: bool)
        ensures
            r == (self@ <= other@),
    {
        proof {
            use_type_invariant(self);
            use_type_invariant(other);
        }
        self.secs < other.secs || (self.secs == other.secs && self.nanos <= other.nanos)
    }

    /// Whether this instant is `other` or later.
    pub fn ge(&self, other: &Timestamp) -> (r: bool)
        ensures
            r == (self@ >= other@),
    {
        other.le(self)
    }

    /// Whether this instant is later than `other`.
    pub fn gt(&self, other: &Timestamp) -> (r: bool)
        ensures
            r == (self@ > other@),
    {
        !self.le(other)
    }
}

/// Seconds and nanoseconds are the quotient and remainder of their sum in nanoseconds.
proof fn lemma_parts(secs: int, nanos: int)
    requires
        0 <= nanos < NANOS_PER_SECOND,
    ensures
        (secs * NANOS_PER_SECOND + nanos) / (NANOS_PER_SECOND as int) == secs,
        (secs * NANOS_PER_SECOND + nanos) % (NANOS_PER_SECOND as int) == nanos,
{
    vstd::arithmetic::div_mod::lemma_fundamental_div_mod_converse(
        secs * NANOS_PER_SECOND + nanos,
        NANOS_PER_SECOND as int,
        secs,
        nanos,
    );
}

} // verus!
