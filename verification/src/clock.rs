//! Points in time.

use vstd::prelude::*;

verus! {

/// The earliest second, since the Unix epoch, that a point in time may have.
pub const FIRST_SECOND: i64 = -8_334_601_228_800;

/// The latest second, since the Unix epoch, that a point in time may have.
pub const LAST_SECOND: i64 = 8_210_266_876_799;

/// A point in time: whole seconds since the Unix epoch, and nanoseconds past
/// them. A leap second counts on past a thousand million nanoseconds.
#[derive(Clone, Copy, Debug, PartialEq, Eq, Structural, Hash)]
pub struct Timestamp {
    pub secs: i64,
    pub nanos: u32,
}

impl Timestamp {
    /// Within the calendar's range, and in a leap second only at the end of a minute.
    pub open spec fn valid(self) -> bool {
        &&& FIRST_SECOND <= self.secs <= LAST_SECOND
        &&& self.nanos < 1_000_000_000 || (self.nanos < 2_000_000_000 && self.secs % 60 == 59)
    }

    /// Whether this is within the calendar's range.
    pub fn is_valid(&self) -> (r: bool)
        ensures
            r == self.valid(),
    {
        if self.secs < FIRST_SECOND || self.secs > LAST_SECOND {
            return false;
        }
        // The first second starts a minute.
        let since_first: u64 = (self.secs - FIRST_SECOND) as u64;
        self.nanos < 1_000_000_000 || (self.nanos < 2_000_000_000 && since_first % 60 == 59)
    }

    /// Earlier than, or at, `other`.
    pub open spec fn le(self, other: Timestamp) -> bool {
        self.secs < other.secs || (self.secs == other.secs && self.nanos <= other.nanos)
    }

    /// Strictly earlier than `other`.
    pub open spec fn lt(self, other: Timestamp) -> bool {
        !other.le(self)
    }

    /// Whether this is earlier than, or at, `other`.
    pub fn not_after(&self, other: &Timestamp) -> (r: bool)
        ensures
            r == self.le(*other),
    {
        self.secs < other.secs || (self.secs == other.secs && self.nanos <= other.nanos)
    }

    /// Whether this is strictly earlier than `other`.
    pub fn before(&self, other: &Timestamp) -> (r: bool)
        ensures
            r == self.lt(*other),
    {
        !other.not_after(self)
    }
}

/// The second of its day in which `t` lies.
pub open spec fn second_of_day(t: Timestamp) -> int {
    t.secs as int % 86_400
}

/// The nanoseconds from `at` to `now`, a leap second counted once it has passed.
pub open spec fn nanos_between(at: Timestamp, now: Timestamp) -> int {
    let leap: int = if second_of_day(now) > second_of_day(at) && at.nanos >= 1_000_000_000 {
        1
    } else if second_of_day(now) < second_of_day(at) && now.nanos >= 1_000_000_000 {
        -1
    } else {
        0
    };
    (now.secs - at.secs + leap) * 1_000_000_000 + now.nanos - at.nanos
}

/// The whole seconds in a span of nanoseconds, a started second not counted.
pub open spec fn whole_seconds(nanos: int) -> int {
    if nanos >= 0 {
        nanos / 1_000_000_000
    } else {
        -((-nanos) / 1_000_000_000)
    }
}

/// The whole seconds from `at` to `now`, negative where `now` comes first.
///
/// `chrono::DateTime::from_timestamp` makes both points in time,
/// `signed_duration_since` takes one from the other and `TimeDelta::num_seconds`
/// drops the fraction. The claim is the arithmetic of these three calls.
#[verifier::external_body]
pub(crate) fn seconds_between(at: Timestamp, now: Timestamp) -> (r: i64)
    requires
        at.valid(),
        now.valid(),
    ensures
        r == whole_seconds(nanos_between(at, now)),
{
    let from = chrono::DateTime::from_timestamp(at.secs, at.nanos).expect("a valid time");
    let to = chrono::DateTime::from_timestamp(now.secs, now.nanos).expect("a valid time");
    to.signed_duration_since(from).num_seconds()
}

/// A point in time that the clock may show: of the calendar, not before the Unix epoch,
/// and in no leap second.
pub open spec fn is_reading(t: Timestamp) -> bool {
    t.valid() && t.secs >= 0 && t.nanos < 1_000_000_000
}

/// The current time, by `chrono::Utc::now`. It differs from call to call: the
/// claim is only that it is a point in time at or after the Unix epoch.
#[verifier::external_body]
pub(crate) fn current_time() -> (r: Timestamp)
    ensures
        is_reading(r),
{
    let now = chrono::Utc::now();
    Timestamp { secs: now.timestamp(), nanos: now.timestamp_subsec_nanos() }
}

/// The current time.
pub fn utc_now() -> (r: Timestamp)
    ensures
        is_reading(r),
{
    current_time()
}

/// What `chrono` reads from a time in the notation of RFC 3339, or how it refuses it.
pub uninterp spec fn rfc3339_parsed(text: Seq<char>) -> Result<Timestamp, Seq<char>>;

/// `chrono::DateTime::parse_from_rfc3339`, and how its error is shown. Nothing is claimed
/// but that the two depend on the text alone, and that what is read is a point in time of
/// the calendar: the notation has years of four digits.
#[verifier::external_body]
pub(crate) fn read_rfc3339(text: &str) -> (r: Result<Timestamp, String>)
    ensures
        match r {
            Ok(t) => rfc3339_parsed(text@) == Ok::<Timestamp, Seq<char>>(t) && t.valid(),
            Err(e) => rfc3339_parsed(text@) == Err::<Timestamp, Seq<char>>(e@),
        },
{
    match chrono::DateTime::parse_from_rfc3339(text) {
        Ok(t) => Ok(Timestamp { secs: t.timestamp(), nanos: t.timestamp_subsec_nanos() }),
        Err(e) => Err(e.to_string()),
    }
}

/// Reads a time in the notation of RFC 3339.
pub fn parse_rfc3339(text: &str) -> (r: Result<Timestamp, String>)
    ensures
        match r {
            Ok(t) => rfc3339_parsed(text@) == Ok::<Timestamp, Seq<char>>(t) && t.valid(),
            Err(e) => rfc3339_parsed(text@) == Err::<Timestamp, Seq<char>>(e@),
        },
{
    read_rfc3339(text)
}

/// `std::time::SystemTime`: a reading of the machine's clock.
#[verifier::external_type_specification]
#[verifier::external_body]
pub struct ExSystemTime(std::time::SystemTime);

/// `std::time::SystemTimeError`: that one reading is not behind another.
#[verifier::external_type_specification]
#[verifier::external_body]
pub struct ExSystemTimeError(std::time::SystemTimeError);

/// The machine's clock, by `std::time::SystemTime::now`. It differs from call to call:
/// nothing is claimed of it.
pub assume_specification[ std::time::SystemTime::now ]() -> (r: std::time::SystemTime);

/// The time from one reading of the clock to another, or that there is none, by
/// `std::time::SystemTime::duration_since`. Nothing is claimed of it.
pub assume_specification[ std::time::SystemTime::duration_since ](
    this: &std::time::SystemTime,
    earlier: std::time::SystemTime,
) -> (r: Result<std::time::Duration, std::time::SystemTimeError>);

/// The whole seconds of a span, by `std::time::Duration::as_secs`. Nothing is claimed of
/// them.
pub assume_specification[ std::time::Duration::as_secs ](this: &std::time::Duration) -> (r: u64);

/// The Unix epoch, `std::time::UNIX_EPOCH`. Nothing is claimed of it.
#[verifier::external_body]
pub(crate) fn epoch() -> (r: std::time::SystemTime)
{
    std::time::UNIX_EPOCH
}

/// The point in time so many days from another, back where the number is negative.
pub open spec fn days_from(t: Timestamp, days: int) -> Timestamp {
    Timestamp { secs: (t.secs + days * 86_400) as i64, nanos: t.nanos }
}

/// Gives the point in time so many days from another.
pub fn shifted_days(t: Timestamp, days: i64) -> (r: Timestamp)
    requires
        t.valid(),
        t.nanos < 1_000_000_000,
        FIRST_SECOND <= t.secs + days * 86_400 <= LAST_SECOND,
    ensures
        r == days_from(t, days as int),
        r.valid(),
{
    Timestamp { secs: (t.secs as i128 + days as i128 * 86_400) as i64, nanos: t.nanos }
}

}
