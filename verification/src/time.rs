//! Points in time.
use vstd::prelude::*;

use crate::sequences;

verus! {

/// The first second of the calendar.
pub const FIRST_SECOND: i64 = -8334601228800;

/// The last second of the calendar.
pub const LAST_SECOND: i64 = 8210266876799;

/// The first second of the year 0.
pub const YEAR_ZERO: i64 = -62167219200;

/// The last second of the year 9999.
pub const YEAR_9999: i64 = 253402300799;

/// A point in time: the seconds since the start of 1970 in UTC and the nanoseconds into that
/// second. A leap second counts on in the nanoseconds of the second before it.
#[derive(Clone, Copy, Debug, Eq, Hash, Ord, PartialEq, PartialOrd, Structural)]
pub struct Timestamp {
    pub seconds: i64,
    pub nanos: u32,
}

impl DeepView for Timestamp {
    type V = Timestamp;

    open spec fn deep_view(&self) -> Timestamp {
        *self
    }
}

impl Timestamp {
    /// Whether the calendar has this point in time.
    pub open spec fn valid(self) -> bool {
        &&& FIRST_SECOND <= self.seconds <= LAST_SECOND
        &&& self.nanos < 1_000_000_000 || (self.nanos < 2_000_000_000 && self.seconds as int % 60
            == 59)
    }

    /// Whether the calendar still has the point that lies some seconds later.
    pub open spec fn has_room(self, seconds: int) -> bool {
        self.valid() && self.seconds + seconds <= LAST_SECOND
    }

    /// Whether this point lies before the other.
    pub open spec fn before(self, other: Timestamp) -> bool {
        self.seconds < other.seconds || (self.seconds == other.seconds && self.nanos < other.nanos)
    }

    /// The point that lies some seconds later; a leap second is left on the way.
    pub open spec fn later(self, seconds: int) -> Timestamp {
        Timestamp {
            seconds: (self.seconds + seconds) as i64,
            nanos: if self.nanos >= 1_000_000_000 {
                (self.nanos - 1_000_000_000) as u32
            } else {
                self.nanos
            },
        }
    }

    /// Whether the calendar still has the point that lies some seconds later.
    pub fn allows(&self, seconds: u64) -> (r: bool)
        ensures
            r == self.has_room(seconds as int),
    {
        if self.seconds < FIRST_SECOND || self.seconds > LAST_SECOND {
            return false;
        }
        let leap: bool = self.nanos >= 1_000_000_000 && self.nanos < 2_000_000_000
            && self.minute_second() == 59;
        (self.nanos < 1_000_000_000 || leap) && seconds <= (LAST_SECOND - self.seconds) as u64
    }

    fn minute_second(&self) -> (r: i64)
        requires
            FIRST_SECOND <= self.seconds <= LAST_SECOND,
        ensures
            r == self.seconds as int % 60,
    {
        let shifted: i64 = self.seconds - FIRST_SECOND;
        shifted % 60
    }

    /// Whether this point lies before the other.
    pub fn precedes(&self, other: &Timestamp) -> (r: bool)
        ensures
            r == self.before(*other),
    {
        self.seconds < other.seconds || (self.seconds == other.seconds && self.nanos < other.nanos)
    }
}

impl sequences::Equal for Timestamp {
    fn equals(&self, other: &Self) -> (r: bool) {
        self.seconds == other.seconds && self.nanos == other.nanos
    }
}

/// Adds whole seconds with `DateTime + Duration::seconds(..)`. The sum has as many more seconds
/// and the same fraction; out of a leap second it takes the fraction into the ordinary second.
/// The addition panics past the last second of the calendar, which `requires` leaves out.
#[verifier::external_body]
pub(crate) fn add_seconds(at: Timestamp, seconds: i64) -> (r: Timestamp)
    requires
        0 < seconds,
        at.has_room(seconds as int),
    ensures
        r == at.later(seconds as int),
{
    let from = chrono::DateTime::from_timestamp(at.seconds, at.nanos).unwrap();
    let to: chrono::DateTime<chrono::Utc> = from + chrono::Duration::seconds(seconds);
    Timestamp { seconds: to.timestamp(), nanos: to.timestamp_subsec_nanos() }
}

/// The text of a point in time in the form of RFC 3339, as `DateTime::to_rfc3339` writes it.
pub uninterp spec fn rfc3339_text(seconds: i64, nanos: u32) -> Seq<char>;

/// The point in time that a text in the form of RFC 3339 names, as seconds and nanoseconds, as
/// `DateTime::parse_from_rfc3339` reads it, or what it says of a text that it refuses.
pub uninterp spec fn rfc3339_reading(text: Seq<char>) -> Result<(i64, u32), Seq<char>>;

/// Writes a point in time with `DateTime::to_rfc3339`. `DateTime::parse_from_rfc3339` reads the
/// same point back where the year has four digits; it refuses the signed years that stand for
/// the rest of the calendar.
#[verifier::external_body]
fn write_rfc3339(at: Timestamp) -> (r: String)
    requires
        at.valid(),
    ensures
        r@ == rfc3339_text(at.seconds, at.nanos),
        YEAR_ZERO <= at.seconds <= YEAR_9999 ==> rfc3339_reading(r@) is Ok && rfc3339_reading(
            r@,
        )->Ok_0 == (at.seconds, at.nanos),
{
    chrono::DateTime::from_timestamp(at.seconds, at.nanos).unwrap().to_rfc3339()
}

/// A text was given for a point in time that names none.
#[derive(Clone, Debug, Eq, PartialEq)]
pub struct InvalidTimestamp {
    pub reason: String,
}

/// Reads a point in time with `DateTime::parse_from_rfc3339`, in UTC. It yields points that the
/// calendar has, and refuses other texts with the wording of its error.
#[verifier::external_body]
fn parse_rfc3339(text: &str) -> (r: Result<Timestamp, InvalidTimestamp>)
    ensures
        match r {
            Ok(at) => at.valid() && rfc3339_reading(text@) is Ok && rfc3339_reading(text@)->Ok_0
                == (at.seconds, at.nanos),
            Err(error) => rfc3339_reading(text@) is Err && rfc3339_reading(text@)->Err_0
                == error.reason@,
        },
{
    match chrono::DateTime::parse_from_rfc3339(text) {
        Ok(at) => Ok(Timestamp { seconds: at.timestamp(), nanos: at.timestamp_subsec_nanos() }),
        Err(error) => Err(InvalidTimestamp { reason: error.to_string() }),
    }
}

impl Timestamp {
    /// The text of a point in time in the form of RFC 3339.
    pub fn to_rfc3339(&self) -> (r: String)
        requires
            self.valid(),
        ensures
            r@ == rfc3339_text(self.seconds, self.nanos),
            YEAR_ZERO <= self.seconds <= YEAR_9999 ==> rfc3339_reading(r@) is Ok
                && rfc3339_reading(r@)->Ok_0 == (self.seconds, self.nanos),
    {
        write_rfc3339(*self)
    }

    /// Reads a point in time in the form of RFC 3339.
    pub fn parse_from_rfc3339(text: &str) -> (r: Result<Timestamp, InvalidTimestamp>)
        ensures
            match r {
                Ok(at) => at.valid() && rfc3339_reading(text@) is Ok && rfc3339_reading(
                    text@,
                )->Ok_0 == (at.seconds, at.nanos),
                Err(error) => rfc3339_reading(text@) is Err && rfc3339_reading(text@)->Err_0
                    == error.reason@,
            },
    {
        parse_rfc3339(text)
    }
}

/// Adding seconds leads to a valid point that is not before the start.
pub proof fn later_is_valid(at: Timestamp, seconds: int)
    requires
        0 < seconds,
        at.has_room(seconds),
    ensures
        at.later(seconds).valid(),
        at.before(at.later(seconds)),
{
}

} // verus!
