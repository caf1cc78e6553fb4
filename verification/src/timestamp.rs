//! Points in time and spans of time.

use vstd::prelude::*;

verus! {

/// A point in time: seconds since the Unix epoch, and nanoseconds on top of them.
#[derive(Clone, Copy, Debug, PartialEq, Eq, Structural)]
pub struct Timestamp {
    pub secs: i64,
    pub nanos: u32,
}

/// A span of time: seconds, and nanoseconds on top of them.
#[derive(Clone, Copy, Debug, PartialEq, Eq, Structural)]
pub struct TimeSpan {
    pub secs: i64,
    pub nanos: u32,
}

/// How many nanoseconds make a second.
pub const NANOS_PER_SEC: u32 = 1_000_000_000;

/// The last second that a date can name, at the end of the year 262142.
pub const LAST_SECOND: i64 = 8_210_266_876_799;

/// The first second that a date can name, at the start of the year -262143.
pub const FIRST_SECOND: i64 = -8_334_601_228_800;

impl Timestamp {
    /// The nanoseconds since the Unix epoch.
    pub open spec fn instant(self) -> int {
        self.secs * 1_000_000_000 + self.nanos
    }

    /// The nanoseconds on top of the seconds are less than a second, and the
    /// seconds are those of a date.
    pub open spec fn wf(self) -> bool {
        self.nanos < NANOS_PER_SEC && FIRST_SECOND <= self.secs <= LAST_SECOND
    }

    /// Whether this point in time comes before the other, or is the same.
    pub fn not_after(&self, other: &Timestamp) -> (r: bool)
        ensures
            r == (self.instant() <= other.instant()),
    {
        let a: i128 = self.secs as i128 * 1_000_000_000 + self.nanos as i128;
        let b: i128 = other.secs as i128 * 1_000_000_000 + other.nanos as i128;
        a <= b
    }

    /// Whether a date names the point in time that lies `secs` later.
    pub open spec fn reaches(self, secs: int) -> bool {
        FIRST_SECOND <= self.secs + secs <= LAST_SECOND
    }

    /// The point in time that lies `secs` seconds later.
    pub fn plus_secs(&self, secs: i64) -> (r: Timestamp)
        requires
            self.reaches(secs as int),
        ensures
            r == (Timestamp { secs: (self.secs + secs) as i64, nanos: self.nanos }),
            self.wf() ==> r.wf(),
            r.instant() == self.instant() + secs * 1_000_000_000,
    {
        Timestamp { secs: self.secs + secs, nanos: self.nanos }
    }

    /// Whether a date names the point in time that lies a span later.
    pub open spec fn reaches_span(self, span: TimeSpan) -> bool {
        &&& span.nanos < NANOS_PER_SEC
        &&& FIRST_SECOND <= self.secs + span.secs
        &&& self.secs + span.secs + (if self.nanos + span.nanos >= NANOS_PER_SEC {
            1int
        } else {
            0
        }) <= LAST_SECOND
    }

    /// The point in time that lies a span later.
    pub fn plus(&self, span: &TimeSpan) -> (r: Timestamp)
        requires
            self.wf(),
            self.reaches_span(*span),
        ensures
            r.wf(),
            r.instant() == self.instant() + span.length(),
    {
        let nanos: u32 = self.nanos + span.nanos;
        if nanos >= NANOS_PER_SEC {
            Timestamp { secs: self.secs + span.secs + 1, nanos: nanos - NANOS_PER_SEC }
        } else {
            Timestamp { secs: self.secs + span.secs, nanos }
        }
    }
}

impl TimeSpan {
    /// The length in nanoseconds.
    pub open spec fn length(self) -> int {
        self.secs * 1_000_000_000 + self.nanos
    }

    /// Whether the span is longer than nothing.
    pub fn is_positive(&self) -> (r: bool)
        requires
            self.nanos < NANOS_PER_SEC,
        ensures
            r == (self.length() > 0),
    {
        self.secs > 0 || (self.secs == 0 && self.nanos > 0)
    }
}

/// The text that `chrono` displays for a point in time, in UTC.
pub uninterp spec fn utc_text(secs: i64, nanos: u32) -> Seq<char>;

/// `Display` of `chrono::DateTime<Utc>`: a text that depends on the point in time alone.
#[verifier::external_body]
pub(crate) fn display(t: &Timestamp) -> (s: String)
    requires
        t.wf(),
    ensures
        s@ == utc_text(t.secs, t.nanos),
{
    chrono::DateTime::from_timestamp(t.secs, t.nanos).map(|d| d.to_string()).unwrap_or_default()
}

/// What reading a date and time comes to.
pub enum DateReading {
    /// A point in time: seconds since the Unix epoch, and nanoseconds on top of them,
    /// which go beyond a second in a leap second.
    At { secs: int, nanos: int },
    /// Why it is none.
    Refused(Seq<char>),
}

/// What `chrono` reads from an RFC 3339 text.
pub uninterp spec fn rfc3339_reading(s: Seq<char>) -> DateReading;

/// `DateTime::parse_from_rfc3339`: the point in time that the text names, or the text of
/// the error. It depends on the text alone.
#[verifier::external_body]
pub(crate) fn parse_rfc3339(s: &str) -> (r: Result<Timestamp, String>)
    ensures
        match rfc3339_reading(s@) {
            DateReading::At { secs, nanos } => r matches Ok(t) && t.secs == secs && t.nanos
                == nanos,
            DateReading::Refused(e) => r matches Err(m) && m@ == e,
        },
{
    chrono::DateTime::parse_from_rfc3339(s).map(
        |t| Timestamp { secs: t.timestamp(), nanos: t.timestamp_subsec_nanos() },
    ).map_err(|e| e.to_string())
}

} // verus!
