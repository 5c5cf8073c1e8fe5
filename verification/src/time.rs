//! Instants in UTC, held as plain seconds-plus-nanoseconds pairs; the RFC 3339
//! text form is produced and read through the chrono crate.

use vstd::prelude::*;

verus! {

/// Earliest instant kept: midnight of the first day of year 0, UTC.
pub const MIN_TS_SECS: i64 = -62167219200;

/// Latest instant kept: the last second of year 9999, UTC.
pub const MAX_TS_SECS: i64 = 253402300799;

pub const NANOS_PER_SEC: u32 = 1000000000;

/// An instant in UTC: seconds since the Unix epoch plus a sub-second
/// nanosecond count.
#[derive(Clone, Copy, PartialEq, Eq, Structural, Debug)]
pub struct Timestamp {
    pub secs: i64,
    pub nanos: u32,
}

/// The RFC 3339 text chrono prints for the instant `(secs, nanos)`.
pub uninterp spec fn rfc3339_of(secs: int, nanos: int) -> Seq<char>;

/// What chrono's RFC 3339 parser accepts: the instant read from `s`, as a
/// (seconds, nanoseconds) pair.
pub uninterp spec fn rfc3339_parsed(s: Seq<char>) -> Option<(int, int)>;

/// A character that can appear in an RFC 3339 rendering.
pub open spec fn rfc3339_char(c: char) -> bool {
    ('0' <= c && c <= '9') || c == '-' || c == ':' || c == 'T' || c == '+' || c == '.'
}

impl Timestamp {
    /// Within the range the RFC 3339 text form covers (years 0000 - 9999),
    /// with a normalized sub-second count.
    pub open spec fn valid(self) -> bool {
        MIN_TS_SECS <= self.secs <= MAX_TS_SECS && self.nanos < NANOS_PER_SEC
    }

    /// Instant order: seconds first, nanoseconds breaking ties.
    pub open spec fn le_spec(self, other: Timestamp) -> bool {
        self.secs < other.secs || (self.secs == other.secs && self.nanos <= other.nanos)
    }

    pub open spec fn lt_spec(self, other: Timestamp) -> bool {
        self.le_spec(other) && self != other
    }

    pub fn le(&self, other: &Timestamp) -> (r: bool)
        ensures
            r == self.le_spec(*other),
    {
        self.secs < other.secs || (self.secs == other.secs && self.nanos <= other.nanos)
    }

    /// The current instant, clamped into the representable range.
    pub fn now() -> (r: Timestamp)
        ensures
            r.valid(),
    {
        let (secs, nanos) = clock_now();
        let secs: i64 = if secs < MIN_TS_SECS {
            MIN_TS_SECS
        } else if secs > MAX_TS_SECS {
            MAX_TS_SECS
        } else {
            secs
        };
        let nanos: u32 = if nanos >= NANOS_PER_SEC {
            999999999
        } else {
            nanos
        };
        Timestamp { secs, nanos }
    }

    /// Accepts a raw parsed pair only if it lands in the representable range.
    pub fn from_raw(secs: i64, nanos: u32) -> (r: Option<Timestamp>)
        ensures
            raw_in_range(secs as int, nanos as int) ==> r == Some(Timestamp { secs, nanos }),
            !raw_in_range(secs as int, nanos as int) ==> r is None,
    {
        if MIN_TS_SECS <= secs && secs <= MAX_TS_SECS && nanos < NANOS_PER_SEC {
            Some(Timestamp { secs, nanos })
        } else {
            None
        }
    }
}

/// A raw (seconds, nanoseconds) pair that fits the representable range.
pub open spec fn raw_in_range(secs: int, nanos: int) -> bool {
    MIN_TS_SECS as int <= secs <= MAX_TS_SECS as int && 0 <= nanos < NANOS_PER_SEC as int
}

/// Relies on chrono::Utc::now (read out with timestamp and
/// timestamp_subsec_nanos): the current instant; nothing is assumed of the
/// clock beyond the documented sub-second bound of two billion.
#[verifier::external_body]
fn clock_now() -> (r: (i64, u32))
    ensures
        r.1 < 2000000000,
{
    let t = chrono::Utc::now();
    (t.timestamp(), t.timestamp_subsec_nanos())
}

/// Relies on chrono's DateTime::to_rfc3339 (instant rebuilt with
/// DateTime::from_timestamp): the RFC 3339 form of the instant, such as
/// `2024-05-01T12:00:00.250+00:00` - digits and the separators `- : T . +`
/// only, at least 20 characters, starting and ending with a digit, never two
/// hyphens in a row, and read back by chrono's RFC 3339 parser to the same
/// instant.
#[verifier::external_body]
pub fn ts_format(t: &Timestamp) -> (r: String)
    requires
        t.valid(),
    ensures
        r@ == rfc3339_of(t.secs as int, t.nanos as int),
        r@.len() >= 20,
        forall|i: int| 0 <= i < r@.len() ==> rfc3339_char(#[trigger] r@[i]),
        '0' <= r@[0] <= '9',
        '0' <= r@[r@.len() - 1] <= '9',
        forall|i: int| 0 <= i < r@.len() - 1 ==> !(r@[i] == '-' && #[trigger] r@[i + 1] == '-'),
        rfc3339_parsed(r@) == Some((t.secs as int, t.nanos as int)),
{
    match chrono::DateTime::<chrono::Utc>::from_timestamp(t.secs, t.nanos) {
        Some(dt) => dt.to_rfc3339(),
        None => String::new(),
    }
}

/// Relies on str::parse::<chrono::DateTime<chrono::Utc>> (read out with
/// timestamp and timestamp_subsec_nanos): chrono's RFC 3339 parser; the
/// sub-second count stays below the documented bound of two billion.
#[verifier::external_body]
pub fn ts_parse(s: &str) -> (r: Option<(i64, u32)>)
    ensures
        r is Some <==> rfc3339_parsed(s@) is Some,
        r matches Some(p) ==> rfc3339_parsed(s@) == Some((p.0 as int, p.1 as int)),
        r matches Some(p) ==> p.1 < 2000000000,
{
    match s.parse::<chrono::DateTime<chrono::Utc>>() {
        Ok(dt) => Some((dt.timestamp(), dt.timestamp_subsec_nanos())),
        Err(_) => None,
    }
}

} // verus!
