//! Points in time, in seconds and nanoseconds since the Unix epoch, and their RFC 3339 form.

use crate::order::Ordered;
use vstd::prelude::*;

verus! {

/// The first second of the calendar that `chrono` covers.
pub const FIRST_SECOND: i64 = -8334601228800;

/// The last second of the calendar that `chrono` covers.
pub const LAST_SECOND: i64 = 8210266876799;

/// The first second of year 0.
pub const FIRST_FOUR_DIGIT_SECOND: i64 = -62167219200;

/// The last second of year 9999.
pub const LAST_FOUR_DIGIT_SECOND: i64 = 253402300799;

/// Whether seconds and nanoseconds name a point in time. A leap second is the second before
/// it with a billion nanoseconds or more.
pub open spec fn valid_time(seconds: i64, nanos: u32) -> bool {
    &&& FIRST_SECOND <= seconds <= LAST_SECOND
    &&& nanos < 1_000_000_000 || (nanos < 2_000_000_000 && seconds as int % 60 == 59)
}

/// The text that `chrono` gives a UTC time in RFC 3339 form (`DateTime::to_rfc3339`).
pub uninterp spec fn rfc3339_text(seconds: i64, nanos: u32) -> Seq<char>;

/// The time that `chrono` reads in an RFC 3339 text (`DateTime::parse_from_rfc3339`).
pub uninterp spec fn rfc3339_read(text: Seq<char>) -> Option<(i64, u32)>;

/// The text that `chrono` displays for a UTC time.
pub uninterp spec fn utc_display(seconds: i64, nanos: u32) -> Seq<char>;

/// Reads the system clock through `chrono::Utc::now`. The clock may show any time from the
/// epoch on, without leap seconds.
#[verifier::external_body]
fn clock() -> (r: (i64, u32))
    ensures
        valid_time(r.0, r.1),
        r.0 >= 0,
        r.1 < 1_000_000_000,
{
    let now = chrono::Utc::now();
    (now.timestamp(), now.timestamp_subsec_nanos())
}

/// Writes a time with `chrono`'s `DateTime::to_rfc3339`. For the years that have four digits
/// `chrono` reads the same time back from the text.
#[verifier::external_body]
fn write_rfc3339(seconds: i64, nanos: u32) -> (r: String)
    requires
        valid_time(seconds, nanos),
    ensures
        r@ == rfc3339_text(seconds, nanos),
        FIRST_FOUR_DIGIT_SECOND <= seconds <= LAST_FOUR_DIGIT_SECOND ==> rfc3339_read(r@) == Some(
            (seconds, nanos),
        ),
{
    chrono::DateTime::from_timestamp(seconds, nanos).unwrap().to_rfc3339()
}

/// Reads a time with `chrono`'s `DateTime::parse_from_rfc3339`, in UTC. What comes out is a
/// valid time.
#[verifier::external_body]
fn read_rfc3339(text: &str) -> (r: Option<(i64, u32)>)
    ensures
        r == rfc3339_read(text@),
        r matches Some((seconds, nanos)) ==> valid_time(seconds, nanos),
{
    chrono::DateTime::parse_from_rfc3339(text)
        .map(|time| (time.timestamp(), time.timestamp_subsec_nanos()))
        .ok()
}

/// Formats a UTC time with the `Display` of `chrono`'s `DateTime<Utc>`.
#[verifier::external_body]
fn write_display(seconds: i64, nanos: u32) -> (r: String)
    requires
        valid_time(seconds, nanos),
    ensures
        r@ == utc_display(seconds, nanos),
{
    chrono::DateTime::from_timestamp(seconds, nanos).unwrap().to_string()
}

/// A point in time in UTC.
#[derive(Clone, Copy, PartialEq, Eq, Structural, Debug)]
pub struct Timestamp {
    seconds: i64,
    nanos: u32,
}

impl View for Timestamp {
    type V = Timestamp;

    open spec fn view(&self) -> Timestamp {
        *self
    }
}

impl Timestamp {
    #[verifier::type_invariant]
    spec fn valid(self) -> bool {
        valid_time(self.seconds, self.nanos)
    }

    /// Whole seconds since the Unix epoch.
    pub closed spec fn seconds_spec(self) -> i64 {
        self.seconds
    }

    /// Nanoseconds past the whole seconds.
    pub closed spec fn nanos_spec(self) -> u32 {
        self.nanos
    }

    /// The RFC 3339 text of this time.
    pub open spec fn rfc3339(self) -> Seq<char> {
        rfc3339_text(self.seconds_spec(), self.nanos_spec())
    }

    /// The text displayed for this time.
    pub open spec fn display(self) -> Seq<char> {
        utc_display(self.seconds_spec(), self.nanos_spec())
    }

    /// Whether this time lies in a year of four digits.
    pub open spec fn four_digit_year(self) -> bool {
        FIRST_FOUR_DIGIT_SECOND <= self.seconds_spec() <= LAST_FOUR_DIGIT_SECOND
    }

    /// Whether this time is strictly earlier than another.
    pub open spec fn earlier(self, other: Timestamp) -> bool {
        self.seconds_spec() < other.seconds_spec() || (self.seconds_spec() == other.seconds_spec()
            && self.nanos_spec() < other.nanos_spec())
    }

    /// The time with the given seconds and nanoseconds, when they name one.
    pub fn new(seconds: i64, nanos: u32) -> (r: Option<Timestamp>)
        ensures
            r is Some == valid_time(seconds, nanos),
            r matches Some(t) ==> t.seconds_spec() == seconds && t.nanos_spec() == nanos,
    {
        if seconds < FIRST_SECOND || seconds > LAST_SECOND {
            None
        } else if nanos < 1_000_000_000 {
            Some(Timestamp { seconds, nanos })
        } else if nanos < 2_000_000_000 {
            let past: u64 = (seconds - FIRST_SECOND) as u64;
            assert(past as int % 60 == seconds as int % 60) by (nonlinear_arith)
                requires
                    past == seconds + 8334601228800,
            ;
            if past % 60 == 59 {
                Some(Timestamp { seconds, nanos })
            } else {
                None
            }
        } else {
            None
        }
    }

    /// The time that the system clock shows.
    pub fn now() -> (r: Timestamp)
        ensures
            r.seconds_spec() >= 0,
            r.nanos_spec() < 1_000_000_000,
    {
        let (seconds, nanos) = clock();
        Timestamp { seconds, nanos }
    }

    /// Whole seconds since the Unix epoch.
    pub fn seconds(&self) -> (r: i64)
        ensures
            r == self.seconds_spec(),
    {
        self.seconds
    }

    /// Nanoseconds past the whole seconds; a billion or more in a leap second.
    pub fn nanos(&self) -> (r: u32)
        ensures
            r == self.nanos_spec(),
    {
        self.nanos
    }

    /// The time in RFC 3339 form.
    pub fn to_rfc3339(&self) -> (r: String)
        ensures
            r@ == self.rfc3339(),
            self.four_digit_year() ==> time_of_text(r@) == Some(*self),
    {
        proof {
            use_type_invariant(self);
        }
        write_rfc3339(self.seconds, self.nanos)
    }

    /// The time as it is shown to people.
    pub fn to_display(&self) -> (r: String)
        ensures
            r@ == self.display(),
    {
        proof {
            use_type_invariant(self);
        }
        write_display(self.seconds, self.nanos)
    }

    /// The time that an RFC 3339 text names.
    pub fn parse(text: &str) -> (r: Option<Timestamp>)
        ensures
            r == time_of_text(text@),
    {
        match read_rfc3339(text) {
            Some((seconds, nanos)) => Some(Timestamp { seconds, nanos }),
            None => None,
        }
    }

    /// Whether this time is strictly earlier than another.
    pub fn is_earlier(&self, other: &Timestamp) -> (r: bool)
        ensures
            r == self.earlier(*other),
    {
        self.seconds < other.seconds || (self.seconds == other.seconds && self.nanos < other.nanos)
    }
}

impl Ordered for Timestamp {
    open spec fn order() -> spec_fn(Timestamp, Timestamp) -> bool {
        |a: Timestamp, b: Timestamp| a.earlier(b)
    }

    fn precedes(&self, other: &Timestamp) -> (r: bool) {
        self.is_earlier(other)
    }
}

/// The time that an RFC 3339 text names.
pub closed spec fn time_of_text(text: Seq<char>) -> Option<Timestamp> {
    match rfc3339_read(text) {
        Some((seconds, nanos)) => Some(Timestamp { seconds, nanos }),
        None => None,
    }
}

/// Two times of which neither is earlier are the same.
pub proof fn lemma_time_total(a: Timestamp, b: Timestamp)
    ensures
        !a.earlier(b) && !b.earlier(a) ==> a == b,
{
}

} // verus!
