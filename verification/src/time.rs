//! Moments in time.

use vstd::prelude::*;

verus! {

/// The nanoseconds of one second.
pub const NANOS_PER_SECOND: i128 = 1_000_000_000;

/// The nanoseconds of one millisecond.
pub const NANOS_PER_MILLI: i128 = 1_000_000;

/// The first second that a [`Timestamp`] can hold, the first of the year
/// -262,143.
pub const MIN_SECONDS: i64 = -8_334_601_228_800;

/// The last second that a [`Timestamp`] can hold, the last of the year 262,142.
pub const MAX_SECONDS: i64 = 8_210_266_876_799;

/// A moment, in nanoseconds since the start of 1970 in UTC.
#[derive(Clone, Copy, PartialEq, Eq, PartialOrd, Ord, Structural, Debug)]
pub struct Timestamp {
    nanos: i128,
}

/// Whether so many nanoseconds since 1970 can be held.
pub open spec fn in_range(nanos: int) -> bool {
    (MIN_SECONDS as int) * (NANOS_PER_SECOND as int) <= nanos < (MAX_SECONDS + 1) * (
    NANOS_PER_SECOND as int)
}

/// A quotient rounded toward zero.
pub open spec fn toward_zero(n: int, d: int) -> int {
    if n < 0 {
        -((-n) / d)
    } else {
        n / d
    }
}

/// What chrono's `DateTime::to_rfc3339` writes for a moment in UTC, given as
/// whole seconds and the nanoseconds behind them.
pub uninterp spec fn rfc3339(secs: i64, subsec: u32) -> Seq<char>;

/// What chrono's `DateTime::to_rfc3339_opts` writes for a moment in UTC with as
/// many places as it needs and `Z` for the zone.
pub uninterp spec fn rfc3339_zulu(secs: i64, subsec: u32) -> Seq<char>;

/// What chrono's `DateTime::parse_from_rfc3339` reads from a text, as whole
/// seconds and the nanoseconds behind them.
pub uninterp spec fn parsed_rfc3339(text: Seq<char>) -> Option<(i64, u32)>;

/// What chrono's `DateTime::to_rfc3339_opts` writes for a moment, with milliseconds
/// and an offset in digits, in a zone that is so many seconds east of UTC.
pub uninterp spec fn rfc3339_at(secs: i64, subsec: u32, offset: i32) -> Seq<char>;

/// The seconds of a day.
pub const DAY_SECONDS: i64 = 86_400;

/// The first second of the year zero.
pub const FIRST_WRITTEN_SECOND: i64 = -62_167_219_200;

/// The last second of the year 9999.
pub const LAST_WRITTEN_SECOND: i64 = 253_402_300_799;

/// What is read from the text of a moment.
pub open spec fn read_back(secs: i64, subsec: u32) -> Option<(i64, u32)> {
    Some((secs, subsec))
}

/// chrono's `DateTime::to_rfc3339` in UTC. Claims that the text depends on the
/// moment alone.
#[verifier::external_body]
fn rfc3339_text(secs: i64, subsec: u32) -> (s: String)
    requires
        MIN_SECONDS <= secs <= MAX_SECONDS,
        subsec < 1_000_000_000,
    ensures
        s@ == rfc3339(secs, subsec),
{
    chrono::DateTime::<chrono::Utc>::from_timestamp(secs, subsec).expect("a moment within range").to_rfc3339()
}

/// chrono's `DateTime::to_rfc3339_opts` in UTC, with as many places as the
/// moment needs and `Z` for the zone. Claims that the text depends on the moment
/// alone, and that where the year has four digits `parse_from_rfc3339` reads the
/// moment back from it.
#[verifier::external_body]
fn rfc3339_zulu_text(secs: i64, subsec: u32) -> (s: String)
    requires
        MIN_SECONDS <= secs <= MAX_SECONDS,
        subsec < 1_000_000_000,
    ensures
        s@ == rfc3339_zulu(secs, subsec),
        FIRST_WRITTEN_SECOND <= secs <= LAST_WRITTEN_SECOND ==> parsed_rfc3339(s@) == read_back(
            secs,
            subsec,
        ),
{
    chrono::DateTime::<chrono::Utc>::from_timestamp(secs, subsec)
        .expect("a moment within range")
        .to_rfc3339_opts(chrono::SecondsFormat::AutoSi, true)
}

/// chrono's `DateTime::parse_from_rfc3339`, and the moment that it reads. Claims
/// that what is read depends on the text alone.
#[verifier::external_body]
fn read_rfc3339(text: &str) -> (r: Option<(i64, u32)>)
    ensures
        r == parsed_rfc3339(text@),
{
    let read = chrono::DateTime::parse_from_rfc3339(text).ok()?;
    Some((read.timestamp(), read.timestamp_subsec_nanos()))
}

/// chrono's `DateTime::with_timezone` to the machine's zone and
/// `to_rfc3339_opts` with milliseconds and an offset in digits. Gives how many
/// seconds the zone is east of UTC at that moment, and the text. The machine
/// decides on the offset; claims that it is less than a day, and that the text
/// depends on the moment and the offset alone.
#[verifier::external_body]
fn local_text(secs: i64, subsec: u32) -> (r: (i32, String))
    requires
        MIN_SECONDS + DAY_SECONDS <= secs <= MAX_SECONDS - DAY_SECONDS,
        subsec < 1_000_000_000,
    ensures
        -DAY_SECONDS < r.0 < DAY_SECONDS,
        r.1@ == rfc3339_at(secs, subsec, r.0),
{
    let local = chrono::DateTime::<chrono::Utc>::from_timestamp(secs, subsec)
        .expect("a moment within range")
        .with_timezone(&chrono::Local);
    let text = local.to_rfc3339_opts(chrono::SecondsFormat::Millis, false);
    (local.offset().local_minus_utc(), text)
}

/// chrono's `Utc::now`, as whole seconds and the nanoseconds behind them. The
/// clock decides; claims only that the moment is not before 1970 and is one that
/// chrono can hold.
#[verifier::external_body]
fn clock() -> (r: (i64, u32))
    ensures
        0 <= r.0 <= MAX_SECONDS,
        r.1 < 1_000_000_000,
{
    let now = chrono::Utc::now();
    (now.timestamp(), now.timestamp_subsec_nanos())
}

/// A reading of std's monotonic clock.
#[verifier::external_type_specification]
#[verifier::external_body]
pub struct ExInstant(std::time::Instant);

/// `std::time::Instant::now`. The clock decides, so nothing is claimed of it.
#[verifier::external_body]
pub(crate) fn start_clock() -> (started: std::time::Instant) {
    std::time::Instant::now()
}

/// `std::time::Instant::elapsed`, in nanoseconds. The clock decides, so nothing
/// is claimed of it.
#[verifier::external_body]
pub(crate) fn nanos_elapsed(started: &std::time::Instant) -> (nanos: u128) {
    started.elapsed().as_nanos()
}

impl View for Timestamp {
    type V = int;

    /// The nanoseconds since 1970.
    closed spec fn view(&self) -> int {
        self.nanos as int
    }
}

impl Timestamp {
    #[verifier::type_invariant]
    closed spec fn within_range(self) -> bool {
        in_range(self.nanos as int)
    }

    /// The whole seconds since 1970.
    pub open spec fn spec_secs(self) -> int {
        self@ / (NANOS_PER_SECOND as int)
    }

    /// The nanoseconds behind the whole seconds.
    pub open spec fn spec_subsec(self) -> int {
        self@ % (NANOS_PER_SECOND as int)
    }

    /// The text of the moment in UTC.
    pub open spec fn spec_rfc3339(self) -> Seq<char> {
        rfc3339(self.spec_secs() as i64, self.spec_subsec() as u32)
    }

    /// The text of the moment in UTC with `Z` for the zone, as it stands in JSON.
    pub open spec fn spec_zulu(self) -> Seq<char> {
        rfc3339_zulu(self.spec_secs() as i64, self.spec_subsec() as u32)
    }

    /// The milliseconds from `earlier` to this moment, rounded toward zero.
    pub open spec fn spec_millis_since(self, earlier: Timestamp) -> int {
        toward_zero(self@ - earlier@, NANOS_PER_MILLI as int)
    }

    /// A moment from the nanoseconds since 1970, where it is within range.
    pub fn from_nanos(nanos: i128) -> (r: Option<Timestamp>)
        ensures
            match r {
                Some(t) => in_range(nanos as int) && t@ == nanos,
                None => !in_range(nanos as int),
            },
    {
        if (MIN_SECONDS as i128) * NANOS_PER_SECOND <= nanos && nanos < (MAX_SECONDS as i128 + 1)
            * NANOS_PER_SECOND {
            Some(Timestamp { nanos })
        } else {
            None
        }
    }

    /// A moment from whole seconds since 1970 and the nanoseconds behind them,
    /// where it is within range.
    pub fn from_parts(secs: i64, subsec: u32) -> (r: Option<Timestamp>)
        ensures
            match r {
                Some(t) => {
                    &&& in_range(secs * NANOS_PER_SECOND + subsec)
                    &&& t@ == secs * NANOS_PER_SECOND + subsec
                },
                None => !in_range(secs * NANOS_PER_SECOND + subsec),
            },
    {
        let nanos: i128 = (secs as i128) * NANOS_PER_SECOND + subsec as i128;
        Timestamp::from_nanos(nanos)
    }

    /// The nanoseconds since 1970.
    pub fn nanos(&self) -> (n: i128)
        ensures
            n == self@,
            in_range(n as int),
    {
        proof {
            use_type_invariant(self);
        }
        self.nanos
    }

    /// The whole seconds since 1970.
    pub fn secs(&self) -> (secs: i64)
        ensures
            secs == self.spec_secs(),
            MIN_SECONDS <= secs <= MAX_SECONDS,
    {
        proof {
            use_type_invariant(self);
        }
        let secs: i128 = self.nanos.checked_div_euclid(NANOS_PER_SECOND).unwrap();
        secs as i64
    }

    /// The nanoseconds behind the whole seconds.
    pub fn subsec_nanos(&self) -> (subsec: u32)
        ensures
            subsec == self.spec_subsec(),
            subsec < 1_000_000_000,
    {
        let subsec: i128 = self.nanos.checked_rem_euclid(NANOS_PER_SECOND).unwrap();
        subsec as u32
    }

    /// Tells whether this moment is not after `other`.
    pub fn at_most(&self, other: &Timestamp) -> (r: bool)
        ensures
            r == (self@ <= other@),
    {
        self.nanos <= other.nanos
    }

    /// Tells whether this moment is before `other`.
    pub fn is_before(&self, other: &Timestamp) -> (r: bool)
        ensures
            r == (self@ < other@),
    {
        self.nanos < other.nanos
    }

    /// Tells whether two moments are the same.
    pub fn is_same(&self, other: &Timestamp) -> (r: bool)
        ensures
            r == (self@ == other@),
    {
        self.nanos == other.nanos
    }

    /// The nanoseconds from `earlier` to this moment.
    pub fn nanos_since(&self, earlier: &Timestamp) -> (n: i128)
        ensures
            n == self@ - earlier@,
    {
        proof {
            use_type_invariant(self);
            use_type_invariant(earlier);
        }
        self.nanos - earlier.nanos
    }

    /// The milliseconds from `earlier` to this moment, rounded toward zero.
    pub fn millis_since(&self, earlier: &Timestamp) -> (ms: i64)
        ensures
            ms == self.spec_millis_since(*earlier),
    {
        proof {
            use_type_invariant(self);
            use_type_invariant(earlier);
        }
        let n: i128 = self.nanos - earlier.nanos;
        if n < 0 {
            let magnitude: u128 = (-n) as u128;
            -((magnitude / 1_000_000) as i64)
        } else {
            let magnitude: u128 = n as u128;
            (magnitude / 1_000_000) as i64
        }
    }

    /// The moment so many milliseconds later, where it is within range.
    pub fn plus_millis(&self, ms: i64) -> (r: Option<Timestamp>)
        ensures
            match r {
                Some(t) => in_range(t@) && t@ == self@ + ms * NANOS_PER_MILLI,
                None => !in_range(self@ + ms * NANOS_PER_MILLI),
            },
    {
        proof {
            use_type_invariant(self);
        }
        Timestamp::from_nanos(self.nanos + (ms as i128) * NANOS_PER_MILLI)
    }

    /// The moment so many milliseconds earlier, where it is within range.
    pub fn minus_millis(&self, ms: i64) -> (r: Option<Timestamp>)
        ensures
            match r {
                Some(t) => in_range(t@) && t@ == self@ - ms * NANOS_PER_MILLI,
                None => !in_range(self@ - ms * NANOS_PER_MILLI),
            },
    {
        proof {
            use_type_invariant(self);
        }
        Timestamp::from_nanos(self.nanos - (ms as i128) * NANOS_PER_MILLI)
    }

    /// The text of the moment in UTC.
    pub fn to_rfc3339(&self) -> (s: String)
        ensures
            s@ == self.spec_rfc3339(),
    {
        rfc3339_text(self.secs(), self.subsec_nanos())
    }

    /// The text of the moment in UTC with `Z` for the zone, as it stands in
    /// JSON.
    pub fn to_zulu(&self) -> (s: String)
        ensures
            s@ == self.spec_zulu(),
            FIRST_WRITTEN_SECOND <= self.spec_secs() <= LAST_WRITTEN_SECOND ==> parsed_rfc3339(s@)
                == read_back(self.spec_secs() as i64, self.spec_subsec() as u32),
    {
        rfc3339_zulu_text(self.secs(), self.subsec_nanos())
    }
}

/// A length of time.
#[derive(Clone, Copy, PartialEq, Eq, PartialOrd, Ord, Structural, Debug)]
pub struct Span {
    /// The nanoseconds; negative for a span backward.
    pub nanos: i128,
}

impl Span {
    /// A span of so many milliseconds.
    pub fn milliseconds(ms: i64) -> (span: Span)
        ensures
            span.nanos == ms * NANOS_PER_MILLI,
    {
        Span { nanos: (ms as i128) * NANOS_PER_MILLI }
    }

    /// A span of so many seconds.
    pub fn seconds(seconds: i64) -> (span: Span)
        ensures
            span.nanos == seconds * NANOS_PER_SECOND,
    {
        Span { nanos: (seconds as i128) * NANOS_PER_SECOND }
    }
}

/// The current moment. The clock decides which it is.
pub fn now() -> (t: Timestamp)
    ensures
        t@ >= 0,
{
    let (secs, subsec) = clock();
    Timestamp { nanos: (secs as i128) * NANOS_PER_SECOND + subsec as i128 }
}

/// Whether a text is a moment, in nanoseconds since 1970, in the time zone of some
/// machine, with milliseconds and an explicit offset. A moment of the first or of
/// the last day is given in UTC.
pub open spec fn is_local_time(text: Seq<char>, nanos: int) -> bool {
    let secs = nanos / (NANOS_PER_SECOND as int);
    let subsec = nanos % (NANOS_PER_SECOND as int);
    if MIN_SECONDS + DAY_SECONDS <= secs <= MAX_SECONDS - DAY_SECONDS {
        exists|offset: i32|
            -DAY_SECONDS < offset < DAY_SECONDS && text == #[trigger] rfc3339_at(
                secs as i64,
                subsec as u32,
                offset,
            )
    } else {
        text == rfc3339_zulu(secs as i64, subsec as u32)
    }
}

/// The text of a moment in the machine's time zone, with milliseconds and an
/// explicit offset.
pub fn local_iso(timestamp: Timestamp) -> (s: String)
    ensures
        is_local_time(s@, timestamp@),
{
    let secs: i64 = timestamp.secs();
    let subsec: u32 = timestamp.subsec_nanos();
    assert(timestamp@ / (NANOS_PER_SECOND as int) == secs);
    assert(timestamp@ % (NANOS_PER_SECOND as int) == subsec);
    if MIN_SECONDS + DAY_SECONDS <= secs && secs <= MAX_SECONDS - DAY_SECONDS {
        let (offset, text) = local_text(secs, subsec);
        assert(text@ == rfc3339_at(
            (timestamp@ / (NANOS_PER_SECOND as int)) as i64,
            (timestamp@ % (NANOS_PER_SECOND as int)) as u32,
            offset,
        ));
        text
    } else {
        timestamp.to_zulu()
    }
}

/// Reads a moment from an RFC 3339 text. A leap second is read as the second that
/// follows it.
pub fn parse_rfc3339(text: &str) -> (r: Option<Timestamp>)
    ensures
        match parsed_rfc3339(text@) {
            Some(parts) => match r {
                Some(t) => {
                    &&& in_range(parts.0 * NANOS_PER_SECOND + parts.1)
                    &&& t@ == parts.0 * NANOS_PER_SECOND + parts.1
                },
                None => !in_range(parts.0 * NANOS_PER_SECOND + parts.1),
            },
            None => r is None,
        },
{
    match read_rfc3339(text) {
        Some((secs, subsec)) => Timestamp::from_parts(secs, subsec),
        None => None,
    }
}

/// The milliseconds from one moment to another are as many as lie between them where
/// they are whole, and the same backwards with the other sign.
pub proof fn law_milliseconds_count_both_ways(a: Timestamp, b: Timestamp, n: int)
    ensures
        b.spec_millis_since(a) == -a.spec_millis_since(b),
        b@ - a@ == n * 1_000_000 ==> b.spec_millis_since(a) == n,
{
}

} // verus!
