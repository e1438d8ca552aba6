//! Instants and spans of time.
//!
//! An instant counts seconds from the start of 1970 in UTC, and nanoseconds
//! within the second. A leap second is the 59th second of its minute with a
//! thousand million nanoseconds or more.
use vstd::prelude::*;

verus! {

/// The first second that can be represented.
pub const FIRST_SECOND: i64 = -8334601228800;

/// The last second that can be represented.
pub const LAST_SECOND: i64 = 8210266876799;

/// A thousand million: the nanoseconds of a second.
pub const SECOND: u32 = 1000000000;

/// An instant in UTC.
#[derive(Clone, Copy, Debug, PartialEq, Eq, Hash, Structural)]
pub struct Timestamp {
    secs: i64,
    nanos: u32,
}

/// Whether a second and the nanoseconds within it make an instant.
pub open spec fn is_instant(secs: int, nanos: int) -> bool {
    &&& FIRST_SECOND <= secs <= LAST_SECOND
    &&& 0 <= nanos
    &&& nanos < SECOND || (nanos < 2 * SECOND && secs % 60 == 59)
}

/// Whether a clock can say a second and the nanoseconds within it: they are not
/// before 1970, and not in a leap second.
pub open spec fn is_reading(secs: int, nanos: int) -> bool {
    0 <= secs <= LAST_SECOND && 0 <= nanos < SECOND
}

/// The text of an instant, as the `Display` of `chrono::DateTime<Utc>` gives it.
pub uninterp spec fn instant_text(secs: i64, nanos: u32) -> Seq<char>;

/// The debug text of an instant, as the `Debug` of `chrono::DateTime<Utc>` gives
/// it.
pub uninterp spec fn instant_debug(secs: i64, nanos: u32) -> Seq<char>;

/// The text of an instant by RFC 3339, as `chrono::DateTime::to_rfc3339` gives
/// it.
pub uninterp spec fn instant_rfc3339(secs: i64, nanos: u32) -> Seq<char>;

/// The second and nanoseconds that `str::parse` reads as a
/// `chrono::DateTime<Utc>`.
pub uninterp spec fn parsed_instant(s: Seq<char>) -> Option<(i64, u32)>;

/// The `Display` of `chrono::DateTime<Utc>`. The result is named.
#[verifier::external_body]
fn display_instant(secs: i64, nanos: u32) -> (r: String)
    requires
        is_instant(secs as int, nanos as int),
    ensures
        r@ == instant_text(secs, nanos),
{
    format!("{}", chrono::DateTime::from_timestamp(secs, nanos).unwrap())
}

/// The `Debug` of `chrono::DateTime<Utc>`. The result is named.
#[verifier::external_body]
fn debug_instant(secs: i64, nanos: u32) -> (r: String)
    requires
        is_instant(secs as int, nanos as int),
    ensures
        r@ == instant_debug(secs, nanos),
{
    format!("{:?}", chrono::DateTime::from_timestamp(secs, nanos).unwrap())
}

/// `chrono::DateTime::to_rfc3339`. The result is named.
#[verifier::external_body]
fn rfc3339_instant(secs: i64, nanos: u32) -> (r: String)
    requires
        is_instant(secs as int, nanos as int),
    ensures
        r@ == instant_rfc3339(secs, nanos),
{
    chrono::DateTime::from_timestamp(secs, nanos).unwrap().to_rfc3339()
}

/// The `FromStr` of `chrono::DateTime<Utc>`. The second and the nanoseconds that
/// are read are named.
#[verifier::external_body]
fn parse_instant(s: &str) -> (r: Option<(i64, u32)>)
    ensures
        r == parsed_instant(s@),
{
    match s.parse::<chrono::DateTime<chrono::Utc>>() {
        Ok(t) => Some((t.timestamp(), t.timestamp_subsec_nanos())),
        Err(_) => None,
    }
}

/// `chrono::Utc::now`. It counts the time since the start of 1970, in seconds and what
/// is less than one, and makes an instant of it. Which one is left unsaid, and a clock
/// that stands before 1970 is not read.
#[verifier::external_body]
fn clock() -> (r: (i64, u32))
    ensures
        is_reading(r.0 as int, r.1 as int),
{
    let t = chrono::Utc::now();
    (t.timestamp(), t.timestamp_subsec_nanos())
}

impl Timestamp {
    /// The second, counted from the start of 1970.
    pub closed spec fn second(self) -> i64 {
        self.secs
    }

    /// The nanoseconds within the second.
    pub closed spec fn nanosecond(self) -> u32 {
        self.nanos
    }

    #[verifier::type_invariant]
    spec fn well_formed(self) -> bool {
        is_instant(self.secs as int, self.nanos as int)
    }

    /// Whether a clock can say the instant.
    pub open spec fn of_clock(self) -> bool {
        is_reading(self.second() as int, self.nanosecond() as int)
    }

    /// The instant made of a second and nanoseconds.
    pub closed spec fn made(secs: i64, nanos: u32) -> Timestamp {
        Timestamp { secs, nanos }
    }

    pub proof fn lemma_made(secs: i64, nanos: u32)
        ensures
            Timestamp::made(secs, nanos).second() == secs,
            Timestamp::made(secs, nanos).nanosecond() == nanos,
    {
    }

    /// The instant at a second and nanoseconds, where that is one.
    pub fn from_parts(secs: i64, nanos: u32) -> (r: Option<Timestamp>)
        ensures
            r == if is_instant(secs as int, nanos as int) {
                Some(Timestamp::made(secs, nanos))
            } else {
                None
            },
    {
        let in_range = FIRST_SECOND <= secs && secs <= LAST_SECOND;
        if in_range && (nanos < SECOND || (nanos < 2 * SECOND && (secs - FIRST_SECOND) % 60 == 59)) {
            Some(Timestamp { secs, nanos })
        } else {
            None
        }
    }

    pub fn get_second(&self) -> (r: i64)
        ensures
            r == self.second(),
    {
        self.secs
    }

    pub fn get_nanosecond(&self) -> (r: u32)
        ensures
            r == self.nanosecond(),
    {
        self.nanos
    }

    /// The milliseconds since the start of 1970.
    pub open spec fn millis(self) -> int {
        self.second() * 1000 + self.nanosecond() as int / 1000000
    }

    pub fn timestamp_millis(&self) -> (r: i64)
        ensures
            r == self.millis(),
            -8334601228800000 <= r <= 8210266876801000,
    {
        proof {
            use_type_invariant(self);
        }
        self.secs * 1000 + (self.nanos / 1000000) as i64
    }

    /// Whether milliseconds since the start of 1970 make an instant.
    pub open spec fn fits_millis(millis: int) -> bool {
        FIRST_SECOND <= millis / 1000 <= LAST_SECOND
    }

    /// The instant that lies some milliseconds after the start of 1970.
    pub open spec fn at_millis(millis: int) -> Timestamp {
        Timestamp::made((millis / 1000) as i64, (millis % 1000 * 1000000) as u32)
    }

    pub fn from_timestamp_millis(millis: i64) -> (r: Option<Timestamp>)
        ensures
            r == if Timestamp::fits_millis(millis as int) {
                Some(Timestamp::at_millis(millis as int))
            } else {
                None
            },
    {
        let wide: i128 = millis as i128;
        let shifted: i128 = wide + 10000000000000000000;
        let secs: i64 = (shifted / 1000 - 10000000000000000) as i64;
        let rest: u32 = (shifted % 1000) as u32;
        Timestamp::from_parts(secs, rest * 1000000)
    }

    /// Whether an instant comes before another.
    pub open spec fn before(self, other: Timestamp) -> bool {
        self.second() < other.second() || (self.second() == other.second() && self.nanosecond()
            < other.nanosecond())
    }

    pub fn is_before(&self, other: &Timestamp) -> (r: bool)
        ensures
            r == self.before(*other),
    {
        self.secs < other.secs || (self.secs == other.secs && self.nanos < other.nanos)
    }

    pub fn same(&self, other: &Timestamp) -> (r: bool)
        ensures
            r == (*self == *other),
    {
        self.secs == other.secs && self.nanos == other.nanos
    }

    /// The text of the instant.
    pub fn to_text(&self) -> (r: String)
        ensures
            r@ == instant_text(self.second(), self.nanosecond()),
    {
        proof {
            use_type_invariant(self);
        }
        display_instant(self.secs, self.nanos)
    }

    /// The debug text of the instant.
    pub fn to_debug(&self) -> (r: String)
        ensures
            r@ == instant_debug(self.second(), self.nanosecond()),
    {
        proof {
            use_type_invariant(self);
        }
        debug_instant(self.secs, self.nanos)
    }

    /// The text of the instant by RFC 3339.
    pub fn to_rfc3339(&self) -> (r: String)
        ensures
            r@ == instant_rfc3339(self.second(), self.nanosecond()),
    {
        proof {
            use_type_invariant(self);
        }
        rfc3339_instant(self.secs, self.nanos)
    }

    /// The instant that a text stands for, if it does.
    pub open spec fn from_text(s: Seq<char>) -> Option<Timestamp> {
        Timestamp::from_reading(parsed_instant(s))
    }

    /// The instant that a second and nanoseconds read from a text make.
    pub open spec fn from_reading(reading: Option<(i64, u32)>) -> Option<Timestamp> {
        match reading {
            Some((secs, nanos)) => if is_instant(secs as int, nanos as int) {
                Some(Timestamp::made(secs, nanos))
            } else {
                None
            },
            None => None,
        }
    }

    /// Reads an instant from a text.
    pub fn parse(s: &str) -> (r: Option<Timestamp>)
        ensures
            r == Timestamp::from_text(s@),
    {
        match parse_instant(s) {
            Some((secs, nanos)) => Timestamp::from_parts(secs, nanos),
            None => None,
        }
    }

    /// What the clock says: an instant that is not before 1970, nor in a leap second.
    pub fn now() -> (r: Timestamp)
        ensures
            r.of_clock(),
    {
        let (secs, nanos) = clock();
        Timestamp { secs, nanos }
    }
}

/// A span of time.
#[derive(Clone, Copy, Debug, PartialEq, Eq, Structural)]
pub struct Duration {
    pub secs: u64,
    pub nanos: u32,
}

/// The longest span that an instant can be moved by, in nanoseconds.
pub open spec fn longest_move() -> int {
    9223372036854775807000000
}

impl Duration {
    pub fn from_secs(secs: u64) -> (r: Duration)
        ensures
            r == (Duration { secs, nanos: 0 }),
    {
        Duration { secs, nanos: 0 }
    }

    pub fn from_millis(millis: u64) -> (r: Duration)
        ensures
            r == (Duration { secs: millis / 1000, nanos: (millis % 1000 * 1000000) as u32 }),
            r.millis() == millis,
    {
        Duration { secs: millis / 1000, nanos: (millis % 1000) as u32 * 1000000 }
    }

    /// The whole milliseconds of the span.
    pub open spec fn millis(self) -> int {
        self.secs * 1000 + self.nanos as int / 1000000
    }

    pub fn as_millis(&self) -> (r: u128)
        ensures
            r == self.millis(),
    {
        self.secs as u128 * 1000 + (self.nanos / 1000000) as u128
    }

    /// The nanoseconds that an instant is moved by: none where the span is longer
    /// than an instant can be moved by.
    pub open spec fn move_nanos(self) -> int {
        let total = self.secs * 1000000000 + self.nanos;
        if total <= longest_move() {
            total
        } else {
            0
        }
    }

    fn get_move_nanos(&self) -> (r: i128)
        ensures
            r == self.move_nanos(),
            0 <= r <= longest_move(),
    {
        let total: i128 = self.secs as i128 * 1000000000 + self.nanos as i128;
        if total <= 9223372036854775807000000 {
            total
        } else {
            0
        }
    }
}

/// Where an instant gets by being moved: the second, and the nanoseconds within
/// it. Within a leap second, and from it into the second before, the move is
/// counted in nanoseconds alone; a longer move leaves from the end of the leap
/// second's place in the minute.
pub open spec fn moved(t: Timestamp, by: int) -> (int, int) {
    let secs = t.second() as int;
    let nanos = t.nanosecond() as int;
    if nanos < SECOND {
        let total = secs * 1000000000 + nanos + by;
        (total / 1000000000, total % 1000000000)
    } else if by >= 1000000000 || (by > 0 && nanos + by >= 2000000000) {
        let total = secs * 1000000000 + (nanos - 1000000000) + by;
        (total / 1000000000, total % 1000000000)
    } else if by <= -1000000000 {
        let total = (secs + 1) * 1000000000 + (nanos - 1000000000) + by;
        (total / 1000000000, total % 1000000000)
    } else {
        (secs, nanos + by)
    }
}

/// Whether an instant can be moved so far.
pub open spec fn can_move(t: Timestamp, by: int) -> bool {
    FIRST_SECOND <= moved(t, by).0 <= LAST_SECOND
}

/// The instant that lies so far from another.
pub open spec fn move_by(t: Timestamp, by: int) -> Timestamp {
    Timestamp::made(moved(t, by).0 as i64, moved(t, by).1 as u32)
}

fn checked_move(t: &Timestamp, by: i128) -> (r: Option<Timestamp>)
    requires
        -longest_move() <= by <= longest_move(),
    ensures
        r == if can_move(*t, by as int) {
            Some(move_by(*t, by as int))
        } else {
            None
        },
{
    proof {
        use_type_invariant(t);
    }
    let base: i128 = if t.nanos < SECOND {
        t.secs as i128 * 1000000000 + t.nanos as i128
    } else if by >= 1000000000 || (by > 0 && t.nanos as i128 + by >= 2000000000) {
        t.secs as i128 * 1000000000 + (t.nanos as i128 - 1000000000)
    } else if by <= -1000000000 {
        (t.secs as i128 + 1) * 1000000000 + (t.nanos as i128 - 1000000000)
    } else {
        return Some(Timestamp { secs: t.secs, nanos: (t.nanos as i128 + by) as u32 });
    };
    let total: i128 = base + by;
    // Shifted up so that the quotient is rounded down.
    let shifted: i128 = total + 100000000000000000000000000;
    let secs: i128 = shifted / 1000000000 - 100000000000000000;
    let nanos: i128 = shifted % 1000000000;
    proof {
        assert(shifted / 1000000000 - 100000000000000000 == total / 1000000000);
        assert(shifted % 1000000000 == total % 1000000000);
    }
    if secs < FIRST_SECOND as i128 || secs > LAST_SECOND as i128 {
        return None;
    }
    Some(Timestamp { secs: secs as i64, nanos: nanos as u32 })
}

impl Timestamp {
    /// The instant a span earlier, where there is one.
    pub fn checked_sub(&self, span: &Duration) -> (r: Option<Timestamp>)
        ensures
            r == if can_move(*self, -span.move_nanos()) {
                Some(move_by(*self, -span.move_nanos()))
            } else {
                None
            },
    {
        checked_move(self, -span.get_move_nanos())
    }

    /// The instant a span later, where there is one.
    pub fn checked_add(&self, span: &Duration) -> (r: Option<Timestamp>)
        ensures
            r == if can_move(*self, span.move_nanos()) {
                Some(move_by(*self, span.move_nanos()))
            } else {
                None
            },
    {
        checked_move(self, span.get_move_nanos())
    }
}

} // verus!
