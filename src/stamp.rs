use chrono::{Datelike, NaiveDate, TimeZone, Timelike, Utc};
use vstd::prelude::*;

verus! {

/// The layout of every timestamp this tool reads or writes: `YYYYMMDDHHMMSS`.
pub const STAMP_FORMAT: &'static str = "%Y%m%d%H%M%S";

/// How many characters of a file name or stored value hold its timestamp.
pub const STAMP_LEN: usize = 14;

pub open spec fn is_leap_year(y: int) -> bool {
    y % 4 == 0 && (y % 100 != 0 || y % 400 == 0)
}

pub open spec fn days_in_month(y: int, m: int) -> int {
    if m == 2 {
        if is_leap_year(y) { 29 } else { 28 }
    } else if m == 4 || m == 6 || m == 9 || m == 11 {
        30
    } else {
        31
    }
}

/// A real calendar date and time of day, whatever the year.
pub open spec fn calendar_ok(f: (int, int, int, int, int, int)) -> bool {
    &&& 1 <= f.1 <= 12
    &&& 1 <= f.2 <= days_in_month(f.0, f.1)
    &&& 0 <= f.3 < 24
    &&& 0 <= f.4 < 60
    &&& 0 <= f.5 < 60
}

/// A calendar date and time whose year has four digits.
pub open spec fn stamp_ok(f: (int, int, int, int, int, int)) -> bool {
    0 <= f.0 <= 9999 && calendar_ok(f)
}

/// A point in time (UTC) to the second, with a four-digit year.
#[derive(Clone, Copy, Debug, PartialEq, Eq, Structural)]
pub struct Timestamp {
    year: u32,
    month: u32,
    day: u32,
    hour: u32,
    minute: u32,
    second: u32,
}

impl Timestamp {
    pub closed spec fn fields(self) -> (int, int, int, int, int, int) {
        (
            self.year as int,
            self.month as int,
            self.day as int,
            self.hour as int,
            self.minute as int,
            self.second as int,
        )
    }

    pub closed spec fn wf(self) -> bool {
        stamp_ok(self.fields())
    }

    #[verifier::type_invariant]
    spec fn inv(self) -> bool {
        self.wf()
    }

    /// The timestamp read as the decimal number `YYYYMMDDHHMMSS`; for
    /// well-formed timestamps its order is the chronological order.
    pub closed spec fn rank(self) -> int {
        self.year * 10000000000 + self.month * 100000000 + self.day * 1000000 + self.hour
            * 10000 + self.minute * 100 + self.second
    }

    pub closed spec fn from_fields(f: (int, int, int, int, int, int)) -> Timestamp {
        Timestamp {
            year: f.0 as u32,
            month: f.1 as u32,
            day: f.2 as u32,
            hour: f.3 as u32,
            minute: f.4 as u32,
            second: f.5 as u32,
        }
    }

    /// The start of the Unix epoch, 1970-01-01 00:00:00: the watermark of a
    /// database to which nothing was applied yet.
    pub fn epoch() -> (r: Timestamp)
        ensures
            r.fields() == (1970int, 1int, 1int, 0int, 0int, 0int),
    {
        Timestamp { year: 1970, month: 1, day: 1, hour: 0, minute: 0, second: 0 }
    }

    /// Builds a timestamp from its fields, or `None` where they name no
    /// moment of the calendar or the year has more than four digits.
    pub fn new(year: u32, month: u32, day: u32, hour: u32, minute: u32, second: u32) -> (r:
        Option<Timestamp>)
        ensures
            stamp_ok((year as int, month as int, day as int, hour as int, minute as int, second as int)) <==> r is Some,
            r matches Some(t) ==> t.fields() == (
                year as int,
                month as int,
                day as int,
                hour as int,
                minute as int,
                second as int,
            ),
    {
        if year > 9999 || month < 1 || month > 12 || day < 1 || hour >= 24 || minute >= 60
            || second >= 60 {
            return None;
        }
        let leap = year % 4 == 0 && (year % 100 != 0 || year % 400 == 0);
        let days: u32 = if month == 2 {
            if leap { 29 } else { 28 }
        } else if month == 4 || month == 6 || month == 9 || month == 11 {
            30
        } else {
            31
        };
        if day > days {
            return None;
        }
        Some(Timestamp { year, month, day, hour, minute, second })
    }

    pub fn year(&self) -> (r: u32)
        ensures
            r as int == self.fields().0,
    {
        self.year
    }

    pub fn month(&self) -> (r: u32)
        ensures
            r as int == self.fields().1,
    {
        self.month
    }

    pub fn day(&self) -> (r: u32)
        ensures
            r as int == self.fields().2,
    {
        self.day
    }

    pub fn hour(&self) -> (r: u32)
        ensures
            r as int == self.fields().3,
    {
        self.hour
    }

    pub fn minute(&self) -> (r: u32)
        ensures
            r as int == self.fields().4,
    {
        self.minute
    }

    pub fn second(&self) -> (r: u32)
        ensures
            r as int == self.fields().5,
    {
        self.second
    }

    /// The timestamp as the number `YYYYMMDDHHMMSS`.
    pub fn key(&self) -> (r: u64)
        ensures
            r as int == self.rank(),
            self.wf(),
    {
        proof {
            use_type_invariant(self);
        }
        self.year as u64 * 10000000000 + self.month as u64 * 100000000 + self.day as u64 * 1000000
            + self.hour as u64 * 10000 + self.minute as u64 * 100 + self.second as u64
    }

    /// Whether `self` lies strictly after `other`.
    pub fn is_after(&self, other: &Timestamp) -> (r: bool)
        ensures
            r == (self.rank() > other.rank()),
    {
        self.key() > other.key()
    }
}


pub open spec fn digit_char(n: int) -> char {
    if n == 0 {
        '0'
    } else if n == 1 {
        '1'
    } else if n == 2 {
        '2'
    } else if n == 3 {
        '3'
    } else if n == 4 {
        '4'
    } else if n == 5 {
        '5'
    } else if n == 6 {
        '6'
    } else if n == 7 {
        '7'
    } else if n == 8 {
        '8'
    } else {
        '9'
    }
}

pub open spec fn is_digit(c: char) -> bool {
    '0' <= c <= '9'
}

pub open spec fn digit_value(c: char) -> int {
    c as int - '0' as int
}

/// Two decimal digits of `n`, zero-padded.
pub open spec fn two_digits(n: int) -> Seq<char> {
    seq![digit_char(n / 10), digit_char(n % 10)]
}

/// The `YYYYMMDDHHMMSS` text of a timestamp with fields `f`.
pub open spec fn stamp_text(f: (int, int, int, int, int, int)) -> Seq<char> {
    two_digits(f.0 / 100) + two_digits(f.0 % 100) + two_digits(f.1) + two_digits(f.2) + two_digits(
        f.3,
    ) + two_digits(f.4) + two_digits(f.5)
}

/// Fourteen ASCII digits.
pub open spec fn is_stamp_digits(s: Seq<char>) -> bool {
    s.len() == 14 && forall|i: int| 0 <= i < 14 ==> is_digit(#[trigger] s[i])
}

pub open spec fn pair_value(s: Seq<char>, i: int) -> int {
    10 * digit_value(s[i]) + digit_value(s[i + 1])
}

/// The fields that fourteen digits `YYYYMMDDHHMMSS` spell out.
pub open spec fn stamp_digits_value(s: Seq<char>) -> (int, int, int, int, int, int) {
    (
        100 * pair_value(s, 0) + pair_value(s, 2),
        pair_value(s, 4),
        pair_value(s, 6),
        pair_value(s, 8),
        pair_value(s, 10),
        pair_value(s, 12),
    )
}

/// The characters of `s` that may hold a timestamp: its first fourteen.
pub open spec fn stamp_prefix(s: Seq<char>) -> Seq<char> {
    if s.len() <= 14 {
        s
    } else {
        s.take(14)
    }
}

/// Year, month, day, hour, minute and second of what chrono reads from `s`
/// under the `YYYYMMDDHHMMSS` format, or `None` where it refuses `s`.
pub uninterp spec fn chrono_stamp(s: Seq<char>) -> Option<(int, int, int, int, int, int)>;

pub open spec fn parsed_view(r: Option<(i32, u32, u32, u32, u32, u32)>) -> Option<
    (int, int, int, int, int, int),
> {
    match r {
        Some(f) => Some((f.0 as int, f.1 as int, f.2 as int, f.3 as int, f.4 as int, f.5 as int)),
        None => None,
    }
}

/// Relies on chrono's `TimeZone::datetime_from_str` for `Utc` with the
/// `YYYYMMDDHHMMSS` format, and on the field getters of `DateTime`. A result
/// is a real calendar moment. Fourteen digits are read as four for the year
/// and two for each other field, and are accepted exactly when they form a
/// calendar moment (second 60, a leap second, is left aside).
#[verifier::external_body]
fn chrono_parse(s: &str) -> (r: Option<(i32, u32, u32, u32, u32, u32)>)
    ensures
        parsed_view(r) == chrono_stamp(s@),
        r is Some ==> calendar_ok(parsed_view(r)->0),
        is_stamp_digits(s@) && pair_value(s@, 12) <= 59 ==> parsed_view(r) == if calendar_ok(
            stamp_digits_value(s@),
        ) {
            Some(stamp_digits_value(s@))
        } else {
            None
        },
{
    #[allow(deprecated)]
    match Utc.datetime_from_str(s, STAMP_FORMAT) {
        Ok(d) => Some((d.year(), d.month(), d.day(), d.hour(), d.minute(), d.second())),
        Err(_) => None,
    }
}

/// Relies on chrono's `NaiveDate::from_ymd_opt`, `NaiveDate::and_hms_opt` and
/// `%Y%m%d%H%M%S` formatting: a real calendar moment with a year of at most
/// four digits is written as fourteen zero-padded digits.
#[verifier::external_body]
fn chrono_format(t: &Timestamp) -> (r: Option<String>)
    ensures
        t.wf() ==> r is Some && r->0@ == stamp_text(t.fields()),
{
    match NaiveDate::from_ymd_opt(t.year as i32, t.month, t.day) {
        Some(d) => match d.and_hms_opt(t.hour, t.minute, t.second) {
            Some(n) => Some(n.and_utc().format(STAMP_FORMAT).to_string()),
            None => None,
        },
        None => None,
    }
}

/// What `Timestamp::parse_prefix` returns for a text `s`: fourteen digits
/// `YYYYMMDDHHMMSS` give the moment they spell where it exists; other texts
/// are read by chrono, and only a four-digit year is kept.
pub open spec fn stamp_of(s: Seq<char>) -> Option<Timestamp> {
    let p = stamp_prefix(s);
    if is_stamp_digits(p) && pair_value(p, 12) <= 59 {
        if stamp_ok(stamp_digits_value(p)) {
            Some(Timestamp::from_fields(stamp_digits_value(p)))
        } else {
            None
        }
    } else {
        match chrono_stamp(p) {
            Some(f) => if 0 <= f.0 <= 9999 {
                Some(Timestamp::from_fields(f))
            } else {
                None
            },
            None => None,
        }
    }
}

proof fn lemma_from_fields(t: Timestamp)
    requires
        t.wf(),
    ensures
        Timestamp::from_fields(t.fields()) == t,
        Timestamp::from_fields(t.fields()).fields() == t.fields(),
{
}

proof fn lemma_fields_round_trip(f: (int, int, int, int, int, int))
    requires
        stamp_ok(f),
    ensures
        Timestamp::from_fields(f).fields() == f,
        Timestamp::from_fields(f).wf(),
{
}

impl Timestamp {
    /// Reads the timestamp that the first fourteen characters of `text`
    /// hold, as in a migration file name `YYYYMMDDHHMMSS_slug.sql` or a
    /// stored watermark.
    pub fn parse_prefix(text: &str) -> (r: Option<Timestamp>)
        ensures
            r == stamp_of(text@),
            r matches Some(t) ==> t.wf(),
    {
        let n = text.unicode_len();
        let k: usize = if n <= STAMP_LEN { n } else { STAMP_LEN };
        let p = text.substring_char(0, k);
        assert(p@ == stamp_prefix(text@));
        match chrono_parse(p) {
            Some(f) => {
                if f.0 >= 0 && f.0 <= 9999 {
                    proof {
                        lemma_fields_round_trip(parsed_view(Some(f))->0);
                    }
                    Some(
                        Timestamp {
                            year: f.0 as u32,
                            month: f.1,
                            day: f.2,
                            hour: f.3,
                            minute: f.4,
                            second: f.5,
                        },
                    )
                } else {
                    None
                }
            },
            None => None,
        }
    }

    /// The timestamp written as `YYYYMMDDHHMMSS`.
    pub fn to_stamp_string(&self) -> (r: String)
        ensures
            r@ == stamp_text(self.fields()),
    {
        proof {
            use_type_invariant(self);
        }
        match chrono_format(self) {
            Some(text) => text,
            None => String::new(),
        }
    }
}

proof fn lemma_two_digits(n: int)
    requires
        0 <= n < 100,
    ensures
        pair_value(two_digits(n), 0) == n,
        is_digit(two_digits(n)[0]),
        is_digit(two_digits(n)[1]),
{
    assert(0 <= n / 10 < 10);
    assert(0 <= n % 10 < 10);
    assert(10 * (n / 10) + n % 10 == n);
}

/// Writing a timestamp as `YYYYMMDDHHMMSS` and reading the text back gives
/// the same timestamp.
pub proof fn lemma_stamp_round_trip(t: Timestamp)
    requires
        t.wf(),
    ensures
        stamp_of(stamp_text(t.fields())) == Some(t),
{
    let f = t.fields();
    let s = stamp_text(f);
    assert(0 <= f.0 / 100 < 100);
    assert(0 <= f.0 % 100 < 100);
    assert(100 * (f.0 / 100) + f.0 % 100 == f.0);
    lemma_two_digits(f.0 / 100);
    lemma_two_digits(f.0 % 100);
    lemma_two_digits(f.1);
    lemma_two_digits(f.2);
    lemma_two_digits(f.3);
    lemma_two_digits(f.4);
    lemma_two_digits(f.5);
    assert(s.len() == 14);
    assert(stamp_prefix(s) == s);
    assert forall|i: int| 0 <= i < 14 implies is_digit(#[trigger] s[i]) by {
        if i < 2 {
            assert(s[i] == two_digits(f.0 / 100)[i]);
        } else if i < 4 {
            assert(s[i] == two_digits(f.0 % 100)[i - 2]);
        } else if i < 6 {
            assert(s[i] == two_digits(f.1)[i - 4]);
        } else if i < 8 {
            assert(s[i] == two_digits(f.2)[i - 6]);
        } else if i < 10 {
            assert(s[i] == two_digits(f.3)[i - 8]);
        } else if i < 12 {
            assert(s[i] == two_digits(f.4)[i - 10]);
        } else {
            assert(s[i] == two_digits(f.5)[i - 12]);
        }
    }
    assert(pair_value(s, 0) == f.0 / 100);
    assert(pair_value(s, 2) == f.0 % 100);
    assert(pair_value(s, 4) == f.1);
    assert(pair_value(s, 6) == f.2);
    assert(pair_value(s, 8) == f.3);
    assert(pair_value(s, 10) == f.4);
    assert(pair_value(s, 12) == f.5);
    assert(stamp_digits_value(s) == f);
    lemma_from_fields(t);
}

} // verus!
