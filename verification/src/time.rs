use chrono::{DateTime, Datelike, NaiveDate, NaiveDateTime, Timelike};
use vstd::prelude::*;

verus! {

/// The calendar reading of a UTC instant: seconds since 1970-01-01
/// 00:00:00 UTC (leap seconds not counted) and its proleptic Gregorian
/// date and time of day.
pub struct CivilTime {
    pub timestamp: int,
    pub year: int,
    pub month: int,
    pub day: int,
    pub ordinal: int,
    pub hour: int,
    pub minute: int,
    pub second: int,
}

/// A UTC instant with one-second resolution, as `chrono::DateTime<Utc>`
/// reads it; values come only from `chrono`, so each is in its range.
#[derive(Debug, Clone, Copy)]
pub struct UtcTime {
    timestamp: i64,
    year: i32,
    month: u32,
    day: u32,
    ordinal: u32,
    hour: u32,
    minute: u32,
    second: u32,
}

impl View for UtcTime {
    type V = CivilTime;

    closed spec fn view(&self) -> CivilTime {
        CivilTime {
            timestamp: self.timestamp as int,
            year: self.year as int,
            month: self.month as int,
            day: self.day as int,
            ordinal: self.ordinal as int,
            hour: self.hour as int,
            minute: self.minute as int,
            second: self.second as int,
        }
    }
}

/// What `chrono::DateTime::<Utc>::from_timestamp(ts, 0)` gives, read
/// through the `Datelike` and `Timelike` getters; `None` outside chrono's
/// range.
pub uninterp spec fn spec_utc_from_timestamp(ts: int) -> Option<CivilTime>;

/// The hour, minute and second of a UTC instant follow from its
/// timestamp: they are the time of day of `timestamp mod 86400` seconds.
pub open spec fn time_of_day_fits(c: CivilTime) -> bool {
    &&& c.hour == (c.timestamp % 86400) / 3600
    &&& c.minute == (c.timestamp % 3600) / 60
    &&& c.second == c.timestamp % 60
}

/// Whether `y` is a leap year of the proleptic Gregorian calendar.
pub open spec fn leap_year(y: int) -> bool {
    (y % 4 == 0 && y % 100 != 0) || y % 400 == 0
}

/// The proleptic Gregorian date of the day `days` after 1970-01-01 (before
/// it when negative): its year, month, day of the month and day of the
/// year. Days are counted in cycles of 400 years from 0000-03-01, so that
/// February, with its leap day, ends each year of the count.
pub open spec fn civil_date(days: int) -> (int, int, int, int) {
    let z = days + 719468;
    let era = z / 146097;
    let doe = z - era * 146097;
    let yoe = (doe - doe / 1460 + doe / 36524 - doe / 146096) / 365;
    let doy = doe - (365 * yoe + yoe / 4 - yoe / 100);
    let mp = (5 * doy + 2) / 153;
    let day = doy - (153 * mp + 2) / 5 + 1;
    let year = yoe + era * 400;
    if mp < 10 {
        (year, mp + 3, day, doy + 60 + (if leap_year(year) { 1int } else { 0int }))
    } else {
        (year + 1, mp - 9, day, doy - 305)
    }
}

/// The date of a UTC instant is the calendar date of its day.
pub open spec fn date_fits(c: CivilTime) -> bool {
    civil_date(c.timestamp / 86400) == (c.year, c.month, c.day, c.ordinal)
}

/// What `chrono::NaiveDateTime::parse_from_str(s, fmt)` gives, read as a
/// UTC instant; the error is the text of chrono's `ParseError`.
pub uninterp spec fn spec_parse_utc(s: Seq<char>, fmt: Seq<char>) -> Result<CivilTime, Seq<char>>;

/// What `chrono::NaiveDate::parse_from_str(s, fmt)` gives, as the day
/// number `num_days_from_ce` (January 1 of year 1 is day 1).
pub uninterp spec fn spec_parse_date(s: Seq<char>, fmt: Seq<char>) -> Option<int>;

/// What `chrono`'s `format(fmt).to_string()` writes for the instant
/// `ts`.
pub uninterp spec fn spec_format_utc(ts: int, fmt: Seq<char>) -> Seq<char>;

/// A timestamp fits in 64 bits.
pub proof fn lemma_timestamp_bounds(t: UtcTime)
    ensures
        i64::MIN <= t@.timestamp <= i64::MAX,
{
}

impl UtcTime {
    /// Every value is chrono's reading of its own timestamp.
    #[verifier::type_invariant]
    spec fn in_range(self) -> bool {
        spec_utc_from_timestamp(self@.timestamp) == Some(self@) && time_of_day_fits(self@) && date_fits(self@)
    }

    /// The instant `ts` seconds after the Unix epoch, if chrono can
    /// represent it (it can for about 34,000 years on either side).
    pub fn from_timestamp(ts: i64) -> (r: Option<UtcTime>)
        ensures
            r is Some <==> spec_utc_from_timestamp(ts as int) is Some,
            -0x100_0000_0000 <= ts <= 0x100_0000_0000 ==> r is Some,
            r matches Some(t) ==> spec_utc_from_timestamp(ts as int) == Some(t@)
                && t@.timestamp == ts && time_of_day_fits(t@) && date_fits(t@),
    {
        chrono_from_timestamp(ts)
    }

    /// Seconds since the Unix epoch; the date and the hour, minute and
    /// second are the calendar date and time of day it gives.
    pub fn timestamp(&self) -> (r: i64)
        ensures
            r == self@.timestamp,
            time_of_day_fits(self@),
            date_fits(self@),
    {
        proof {
            use_type_invariant(self);
        }
        self.timestamp
    }

    /// The proleptic Gregorian year.
    pub fn year(&self) -> (r: i32)
        ensures
            r == self@.year,
    {
        self.year
    }

    /// The month, 1 to 12.
    pub fn month(&self) -> (r: u32)
        ensures
            r == self@.month,
    {
        self.month
    }

    /// The day of the month, starting at 1.
    pub fn day(&self) -> (r: u32)
        ensures
            r == self@.day,
    {
        self.day
    }

    /// The day of the year, starting at 1.
    pub fn ordinal(&self) -> (r: u32)
        ensures
            r == self@.ordinal,
    {
        self.ordinal
    }

    /// The hour, 0 to 23.
    pub fn hour(&self) -> (r: u32)
        ensures
            r == self@.hour,
    {
        self.hour
    }

    /// The minute, 0 to 59.
    pub fn minute(&self) -> (r: u32)
        ensures
            r == self@.minute,
    {
        self.minute
    }

    /// The second, 0 to 59.
    pub fn second(&self) -> (r: u32)
        ensures
            r == self@.second,
    {
        self.second
    }
}

/// `chrono::DateTime::<Utc>::from_timestamp(ts, 0)` with its calendar
/// getters; the contract names the result and says that a value, when
/// there is one, carries `ts` as its timestamp, the time of day of
/// `ts.rem_euclid(86400)` seconds and the proleptic Gregorian date of day
/// `ts.div_euclid(86400)` after the epoch (chrono splits the timestamp so,
/// and its dates are that calendar's), and that there is one for the
/// timestamps of about 34,000 years on either side of the epoch (chrono's
/// dates reach the years -262143 to 262142).
#[verifier::external_body]
fn chrono_from_timestamp(ts: i64) -> (r: Option<UtcTime>)
    ensures
        r is Some <==> spec_utc_from_timestamp(ts as int) is Some,
        -0x100_0000_0000 <= ts <= 0x100_0000_0000 ==> r is Some,
        r matches Some(t) ==> spec_utc_from_timestamp(ts as int) == Some(t@) && t@.timestamp == ts
            && time_of_day_fits(t@) && date_fits(t@),
{
    match DateTime::from_timestamp(ts, 0) {
        Some(d) => Some(UtcTime {
            timestamp: d.timestamp(), year: d.year(), month: d.month(), day: d.day(),
            ordinal: d.ordinal(), hour: d.hour(), minute: d.minute(), second: d.second(),
        }),
        None => None,
    }
}

/// `chrono::NaiveDateTime::parse_from_str(s, fmt)` read as UTC with its
/// calendar getters; the contract names the result, and says that the
/// instant read round-trips through `from_timestamp` (chrono documents
/// that `from_timestamp` round-trips with `timestamp`), so that its date,
/// hour, minute and second are the calendar date and time of day of its
/// timestamp.
#[verifier::external_body]
pub(crate) fn parse_utc(s: &str, fmt: &str) -> (r: Result<UtcTime, String>)
    ensures
        match r {
            Ok(t) => spec_parse_utc(s@, fmt@) == Ok::<CivilTime, Seq<char>>(t@)
                && spec_utc_from_timestamp(t@.timestamp) == Some(t@) && time_of_day_fits(t@) && date_fits(t@),
            Err(e) => spec_parse_utc(s@, fmt@) == Err::<CivilTime, Seq<char>>(e@),
        },
{
    match NaiveDateTime::parse_from_str(s, fmt) {
        Ok(n) => {
            let d = n.and_utc();
            Ok(UtcTime {
                timestamp: d.timestamp(), year: d.year(), month: d.month(), day: d.day(),
                ordinal: d.ordinal(), hour: d.hour(), minute: d.minute(), second: d.second(),
            })
        },
        Err(e) => Err(e.to_string()),
    }
}

/// `chrono::NaiveDate::parse_from_str(s, fmt)`, as its `num_days_from_ce`;
/// the contract names the result.
#[verifier::external_body]
pub(crate) fn parse_date(s: &str, fmt: &str) -> (r: Option<i32>)
    ensures
        match r {
            Some(d) => spec_parse_date(s@, fmt@) == Some(d as int),
            None => spec_parse_date(s@, fmt@) is None,
        },
{
    match NaiveDate::parse_from_str(s, fmt) {
        Ok(d) => Some(d.num_days_from_ce()),
        Err(_) => None,
    }
}

/// The format strings this library hands to chrono's formatter; each is
/// made of specifiers chrono supports, so formatting cannot fail.
pub open spec fn supported_format(fmt: Seq<char>) -> bool {
    ||| fmt == "%Y"@
    ||| fmt == "%y"@
    ||| fmt == "%m"@
    ||| fmt == "%d"@
    ||| fmt == "%H"@
    ||| fmt == "%M"@
    ||| fmt == "%S"@
    ||| fmt == "%j"@
    ||| fmt == "%Y%m%d_%H%M"@
    ||| fmt == "%Y-%m-%d %H:%M"@
    ||| fmt == "%Y-%m-%d %H:%M:%S"@
    ||| fmt == "%Y-%m-%d %H:%M:%S UTC"@
}

/// The decimal digit `n` (0 to 9).
pub open spec fn digit(n: int) -> char {
    (48 + n) as char
}

/// The last `width` decimal digits of `n` (not negative), zero-padded.
pub open spec fn padded(n: int, width: nat) -> Seq<char>
    decreases width,
{
    if width == 0 {
        Seq::empty()
    } else {
        padded(n / 10, (width - 1) as nat).push(digit(n % 10))
    }
}

/// What chrono writes for a supported format for a date and time with a
/// year from 0 to 9999: each numeric specifier zero-padded to its width
/// (four digits for `%Y`, three for `%j`, two for the rest, `%y` being the
/// year's last two digits), every other character as it stands.
pub open spec fn civil_text(c: CivilTime, fmt: Seq<char>) -> Seq<char> {
    let y = padded(c.year, 4);
    let mo = padded(c.month, 2);
    let d = padded(c.day, 2);
    let h = padded(c.hour, 2);
    let mi = padded(c.minute, 2);
    let se = padded(c.second, 2);
    let date = y + seq!['-'] + mo + seq!['-'] + d + seq![' '] + h + seq![':'] + mi;
    if fmt == "%Y"@ {
        y
    } else if fmt == "%y"@ {
        padded(c.year % 100, 2)
    } else if fmt == "%m"@ {
        mo
    } else if fmt == "%d"@ {
        d
    } else if fmt == "%H"@ {
        h
    } else if fmt == "%M"@ {
        mi
    } else if fmt == "%S"@ {
        se
    } else if fmt == "%j"@ {
        padded(c.ordinal, 3)
    } else if fmt == "%Y%m%d_%H%M"@ {
        y + mo + d + seq!['_'] + h + mi
    } else if fmt == "%Y-%m-%d %H:%M"@ {
        date
    } else if fmt == "%Y-%m-%d %H:%M:%S"@ {
        date + seq![':'] + se
    } else {
        date + seq![':'] + se + seq![' ', 'U', 'T', 'C']
    }
}

/// What chrono writes for the instant `t` with a supported format:
/// spelled out for the years 0 to 9999 (see `civil_text`), named beyond
/// them.
pub open spec fn utc_text(t: CivilTime, fmt: Seq<char>) -> Seq<char> {
    if 0 <= t.year <= 9999 {
        civil_text(t, fmt)
    } else {
        spec_format_utc(t.timestamp, fmt)
    }
}

/// `chrono::DateTime::format(fmt).to_string()` for the instant `t`; the
/// contract names the result and, for a year from 0 to 9999, spells it out
/// (chrono's `%Y` adds a sign and more digits outside those years, which is
/// left to the name).
#[verifier::external_body]
fn chrono_format(t: &UtcTime, fmt: &str) -> (s: String)
    requires
        supported_format(fmt@),
        spec_utc_from_timestamp(t@.timestamp) is Some,
    ensures
        s@ == spec_format_utc(t@.timestamp, fmt@),
        spec_utc_from_timestamp(t@.timestamp) matches Some(c) ==> (0 <= c.year <= 9999 ==> s@ == civil_text(c, fmt@)),
{
    DateTime::from_timestamp(t.timestamp, 0).unwrap().format(fmt).to_string()
}

/// `t` written with the chrono format `fmt`.
pub fn format_utc(t: &UtcTime, fmt: &str) -> (s: String)
    requires
        supported_format(fmt@),
    ensures
        s@ == spec_format_utc(t@.timestamp, fmt@),
        s@ == utc_text(t@, fmt@),
{
    proof {
        use_type_invariant(t);
    }
    chrono_format(t, fmt)
}

} // verus!
