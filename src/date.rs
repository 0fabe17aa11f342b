//! Calendar dates written `YYYY-MM-DD`.
use vstd::prelude::*;
use crate::text::{
    agrees, agrees_on_str, at, char_at, chars_of, digits_value, error_at, lemma_digits_value_grows,
    lemma_run_end_bounds, miss, miss_at, read_digits, run_end, scan, string_of, CharClass,
    ErrorKind, Failure, Outcome, ParseError,
};

verus! {

/// A day of the proleptic Gregorian calendar.
#[derive(Clone, Copy, Debug, PartialEq, Eq, Structural)]
pub struct Date {
    /// The year.
    pub year: i32,
    /// The month, from 1 for January to 12 for December.
    pub month: u8,
    /// The day of the month, from 1.
    pub day: u8,
}

impl View for Date {
    type V = Date;

    open spec fn view(&self) -> Date {
        *self
    }
}

pub open spec fn is_leap_year(y: int) -> bool {
    y % 4 == 0 && (y % 100 != 0 || y % 400 == 0)
}

pub open spec fn days_in_month(y: int, m: int) -> int {
    if m == 2 {
        if is_leap_year(y) {
            29
        } else {
            28
        }
    } else if m == 4 || m == 6 || m == 9 || m == 11 {
        30
    } else {
        31
    }
}

/// Whether year `y`, month `m` and day `d` name a day of the calendar, in the
/// years from -9999 to 9999.
pub open spec fn is_calendar_date(y: int, m: int, d: int) -> bool {
    &&& -9999 <= y <= 9999
    &&& 1 <= m <= 12
    &&& 1 <= d <= days_in_month(y, m)
}

/// Relies on `time::Date::from_calendar_date`, given the month through
/// `time::Month::try_from`: it accepts a year from -9999 to 9999, a month from
/// 1 to 12 and a day from 1 to the length of that month, February having 29
/// days in Gregorian leap years.
#[verifier::external_body]
fn calendar_date_exists(year: i32, month: u8, day: u8) -> (r: bool)
    ensures
        r == is_calendar_date(year as int, month as int, day as int),
{
    match time::Month::try_from(month) {
        Ok(m) => time::Date::from_calendar_date(year, m, day).is_ok(),
        Err(_) => false,
    }
}

impl Date {
    /// Whether this is a day of the calendar.
    pub open spec fn is_valid(&self) -> bool {
        is_calendar_date(self.year as int, self.month as int, self.day as int)
    }

    /// The date of year `year`, month `month` and day `day`, if there is one.
    pub fn from_calendar_date(year: i32, month: u8, day: u8) -> (r: Option<Date>)
        ensures
            r is Some <==> is_calendar_date(year as int, month as int, day as int),
            r matches Some(d) ==> d.year == year && d.month == month && d.day == day,
    {
        if calendar_date_exists(year, month, day) {
            Some(Date { year, month, day })
        } else {
            None
        }
    }
}

/// The three runs of digits of `digits-digits-digits` at `p`: where they end
/// and the values of year, month and day.
pub open spec fn date_fields(s: Seq<char>, p: int) -> Result<(int, int, int, int), (int, ErrorKind)> {
    let ye = run_end(s, p, CharClass::Digit);
    let m0 = ye + 1;
    let me = run_end(s, m0, CharClass::Digit);
    let d0 = me + 1;
    let de = run_end(s, d0, CharClass::Digit);
    if ye == p {
        Err(miss(s, p))
    } else if !char_at(s, ye, '-') {
        Err(miss(s, ye))
    } else if me == m0 {
        Err(miss(s, m0))
    } else if !char_at(s, me, '-') {
        Err(miss(s, me))
    } else if de == d0 {
        Err(miss(s, d0))
    } else {
        Ok((de, digits_value(s, p, ye), digits_value(s, m0, me), digits_value(s, d0, de)))
    }
}

/// The date at `p`: three runs of digits separated by `-` that name a day of
/// the calendar.
pub open spec fn spec_date(s: Seq<char>, p: int) -> Outcome<Date> {
    match date_fields(s, p) {
        Ok((e, y, m, d)) => if is_calendar_date(y, m, d) {
            Ok((e, Date { year: y as i32, month: m as u8, day: d as u8 }))
        } else {
            Err((p, ErrorKind::Invalid))
        },
        Err(f) => Err(f),
    }
}

/// Reads the digits `s[a..b]` where they are at most `bound`.
fn field(s: &Vec<char>, a: usize, b: usize, bound: u64) -> (r: Option<u64>)
    requires
        a <= b <= s@.len(),
        b == run_end(s@, a as int, CharClass::Digit),
    ensures
        r == (if digits_value(s@, a as int, b as int) <= bound {
            Some(digits_value(s@, a as int, b as int) as u64)
        } else {
            None::<u64>
        }),
        digits_value(s@, a as int, b as int) >= 0,
{
    proof {
        lemma_run_end_bounds(s@, a as int, CharClass::Digit);
        lemma_digits_value_grows(s@, a as int, b as int, b as int);
    }
    read_digits(s, a, b, bound)
}

/// Parses the date at `p`.
pub fn date_at(s: &Vec<char>, p: usize) -> (r: Result<(usize, Date), Failure>)
    requires
        p <= s@.len(),
    ensures
        agrees(r, spec_date(s@, p as int)),
        r matches Ok((e, d)) ==> p < e <= s@.len() && d.is_valid(),
        r matches Err(f) ==> f.at <= s@.len(),
{
    let ye = scan(s, p, CharClass::Digit);
    if ye == p {
        return Err(miss_at(s, p));
    }
    if !at(s, ye, '-') {
        return Err(miss_at(s, ye));
    }
    let me = scan(s, ye + 1, CharClass::Digit);
    if me == ye + 1 {
        return Err(miss_at(s, me));
    }
    if !at(s, me, '-') {
        return Err(miss_at(s, me));
    }
    let de = scan(s, me + 1, CharClass::Digit);
    if de == me + 1 {
        return Err(miss_at(s, de));
    }
    let y = field(s, p, ye, 9999);
    let m = field(s, ye + 1, me, 12);
    let d = field(s, me + 1, de, 31);
    let invalid = Failure { at: p, kind: ErrorKind::Invalid };
    match (y, m, d) {
        (Some(y), Some(m), Some(d)) => match Date::from_calendar_date(y as i32, m as u8, d as u8) {
            Some(date) => Ok((de, date)),
            None => Err(invalid),
        },
        _ => Err(invalid),
    }
}

/// Parses a date at the start of `i`, handing back the rest of `i`.
pub fn parse_date(i: &str) -> (r: Result<(String, Date), ParseError>)
    ensures
        agrees_on_str(r, i@, spec_date(i@, 0)),
{
    let s = chars_of(i);
    match date_at(&s, 0) {
        Ok((e, d)) => Ok((string_of(&s, e, s.len()), d)),
        Err(f) => Err(error_at(&s, f)),
    }
}

/// Reading a date succeeds exactly on text of the shape `digits-digits-digits`
/// whose numbers name a day of the calendar, and gives that day.
pub proof fn lemma_date_validity(s: Seq<char>)
    ensures
        spec_date(s, 0) is Ok <==> (date_fields(s, 0) matches Ok((_, y, m, d))
            && is_calendar_date(y, m, d)),
        spec_date(s, 0) matches Ok((_, date)) ==> date_fields(s, 0) matches Ok((_, y, m, d))
            && date.year == y && date.month == m && date.day == d,
{
}

} // verus!
