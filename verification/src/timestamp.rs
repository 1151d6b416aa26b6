//! Calendar dates of the UTC time scale, counted from the start of 1970, and
//! their text.

use vstd::prelude::*;
use vstd::string::StringExecFns;

verus! {

/// The seconds of one day.
pub const SECONDS_PER_DAY: u64 = 86_400;

/// Whether `year` is a leap year of the Gregorian calendar.
pub open spec fn is_leap_year(year: int) -> bool {
    year % 4 == 0 && (year % 100 != 0 || year % 400 == 0)
}

/// The number of days of `year`.
pub open spec fn days_in_year(year: int) -> int {
    if is_leap_year(year) {
        366
    } else {
        365
    }
}

/// The number of days from the start of 1970 to the start of `year`.
pub open spec fn days_before_year(year: int) -> int
    decreases year - 1970,
{
    if year <= 1970 {
        0
    } else {
        days_before_year(year - 1) + days_in_year(year - 1)
    }
}

/// The number of days of the month `month` (1 to 12) of `year`.
pub open spec fn days_in_month(year: int, month: int) -> int {
    if month == 2 {
        if is_leap_year(year) {
            29
        } else {
            28
        }
    } else if month == 4 || month == 6 || month == 9 || month == 11 {
        30
    } else {
        31
    }
}

/// The number of days from the start of `year` to the start of its month
/// `month`.
pub open spec fn days_before_month(year: int, month: int) -> int
    decreases month,
{
    if month <= 1 {
        0
    } else {
        days_before_month(year, month - 1) + days_in_month(year, month - 1)
    }
}

/// A minute of the calendar.
#[derive(Debug, Clone, Copy, PartialEq, Eq, Structural)]
pub struct CivilTime {
    /// The year, 1970 or later.
    pub year: u64,
    /// The month, 1 to 12.
    pub month: u64,
    /// The day of the month, from 1.
    pub day: u64,
    /// The hour, 0 to 23.
    pub hour: u64,
    /// The minute, 0 to 59.
    pub minute: u64,
}

impl CivilTime {
    /// Whether this is a date of the calendar, 1970 or later, with a time of
    /// day.
    pub open spec fn valid(self) -> bool {
        &&& self.year >= 1970
        &&& 1 <= self.month <= 12
        &&& 1 <= self.day <= days_in_month(self.year as int, self.month as int)
        &&& self.hour < 24
        &&& self.minute < 60
    }

    /// The number of days from the start of 1970 to the start of this day.
    pub open spec fn day_number(self) -> int {
        days_before_year(self.year as int) + days_before_month(
            self.year as int,
            self.month as int,
        ) + self.day - 1
    }

    /// The number of minutes from the start of 1970 to this minute.
    pub open spec fn minute_number(self) -> int {
        (self.day_number() * 24 + self.hour) * 60 + self.minute
    }
}

/// A year has as many days as its twelve months.
proof fn lemma_months_fill_year(year: int)
    ensures
        days_before_month(year, 13) == days_in_year(year),
{
    reveal_with_fuel(days_before_month, 14);
}

/// Later months start later, and every month ends within its year.
proof fn lemma_month_starts(year: int, month: int, later: int)
    requires
        1 <= month <= later <= 13,
    ensures
        days_before_month(year, month) + (later - month) * 28 <= days_before_month(year, later),
        days_before_month(year, later) <= days_in_year(year),
        month < later ==> days_before_month(year, month) + days_in_month(year, month)
            <= days_before_month(year, later),
    decreases later - month,
{
    reveal_with_fuel(days_before_month, 14);
    lemma_months_fill_year(year);
    if month < later {
        lemma_month_starts(year, month, later - 1);
    }
}

/// Later years start later.
proof fn lemma_year_starts(year: int, later: int)
    requires
        1970 <= year <= later,
    ensures
        days_before_year(year) + (later - year) * 365 <= days_before_year(later),
        year < later ==> days_before_year(year) + days_in_year(year) <= days_before_year(later),
    decreases later - year,
{
    if year < later {
        lemma_year_starts(year, later - 1);
    }
}

/// The minute of the calendar in which the instant `secs` seconds after the
/// start of 1970 falls.
pub open spec fn civil_time_of(secs: u64) -> CivilTime {
    choose|t: CivilTime| t.valid() && t.minute_number() == secs / 60
}

/// A minute has one date and one time of day: two valid values with the same
/// minute number are equal.
pub proof fn lemma_civil_time_is_unique(a: CivilTime, b: CivilTime)
    requires
        a.valid(),
        b.valid(),
        a.minute_number() == b.minute_number(),
    ensures
        a == b,
{
    let (da, db) = (a.day_number(), b.day_number());
    assert(da == db && a.hour == b.hour && a.minute == b.minute) by (nonlinear_arith)
        requires
            (da * 24 + a.hour) * 60 + a.minute == (db * 24 + b.hour) * 60 + b.minute,
            a.hour < 24,
            b.hour < 24,
            a.minute < 60,
            b.minute < 60,
    ;
    lemma_date_is_unique(a, b);
}

/// A day has one date: two valid dates with the same day number are the same
/// date.
pub proof fn lemma_date_is_unique(a: CivilTime, b: CivilTime)
    requires
        a.valid(),
        b.valid(),
        a.day_number() == b.day_number(),
    ensures
        a.year == b.year,
        a.month == b.month,
        a.day == b.day,
{
    let (ya, yb) = (a.year as int, b.year as int);
    let (ma, mb) = (a.month as int, b.month as int);
    lemma_month_starts(ya, 1, ma);
    lemma_month_starts(yb, 1, mb);
    lemma_month_starts(ya, ma, 13);
    lemma_month_starts(yb, mb, 13);
    lemma_month_starts(ya, ma, ma + 1);
    lemma_month_starts(yb, mb, mb + 1);
    if ya < yb {
        lemma_year_starts(ya, yb);
    } else if yb < ya {
        lemma_year_starts(yb, ya);
    } else if ma < mb {
        lemma_month_starts(ya, ma, mb);
    } else if mb < ma {
        lemma_month_starts(ya, mb, ma);
    }
}

/// Whether `year` is a leap year.
pub fn leap_year(year: u64) -> (b: bool)
    ensures
        b == is_leap_year(year as int),
{
    year % 4 == 0 && (year % 100 != 0 || year % 400 == 0)
}

/// The number of days of the month `month` of `year`.
pub fn month_length(year: u64, month: u64) -> (n: u64)
    ensures
        n == days_in_month(year as int, month as int),
{
    if month == 2 {
        if leap_year(year) {
            29
        } else {
            28
        }
    } else if month == 4 || month == 6 || month == 9 || month == 11 {
        30
    } else {
        31
    }
}

/// The minute of the calendar in which the instant `secs` seconds after the
/// start of 1970 falls.
pub fn civil_from_unix(secs: u64) -> (r: CivilTime)
    ensures
        r.valid(),
        r.minute_number() == secs / 60,
        r == civil_time_of(secs),
{
    let days = secs / SECONDS_PER_DAY;
    let time = secs % SECONDS_PER_DAY;
    let mut year: u64 = 1970;
    let mut remaining: u64 = days;
    loop
        invariant_except_break
            year >= 1970,
            days_before_year(year as int) + remaining == days,
            year - 1970 <= days - remaining,
            remaining <= days <= u64::MAX / 86_400,
        ensures
            year >= 1970,
            days_before_year(year as int) + remaining == days,
            remaining < days_in_year(year as int),
        decreases remaining,
    {
        let length: u64 = if leap_year(year) {
            366
        } else {
            365
        };
        if remaining < length {
            break;
        }
        remaining -= length;
        year += 1;
    }
    let mut month: u64 = 1;
    proof {
        lemma_months_fill_year(year as int);
    }
    while month < 12 && remaining >= month_length(year, month)
        invariant
            1 <= month <= 12,
            days_before_year(year as int) + days_before_month(year as int, month as int)
                + remaining == days,
            days_before_month(year as int, month as int) + remaining < days_before_month(
                year as int,
                13,
            ),
        decreases 12 - month,
    {
        remaining -= month_length(year, month);
        month += 1;
    }
    proof {
        lemma_month_starts(year as int, month as int, 13);
        lemma_month_starts(year as int, month as int, month + 1);
    }
    let r = CivilTime { year, month, day: remaining + 1, hour: time / 3600, minute: (time % 3600) / 60 };
    assert(r.minute_number() == secs / 60) by {
        assert(r.day_number() == days);
        let s = secs as int;
        assert(s == (s / 86400) * 86400 + s % 86400);
        let t = time as int;
        assert(t == (t / 3600) * 3600 + t % 3600);
        let u = t % 3600;
        assert(u == (u / 60) * 60 + u % 60);
        assert(s == ((r.day_number() * 24 + r.hour) * 60 + r.minute) * 60 + u % 60);
    }
    proof {
        lemma_civil_time_is_unique(r, civil_time_of(secs));
    }
    r
}

/// The ten digits.
pub open spec fn digit(d: int) -> char {
    seq!['0', '1', '2', '3', '4', '5', '6', '7', '8', '9'][d]
}

/// The decimal numeral of `n`.
pub open spec fn decimal(n: nat) -> Seq<char>
    decreases n,
{
    if n < 10 {
        seq![digit(n as int)]
    } else {
        decimal(n / 10).push(digit((n % 10) as int))
    }
}

/// `text` with zeros in front, as many as it takes to reach `width`
/// characters.
pub open spec fn zero_padded(text: Seq<char>, width: nat) -> Seq<char> {
    if text.len() >= width {
        text
    } else {
        Seq::new((width - text.len()) as nat, |i: int| '0') + text
    }
}

/// The text of a minute of the calendar, as in `2024-03-09 07:05 UTC`: the
/// year with four digits or more, the other numbers with two.
pub open spec fn timestamp_text(t: CivilTime) -> Seq<char> {
    zero_padded(decimal(t.year as nat), 4) + seq!['-'] + zero_padded(decimal(t.month as nat), 2)
        + seq!['-'] + zero_padded(decimal(t.day as nat), 2) + seq![' '] + zero_padded(
        decimal(t.hour as nat),
        2,
    ) + seq![':'] + zero_padded(decimal(t.minute as nat), 2) + " UTC"@
}

/// The digit for `d`.
fn digit_char(d: u64) -> (c: char)
    requires
        d < 10,
    ensures
        c == digit(d as int),
{
    let digits = ['0', '1', '2', '3', '4', '5', '6', '7', '8', '9'];
    digits[d as usize]
}

/// The decimal numeral of `n`.
fn decimal_digits(n: u64) -> (r: Vec<char>)
    ensures
        r@ == decimal(n as nat),
    decreases n,
{
    if n < 10 {
        let mut r: Vec<char> = Vec::new();
        r.push(digit_char(n));
        assert(r@ =~= seq![digit(n as int)]);
        r
    } else {
        let mut r = decimal_digits(n / 10);
        r.push(digit_char(n % 10));
        r
    }
}

/// Appends the decimal numeral of `n` to `out`, with zeros in front where it
/// has fewer than `width` digits.
fn push_number(out: &mut String, n: u64, width: usize)
    ensures
        final(out)@ == old(out)@ + zero_padded(decimal(n as nat), width as nat),
{
    let digits = decimal_digits(n);
    let ghost start = out@;
    let zeros: usize = if digits.len() < width {
        width - digits.len()
    } else {
        0
    };
    assert(out@ =~= start + Seq::new(0, |i: int| '0'));
    for k in 0..zeros
        invariant
            out@ == start + Seq::new(k as nat, |i: int| '0'),
    {
        out.push('0');
        assert(out@ =~= start + Seq::new((k + 1) as nat, |i: int| '0'));
    }
    let ghost padded = out@;
    for i in 0..digits.len()
        invariant
            out@ == padded + digits@.take(i as int),
    {
        out.push(digits[i]);
        assert(out@ =~= padded + digits@.take(i + 1));
    }
    assert(digits@.take(digits@.len() as int) =~= digits@);
    assert(out@ =~= start + zero_padded(digits@, width as nat)) by {
        if digits@.len() >= width {
            assert(padded =~= start);
        }
    }
}

/// The text of the minute in which the instant `secs` seconds after the start
/// of 1970 falls.
pub fn format_timestamp(secs: u64) -> (r: String)
    ensures
        r@ == timestamp_text(civil_time_of(secs)),
{
    let t = civil_from_unix(secs);
    let mut r = String::new();
    push_number(&mut r, t.year, 4);
    r.push('-');
    push_number(&mut r, t.month, 2);
    r.push('-');
    push_number(&mut r, t.day, 2);
    r.push(' ');
    push_number(&mut r, t.hour, 2);
    r.push(':');
    push_number(&mut r, t.minute, 2);
    r.append(" UTC");
    assert(r@ =~= timestamp_text(t));
    r
}

} // verus!
