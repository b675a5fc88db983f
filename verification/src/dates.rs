//! Dates: reading them, and writing them in the formats that commits are shown with.

use vstd::prelude::*;

use crate::numbers::{
    decimal, format_i64, format_u64, pad_left, padded_left, parse_i64, read_signed, signed_decimal,
};
use crate::system::{Machine, System};
use crate::text::{
    before_suffix, chars_of, cut, join2, join3, join4, pieces, same, split, split_whitespace,
    strip_suffix, texts, trim, trim_end_matches, trimmed, without_trailing, word_list,
};

verus! {

// ---------------------------------------------------------------------------
// The calendar
// ---------------------------------------------------------------------------

/// The days before the first of a month, counted from the first of March.
pub open spec fn days_before_month(month: int) -> int {
    let shifted = if month > 2 {
        month - 3
    } else {
        month + 9
    };
    (153 * shifted + 2) / 5
}

/// The days from the first of January 1970 to a date, in the Gregorian calendar.
pub open spec fn civil_days(year: int, month: int, day: int) -> int {
    let y = if month <= 2 {
        year - 1
    } else {
        year
    };
    let within = y % 400;
    (y / 400) * 146_097 + within * 365 + within / 4 - within / 100 + days_before_month(month) + day - 1
        - 719_468
}

/// A day of the calendar.
#[verifier::ext_equal]
pub struct Day {
    pub year: int,
    pub month: int,
    pub day: int,
}

/// The date that many days from the first of January 1970.
pub open spec fn civil_date(days: int) -> Day {
    let z = days + 719_468;
    let era = z / 146_097;
    let doe = z % 146_097;
    let yoe = (doe - doe / 1_460 + doe / 36_524 - doe / 146_096) / 365;
    let doy = doe - (365 * yoe + yoe / 4 - yoe / 100);
    let mp = (5 * doy + 2) / 153;
    let month = if mp < 10 {
        mp + 3
    } else {
        mp - 9
    };
    Day {
        year: yoe + era * 400 + (if month <= 2 {
            1int
        } else {
            0
        }),
        month,
        day: doy - (153 * mp + 2) / 5 + 1,
    }
}

#[verifier::spinoff_prover]
#[verifier::rlimit(60)]
proof fn lemma_year_of_era(doe: int)
    requires
        0 <= doe < 146_097,
    ensures
        ({
            let yoe = (doe - doe / 1_460 + doe / 36_524 - doe / 146_096) / 365;
            let doy = doe - (365 * yoe + yoe / 4 - yoe / 100);
            0 <= yoe < 400 && 0 <= doy <= 365
        }),
{
}

/// The date that is found for a number of days is that many days away.
pub proof fn lemma_civil_round_trip(days: int)
    ensures
        ({
            let d = civil_date(days);
            1 <= d.month <= 12 && 1 <= d.day <= 31 && civil_days(d.year, d.month, d.day) == days
        }),
{
    let z = days + 719_468;
    let era = z / 146_097;
    let doe = z % 146_097;
    let yoe = (doe - doe / 1_460 + doe / 36_524 - doe / 146_096) / 365;
    let doy = doe - (365 * yoe + yoe / 4 - yoe / 100);
    lemma_year_of_era(doe);
    let y = yoe + era * 400;
    assert(y / 400 == era && y % 400 == yoe);
    let mp = (5 * doy + 2) / 153;
    assert(0 <= mp <= 11);
}

/// `n` divided by 400, rounded down, and what is left over.
fn by_cycle(n: i128) -> (r: (i128, i128))
    requires
        -0x1_0000_0000_0000_0000_0000 <= n <= 0x1_0000_0000_0000_0000_0000,
    ensures
        r.0 == n as int / 400,
        r.1 == n as int % 400,
{
    if n >= 0 {
        (n / 400, n % 400)
    } else {
        let k: i128 = -(n + 1);
        (-(k / 400) - 1, 399 - k % 400)
    }
}

/// `n` divided by 146,097, rounded down, and what is left over.
fn by_era(n: i128) -> (r: (i128, i128))
    requires
        -0x1_0000_0000_0000_0000_0000 <= n <= 0x1_0000_0000_0000_0000_0000,
    ensures
        r.0 == n as int / 146_097,
        r.1 == n as int % 146_097,
{
    if n >= 0 {
        (n / 146_097, n % 146_097)
    } else {
        let k: i128 = -(n + 1);
        (-(k / 146_097) - 1, 146_096 - k % 146_097)
    }
}

/// `n` divided by 86,400, rounded down, and what is left over.
fn by_day(n: i128) -> (r: (i128, i128))
    requires
        -0x1_0000_0000_0000_0000_0000 <= n <= 0x1_0000_0000_0000_0000_0000,
    ensures
        r.0 == n as int / 86_400,
        r.1 == n as int % 86_400,
{
    if n >= 0 {
        (n / 86_400, n % 86_400)
    } else {
        let k: i128 = -(n + 1);
        (-(k / 86_400) - 1, 86_399 - k % 86_400)
    }
}

/// What is left over when `n` is divided by 7.
fn by_week(n: i128) -> (r: i128)
    requires
        -0x1_0000_0000_0000_0000_0000 <= n <= 0x1_0000_0000_0000_0000_0000,
    ensures
        r == n as int % 7,
{
    if n >= 0 {
        n % 7
    } else {
        let k: i128 = -(n + 1);
        6 - k % 7
    }
}

/// The days from the first of January 1970 to a date.
pub fn days_from_civil(year: i64, month: i64, day: i64) -> (r: i128)
    requires
        1 <= month <= 12,
        1 <= day <= 31,
    ensures
        r == civil_days(year as int, month as int, day as int),
        -0x1_0000_0000_0000_0000_00 <= r <= 0x1_0000_0000_0000_0000_00,
{
    let y: i128 = if month <= 2 {
        year as i128 - 1
    } else {
        year as i128
    };
    let (cycle, within) = by_cycle(y);
    let shifted: i128 = if month > 2 {
        month as i128 - 3
    } else {
        month as i128 + 9
    };
    cycle * 146_097 + within * 365 + within / 4 - within / 100 + (153 * shifted + 2) / 5
        + day as i128 - 1 - 719_468
}

/// A moment, taken apart.
#[derive(Clone, Copy)]
pub struct Moment {
    pub year: i64,
    pub month: u64,
    pub day: u64,
    /// The day of the week, from Sunday on.
    pub weekday: u64,
    pub hour: u64,
    pub minute: u64,
    pub second: u64,
}

/// A moment, taken apart.
pub open spec fn moment_of(timestamp: int) -> Moment {
    let days = timestamp / 86_400;
    let seconds = timestamp % 86_400;
    let d = civil_date(days);
    Moment {
        year: d.year as i64,
        month: d.month as u64,
        day: d.day as u64,
        weekday: ((days + 4) % 7) as u64,
        hour: (seconds / 3_600) as u64,
        minute: (seconds / 60 % 60) as u64,
        second: (seconds % 60) as u64,
    }
}

/// A date in the calendar.
fn date_of(days: i128) -> (r: (i128, i128, i128))
    requires
        -0x1_0000_0000_0000_0000 <= days <= 0x1_0000_0000_0000_0000,
    ensures
        ({
            let d = civil_date(days as int);
            r.0 == d.year && r.1 == d.month && r.2 == d.day
        }),
        -0x1_0000_0000_0000_0000 <= r.0 <= 0x1_0000_0000_0000_0000,
        1 <= r.1 <= 12,
        1 <= r.2 <= 31,
{
    let (era, doe) = by_era(days + 719_468);
    proof {
        lemma_year_of_era(doe as int);
    }
    let yoe: i128 = (doe - doe / 1_460 + doe / 36_524 - doe / 146_096) / 365;
    let doy: i128 = doe - (365 * yoe + yoe / 4 - yoe / 100);
    let mp: i128 = (5 * doy + 2) / 153;
    assert(0 <= mp <= 11);
    let month: i128 = if mp < 10 {
        mp + 3
    } else {
        mp - 9
    };
    let leap: i128 = if month <= 2 {
        1
    } else {
        0
    };
    (yoe + era * 400 + leap, month, doy - (153 * mp + 2) / 5 + 1)
}

/// Takes a moment apart.
pub fn take_apart(timestamp: i64) -> (r: Moment)
    ensures
        r == moment_of(timestamp as int),
{
    let (days, seconds) = by_day(timestamp as i128);
    let (year, month, day) = date_of(days);
    let weekday = by_week(days + 4);
    Moment {
        year: year as i64,
        month: month as u64,
        day: day as u64,
        weekday: weekday as u64,
        hour: (seconds / 3_600) as u64,
        minute: (seconds / 60 % 60) as u64,
        second: (seconds % 60) as u64,
    }
}

// ---------------------------------------------------------------------------
// Writing dates
// ---------------------------------------------------------------------------

/// The short name of a day of the week, from Sunday on.
pub open spec fn weekday_name(n: u64) -> Seq<char> {
    if n == 0 {
        "Sun"@
    } else if n == 1 {
        "Mon"@
    } else if n == 2 {
        "Tue"@
    } else if n == 3 {
        "Wed"@
    } else if n == 4 {
        "Thu"@
    } else if n == 5 {
        "Fri"@
    } else {
        "Sat"@
    }
}

fn name_weekday(n: u64) -> (r: &'static str)
    ensures
        r@ == weekday_name(n),
{
    if n == 0 {
        "Sun"
    } else if n == 1 {
        "Mon"
    } else if n == 2 {
        "Tue"
    } else if n == 3 {
        "Wed"
    } else if n == 4 {
        "Thu"
    } else if n == 5 {
        "Fri"
    } else {
        "Sat"
    }
}

/// The short name of a month.
pub open spec fn month_name(n: u64) -> Seq<char> {
    if n == 1 {
        "Jan"@
    } else if n == 2 {
        "Feb"@
    } else if n == 3 {
        "Mar"@
    } else if n == 4 {
        "Apr"@
    } else if n == 5 {
        "May"@
    } else if n == 6 {
        "Jun"@
    } else if n == 7 {
        "Jul"@
    } else if n == 8 {
        "Aug"@
    } else if n == 9 {
        "Sep"@
    } else if n == 10 {
        "Oct"@
    } else if n == 11 {
        "Nov"@
    } else {
        "Dec"@
    }
}

fn name_month(n: u64) -> (r: &'static str)
    ensures
        r@ == month_name(n),
{
    if n == 1 {
        "Jan"
    } else if n == 2 {
        "Feb"
    } else if n == 3 {
        "Mar"
    } else if n == 4 {
        "Apr"
    } else if n == 5 {
        "May"
    } else if n == 6 {
        "Jun"
    } else if n == 7 {
        "Jul"
    } else if n == 8 {
        "Aug"
    } else if n == 9 {
        "Sep"
    } else if n == 10 {
        "Oct"
    } else if n == 11 {
        "Nov"
    } else {
        "Dec"
    }
}

/// A number with two digits.
pub open spec fn two_digits(n: u64) -> Seq<char> {
    pad_left(decimal(n as nat), '0', 2)
}

fn format_two(n: u64) -> (r: String)
    ensures
        r@ == two_digits(n),
{
    padded_left(format_u64(n).as_str(), '0', 2)
}

/// The time of day.
pub open spec fn clock_text(t: Moment) -> Seq<char> {
    two_digits(t.hour) + ":"@ + two_digits(t.minute) + ":"@ + two_digits(t.second)
}

fn clock(t: &Moment) -> (r: String)
    ensures
        r@ == clock_text(*t),
{
    let mut out = join4(
        format_two(t.hour).as_str(),
        ":",
        format_two(t.minute).as_str(),
        ":",
    );
    out.append(format_two(t.second).as_str());
    out
}

/// The date in numbers.
pub open spec fn short_date_text(t: Moment) -> Seq<char> {
    signed_decimal(t.year as int) + "-"@ + two_digits(t.month) + "-"@ + two_digits(t.day)
}

fn short_date(t: &Moment) -> (r: String)
    ensures
        r@ == short_date_text(*t),
{
    let mut out = join4(
        format_i64(t.year).as_str(),
        "-",
        format_two(t.month).as_str(),
        "-",
    );
    out.append(format_two(t.day).as_str());
    out
}

/// The ways in which a moment is written.
#[derive(Clone, Copy, PartialEq, Eq, Structural)]
pub enum Style {
    /// `Thu Jan 1 00:00:00 1970 +0000`
    Default,
    /// `1970-01-01 00:00:00 +0000`
    Iso,
    /// `1970-01-01T00:00:00+00:00`
    IsoStrict,
    /// `1970-01-01`
    Short,
    /// `Thu, 1 Jan 1970 00:00:00 +0000`
    Mail,
}

/// A moment in one of the ways in which it is written.
pub open spec fn stamped(timestamp: int, style: Style) -> Seq<char> {
    let t = moment_of(timestamp);
    match style {
        Style::Default => weekday_name(t.weekday) + " "@ + month_name(t.month) + " "@ + decimal(
            t.day as nat,
        ) + " "@ + clock_text(t) + " "@ + signed_decimal(t.year as int) + " +0000"@,
        Style::Iso => short_date_text(t) + " "@ + clock_text(t) + " +0000"@,
        Style::IsoStrict => short_date_text(t) + "T"@ + clock_text(t) + "+00:00"@,
        Style::Short => short_date_text(t),
        Style::Mail => weekday_name(t.weekday) + ", "@ + decimal(t.day as nat) + " "@ + month_name(
            t.month,
        ) + " "@ + signed_decimal(t.year as int) + " "@ + clock_text(t) + " +0000"@,
    }
}

/// Writes a moment.
pub fn stamp(timestamp: i64, style: Style) -> (r: String)
    ensures
        r@ == stamped(timestamp as int, style),
{
    let t = take_apart(timestamp);
    match style {
        Style::Default => {
            let mut out = join4(name_weekday(t.weekday), " ", name_month(t.month), " ");
            out.append(format_u64(t.day).as_str());
            out.append(" ");
            out.append(clock(&t).as_str());
            out.append(" ");
            out.append(format_i64(t.year).as_str());
            out.append(" +0000");
            out
        },
        Style::Iso => join4(short_date(&t).as_str(), " ", clock(&t).as_str(), " +0000"),
        Style::IsoStrict => join4(short_date(&t).as_str(), "T", clock(&t).as_str(), "+00:00"),
        Style::Short => short_date(&t),
        Style::Mail => {
            let mut out = join4(
                name_weekday(t.weekday),
                ", ",
                format_u64(t.day).as_str(),
                " ",
            );
            out.append(name_month(t.month));
            out.append(" ");
            out.append(format_i64(t.year).as_str());
            out.append(" ");
            out.append(clock(&t).as_str());
            out.append(" +0000");
            out
        },
    }
}

/// A moment as the log shows it.
pub open spec fn date_text(timestamp: int) -> Seq<char> {
    stamped(timestamp, Style::Default)
}

/// A moment as the log shows it.
pub fn format_date(timestamp: i64) -> (r: String)
    ensures
        r@ == date_text(timestamp as int),
{
    stamp(timestamp, Style::Default)
}

/// How long ago something was, in a unit.
pub open spec fn age_in(count: int, unit: Seq<char>) -> Seq<char> {
    decimal(count as nat) + " "@ + unit + (if count == 1 {
        ""@
    } else {
        "s"@
    }) + " ago"@
}

/// How long ago a moment was, in the largest unit that fits.
pub open spec fn age_text(timestamp: int, now: int) -> Seq<char> {
    let past = now - timestamp;
    let seconds = if past < 0 {
        0
    } else if past > i64::MAX {
        i64::MAX as int
    } else {
        past
    };
    if seconds / 31_556_952 > 0 {
        age_in(seconds / 31_556_952, "year"@)
    } else if seconds / 2_629_746 > 0 {
        age_in(seconds / 2_629_746, "month"@)
    } else if seconds / 604_800 > 0 {
        age_in(seconds / 604_800, "week"@)
    } else if seconds / 86_400 > 0 {
        age_in(seconds / 86_400, "day"@)
    } else if seconds / 3_600 > 0 {
        age_in(seconds / 3_600, "hour"@)
    } else if seconds / 60 > 0 {
        age_in(seconds / 60, "minute"@)
    } else {
        decimal(seconds as nat) + " seconds ago"@
    }
}

fn age(count: u64, unit: &str) -> (r: String)
    ensures
        r@ == age_in(count as int, unit@),
{
    let mut out = join3(format_u64(count).as_str(), " ", unit);
    out.append(
        if count == 1 {
            ""
        } else {
            "s"
        },
    );
    out.append(" ago");
    out
}

/// How long ago a moment was.
pub fn relative_date(timestamp: i64, now: i64) -> (r: String)
    ensures
        r@ == age_text(timestamp as int, now as int),
{
    let past: i128 = now as i128 - timestamp as i128;
    let seconds: u64 = if past < 0 {
        0
    } else if past > i64::MAX as i128 {
        i64::MAX as u64
    } else {
        past as u64
    };
    if seconds / 31_556_952 > 0 {
        age(seconds / 31_556_952, "year")
    } else if seconds / 2_629_746 > 0 {
        age(seconds / 2_629_746, "month")
    } else if seconds / 604_800 > 0 {
        age(seconds / 604_800, "week")
    } else if seconds / 86_400 > 0 {
        age(seconds / 86_400, "day")
    } else if seconds / 3_600 > 0 {
        age(seconds / 3_600, "hour")
    } else if seconds / 60 > 0 {
        age(seconds / 60, "minute")
    } else {
        join2(format_u64(seconds).as_str(), " seconds ago")
    }
}

// ---------------------------------------------------------------------------
// Reading dates
// ---------------------------------------------------------------------------

/// A number of seconds, where it fits.
pub open spec fn in_seconds(n: int) -> Option<int> {
    if i64::MIN <= n <= i64::MAX {
        Some(n)
    } else {
        None
    }
}

/// A number of seconds, where it fits.
fn fit(n: i128) -> (r: Option<i64>)
    ensures
        opt_int(r) == in_seconds(n as int),
{
    if n >= i64::MIN as i128 && n <= i64::MAX as i128 {
        Some(n as i64)
    } else {
        None
    }
}

/// An optional number as a number.
pub open spec fn opt_int(o: Option<i64>) -> Option<int> {
    match o {
        Some(n) => Some(n as int),
        None => None,
    }
}

/// A number that is read.
pub open spec fn number(s: Seq<char>) -> Option<int> {
    read_signed(s, 0x8000_0000_0000_0000)
}

/// The seconds in a unit of time.
pub open spec fn unit_size(unit: Seq<char>) -> Option<int> {
    if unit == "second"@ {
        Some(1)
    } else if unit == "minute"@ {
        Some(60)
    } else if unit == "hour"@ {
        Some(3_600)
    } else if unit == "day"@ {
        Some(86_400)
    } else if unit == "week"@ {
        Some(604_800)
    } else if unit == "month"@ {
        Some(2_629_746)
    } else if unit == "year"@ {
        Some(31_556_952)
    } else {
        None
    }
}

fn size_of_unit(unit: &str) -> (r: Option<i64>)
    ensures
        opt_int(r) == unit_size(unit@),
        match r {
            Some(n) => 1 <= n <= 31_556_952,
            None => true,
        },
{
    if same(unit, "second") {
        Some(1)
    } else if same(unit, "minute") {
        Some(60)
    } else if same(unit, "hour") {
        Some(3_600)
    } else if same(unit, "day") {
        Some(86_400)
    } else if same(unit, "week") {
        Some(604_800)
    } else if same(unit, "month") {
        Some(2_629_746)
    } else if same(unit, "year") {
        Some(31_556_952)
    } else {
        None
    }
}

/// A unit of time in the singular.
pub open spec fn one_unit(unit: Seq<char>) -> Seq<char> {
    match before_suffix(unit, "s"@) {
        Some(u) => u,
        None => unit,
    }
}

/// The moment that `N units ago` names.
pub open spec fn relative_moment(s: Seq<char>, now: int) -> Option<int> {
    match before_suffix(s, " ago"@) {
        None => None,
        Some(span) => {
            let words = word_list(span);
            if words.len() != 2 {
                None
            } else {
                match (number(words[0]), unit_size(one_unit(words[1]))) {
                    (Some(count), Some(size)) => Some(now - count * size),
                    _ => None,
                }
            }
        },
    }
}

/// Where the time of day starts: the first `T` or space from `i` on.
pub open spec fn time_mark(s: Seq<char>, i: int) -> Option<int>
    decreases s.len() - i,
{
    if i < 0 || i >= s.len() {
        None
    } else if s[i] == 'T' || s[i] == ' ' {
        Some(i)
    } else {
        time_mark(s, i + 1)
    }
}

/// The seconds of a time of day.
pub open spec fn time_seconds(s: Seq<char>) -> Option<int> {
    let fields = pieces(without_trailing(s, 'Z'), ':');
    let h = number(fields[0]);
    let m = if fields.len() > 1 {
        number(fields[1])
    } else {
        Some(0)
    };
    let x = if fields.len() > 2 {
        number(fields[2])
    } else {
        Some(0)
    };
    match (h, m, x) {
        (Some(a), Some(b), Some(c)) => if fields.len() <= 3 {
            Some(a * 3_600 + b * 60 + c)
        } else {
            None
        },
        _ => None,
    }
}

/// The seconds up to a date.
pub open spec fn date_seconds(s: Seq<char>) -> Option<int> {
    let parts = pieces(s, '-');
    if parts.len() != 3 {
        None
    } else {
        match (number(parts[0]), number(parts[1]), number(parts[2])) {
            (Some(y), Some(m), Some(d)) => if 1 <= m <= 12 && 1 <= d <= 31 {
                Some(civil_days(y, m, d) * 86_400)
            } else {
                None
            },
            _ => None,
        }
    }
}

/// The moment that an absolute date names.
pub open spec fn absolute_moment(s: Seq<char>) -> Option<int> {
    match time_mark(s, 0) {
        None => date_seconds(s),
        Some(i) => match (
            date_seconds(s.subrange(0, i)),
            time_seconds(s.subrange(i + 1, s.len() as int)),
        ) {
            (Some(a), Some(b)) => Some(a + b),
            _ => None,
        },
    }
}

/// The moment that a date names: a bare number of seconds, `N units ago`, or
/// `YYYY-MM-DD[ HH:MM:SS]`. Anything else is refused, and so is a moment whose seconds do not fit.
pub open spec fn read_date(s: Seq<char>, now: int) -> Option<int> {
    let value = trimmed(s);
    match number(value) {
        Some(n) => Some(n),
        None => match relative_moment(value, now) {
            Some(n) => in_seconds(n),
            None => match absolute_moment(value) {
                Some(n) => in_seconds(n),
                None => None,
            },
        },
    }
}

fn read_unit(unit: &str) -> (r: Option<i64>)
    ensures
        opt_int(r) == unit_size(one_unit(unit@)),
        match r {
            Some(n) => 1 <= n <= 31_556_952,
            None => true,
        },
{
    match strip_suffix(unit, "s") {
        Some(u) => size_of_unit(u.as_str()),
        None => size_of_unit(unit),
    }
}

fn read_relative(s: &str, now: i64) -> (r: Option<i128>)
    ensures
        match r {
            Some(n) => relative_moment(s@, now as int) == Some(n as int),
            None => relative_moment(s@, now as int) is None,
        },
{
    let span = match strip_suffix(s, " ago") {
        Some(x) => x,
        None => return None,
    };
    let words = split_whitespace(span.as_str());
    let ghost list = texts(words@);
    assert(list.len() == words@.len());
    if words.len() != 2 {
        return None;
    }
    assert(list[0] == words@[0]@ && list[1] == words@[1]@);
    let count = match parse_i64(words[0].as_str()) {
        Some(n) => n,
        None => return None,
    };
    let size = match read_unit(words[1].as_str()) {
        Some(n) => n,
        None => return None,
    };
    assert(-0x1_0000_0000_0000_0000 * 31_556_952 <= count * size <= 0x1_0000_0000_0000_0000
        * 31_556_952) by (nonlinear_arith)
        requires
            -0x1_0000_0000_0000_0000 <= count <= 0x1_0000_0000_0000_0000,
            1 <= size <= 31_556_952,
    ;
    Some(now as i128 - (count as i128) * (size as i128))
}

fn find_time_mark(cs: &[char]) -> (r: Option<usize>)
    ensures
        match r {
            Some(i) => time_mark(cs@, 0) == Some(i as int) && i < cs@.len(),
            None => time_mark(cs@, 0) is None,
        },
{
    let mut i: usize = 0;
    while i < cs.len()
        invariant
            i <= cs@.len(),
            time_mark(cs@, 0) == time_mark(cs@, i as int),
        decreases cs@.len() - i,
    {
        if cs[i] == 'T' || cs[i] == ' ' {
            return Some(i);
        }
        i += 1;
    }
    None
}

fn read_field(v: &Vec<String>, i: usize) -> (r: Option<i64>)
    ensures
        opt_int(r) == (if i < v@.len() {
            number(v@[i as int]@)
        } else {
            Some(0int)
        }),
{
    if i < v.len() {
        parse_i64(v[i].as_str())
    } else {
        Some(0)
    }
}

proof fn lemma_pieces_some(s: Seq<char>, sep: char, start: int, i: int)
    requires
        0 <= start <= i <= s.len(),
    ensures
        crate::text::split_at(s, sep, start, i).len() > 0,
    decreases s.len() - i,
{
    if i < s.len() {
        lemma_pieces_some(s, sep, start, i + 1);
        if s[i] == sep {
            lemma_pieces_some(s, sep, i + 1, i + 1);
        }
    }
}

fn read_time(s: &str) -> (r: Option<i128>)
    ensures
        match r {
            Some(n) => time_seconds(s@) == Some(n as int) && -0x1_0000_0000_0000_0000_0000 <= n
                <= 0x1_0000_0000_0000_0000_0000,
            None => time_seconds(s@) is None,
        },
{
    let rest = trim_end_matches(s, 'Z');
    let fields = split(rest.as_str(), ':');
    let ghost list = texts(fields@);
    proof {
        lemma_pieces_some(rest@, ':', 0, 0);
        assert(list.len() == fields@.len());
        assert(list[0] == fields@[0]@);
        if list.len() > 1 {
            assert(list[1] == fields@[1]@);
        }
        if list.len() > 2 {
            assert(list[2] == fields@[2]@);
        }
    }
    if fields.len() > 3 {
        return None;
    }
    match (read_field(&fields, 0), read_field(&fields, 1), read_field(&fields, 2)) {
        (Some(a), Some(b), Some(c)) => Some(a as i128 * 3_600 + b as i128 * 60 + c as i128),
        _ => None,
    }
}

fn read_day(s: &str) -> (r: Option<i128>)
    ensures
        match r {
            Some(n) => date_seconds(s@) == Some(n as int) && -0x1_0000_0000_0000_0000_0000_0000 <= n
                <= 0x1_0000_0000_0000_0000_0000_0000,
            None => date_seconds(s@) is None,
        },
{
    let parts = split(s, '-');
    let ghost list = texts(parts@);
    assert(list.len() == parts@.len());
    if parts.len() != 3 {
        return None;
    }
    assert(list[0] == parts@[0]@ && list[1] == parts@[1]@ && list[2] == parts@[2]@);
    match (
        parse_i64(parts[0].as_str()),
        parse_i64(parts[1].as_str()),
        parse_i64(parts[2].as_str()),
    ) {
        (Some(y), Some(m), Some(d)) => if 1 <= m && m <= 12 && 1 <= d && d <= 31 {
            Some(days_from_civil(y, m, d) * 86_400)
        } else {
            None
        },
        _ => None,
    }
}

fn read_absolute(s: &str) -> (r: Option<i128>)
    ensures
        match r {
            Some(n) => absolute_moment(s@) == Some(n as int),
            None => absolute_moment(s@) is None,
        },
{
    let cs = chars_of(s);
    match find_time_mark(cs.as_slice()) {
        None => read_day(s),
        Some(i) => {
            let end: usize = cs.len();
            assert(i < end);
            let date = cut(cs.as_slice(), 0, i);
            let time = cut(cs.as_slice(), i + 1, end);
            match (read_day(date.as_str()), read_time(time.as_str())) {
                (Some(a), Some(b)) => Some(a + b),
                _ => None,
            }
        },
    }
}

/// The moment that a date names.
pub fn parse_date(s: &str, now: i64) -> (r: Option<i64>)
    ensures
        opt_int(r) == read_date(s@, now as int),
{
    let value = trim(s);
    if let Some(n) = parse_i64(value.as_str()) {
        return Some(n);
    }
    if let Some(n) = read_relative(value.as_str(), now) {
        return fit(n);
    }
    match read_absolute(value.as_str()) {
        Some(n) => fit(n),
        None => None,
    }
}

// ---------------------------------------------------------------------------
// The clock
// ---------------------------------------------------------------------------

/// The time in seconds.
pub open spec fn clock_seconds(m: Machine) -> int {
    (m.clock_ms / 1_000) as int
}

/// The time in seconds.
pub fn now_seconds(system: &System) -> (r: i64)
    ensures
        r == clock_seconds(system@),
{
    (system.wall_time_ms() / 1_000) as i64
}

} // verus!
