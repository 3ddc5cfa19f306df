//! The date and time stamped into the name of the file that is written, and
//! that name itself.

use vstd::prelude::*;
use crate::text::{decimal_digits, push_char, push_str, zero_padded};

verus! {

/// The earliest year that `chrono::NaiveDate` holds.
pub const MIN_YEAR: i32 = -262143;

/// The latest year that `chrono::NaiveDate` holds.
pub const MAX_YEAR: i32 = 262142;

/// A leap year of the proleptic Gregorian calendar.
pub open spec fn is_leap_year(y: int) -> bool {
    (y % 4 == 0 && y % 100 != 0) || y % 400 == 0
}

/// The number of days in month `m` (1 to 12) of year `y`.
pub open spec fn days_in_month(y: int, m: int) -> int {
    if m == 2 {
        if is_leap_year(y) { 29 } else { 28 }
    } else if m == 4 || m == 6 || m == 9 || m == 11 {
        30
    } else {
        31
    }
}

/// The months of the Gregorian calendar: January, March, May, July, August,
/// October and December have 31 days; April, June, September and November
/// have 30; February has 29 in a leap year and 28 otherwise.
pub proof fn law_month_lengths(y: int, m: int)
    requires
        1 <= m <= 12,
    ensures
        m == 1 || m == 3 || m == 5 || m == 7 || m == 8 || m == 10 || m == 12 ==> days_in_month(y, m)
            == 31,
        m == 4 || m == 6 || m == 9 || m == 11 ==> days_in_month(y, m) == 30,
        m == 2 ==> days_in_month(y, m) == if is_leap_year(y) {
            29int
        } else {
            28int
        },
{
}

/// A year has 366 days when it is a leap year and 365 otherwise; leap years
/// come every four years, except for the century years not divisible by 400.
pub proof fn law_year_length(y: int)
    ensures
        days_in_month(y, 1) + days_in_month(y, 2) + days_in_month(y, 3) + days_in_month(y, 4)
            + days_in_month(y, 5) + days_in_month(y, 6) + days_in_month(y, 7) + days_in_month(y, 8)
            + days_in_month(y, 9) + days_in_month(y, 10) + days_in_month(y, 11) + days_in_month(
            y,
            12,
        ) == if is_leap_year(y) {
            366int
        } else {
            365int
        },
        is_leap_year(2024) && !is_leap_year(2023) && !is_leap_year(1900) && is_leap_year(2000),
        is_leap_year(y) == is_leap_year(y + 400),
        y % 4 != 0 ==> !is_leap_year(y),
{
    assert(is_leap_year(y) == is_leap_year(y + 400)) by {
        assert((y + 400) % 4 == y % 4);
        assert((y + 400) % 100 == y % 100);
        assert((y + 400) % 400 == y % 400);
    }
}

/// Every real date and time of the years `chrono` covers is a stamp, and
/// nothing else is.
pub proof fn law_real_dates_are_stamps(y: int, mo: int, d: int, h: int, mi: int, s: int)
    requires
        MIN_YEAR <= y <= MAX_YEAR,
        1 <= mo <= 12,
        0 <= h < 24,
        0 <= mi < 60,
        0 <= s < 60,
    ensures
        valid_date_time(y, mo, d, h, mi, s) <==> 1 <= d <= days_in_month(y, mo),
        (mo == 1 || mo == 3 || mo == 5 || mo == 7 || mo == 8 || mo == 10 || mo == 12) && 1 <= d <= 31
            ==> valid_date_time(y, mo, d, h, mi, s),
        (mo == 4 || mo == 6 || mo == 9 || mo == 11) && 1 <= d <= 30 ==> valid_date_time(
            y,
            mo,
            d,
            h,
            mi,
            s,
        ),
        mo == 2 && 1 <= d <= 28 ==> valid_date_time(y, mo, d, h, mi, s),
{
    law_month_lengths(y, mo);
}

/// A calendar date and a time of day that `chrono` can represent.
pub open spec fn valid_date_time(y: int, mo: int, d: int, h: int, mi: int, s: int) -> bool {
    &&& MIN_YEAR <= y <= MAX_YEAR
    &&& 1 <= mo <= 12
    &&& 1 <= d <= days_in_month(y, mo)
    &&& 0 <= h < 24
    &&& 0 <= mi < 60
    &&& 0 <= s < 60
}

/// A local date and time, to the second.
pub struct Timestamp {
    year: i32,
    month: u32,
    day: u32,
    hour: u32,
    minute: u32,
    second: u32,
}

impl View for Timestamp {
    type V = (int, int, int, int, int, int);

    closed spec fn view(&self) -> (int, int, int, int, int, int) {
        (
            self.year as int,
            self.month as int,
            self.day as int,
            self.hour as int,
            self.minute as int,
            self.second as int,
        )
    }
}

impl Timestamp {
    #[verifier::type_invariant]
    spec fn well_formed(self) -> bool {
        valid_date_time(
            self.year as int,
            self.month as int,
            self.day as int,
            self.hour as int,
            self.minute as int,
            self.second as int,
        )
    }

    /// The stamp for the given date and time, or `None` when there is no
    /// such date or time of day.
    pub fn new(year: i32, month: u32, day: u32, hour: u32, minute: u32, second: u32) -> (r:
        Option<Timestamp>)
        ensures
            r is Some <==> valid_date_time(
                year as int,
                month as int,
                day as int,
                hour as int,
                minute as int,
                second as int,
            ),
            r matches Some(t) ==> t@ == (
                year as int,
                month as int,
                day as int,
                hour as int,
                minute as int,
                second as int,
            ),
    {
        if year < MIN_YEAR || year > MAX_YEAR || month < 1 || month > 12 || hour >= 24 || minute
            >= 60 || second >= 60 || day < 1 {
            return None;
        }
        // Shifting by a multiple of 400 keeps every divisibility the leap
        // rule asks about and makes the year positive.
        let shifted: u32 = (year as i64 + 400000) as u32;
        proof {
            assert(shifted as int == year as int + 400000);
            assert(shifted % 4 == year % 4) by (nonlinear_arith)
                requires
                    shifted as int == year as int + 400000,
            ;
            assert(shifted % 100 == year % 100) by (nonlinear_arith)
                requires
                    shifted as int == year as int + 400000,
            ;
            assert(shifted % 400 == year % 400) by (nonlinear_arith)
                requires
                    shifted as int == year as int + 400000,
            ;
        }
        let leap = (shifted % 4 == 0 && shifted % 100 != 0) || shifted % 400 == 0;
        let days: u32 = if month == 2 {
            if leap { 29 } else { 28 }
        } else if month == 4 || month == 6 || month == 9 || month == 11 {
            30
        } else {
            31
        };
        if day > days {
            return None;
        }
        Some(Timestamp { year, month, day, hour, minute, second })
    }
}

/// `%Y` of `chrono`'s format: the year with at least four digits, with a
/// sign in front of it when it lies outside 0 to 9999.
pub open spec fn year_text(y: int) -> Seq<char> {
    if 0 <= y <= 9999 {
        zero_padded(y as nat, 4)
    } else if y < 0 {
        seq!['-'] + zero_padded((-y) as nat, 4)
    } else {
        seq!['+'] + zero_padded(y as nat, 4)
    }
}

/// The stamp `YYYY-MM-DD_HH-MM-SS` of a date and time.
pub open spec fn stamp_text(t: (int, int, int, int, int, int)) -> Seq<char> {
    year_text(t.0) + seq!['-'] + zero_padded(t.1 as nat, 2) + seq!['-'] + zero_padded(
        t.2 as nat,
        2,
    ) + seq!['_'] + zero_padded(t.3 as nat, 2) + seq!['-'] + zero_padded(t.4 as nat, 2) + seq![
        '-',
    ] + zero_padded(t.5 as nat, 2)
}

/// The `chrono` format of the stamp: `%Y-%m-%d_%H-%M-%S`.
pub open spec fn stamp_format() -> Seq<char> {
    seq!['%', 'Y', '-', '%', 'm', '-', '%', 'd', '_', '%', 'H', '-', '%', 'M', '-', '%', 'S']
}

/// `chrono::NaiveDateTime::format` with `format`, which can only be the
/// stamp format, on the date and time of `t`. As `chrono` documents it, `%Y`
/// is the year zero-padded to four digits, with a sign outside 0 to 9999,
/// and `%m`, `%d`, `%H`, `%M`, `%S` are two-digit zero-padded numbers. The
/// `unwrap`s never fail: the type's invariant is exactly the dates and times
/// `chrono` accepts.
#[verifier::external_body]
fn format_stamp(t: &Timestamp, format: &str) -> (r: String)
    requires
        format@ == stamp_format(),
    ensures
        r@ == stamp_text(t@),
{
    let date = chrono::NaiveDate::from_ymd_opt(t.year, t.month, t.day).unwrap();
    let at = date.and_hms_opt(t.hour, t.minute, t.second).unwrap();
    at.format(format).to_string()
}

/// A number below 10^`k` has at most `k` digits (and at least one).
proof fn lemma_digits_bound(n: nat, k: nat, bound: nat)
    requires
        k >= 1,
        n < bound,
        bound == if k == 1 {
            10nat
        } else if k == 2 {
            100
        } else if k == 3 {
            1000
        } else {
            10000
        },
        k <= 4,
    ensures
        1 <= decimal_digits(n).len() <= k,
    decreases n,
{
    if n >= 10 {
        assert(k >= 2);
        let smaller: nat = if k == 2 {
            10
        } else if k == 3 {
            100
        } else {
            1000
        };
        assert(n / 10 < smaller);
        lemma_digits_bound(n / 10, (k - 1) as nat, smaller);
    }
}

/// A number below 10^`w` is padded to exactly `w` characters.
proof fn lemma_padded_len(n: nat, w: nat, bound: nat)
    requires
        1 <= w <= 4,
        n < bound,
        bound == if w == 1 {
            10nat
        } else if w == 2 {
            100
        } else if w == 3 {
            1000
        } else {
            10000
        },
    ensures
        zero_padded(n, w).len() == w,
{
    lemma_digits_bound(n, w, bound);
}

/// The stamp of a date and time between the years 0 and 9999 is always 19
/// characters long (`YYYY-MM-DD_HH-MM-SS`).
pub proof fn law_stamp_length(t: (int, int, int, int, int, int))
    requires
        valid_date_time(t.0, t.1, t.2, t.3, t.4, t.5),
        0 <= t.0 <= 9999,
    ensures
        stamp_text(t).len() == 19,
{
    lemma_padded_len(t.0 as nat, 4, 10000);
    lemma_padded_len(t.1 as nat, 2, 100);
    lemma_padded_len(t.2 as nat, 2, 100);
    lemma_padded_len(t.3 as nat, 2, 100);
    lemma_padded_len(t.4 as nat, 2, 100);
    lemma_padded_len(t.5 as nat, 2, 100);
}

/// The suffix that marks a corrected file.
pub open spec fn corrected_marker() -> Seq<char> {
    seq!['_', '\u{438}', '\u{441}', '\u{43f}', '\u{440}', '\u{430}', '\u{432}', '_']
}

/// The extension of the file that is written.
pub open spec fn xlsx_extension() -> Seq<char> {
    seq!['.', 'x', 'l', 's', 'x']
}

/// The name of the file written for an input whose name without extension
/// is `stem`: `{stem}_исправ_{YYYY-MM-DD_HH-MM-SS}.xlsx`.
pub open spec fn output_name(stem: Seq<char>, t: (int, int, int, int, int, int)) -> Seq<char> {
    stem + corrected_marker() + stamp_text(t) + xlsx_extension()
}

/// The name the file gets when the input has no name to take a stem from.
pub open spec fn default_stem() -> Seq<char> {
    seq!['f', 'i', 'l', 'e']
}

/// The name of the file written for an input whose name without extension
/// is `stem`, or `file` when it has none, stamped with `now`.
pub fn output_file_name_for(stem: Option<&str>, now: &Timestamp) -> (r: String)
    ensures
        r@ == output_name(
            match stem {
                Some(s) => s@,
                None => default_stem(),
            },
            now@,
        ),
{
    match stem {
        Some(s) => output_file_name(s, now),
        None => {
            let s = "file";
            proof {
                reveal_strlit("file");
                assert(s@ =~= default_stem());
            }
            output_file_name(s, now)
        },
    }
}

/// The name of the file written for an input whose name without extension
/// is `stem`, stamped with `now`.
pub fn output_file_name(stem: &str, now: &Timestamp) -> (r: String)
    ensures
        r@ == output_name(stem@, now@),
{
    let mut out = String::new();
    push_str(&mut out, stem);
    push_char(&mut out, '_');
    push_char(&mut out, '\u{438}');
    push_char(&mut out, '\u{441}');
    push_char(&mut out, '\u{43f}');
    push_char(&mut out, '\u{440}');
    push_char(&mut out, '\u{430}');
    push_char(&mut out, '\u{432}');
    push_char(&mut out, '_');
    let format = "%Y-%m-%d_%H-%M-%S";
    proof {
        reveal_strlit("%Y-%m-%d_%H-%M-%S");
        assert(format@ =~= stamp_format());
    }
    let stamp = format_stamp(now, format);
    push_str(&mut out, stamp.as_str());
    push_char(&mut out, '.');
    push_char(&mut out, 'x');
    push_char(&mut out, 'l');
    push_char(&mut out, 's');
    push_char(&mut out, 'x');
    assert(out@ =~= output_name(stem@, now@));
    out
}

} // verus!
