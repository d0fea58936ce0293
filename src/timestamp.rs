//! Calendar time in UTC, and the entry ids that are formed from it.

use vstd::prelude::*;
use vstd::string::*;

verus! {

pub const SECONDS_PER_DAY: u64 = 86400;

/// The year that Unix time counts from.
pub const EPOCH_YEAR: u64 = 1970;

pub open spec fn is_leap_year(y: int) -> bool {
    (y % 4 == 0 && y % 100 != 0) || y % 400 == 0
}

pub open spec fn days_in_year(y: int) -> int {
    if is_leap_year(y) {
        366
    } else {
        365
    }
}

/// Days in month `m` (1 to 12) of year `y`.
pub open spec fn days_in_month(y: int, m: int) -> int {
    if m == 2 {
        if is_leap_year(y) {
            29
        } else {
            28
        }
    } else if m == 4 || m == 6 || m == 9 || m == 11 {
        30
    } else {
        31
    }
}

/// Days from the start of year `y` to the start of its month `m` (1 to 12).
pub open spec fn days_before_month(y: int, m: int) -> int {
    let leap_day: int = if m > 2 && is_leap_year(y) {
        1
    } else {
        0
    };
    let before: int = if m <= 1 {
        0
    } else if m == 2 {
        31
    } else if m == 3 {
        59
    } else if m == 4 {
        90
    } else if m == 5 {
        120
    } else if m == 6 {
        151
    } else if m == 7 {
        181
    } else if m == 8 {
        212
    } else if m == 9 {
        243
    } else if m == 10 {
        273
    } else if m == 11 {
        304
    } else {
        334
    };
    leap_day + before
}

/// Days from 1970-01-01 to the start of year `y`.
pub open spec fn days_before_year(y: int) -> int
    decreases y - EPOCH_YEAR,
{
    if y <= EPOCH_YEAR {
        0
    } else {
        days_before_year(y - 1) + days_in_year(y - 1)
    }
}

/// A moment in UTC, to the second, as calendar fields.
#[derive(Clone, Copy, Debug, PartialEq, Eq)]
pub struct CivilTime {
    pub year: u64,
    pub month: u64,
    pub day: u64,
    pub hour: u64,
    pub minute: u64,
    pub second: u64,
}

impl CivilTime {
    /// The fields name a real moment no earlier than the Unix epoch.
    pub open spec fn is_valid(self) -> bool {
        &&& EPOCH_YEAR <= self.year
        &&& 1 <= self.month <= 12
        &&& 1 <= self.day <= days_in_month(self.year as int, self.month as int)
        &&& self.hour < 24
        &&& self.minute < 60
        &&& self.second < 60
    }

    /// Seconds from the Unix epoch to this moment.
    pub open spec fn unix_seconds(self) -> int {
        (days_before_year(self.year as int) + days_before_month(self.year as int, self.month as int)
            + self.day - 1) * SECONDS_PER_DAY + self.hour * 3600 + self.minute * 60 + self.second
    }
}

/// The decimal digit `d` (0 to 9).
pub open spec fn digit_char(d: int) -> char {
    if d == 0 {
        '0'
    } else if d == 1 {
        '1'
    } else if d == 2 {
        '2'
    } else if d == 3 {
        '3'
    } else if d == 4 {
        '4'
    } else if d == 5 {
        '5'
    } else if d == 6 {
        '6'
    } else if d == 7 {
        '7'
    } else if d == 8 {
        '8'
    } else {
        '9'
    }
}

/// `n` in decimal, with leading zeros up to `width` digits.
pub open spec fn decimal(n: nat, width: nat) -> Seq<char>
    decreases n + width,
{
    if n < 10 && width <= 1 {
        seq![digit_char(n as int)]
    } else {
        decimal(n / 10, if width > 0 {
            (width - 1) as nat
        } else {
            0
        }) + seq![digit_char((n % 10) as int)]
    }
}

/// The id of an entry created at `t`: `YYYY-MM-DD_HH-MM-SS`.
pub open spec fn id_text(t: CivilTime) -> Seq<char> {
    decimal(t.year as nat, 4) + seq!['-'] + decimal(t.month as nat, 2) + seq!['-'] + decimal(
        t.day as nat,
        2,
    ) + seq!['_'] + decimal(t.hour as nat, 2) + seq!['-'] + decimal(t.minute as nat, 2) + seq!['-']
        + decimal(t.second as nat, 2)
}

/// Whether `y` is a leap year of the Gregorian calendar.
pub fn leap_year(y: u64) -> (r: bool)
    ensures
        r == is_leap_year(y as int),
{
    (y % 4 == 0 && y % 100 != 0) || y % 400 == 0
}

/// Days in year `y`.
pub fn year_length(y: u64) -> (r: u64)
    ensures
        r == days_in_year(y as int),
{
    if leap_year(y) {
        366
    } else {
        365
    }
}

/// Days in month `m` of year `y`.
pub fn month_length(y: u64, m: u64) -> (r: u64)
    ensures
        r == days_in_month(y as int, m as int),
{
    if m == 2 {
        if leap_year(y) {
            29
        } else {
            28
        }
    } else if m == 4 || m == 6 || m == 9 || m == 11 {
        30
    } else {
        31
    }
}

/// The calendar fields, in UTC, of the moment `secs` seconds after the Unix
/// epoch.
pub fn civil_time_at(secs: u64) -> (t: CivilTime)
    ensures
        t.is_valid(),
        t.unix_seconds() == secs,
{
    let days = secs / SECONDS_PER_DAY;
    let rem = secs % SECONDS_PER_DAY;
    let mut year: u64 = EPOCH_YEAR;
    let mut d: u64 = days;
    while d >= year_length(year)
        invariant
            EPOCH_YEAR <= year,
            days_before_year(year as int) + d == days,
            d + 365 * (year - EPOCH_YEAR) <= days,
            days <= u64::MAX / SECONDS_PER_DAY,
        decreases d,
    {
        d = d - year_length(year);
        year = year + 1;
    }
    let mut month: u64 = 1;
    while d >= month_length(year, month)
        invariant
            1 <= month <= 12,
            d < days_in_year(year as int),
            days_before_month(year as int, month as int) + d < days_in_year(year as int),
            days_before_year(year as int) + days_before_month(year as int, month as int) + d
                == days,
        decreases d,
    {
        d = d - month_length(year, month);
        month = month + 1;
    }
    let t = CivilTime {
        year,
        month,
        day: d + 1,
        hour: rem / 3600,
        minute: rem % 3600 / 60,
        second: rem % 60,
    };
    assert(secs == days * SECONDS_PER_DAY + rem);
    assert(rem == (rem / 3600) * 3600 + (rem % 3600 / 60) * 60 + rem % 60) by (nonlinear_arith)
        requires
            rem < 86400,
    ;
    t
}

/// The digit `d` as text.
fn digit_text(d: u64) -> (r: &'static str)
    requires
        d < 10,
    ensures
        r@ == seq![digit_char(d as int)],
{
    proof {
        reveal_strlit("0");
        reveal_strlit("1");
        reveal_strlit("2");
        reveal_strlit("3");
        reveal_strlit("4");
        reveal_strlit("5");
        reveal_strlit("6");
        reveal_strlit("7");
        reveal_strlit("8");
        reveal_strlit("9");
    }
    if d == 0 {
        "0"
    } else if d == 1 {
        "1"
    } else if d == 2 {
        "2"
    } else if d == 3 {
        "3"
    } else if d == 4 {
        "4"
    } else if d == 5 {
        "5"
    } else if d == 6 {
        "6"
    } else if d == 7 {
        "7"
    } else if d == 8 {
        "8"
    } else {
        "9"
    }
}

/// `n` in decimal, padded with leading zeros to `width` digits.
pub fn decimal_text(n: u64, width: u64) -> (r: String)
    ensures
        r@ == decimal(n as nat, width as nat),
{
    let mut acc = String::new();
    let mut m = n;
    let mut w = width;
    loop
        invariant_except_break
            decimal(n as nat, width as nat) == decimal(m as nat, w as nat) + acc@,
        ensures
            decimal(n as nat, width as nat) == acc@,
        decreases m + w,
    {
        let d = digit_text(m % 10);
        if m < 10 && w <= 1 {
            let next = String::from_str(d).concat(acc.as_str());
            assert(decimal(n as nat, width as nat) =~= next@);
            acc = next;
            break ;
        }
        let next = String::from_str(d).concat(acc.as_str());
        let w2: u64 = if w > 0 {
            w - 1
        } else {
            0
        };
        assert(decimal(m as nat, w as nat) == decimal((m / 10) as nat, w2 as nat) + seq![
            digit_char((m % 10) as int),
        ]);
        assert(decimal(n as nat, width as nat) =~= decimal((m / 10) as nat, w2 as nat) + next@);
        acc = next;
        m = m / 10;
        w = w2;
    }
    acc
}

impl CivilTime {
    /// The id of an entry created at this moment.
    pub fn entry_id(&self) -> (r: String)
        ensures
            r@ == id_text(*self),
    {
        proof {
            reveal_strlit("-");
            reveal_strlit("_");
        }
        let r = decimal_text(self.year, 4).concat("-").concat(
            decimal_text(self.month, 2).as_str(),
        ).concat("-").concat(decimal_text(self.day, 2).as_str()).concat("_").concat(
            decimal_text(self.hour, 2).as_str(),
        ).concat("-").concat(decimal_text(self.minute, 2).as_str()).concat("-").concat(
            decimal_text(self.second, 2).as_str(),
        );
        assert(r@ =~= id_text(*self));
        r
    }
}

/// The id of an entry created `secs` seconds after the Unix epoch: the
/// moment's UTC calendar fields, to the second.
pub fn entry_id_at(secs: u64) -> (r: String)
    ensures
        exists|t: CivilTime| t.is_valid() && t.unix_seconds() == secs && r@ == id_text(t),
{
    let t = civil_time_at(secs);
    t.entry_id()
}

/// No year starts before the epoch.
proof fn lemma_year_start_not_negative(y: int)
    ensures
        0 <= days_before_year(y),
    decreases y - EPOCH_YEAR,
{
    if y > EPOCH_YEAR {
        lemma_year_start_not_negative(y - 1);
    }
}

/// Each year starts after every day of the years before it.
proof fn lemma_year_starts_increase(a: int, b: int)
    requires
        EPOCH_YEAR <= a < b,
    ensures
        days_before_year(a) + days_in_year(a) <= days_before_year(b),
    decreases b - a,
{
    if b > a + 1 {
        lemma_year_starts_increase(a, b - 1);
    }
}

/// Seconds after the Unix epoch name at most one valid calendar time, so
/// the id of an entry is fixed by the moment of its creation.
pub proof fn lemma_civil_time_unique(t1: CivilTime, t2: CivilTime)
    requires
        t1.is_valid(),
        t2.is_valid(),
        t1.unix_seconds() == t2.unix_seconds(),
    ensures
        t1 == t2,
{
    let y1 = t1.year as int;
    let y2 = t2.year as int;
    let d1 = days_before_year(y1) + days_before_month(y1, t1.month as int) + t1.day - 1;
    let d2 = days_before_year(y2) + days_before_month(y2, t2.month as int) + t2.day - 1;
    let s1 = t1.hour * 3600 + t1.minute * 60 + t1.second;
    let s2 = t2.hour * 3600 + t2.minute * 60 + t2.second;
    lemma_year_start_not_negative(y1);
    lemma_year_start_not_negative(y2);
    assert(0 <= d1 && 0 <= d2);
    assert(0 <= s1 < 86400 && 0 <= s2 < 86400);
    assert(d1 == d2 && s1 == s2) by (nonlinear_arith)
        requires
            d1 * 86400 + s1 == d2 * 86400 + s2,
            0 <= s1 < 86400,
            0 <= s2 < 86400,
    ;
    assert(days_before_month(y1, t1.month as int) + t1.day - 1 < days_in_year(y1));
    assert(days_before_month(y2, t2.month as int) + t2.day - 1 < days_in_year(y2));
    if y1 < y2 {
        lemma_year_starts_increase(y1, y2);
    } else if y2 < y1 {
        lemma_year_starts_increase(y2, y1);
    }
    assert(y1 == y2);
    assert(t1.month == t2.month);
    assert(t1.day == t2.day);
    assert(t1.hour == t2.hour && t1.minute == t2.minute && t1.second == t2.second) by (
    nonlinear_arith)
        requires
            t1.hour * 3600 + t1.minute * 60 + t1.second == t2.hour * 3600 + t2.minute * 60
                + t2.second,
            t1.minute < 60,
            t1.second < 60,
            t2.minute < 60,
            t2.second < 60,
    ;
}

} // verus!
