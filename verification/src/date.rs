use vstd::prelude::*;

use crate::util::{digit_val, is_digit};

verus! {

/// A calendar date in the proleptic Gregorian calendar, held as plain
/// year, month and day fields.
#[derive(Debug, PartialEq, Eq, Structural, Clone, Copy, Hash)]
pub struct Date {
    year: u32,
    month: u8,
    day: u8,
}

pub open spec fn spec_is_leap_year(y: int) -> bool {
    y % 4 == 0 && (y % 100 != 0 || y % 400 == 0)
}

/// Days in the given month of the given year.
pub open spec fn spec_days_in_month(y: int, m: int) -> int {
    if m == 2 {
        if spec_is_leap_year(y) {
            29
        } else {
            28
        }
    } else if m == 4 || m == 6 || m == 9 || m == 11 {
        30
    } else {
        31
    }
}

/// Days in the months of year `y` strictly before month `m`.
pub open spec fn spec_days_before_month(y: int, m: int) -> int
    decreases m,
{
    if m <= 1 {
        0
    } else {
        spec_days_before_month(y, m - 1) + spec_days_in_month(y, m - 1)
    }
}

/// A valid calendar date: year at least 1, month 1..=12, day within the month.
pub open spec fn spec_date_valid(y: int, m: int, d: int) -> bool {
    1 <= y <= 9999 && 1 <= m <= 12 && 1 <= d <= spec_days_in_month(y, m)
}

/// Number of leap years in `1..=y`.
pub open spec fn spec_leap_years_through(y: int) -> int {
    y / 4 - y / 100 + y / 400
}

/// Day index of a date, counting from day 0 = January 1 of year 1.
pub open spec fn spec_day_number(y: int, m: int, d: int) -> int {
    365 * (y - 1) + spec_leap_years_through(y - 1) + spec_days_before_month(y, m) + (d - 1)
}

impl Date {
    pub closed spec fn y(&self) -> int {
        self.year as int
    }

    pub closed spec fn m(&self) -> int {
        self.month as int
    }

    pub closed spec fn d(&self) -> int {
        self.day as int
    }

    pub open spec fn valid(&self) -> bool {
        spec_date_valid(self.y(), self.m(), self.d())
    }

    /// Day index of this date; equal dates and only they share it.
    pub open spec fn spec_index(&self) -> int {
        spec_day_number(self.y(), self.m(), self.d())
    }

    pub fn new(year: u32, month: u8, day: u8) -> (r: Option<Date>)
        ensures
            (match r {
                Some(t) => spec_date_valid(year as int, month as int, day as int) && t.y()
                    == year && t.m() == month && t.d() == day && t.valid(),
                None => !spec_date_valid(year as int, month as int, day as int),
            }),
    {
        if 1 <= year && year <= 9999 && 1 <= month && month <= 12 && 1 <= day && day
            <= days_in_month(year, month) {
            Some(Date { year, month, day })
        } else {
            None
        }
    }

    pub fn year(&self) -> (r: u32)
        ensures
            r == self.y(),
    {
        self.year
    }

    pub fn month(&self) -> (r: u8)
        ensures
            r == self.m(),
    {
        self.month
    }

    pub fn day(&self) -> (r: u8)
        ensures
            r == self.d(),
    {
        self.day
    }

    /// Day index of this date as a number, counting from day 0 = January 1
    /// of year 1.
    pub fn day_number(&self) -> (r: u32)
        requires
            self.valid(),
        ensures
            r == self.spec_index(),
    {
        let y = self.year;
        let yp = y - 1;
        let leaps = yp / 4 - yp / 100 + yp / 400;
        let before = days_before_month(y, self.month);
        365 * yp + leaps + before as u32 + (self.day as u32 - 1)
    }
}

fn days_in_month(year: u32, month: u8) -> (r: u8)
    requires
        1 <= month <= 12,
    ensures
        r == spec_days_in_month(year as int, month as int),
{
    if month == 2 {
        if year % 4 == 0 && (year % 100 != 0 || year % 400 == 0) {
            29
        } else {
            28
        }
    } else if month == 4 || month == 6 || month == 9 || month == 11 {
        30
    } else {
        31
    }
}

fn days_before_month(year: u32, month: u8) -> (r: u16)
    requires
        1 <= month <= 12,
    ensures
        r == spec_days_before_month(year as int, month as int),
{
    let mut m: u8 = 1;
    let mut acc: u16 = 0;
    while m < month
        invariant
            1 <= m <= month <= 12,
            acc == spec_days_before_month(year as int, m as int),
            acc <= 31 * (m as int - 1),
        decreases month - m,
    {
        acc = acc + days_in_month(year, m) as u16;
        m = m + 1;
    }
    acc
}

/// The eight bytes form a valid "DDMMYYYY" date field.
pub open spec fn ddmmyyyy_ok(b: Seq<u8>) -> bool {
    b.len() == 8 && (forall|i: int| 0 <= i < 8 ==> is_digit(#[trigger] b[i]))
        && spec_date_valid(ddmmyyyy_year(b), ddmmyyyy_month(b), ddmmyyyy_day(b))
}

pub open spec fn ddmmyyyy_day(b: Seq<u8>) -> int {
    digit_val(b[0]) * 10 + digit_val(b[1])
}

pub open spec fn ddmmyyyy_month(b: Seq<u8>) -> int {
    digit_val(b[2]) * 10 + digit_val(b[3])
}

pub open spec fn ddmmyyyy_year(b: Seq<u8>) -> int {
    digit_val(b[4]) * 1000 + digit_val(b[5]) * 100 + digit_val(b[6]) * 10 + digit_val(b[7])
}

/// Parses the eight-byte "DDMMYYYY" date field at `i`.
pub fn parse_ddmmyyyy(s: &[u8], i: usize) -> (r: Option<Date>)
    requires
        i + 8 <= s@.len(),
    ensures
        (match r {
            Some(t) => ddmmyyyy_ok(s@.subrange(i as int, i + 8)) && t.y() == ddmmyyyy_year(
                s@.subrange(i as int, i + 8),
            ) && t.m() == ddmmyyyy_month(s@.subrange(i as int, i + 8)) && t.d() == ddmmyyyy_day(
                s@.subrange(i as int, i + 8),
            ) && t.valid(),
            None => !ddmmyyyy_ok(s@.subrange(i as int, i + 8)),
        }),
{
    let ghost f = s@.subrange(i as int, i + 8);
    let n = s.len();
    let mut k: usize = 0;
    while k < 8
        invariant
            0 <= k <= 8,
            i + 8 <= s@.len(),
            s@.len() == n,
            f == s@.subrange(i as int, i + 8),
            forall|j: int| 0 <= j < k ==> is_digit(#[trigger] f[j]),
        decreases 8 - k,
    {
        assert(f[k as int] == s@[i + k]);
        let b = s[i + k];
        if b < 48 || b > 57 {
            return None;
        }
        k = k + 1;
    }
    assert(forall|j: int| 0 <= j < 8 ==> is_digit(#[trigger] f[j]));
    let b0 = s[i];
    let b1 = s[i + 1];
    let b2 = s[i + 2];
    let b3 = s[i + 3];
    let b4 = s[i + 4];
    let b5 = s[i + 5];
    let b6 = s[i + 6];
    let b7 = s[i + 7];
    assert(b0 == f[0] && b1 == f[1] && b2 == f[2] && b3 == f[3] && b4 == f[4] && b5 == f[5] && b6
        == f[6] && b7 == f[7]);
    let d = (b0 - 48) * 10 + (b1 - 48);
    let m = (b2 - 48) * 10 + (b3 - 48);
    let y = (b4 - 48) as u32 * 1000 + (b5 - 48) as u32 * 100 + (b6 - 48) as u32 * 10 + (b7
        - 48) as u32;
    assert(d == ddmmyyyy_day(f) && m == ddmmyyyy_month(f) && y == ddmmyyyy_year(f));
    Date::new(y, m, d)
}

} // verus!
