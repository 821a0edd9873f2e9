use vstd::prelude::*;

use crate::util::{ascii_to_string, digit_val, is_digit, str_is_ascii_bytes};
use vstd::string::StringSliceAdditionalSpecFns;

verus! {

/// Time of day as a count of minutes since local midnight.
/// A ride crossing midnight keeps counting, so values may exceed 24 hours.
#[derive(Debug, PartialEq, Eq, Structural, Clone, Copy, Hash)]
pub struct DayOffset {
    pub minutes: u32,
}

/// Why a 4-character "HHMM" field failed to parse.
#[derive(Debug, PartialEq, Eq, Structural, Clone, Copy)]
pub enum ParseError {
    StringSizeInvalid,
    SubsliceParseFailed,
}

/// The four bytes form a valid "HHMM" field: all ASCII digits.
pub open spec fn hhmm_ok(b: Seq<u8>) -> bool {
    b.len() == 4 && is_digit(b[0]) && is_digit(b[1]) && is_digit(b[2]) && is_digit(b[3])
}

/// Minute count denoted by a valid "HHMM" field.
pub open spec fn hhmm_minutes(b: Seq<u8>) -> int {
    (digit_val(b[0]) * 10 + digit_val(b[1])) * 60 + digit_val(b[2]) * 10 + digit_val(b[3])
}

/// The "HHMM" rendering of a minute count below 100 hours.
pub open spec fn hhmm_bytes(minutes: int) -> Seq<u8> {
    let h = minutes / 60;
    let m = minutes % 60;
    seq![
        (48 + h / 10) as u8,
        (48 + h % 10) as u8,
        (48 + m / 10) as u8,
        (48 + m % 10) as u8,
    ]
}

/// The "HH:MM" clock rendering of a minute count, modulo 24 hours.
pub open spec fn clock_bytes(minutes: int) -> Seq<u8> {
    let t = minutes % 1440;
    seq![
        (48 + (t / 60) / 10) as u8,
        (48 + (t / 60) % 10) as u8,
        58u8,
        (48 + (t % 60) / 10) as u8,
        (48 + (t % 60) % 10) as u8,
    ]
}

impl DayOffset {
    /// Minutes since midnight, as a mathematical integer.
    pub open spec fn spec_minutes(&self) -> int {
        self.minutes as int
    }

    /// The offset holding the given minute count, truncated into range.
    pub open spec fn spec_of_minutes(m: int) -> DayOffset {
        DayOffset { minutes: m as u32 }
    }

    pub fn minutes(&self) -> (r: u32)
        ensures
            r == self.spec_minutes(),
    {
        self.minutes
    }

    pub fn from_minutes(minutes: u32) -> (r: Self)
        ensures
            r.spec_minutes() == minutes,
    {
        DayOffset { minutes }
    }

    pub fn from_hour_minute(hours: u32, minutes: u32) -> (r: Self)
        requires
            hours * 60 + minutes <= u32::MAX,
        ensures
            r.spec_minutes() == hours * 60 + minutes,
    {
        DayOffset { minutes: hours * 60 + minutes }
    }

    /// Shifts the offset by a signed number of minutes, saturating at zero
    /// and at the top of the range.
    pub fn offset_by(&self, minutes: i32) -> (r: Self)
        ensures
            (r.spec_minutes() == {
                let t = self.spec_minutes() + minutes;
                if t < 0 {
                    0
                } else if t > u32::MAX {
                    u32::MAX as int
                } else {
                    t
                }
            }),
    {
        if minutes >= 0 {
            let delta = minutes as u32;
            if self.minutes > u32::MAX - delta {
                DayOffset { minutes: u32::MAX }
            } else {
                DayOffset { minutes: self.minutes + delta }
            }
        } else {
            let delta = (-(minutes as i64)) as u32;
            if self.minutes >= delta {
                DayOffset { minutes: self.minutes - delta }
            } else {
                DayOffset { minutes: 0 }
            }
        }
    }

    /// Parses a 4-character "HHMM" field.
    pub fn from_str(value: &str) -> (r: Result<Self, ParseError>)
        ensures
            (match r {
                Ok(t) => hhmm_ok(value.spec_bytes()) && t.spec_minutes() == hhmm_minutes(
                    value.spec_bytes(),
                ),
                Err(ParseError::StringSizeInvalid) => value.spec_bytes().len() != 4,
                Err(ParseError::SubsliceParseFailed) => value.spec_bytes().len() == 4
                    && !hhmm_ok(value.spec_bytes()),
            }),
    {
        let b = value.as_bytes();
        if b.len() != 4 {
            return Err(ParseError::StringSizeInvalid);
        }
        let d0 = b[0];
        let d1 = b[1];
        let d2 = b[2];
        let d3 = b[3];
        if d0 < 48 || d0 > 57 || d1 < 48 || d1 > 57 || d2 < 48 || d2 > 57 || d3 < 48 || d3 > 57 {
            return Err(ParseError::SubsliceParseFailed);
        }
        let hours = (d0 - 48) as u32 * 10 + (d1 - 48) as u32;
        let mins = (d2 - 48) as u32 * 10 + (d3 - 48) as u32;
        Ok(DayOffset { minutes: hours * 60 + mins })
    }

    /// Renders the offset back into the 4-character "HHMM" form.
    pub fn to_hhmm(&self) -> (r: String)
        requires
            self.spec_minutes() < 6000,
        ensures
            str_is_ascii_bytes(r@, hhmm_bytes(self.spec_minutes())),
    {
        let h = self.minutes / 60;
        let m = self.minutes % 60;
        let digits: Vec<u8> = vec![
            48 + (h / 10) as u8,
            48 + (h % 10) as u8,
            48 + (m / 10) as u8,
            48 + (m % 10) as u8,
        ];
        assert(digits@ =~= hhmm_bytes(self.spec_minutes()));
        ascii_to_string(digits.as_slice())
    }

    /// Renders the offset for a human schedule: "HH:MM", modulo 24 hours,
    /// so 25:30 shows as 01:30.
    pub fn display_for_timetable(&self) -> (r: String)
        ensures
            str_is_ascii_bytes(r@, clock_bytes(self.spec_minutes())),
    {
        let t = self.minutes % 1440;
        let h = t / 60;
        let m = t % 60;
        let digits: Vec<u8> = vec![
            48 + (h / 10) as u8,
            48 + (h % 10) as u8,
            58u8,
            48 + (m / 10) as u8,
            48 + (m % 10) as u8,
        ];
        ascii_to_string(digits.as_slice())
    }
}

impl PartialOrd for DayOffset {
    fn partial_cmp(&self, other: &Self) -> (r: Option<core::cmp::Ordering>) {
        if self.minutes < other.minutes {
            Some(core::cmp::Ordering::Less)
        } else if self.minutes == other.minutes {
            Some(core::cmp::Ordering::Equal)
        } else {
            Some(core::cmp::Ordering::Greater)
        }
    }
}

impl vstd::std_specs::cmp::PartialOrdSpecImpl for DayOffset {
    open spec fn obeys_partial_cmp_spec() -> bool {
        true
    }

    open spec fn partial_cmp_spec(&self, other: &Self) -> Option<core::cmp::Ordering> {
        if self.spec_minutes() < other.spec_minutes() {
            Some(core::cmp::Ordering::Less)
        } else if self.spec_minutes() == other.spec_minutes() {
            Some(core::cmp::Ordering::Equal)
        } else {
            Some(core::cmp::Ordering::Greater)
        }
    }
}

/// Parsing a valid "HHMM" field and rendering the result emits the original
/// four characters, for hour fields up to 29 and minute fields up to 59.
pub proof fn lemma_hhmm_round_trip(b: Seq<u8>)
    requires
        hhmm_ok(b),
        digit_val(b[0]) * 10 + digit_val(b[1]) <= 29,
        digit_val(b[2]) * 10 + digit_val(b[3]) <= 59,
    ensures
        hhmm_bytes(hhmm_minutes(b)) =~= b,
{
    let v = hhmm_minutes(b);
    let hh = digit_val(b[0]) * 10 + digit_val(b[1]);
    let mm = digit_val(b[2]) * 10 + digit_val(b[3]);
    assert(v == hh * 60 + mm);
    assert(v / 60 == hh && v % 60 == mm) by (nonlinear_arith)
        requires
            v == hh * 60 + mm,
            0 <= mm < 60,
            0 <= hh,
    ;
    assert(hh / 10 == digit_val(b[0]) && hh % 10 == digit_val(b[1])) by (nonlinear_arith)
        requires
            hh == digit_val(b[0]) * 10 + digit_val(b[1]),
            0 <= digit_val(b[0]) <= 9,
            0 <= digit_val(b[1]) <= 9,
    ;
    assert(mm / 10 == digit_val(b[2]) && mm % 10 == digit_val(b[3])) by (nonlinear_arith)
        requires
            mm == digit_val(b[2]) * 10 + digit_val(b[3]),
            0 <= digit_val(b[2]) <= 9,
            0 <= digit_val(b[3]) <= 9,
    ;
}

} // verus!
