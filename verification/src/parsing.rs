use vstd::prelude::*;

use crate::date::{ddmmyyyy_day, ddmmyyyy_month, ddmmyyyy_ok, ddmmyyyy_year, parse_ddmmyyyy};
use crate::dayoffset::{hhmm_minutes, hhmm_ok, DayOffset};
use crate::locations::LocationCache;
use crate::model::{Company, Footnote, Header, PlatformInfo, Record, RideId, StopKind, TimetableEntry, TransitMode};
use crate::platform::{parse_platform_field, spec_parse_platform, spec_trim};
use crate::util::{
    all_ascii, ascii_to_string, digit_run_end, digits_val, find_byte, is_digit,
    lemma_digit_run_end, parse_u64_digits, scan_digits, scan_to_byte, str_is_ascii_bytes,
};

verus! {

/// A parse failure, carrying the position the parser gave up at.
#[derive(Debug, PartialEq, Eq, Structural, Clone, Copy)]
pub struct ParseFailure {
    pub at: usize,
}

/// An unsigned decimal field starts at `i`: a nonempty digit run whose
/// value fits an unsigned 64-bit number.
pub open spec fn uint_ok(s: Seq<u8>, i: int) -> bool {
    digit_run_end(s, i) > i && digits_val(s.subrange(i, digit_run_end(s, i))) <= u64::MAX
}

pub open spec fn uint_val(s: Seq<u8>, i: int) -> int {
    digits_val(s.subrange(i, digit_run_end(s, i)))
}

pub open spec fn uint_end(s: Seq<u8>, i: int) -> int {
    digit_run_end(s, i)
}

/// Parses an unsigned decimal field, leading zeros and all.
pub fn dec_uint_leading(s: &[u8], i: usize) -> (r: Result<(u64, usize), ParseFailure>)
    requires
        i <= s@.len(),
    ensures
        (match r {
            Ok((v, j)) => uint_ok(s@, i as int) && v == uint_val(s@, i as int) && j == uint_end(
                s@,
                i as int,
            ) && i < j <= s@.len(),
            Err(_) => !uint_ok(s@, i as int),
        }),
{
    let run = scan_digits(s, i);
    if run == i {
        return Err(ParseFailure { at: i });
    }
    match parse_u64_digits(s, i, run) {
        Some(v) => Ok((v, run)),
        None => {
            proof {
                lemma_digit_run_end(s@, i as int);
                assert forall|k: int|
                    0 <= k < run - i implies is_digit(
                    #[trigger] s@.subrange(i as int, run as int)[k],
                ) by {
                    assert(s@.subrange(i as int, run as int)[k] == s@[i + k]);
                }
            }
            Err(ParseFailure { at: i })
        },
    }
}

/// Like `dec_uint_leading`, further requiring the value to fit 32 bits.
pub open spec fn uint32_ok(s: Seq<u8>, i: int) -> bool {
    uint_ok(s, i) && uint_val(s, i) <= u32::MAX
}

pub fn dec_uint_leading32(s: &[u8], i: usize) -> (r: Result<(u32, usize), ParseFailure>)
    requires
        i <= s@.len(),
    ensures
        (match r {
            Ok((v, j)) => uint32_ok(s@, i as int) && v == uint_val(s@, i as int) && j == uint_end(
                s@,
                i as int,
            ) && i < j <= s@.len(),
            Err(_) => !uint32_ok(s@, i as int),
        }),
{
    match dec_uint_leading(s, i) {
        Ok((v, j)) => {
            if v > 0xffff_ffff {
                return Err(ParseFailure { at: i });
            }
            Ok((v as u32, j))
        },
        Err(e) => Err(e),
    }
}

/// A "HHMM" time field sits at `i`.
pub open spec fn time_ok(s: Seq<u8>, i: int) -> bool {
    i + 4 <= s.len() && hhmm_ok(s.subrange(i, i + 4))
}

pub open spec fn time_val(s: Seq<u8>, i: int) -> int {
    hhmm_minutes(s.subrange(i, i + 4))
}

/// Parses a four-digit "HHMM" time field.
pub fn parse_time(s: &[u8], i: usize) -> (r: Result<(DayOffset, usize), ParseFailure>)
    requires
        i <= s@.len(),
    ensures
        (match r {
            Ok((t, j)) => time_ok(s@, i as int) && t.spec_minutes() == time_val(s@, i as int)
                && j == i + 4,
            Err(_) => !time_ok(s@, i as int),
        }),
{
    if s.len() - i < 4 {
        return Err(ParseFailure { at: i });
    }
    let ghost f = s@.subrange(i as int, i + 4);
    let d0 = s[i];
    let d1 = s[i + 1];
    let d2 = s[i + 2];
    let d3 = s[i + 3];
    assert(d0 == f[0] && d1 == f[1] && d2 == f[2] && d3 == f[3]);
    if d0 < 48 || d0 > 57 || d1 < 48 || d1 > 57 || d2 < 48 || d2 > 57 || d3 < 48 || d3 > 57 {
        return Err(ParseFailure { at: i });
    }
    let hours = (d0 - 48) as u32 * 10 + (d1 - 48) as u32;
    let mins = (d2 - 48) as u32 * 10 + (d3 - 48) as u32;
    Ok((DayOffset::from_hour_minute(hours, mins), i + 4))
}

/// A line ending starts at `i`: a bare newline or a carriage-return pair.
pub open spec fn nl_ok(s: Seq<u8>, i: int) -> bool {
    0 <= i < s.len() && (s[i] == 10 || (s[i] == 13 && i + 1 < s.len() && s[i + 1] == 10))
}

/// Position after an optional line ending at `i`.
pub open spec fn nl_skip(s: Seq<u8>, i: int) -> int {
    if 0 <= i < s.len() && s[i] == 13 && i + 1 < s.len() && s[i + 1] == 10 {
        i + 2
    } else if 0 <= i < s.len() && s[i] == 10 {
        i + 1
    } else {
        i
    }
}

/// Skips a line ending if one starts at `i`.
pub fn skip_newline(s: &[u8], i: usize) -> (r: usize)
    requires
        i <= s@.len(),
    ensures
        r == nl_skip(s@, i as int),
        i <= r <= s@.len(),
{
    if i < s.len() && s[i] == 13 && i + 1 < s.len() && s[i + 1] == 10 {
        i + 2
    } else if i < s.len() && s[i] == 10 {
        i + 1
    } else {
        i
    }
}

/// Requires a line ending at `i` and skips it.
pub fn expect_newline(s: &[u8], i: usize) -> (r: Result<usize, ParseFailure>)
    requires
        i <= s@.len(),
    ensures
        (match r {
            Ok(j) => nl_ok(s@, i as int) && j == nl_skip(s@, i as int) && i < j <= s@.len(),
            Err(_) => !nl_ok(s@, i as int),
        }),
{
    if i < s.len() && s[i] == 13 && i + 1 < s.len() && s[i + 1] == 10 {
        Ok(i + 2)
    } else if i < s.len() && s[i] == 10 {
        Ok(i + 1)
    } else {
        Err(ParseFailure { at: i })
    }
}

/// End of the run of spaces and tabs starting at `i`.
pub open spec fn space_run_end(s: Seq<u8>, i: int) -> int
    decreases s.len() - i,
{
    if 0 <= i < s.len() && (s[i] == 32 || s[i] == 9) {
        space_run_end(s, i + 1)
    } else {
        i
    }
}

pub fn scan_spaces(s: &[u8], i: usize) -> (r: usize)
    requires
        i <= s@.len(),
    ensures
        r == space_run_end(s@, i as int),
        i <= r <= s@.len(),
    decreases s@.len() - i,
{
    if i < s.len() && (s[i] == 32 || s[i] == 9) {
        scan_spaces(s, i + 1)
    } else {
        i
    }
}

/// End of the run of whitespace of any kind starting at `i`.
pub open spec fn ws_run_end(s: Seq<u8>, i: int) -> int
    decreases s.len() - i,
{
    if 0 <= i < s.len() && (s[i] == 32 || s[i] == 9 || s[i] == 10 || s[i] == 13) {
        ws_run_end(s, i + 1)
    } else {
        i
    }
}

pub fn scan_ws(s: &[u8], i: usize) -> (r: usize)
    requires
        i <= s@.len(),
    ensures
        r == ws_run_end(s@, i as int),
        i <= r <= s@.len(),
    decreases s@.len() - i,
{
    if i < s.len() && (s[i] == 32 || s[i] == 9 || s[i] == 10 || s[i] == 13) {
        scan_ws(s, i + 1)
    } else {
        i
    }
}

pub open spec fn is_alnum(b: u8) -> bool {
    is_digit(b) || (65 <= b && b <= 90) || (97 <= b && b <= 122)
}

/// End of the run of letters and digits starting at `i`.
pub open spec fn alnum_run_end(s: Seq<u8>, i: int) -> int
    decreases s.len() - i,
{
    if 0 <= i < s.len() && is_alnum(s[i]) {
        alnum_run_end(s, i + 1)
    } else {
        i
    }
}

pub fn scan_alnum(s: &[u8], i: usize) -> (r: usize)
    requires
        i <= s@.len(),
    ensures
        r == alnum_run_end(s@, i as int),
        i <= r <= s@.len(),
    decreases s@.len() - i,
{
    if i < s.len() && (s[i] >= 48 && s[i] <= 57 || s[i] >= 65 && s[i] <= 90 || s[i] >= 97 && s[i]
        <= 122) {
        scan_alnum(s, i + 1)
    } else {
        i
    }
}

/// First position at or after `i` where a line ends ('\r' or '\n'), or the
/// length if none.
pub open spec fn find_eol(s: Seq<u8>, i: int) -> int
    decreases s.len() - i,
{
    if 0 <= i < s.len() {
        if s[i] == 10 || s[i] == 13 {
            i
        } else {
            find_eol(s, i + 1)
        }
    } else {
        i
    }
}

pub fn scan_to_eol(s: &[u8], i: usize) -> (r: usize)
    requires
        i <= s@.len(),
    ensures
        r == find_eol(s@, i as int),
        i <= r <= s@.len(),
    decreases s@.len() - i,
{
    if i < s.len() {
        if s[i] == 10 || s[i] == 13 {
            i
        } else {
            scan_to_eol(s, i + 1)
        }
    } else {
        i
    }
}

/// First position at or after `i` where a carriage-return pair starts, or
/// the length if none.
pub open spec fn find_crlf(s: Seq<u8>, i: int) -> int
    decreases s.len() - i,
{
    if 0 <= i < s.len() {
        if s[i] == 13 && i + 1 < s.len() && s[i + 1] == 10 {
            i
        } else {
            find_crlf(s, i + 1)
        }
    } else {
        i
    }
}

pub proof fn lemma_find_crlf(s: Seq<u8>, i: int)
    requires
        0 <= i <= s.len(),
    ensures
        i <= find_crlf(s, i) <= s.len(),
        find_crlf(s, i) < s.len() ==> s[find_crlf(s, i)] == 13 && find_crlf(s, i) + 1 < s.len()
            && s[find_crlf(s, i) + 1] == 10,
    decreases s.len() - i,
{
    if i < s.len() && !(s[i] == 13 && i + 1 < s.len() && s[i + 1] == 10) {
        lemma_find_crlf(s, i + 1);
    }
}

pub fn scan_to_crlf(s: &[u8], i: usize) -> (r: usize)
    requires
        i <= s@.len(),
    ensures
        r == find_crlf(s@, i as int),
        i <= r <= s@.len(),
    decreases s@.len() - i,
{
    if i < s.len() {
        if s[i] == 13 && i + 1 < s.len() && s[i + 1] == 10 {
            i
        } else {
            scan_to_crlf(s, i + 1)
        }
    } else {
        i
    }
}

/// The characters of the ASCII byte range `s[a..b]`.
pub open spec fn chars_of(s: Seq<u8>, a: int, b: int) -> Seq<char> {
    Seq::new((b - a) as nat, |k: int| s[a + k] as char)
}

/// Copies the ASCII byte range `s[a..b]` into a string.
pub fn string_of_range(s: &[u8], a: usize, b: usize) -> (r: String)
    requires
        a <= b <= s@.len(),
        all_ascii(s@),
    ensures
        r@ == chars_of(s@, a as int, b as int),
{
    let mut bytes: Vec<u8> = Vec::new();
    let mut k: usize = a;
    while k < b
        invariant
            a <= k <= b <= s@.len(),
            all_ascii(s@),
            bytes@ =~= s@.subrange(a as int, k as int),
        decreases b - k,
    {
        bytes.push(s[k]);
        k = k + 1;
    }
    proof {
        assert(bytes@ =~= s@.subrange(a as int, b as int));
    }
    let r = ascii_to_string(bytes.as_slice());
    proof {
        assert(r@ =~= chars_of(s@, a as int, b as int)) by {
            assert forall|k: int|
                0 <= k < r@.len() implies #[trigger] r@[k] == chars_of(s@, a as int, b as int)[
                k] by {
                assert(bytes@[k] == s@[a + k]);
            }
        }
    }
    r
}

/// Copies the trimmed ASCII byte range `s[a..b]` into a string.
pub fn trimmed_string_of_range(s: &[u8], a: usize, b: usize) -> (r: String)
    requires
        a <= b <= s@.len(),
        all_ascii(s@),
    ensures
        str_is_ascii_bytes(r@, spec_trim(s@.subrange(a as int, b as int))),
{
    let ghost field = s@.subrange(a as int, b as int);
    let mut x = a;
    while x < b && (s[x] == 32 || s[x] == 9 || s[x] == 10 || s[x] == 13)
        invariant
            a <= x <= b <= s@.len(),
            forall|j: int|
                a <= j < x ==> crate::platform::is_field_space(#[trigger] s@[j]),
        decreases b - x,
    {
        x = x + 1;
    }
    let mut y = b;
    while y > x && (s[y - 1] == 32 || s[y - 1] == 9 || s[y - 1] == 10 || s[y - 1] == 13)
        invariant
            a <= x <= y <= b <= s@.len(),
            forall|j: int|
                a <= j < x ==> crate::platform::is_field_space(#[trigger] s@[j]),
            forall|j: int|
                y <= j < b ==> crate::platform::is_field_space(#[trigger] s@[j]),
        decreases y,
    {
        y = y - 1;
    }
    proof {
        assert forall|j: int|
            0 <= j < x - a implies crate::platform::is_field_space(#[trigger] field[j]) by {
            assert(field[j] == s@[a + j]);
        }
        assert forall|j: int|
            y - a <= j < field.len() implies crate::platform::is_field_space(
            #[trigger] field[j],
        ) by {
            assert(field[j] == s@[a + j]);
        }
        if x < b {
            assert(field[x - a] == s@[x as int]);
        }
        if y > x {
            assert(field[y - a - 1] == s@[y - 1]);
        }
        crate::platform::lemma_trim_field(field, x - a, y - a);
        assert(spec_trim(field) =~= s@.subrange(x as int, y as int));
    }
    let r = string_of_range(s, x, y);
    proof {
        assert(r@.len() == spec_trim(field).len());
    }
    r
}

// ---------------------------------------------------------------------
// Header line: @COMPANY,DDMMYYYY,DDMMYYYY,VERSION,description
// ---------------------------------------------------------------------

pub open spec fn hdr_j1(s: Seq<u8>, i: int) -> int {
    uint_end(s, i + 1)
}

pub open spec fn hdr_j2(s: Seq<u8>, i: int) -> int {
    hdr_j1(s, i) + 9
}

pub open spec fn hdr_j3(s: Seq<u8>, i: int) -> int {
    hdr_j2(s, i) + 9
}

pub open spec fn hdr_j4(s: Seq<u8>, i: int) -> int {
    uint_end(s, hdr_j3(s, i) + 1)
}

pub open spec fn hdr_desc_end(s: Seq<u8>, i: int) -> int {
    find_eol(s, hdr_j4(s, i) + 1)
}

pub open spec fn hdr_end(s: Seq<u8>, i: int) -> int {
    nl_skip(s, hdr_desc_end(s, i))
}

/// A delivery header line starts at `i`.
pub open spec fn header_ok(s: Seq<u8>, i: int) -> bool {
    let j1 = hdr_j1(s, i);
    let j2 = hdr_j2(s, i);
    let j3 = hdr_j3(s, i);
    let j4 = hdr_j4(s, i);
    &&& 0 <= i < s.len() && s[i] == 64
    &&& uint_ok(s, i + 1)
    &&& j1 < s.len() && s[j1] == 44
    &&& j1 + 9 <= s.len() && ddmmyyyy_ok(s.subrange(j1 + 1, j1 + 9))
    &&& j2 < s.len() && s[j2] == 44
    &&& j2 + 9 <= s.len() && ddmmyyyy_ok(s.subrange(j2 + 1, j2 + 9))
    &&& j3 < s.len() && s[j3] == 44
    &&& uint_ok(s, j3 + 1)
    &&& j4 < s.len() && s[j4] == 44
    &&& hdr_desc_end(s, i) > j4 + 1
}

/// The header value a well-formed header line at `i` denotes.
pub open spec fn spec_header_matches(s: Seq<u8>, i: int, h: Header) -> bool {
    let j1 = hdr_j1(s, i);
    let j2 = hdr_j2(s, i);
    let j3 = hdr_j3(s, i);
    let j4 = hdr_j4(s, i);
    &&& h.company_id == uint_val(s, i + 1)
    &&& h.first_valid_date.y() == ddmmyyyy_year(s.subrange(j1 + 1, j1 + 9))
    &&& h.first_valid_date.m() == ddmmyyyy_month(s.subrange(j1 + 1, j1 + 9))
    &&& h.first_valid_date.d() == ddmmyyyy_day(s.subrange(j1 + 1, j1 + 9))
    &&& h.first_valid_date.valid()
    &&& h.last_valid_date.y() == ddmmyyyy_year(s.subrange(j2 + 1, j2 + 9))
    &&& h.last_valid_date.m() == ddmmyyyy_month(s.subrange(j2 + 1, j2 + 9))
    &&& h.last_valid_date.d() == ddmmyyyy_day(s.subrange(j2 + 1, j2 + 9))
    &&& h.last_valid_date.valid()
    &&& h.version == uint_val(s, j3 + 1)
    &&& h.description@ == chars_of(s, j4 + 1, hdr_desc_end(s, i))
}

/// Parses the delivery header line shared by every file of the archive.
pub fn parse_header(s: &[u8], i: usize) -> (r: Result<(Header, usize), ParseFailure>)
    requires
        i <= s@.len(),
        all_ascii(s@),
    ensures
        (match r {
            Ok((h, end)) => {
                &&& header_ok(s@, i as int)
                &&& spec_header_matches(s@, i as int, h)
                &&& h.company_id == uint_val(s@, i + 1)
                &&& h.first_valid_date.y() == ddmmyyyy_year(
                    s@.subrange(hdr_j1(s@, i as int) + 1, hdr_j1(s@, i as int) + 9),
                )
                &&& h.first_valid_date.m() == ddmmyyyy_month(
                    s@.subrange(hdr_j1(s@, i as int) + 1, hdr_j1(s@, i as int) + 9),
                )
                &&& h.first_valid_date.d() == ddmmyyyy_day(
                    s@.subrange(hdr_j1(s@, i as int) + 1, hdr_j1(s@, i as int) + 9),
                )
                &&& h.first_valid_date.valid()
                &&& h.last_valid_date.y() == ddmmyyyy_year(
                    s@.subrange(hdr_j2(s@, i as int) + 1, hdr_j2(s@, i as int) + 9),
                )
                &&& h.last_valid_date.m() == ddmmyyyy_month(
                    s@.subrange(hdr_j2(s@, i as int) + 1, hdr_j2(s@, i as int) + 9),
                )
                &&& h.last_valid_date.d() == ddmmyyyy_day(
                    s@.subrange(hdr_j2(s@, i as int) + 1, hdr_j2(s@, i as int) + 9),
                )
                &&& h.last_valid_date.valid()
                &&& h.version == uint_val(s@, hdr_j3(s@, i as int) + 1)
                &&& h.description@ == chars_of(
                    s@,
                    hdr_j4(s@, i as int) + 1,
                    hdr_desc_end(s@, i as int),
                )
                &&& end == hdr_end(s@, i as int)
                &&& i < end <= s@.len()
            },
            Err(_) => !header_ok(s@, i as int),
        }),
{
    let n = s.len();
    if i >= n || s[i] != 64 {
        return Err(ParseFailure { at: i });
    }
    let (company_id, j1) = match dec_uint_leading(s, i + 1) {
        Ok(v) => v,
        Err(e) => {
            return Err(e);
        },
    };
    if j1 >= n || s[j1] != 44 {
        return Err(ParseFailure { at: j1 });
    }
    if n - j1 < 9 {
        return Err(ParseFailure { at: j1 });
    }
    let first_valid_date = match parse_ddmmyyyy(s, j1 + 1) {
        Some(d) => d,
        None => {
            return Err(ParseFailure { at: j1 + 1 });
        },
    };
    let j2 = j1 + 9;
    if j2 >= n || s[j2] != 44 {
        return Err(ParseFailure { at: j2 });
    }
    if n - j2 < 9 {
        return Err(ParseFailure { at: j2 });
    }
    let last_valid_date = match parse_ddmmyyyy(s, j2 + 1) {
        Some(d) => d,
        None => {
            return Err(ParseFailure { at: j2 + 1 });
        },
    };
    let j3 = j2 + 9;
    if j3 >= n || s[j3] != 44 {
        return Err(ParseFailure { at: j3 });
    }
    let (version, j4) = match dec_uint_leading(s, j3 + 1) {
        Ok(v) => v,
        Err(e) => {
            return Err(e);
        },
    };
    if j4 >= n || s[j4] != 44 {
        return Err(ParseFailure { at: j4 });
    }
    let desc_end = scan_to_eol(s, j4 + 1);
    if desc_end == j4 + 1 {
        return Err(ParseFailure { at: j4 + 1 });
    }
    let description = string_of_range(s, j4 + 1, desc_end);
    let end = skip_newline(s, desc_end);
    Ok((Header { company_id, first_valid_date, last_valid_date, version, description }, end))
}

// ---------------------------------------------------------------------
// Platform info line: ?ARRIVAL,DEPARTURE,FOOTNOTE
// ---------------------------------------------------------------------

pub open spec fn pi_c1(s: Seq<u8>, i: int) -> int {
    find_byte(s, i + 1, 44)
}

pub open spec fn pi_c2(s: Seq<u8>, i: int) -> int {
    find_byte(s, pi_c1(s, i) + 1, 44)
}

pub open spec fn pi_j(s: Seq<u8>, i: int) -> int {
    uint_end(s, pi_c2(s, i) + 1)
}

pub open spec fn pi_end(s: Seq<u8>, i: int) -> int {
    nl_skip(s, pi_j(s, i))
}

/// A platform-info line starts at `i`.
pub open spec fn pi_ok(s: Seq<u8>, i: int) -> bool {
    let c1 = pi_c1(s, i);
    let c2 = pi_c2(s, i);
    &&& 0 <= i < s.len() && s[i] == 63
    &&& c1 < s.len() && c1 > i + 1
    &&& c2 < s.len() && c2 > c1 + 1
    &&& uint_ok(s, c2 + 1)
}

/// The platform info a well-formed line denotes. A field that does not
/// parse as a platform yields no platform, not an error.
pub open spec fn pi_val(s: Seq<u8>, i: int) -> PlatformInfo {
    let c1 = pi_c1(s, i);
    let c2 = pi_c2(s, i);
    PlatformInfo {
        arrival_platform: spec_parse_platform(spec_trim(s.subrange(i + 1, c1))),
        departure_platform: spec_parse_platform(spec_trim(s.subrange(c1 + 1, c2))),
        footnote: uint_val(s, c2 + 1) as u64,
    }
}

/// Parses a platform-info line.
pub fn parse_platform_info(s: &[u8], i: usize) -> (r: Result<(PlatformInfo, usize), ParseFailure>)
    requires
        i <= s@.len(),
    ensures
        (match r {
            Ok((p, end)) => pi_ok(s@, i as int) && p == pi_val(s@, i as int) && end == pi_end(
                s@,
                i as int,
            ) && i < end <= s@.len(),
            Err(_) => !pi_ok(s@, i as int),
        }),
{
    let n = s.len();
    if i >= n || s[i] != 63 {
        return Err(ParseFailure { at: i });
    }
    let c1 = scan_to_byte(s, i + 1, 44);
    if c1 >= n || c1 == i + 1 {
        return Err(ParseFailure { at: c1 });
    }
    let arrival_platform = parse_platform_field(s, i + 1, c1);
    let c2 = scan_to_byte(s, c1 + 1, 44);
    if c2 >= n || c2 == c1 + 1 {
        return Err(ParseFailure { at: c2 });
    }
    let departure_platform = parse_platform_field(s, c1 + 1, c2);
    let (footnote, j) = match dec_uint_leading(s, c2 + 1) {
        Ok(v) => v,
        Err(e) => {
            return Err(e);
        },
    };
    let end = skip_newline(s, j);
    Ok((PlatformInfo { arrival_platform, departure_platform, footnote }, end))
}

// ---------------------------------------------------------------------
// Stop lines: >CODE,HHMM | ;CODE | .CODE,HHMM | +CODE,HHMM,HHMM | <CODE,HHMM
// ---------------------------------------------------------------------

/// A parsed stop line before its code is interned.
#[derive(Debug, PartialEq, Eq, Clone)]
pub struct TimetableEntryRaw {
    pub code: String,
    pub stop_kind: StopKind,
}

impl TimetableEntryRaw {
    /// Interns the entry's code, turning the raw line into a timetable
    /// entry whose handle resolves to that code.
    pub fn to_proper(&self, cache: &mut LocationCache) -> (r: TimetableEntry)
        requires
            old(cache).wf(),
            old(cache)@.len() < 65536,
        ensures
            final(cache).wf(),
            interner_extends(old(cache)@, final(cache)@),
            final(cache)@.len() <= old(cache)@.len() + 1,
            r.code.inner < final(cache)@.len(),
            final(cache)@[r.code.inner as int] == self.code@,
            r.stop_kind == self.stop_kind,
    {
        TimetableEntry { code: cache.get_handle(self.code.as_str()), stop_kind: self.stop_kind }
    }
}

/// End of the code field (letters and digits) of a stop line at `i`.
pub open spec fn entry_code_end(s: Seq<u8>, i: int) -> int {
    alnum_run_end(s, i + 1)
}

/// Position after the code field and the whitespace behind it.
pub open spec fn entry_aw(s: Seq<u8>, i: int) -> int {
    ws_run_end(s, entry_code_end(s, i))
}

/// Where the optional platform-info suffix of a stop line would start.
pub open spec fn entry_pi_start(s: Seq<u8>, i: int) -> int {
    let d = s[i];
    let aw = entry_aw(s, i);
    if d == 62 || d == 46 {
        nl_skip(s, aw + 5)
    } else if d == 43 {
        nl_skip(s, aw + 10)
    } else {
        // arrival
        nl_skip(s, aw + 5)
    }
}

/// A stop line starts at `i`.
pub open spec fn entry_ok(s: Seq<u8>, i: int) -> bool {
    let d = s[i];
    let ce = entry_code_end(s, i);
    let aw = entry_aw(s, i);
    &&& 0 <= i < s.len()
    &&& (d == 62 || d == 59 || d == 46 || d == 43 || d == 60)
    &&& ce > i + 1
    &&& (d != 59 ==> aw < s.len() && s[aw] == 44 && time_ok(s, aw + 1))
    &&& ((d == 62 || d == 46) ==> nl_ok(s, aw + 5))
    &&& (d == 43 ==> aw + 5 < s.len() && s[aw + 5] == 44 && time_ok(s, aw + 6) && time_val(
        s,
        aw + 1,
    ) <= time_val(s, aw + 6) && nl_ok(s, aw + 10))
}

/// Whether the optional platform-info suffix is present and well-formed.
pub open spec fn entry_has_pi(s: Seq<u8>, i: int) -> bool {
    s[i] != 59 && pi_ok(s, entry_pi_start(s, i))
}

/// The stop kind a well-formed stop line denotes.
pub open spec fn entry_kind(s: Seq<u8>, i: int) -> StopKind {
    let d = s[i];
    let aw = entry_aw(s, i);
    let pi = if entry_has_pi(s, i) {
        Some(pi_val(s, entry_pi_start(s, i)))
    } else {
        None
    };
    if d == 59 {
        StopKind::Waypoint
    } else {
        let t1 = crate::dayoffset::DayOffset::spec_of_minutes(time_val(s, aw + 1));
        if d == 62 {
            StopKind::Departure(pi, t1)
        } else if d == 46 {
            StopKind::StopShort(pi, t1)
        } else if d == 43 {
            StopKind::StopLong(pi, t1, crate::dayoffset::DayOffset::spec_of_minutes(
                time_val(s, aw + 6),
            ))
        } else {
            StopKind::Arrival(pi, t1)
        }
    }
}

/// Position after a well-formed stop line, its platform suffix included.
pub open spec fn entry_end(s: Seq<u8>, i: int) -> int {
    let d = s[i];
    if d == 59 {
        nl_skip(s, entry_aw(s, i))
    } else if entry_has_pi(s, i) {
        pi_end(s, entry_pi_start(s, i))
    } else {
        entry_pi_start(s, i)
    }
}

/// Parses one stop line, dispatching on its first byte.
pub fn parse_entry(s: &[u8], i: usize) -> (r: Result<(TimetableEntryRaw, usize), ParseFailure>)
    requires
        i <= s@.len(),
        all_ascii(s@),
    ensures
        (match r {
            Ok((e, end)) => {
                &&& entry_ok(s@, i as int)
                &&& e.code@ == chars_of(s@, i + 1, entry_code_end(s@, i as int))
                &&& e.stop_kind == entry_kind(s@, i as int)
                &&& end == entry_end(s@, i as int)
                &&& i < end <= s@.len()
            },
            Err(_) => !entry_ok(s@, i as int),
        }),
{
    let n = s.len();
    if i >= n {
        return Err(ParseFailure { at: i });
    }
    let d = s[i];
    if d != 62 && d != 59 && d != 46 && d != 43 && d != 60 {
        return Err(ParseFailure { at: i });
    }
    let ce = scan_alnum(s, i + 1);
    if ce == i + 1 {
        return Err(ParseFailure { at: i + 1 });
    }
    let code = string_of_range(s, i + 1, ce);
    let aw = scan_ws(s, ce);
    if d == 59 {
        let end = skip_newline(s, aw);
        return Ok((TimetableEntryRaw { code, stop_kind: StopKind::Waypoint }, end));
    }
    if aw >= n || s[aw] != 44 {
        return Err(ParseFailure { at: aw });
    }
    let (t1, _) = match parse_time(s, aw + 1) {
        Ok(v) => v,
        Err(e) => {
            return Err(e);
        },
    };
    if d == 43 {
        if aw + 5 >= n || s[aw + 5] != 44 {
            return Err(ParseFailure { at: aw + 5 });
        }
        let (t2, _) = match parse_time(s, aw + 6) {
            Ok(v) => v,
            Err(e) => {
                return Err(e);
            },
        };
        if t2.minutes() < t1.minutes() {
            // A long stop must not depart before it arrives.
            return Err(ParseFailure { at: aw + 6 });
        }
        match expect_newline(s, aw + 10) {
            Ok(_) => {},
            Err(e) => {
                return Err(e);
            },
        }
        let ps = skip_newline(s, aw + 10);
        let (pi, end) = match parse_platform_info(s, ps) {
            Ok((p, e)) => (Some(p), e),
            Err(_) => (None, ps),
        };
        return Ok((TimetableEntryRaw { code, stop_kind: StopKind::StopLong(pi, t1, t2) }, end));
    }
    if d == 62 || d == 46 {
        match expect_newline(s, aw + 5) {
            Ok(_) => {},
            Err(e) => {
                return Err(e);
            },
        }
    }
    let ps = skip_newline(s, aw + 5);
    let (pi, end) = match parse_platform_info(s, ps) {
        Ok((p, e)) => (Some(p), e),
        Err(_) => (None, ps),
    };
    let stop_kind = if d == 62 {
        StopKind::Departure(pi, t1)
    } else if d == 46 {
        StopKind::StopShort(pi, t1)
    } else {
        StopKind::Arrival(pi, t1)
    };
    Ok((TimetableEntryRaw { code, stop_kind }, end))
}

// ---------------------------------------------------------------------
// Ride-id line: %CCC,RRRRR,LLLLLL,FFF,LLL,NAME...
// ---------------------------------------------------------------------

pub open spec fn rid_r1(s: Seq<u8>, i: int) -> int {
    uint_end(s, i + 1)
}

pub open spec fn rid_r2(s: Seq<u8>, i: int) -> int {
    uint_end(s, rid_r1(s, i) + 1)
}

/// Whether the optional line-id field holds a number.
pub open spec fn rid_has_line(s: Seq<u8>, i: int) -> bool {
    uint32_ok(s, rid_r2(s, i) + 1)
}

pub open spec fn rid_lpos(s: Seq<u8>, i: int) -> int {
    if rid_has_line(s, i) {
        uint_end(s, rid_r2(s, i) + 1)
    } else {
        rid_r2(s, i) + 1
    }
}

pub open spec fn rid_sp(s: Seq<u8>, i: int) -> int {
    space_run_end(s, rid_lpos(s, i))
}

pub open spec fn rid_f1(s: Seq<u8>, i: int) -> int {
    uint_end(s, rid_sp(s, i) + 1)
}

pub open spec fn rid_f2(s: Seq<u8>, i: int) -> int {
    uint_end(s, rid_f1(s, i) + 1)
}

pub open spec fn rid_name_end(s: Seq<u8>, i: int) -> int {
    find_crlf(s, rid_f2(s, i) + 1)
}

pub open spec fn rid_end(s: Seq<u8>, i: int) -> int {
    rid_name_end(s, i) + 2
}

/// A ride-id line starts at `i`.
pub open spec fn rid_ok(s: Seq<u8>, i: int) -> bool {
    let r1 = rid_r1(s, i);
    let r2 = rid_r2(s, i);
    let sp = rid_sp(s, i);
    let f1 = rid_f1(s, i);
    let f2 = rid_f2(s, i);
    &&& 0 <= i < s.len() && s[i] == 37
    &&& uint32_ok(s, i + 1)
    &&& r1 < s.len() && s[r1] == 44
    &&& uint32_ok(s, r1 + 1)
    &&& r2 < s.len() && s[r2] == 44
    &&& sp < s.len() && s[sp] == 44
    &&& uint32_ok(s, sp + 1)
    &&& f1 < s.len() && s[f1] == 44
    &&& uint32_ok(s, f1 + 1)
    &&& f2 < s.len() && s[f2] == 44
    &&& rid_name_end(s, i) < s.len()
}

/// The ride-id value a well-formed ride-id line at `i` denotes.
pub open spec fn rid_matches(s: Seq<u8>, i: int, rid: RideId) -> bool {
    &&& rid.company_id == uint_val(s, i + 1)
    &&& rid.ride_id == uint_val(s, rid_r1(s, i) + 1)
    &&& (match rid.line_id {
        Some(l) => rid_has_line(s, i) && l == uint_val(s, rid_r2(s, i) + 1),
        None => !rid_has_line(s, i),
    })
    &&& rid.first_stop == uint_val(s, rid_sp(s, i) + 1)
    &&& rid.last_stop == uint_val(s, rid_f1(s, i) + 1)
    &&& (match rid.ride_name {
        Some(nm) => spec_trim(s.subrange(rid_f2(s, i) + 1, rid_name_end(s, i))).len() > 0
            && str_is_ascii_bytes(nm@, spec_trim(s.subrange(rid_f2(s, i) + 1, rid_name_end(s, i)))),
        None => spec_trim(s.subrange(rid_f2(s, i) + 1, rid_name_end(s, i))).len() == 0,
    })
}

/// Parses a ride-id line.
pub fn parse_ride_id(s: &[u8], i: usize) -> (r: Result<(RideId, usize), ParseFailure>)
    requires
        i <= s@.len(),
        all_ascii(s@),
    ensures
        (match r {
            Ok((rid, end)) => {
                &&& rid_ok(s@, i as int)
                &&& rid_matches(s@, i as int, rid)
                &&& end == rid_end(s@, i as int)
                &&& i < end <= s@.len()
            },
            Err(_) => !rid_ok(s@, i as int),
        }),
{
    let n = s.len();
    if i >= n || s[i] != 37 {
        return Err(ParseFailure { at: i });
    }
    let (company_id, r1) = match dec_uint_leading32(s, i + 1) {
        Ok(v) => v,
        Err(e) => {
            return Err(e);
        },
    };
    if r1 >= n || s[r1] != 44 {
        return Err(ParseFailure { at: r1 });
    }
    let (ride_id, r2) = match dec_uint_leading32(s, r1 + 1) {
        Ok(v) => v,
        Err(e) => {
            return Err(e);
        },
    };
    if r2 >= n || s[r2] != 44 {
        return Err(ParseFailure { at: r2 });
    }
    let (line_id, lpos) = match dec_uint_leading32(s, r2 + 1) {
        Ok((l, j)) => (Some(l), j),
        Err(_) => (None, r2 + 1),
    };
    let sp = scan_spaces(s, lpos);
    if sp >= n || s[sp] != 44 {
        return Err(ParseFailure { at: sp });
    }
    let (first_stop, f1) = match dec_uint_leading32(s, sp + 1) {
        Ok(v) => v,
        Err(e) => {
            return Err(e);
        },
    };
    if f1 >= n || s[f1] != 44 {
        return Err(ParseFailure { at: f1 });
    }
    let (last_stop, f2) = match dec_uint_leading32(s, f1 + 1) {
        Ok(v) => v,
        Err(e) => {
            return Err(e);
        },
    };
    if f2 >= n || s[f2] != 44 {
        return Err(ParseFailure { at: f2 });
    }
    let name_end = scan_to_crlf(s, f2 + 1);
    if name_end >= n {
        return Err(ParseFailure { at: name_end });
    }
    proof {
        lemma_find_crlf(s@, f2 + 1);
    }
    let name = trimmed_string_of_range(s, f2 + 1, name_end);
    let ride_name = if name.as_str().is_empty() {
        None
    } else {
        Some(name)
    };
    Ok((RideId { company_id, ride_id, line_id, first_stop, last_stop, ride_name }, name_end + 2))
}

// ---------------------------------------------------------------------
// Day footnote line: -FFFFFF,SSS,EEE
// ---------------------------------------------------------------------

pub open spec fn fnl_u1(s: Seq<u8>, i: int) -> int {
    uint_end(s, i + 1)
}

pub open spec fn fnl_u2(s: Seq<u8>, i: int) -> int {
    uint_end(s, fnl_u1(s, i) + 1)
}

pub open spec fn fnl_u3(s: Seq<u8>, i: int) -> int {
    uint_end(s, fnl_u2(s, i) + 1)
}

pub open spec fn fnl_end(s: Seq<u8>, i: int) -> int {
    nl_skip(s, fnl_u3(s, i))
}

/// A day-footnote line starts at `i`.
pub open spec fn fnl_ok(s: Seq<u8>, i: int) -> bool {
    let u1 = fnl_u1(s, i);
    let u2 = fnl_u2(s, i);
    let u3 = fnl_u3(s, i);
    &&& 0 <= i < s.len() && s[i] == 45
    &&& uint_ok(s, i + 1)
    &&& u1 < s.len() && s[u1] == 44
    &&& uint_ok(s, u1 + 1)
    &&& u2 < s.len() && s[u2] == 44
    &&& uint_ok(s, u2 + 1)
    &&& nl_ok(s, u3)
}

/// Parses a record's day-footnote line.
pub fn parse_day_footnote(s: &[u8], i: usize) -> (r: Result<(Footnote, usize), ParseFailure>)
    requires
        i <= s@.len(),
    ensures
        (match r {
            Ok((f, end)) => {
                &&& fnl_ok(s@, i as int)
                &&& f.footnote == uint_val(s@, i + 1)
                &&& f.first_stop == uint_val(s@, fnl_u1(s@, i as int) + 1)
                &&& f.last_stop == uint_val(s@, fnl_u2(s@, i as int) + 1)
                &&& end == fnl_end(s@, i as int)
                &&& i < end <= s@.len()
            },
            Err(_) => !fnl_ok(s@, i as int),
        }),
{
    let n = s.len();
    if i >= n || s[i] != 45 {
        return Err(ParseFailure { at: i });
    }
    let (footnote, u1) = match dec_uint_leading(s, i + 1) {
        Ok(v) => v,
        Err(e) => {
            return Err(e);
        },
    };
    if u1 >= n || s[u1] != 44 {
        return Err(ParseFailure { at: u1 });
    }
    let (first_stop, u2) = match dec_uint_leading(s, u1 + 1) {
        Ok(v) => v,
        Err(e) => {
            return Err(e);
        },
    };
    if u2 >= n || s[u2] != 44 {
        return Err(ParseFailure { at: u2 });
    }
    let (last_stop, u3) = match dec_uint_leading(s, u2 + 1) {
        Ok(v) => v,
        Err(e) => {
            return Err(e);
        },
    };
    let end = match expect_newline(s, u3) {
        Ok(j) => j,
        Err(e) => {
            return Err(e);
        },
    };
    Ok((Footnote { footnote, first_stop, last_stop }, end))
}

// ---------------------------------------------------------------------
// Transit mode line: &MODE,FFF,LLL
// ---------------------------------------------------------------------

pub open spec fn tm_c1(s: Seq<u8>, i: int) -> int {
    find_byte(s, i + 1, 44)
}

pub open spec fn tm_u1(s: Seq<u8>, i: int) -> int {
    uint_end(s, tm_c1(s, i) + 1)
}

pub open spec fn tm_u2(s: Seq<u8>, i: int) -> int {
    uint_end(s, tm_u1(s, i) + 1)
}

pub open spec fn tm_end(s: Seq<u8>, i: int) -> int {
    tm_u2(s, i) + 2
}

/// A transit-mode line starts at `i`, ending in a carriage-return pair.
pub open spec fn tm_ok(s: Seq<u8>, i: int) -> bool {
    let c1 = tm_c1(s, i);
    let u1 = tm_u1(s, i);
    let u2 = tm_u2(s, i);
    &&& 0 <= i < s.len() && s[i] == 38
    &&& c1 < s.len()
    &&& uint32_ok(s, c1 + 1)
    &&& u1 < s.len() && s[u1] == 44
    &&& uint32_ok(s, u1 + 1)
    &&& u2 + 1 < s.len() && s[u2] == 13 && s[u2 + 1] == 10
}

/// The transit-mode value a well-formed mode line at `i` denotes.
pub open spec fn tm_matches(s: Seq<u8>, i: int, tm: TransitMode) -> bool {
    &&& str_is_ascii_bytes(tm.mode@, spec_trim(s.subrange(i + 1, tm_c1(s, i))))
    &&& tm.first_stop == uint_val(s, tm_c1(s, i) + 1)
    &&& tm.last_stop == uint_val(s, tm_u1(s, i) + 1)
}

/// Parses a transit-mode line.
pub fn parse_transit_mode(s: &[u8], i: usize) -> (r: Result<(TransitMode, usize), ParseFailure>)
    requires
        i <= s@.len(),
        all_ascii(s@),
    ensures
        (match r {
            Ok((tm, end)) => {
                &&& tm_ok(s@, i as int)
                &&& tm_matches(s@, i as int, tm)
                &&& end == tm_end(s@, i as int)
                &&& i < end <= s@.len()
            },
            Err(_) => !tm_ok(s@, i as int),
        }),
{
    let n = s.len();
    if i >= n || s[i] != 38 {
        return Err(ParseFailure { at: i });
    }
    let c1 = scan_to_byte(s, i + 1, 44);
    if c1 >= n {
        return Err(ParseFailure { at: c1 });
    }
    let mode = trimmed_string_of_range(s, i + 1, c1);
    let (first_stop, u1) = match dec_uint_leading32(s, c1 + 1) {
        Ok(v) => v,
        Err(e) => {
            return Err(e);
        },
    };
    if u1 >= n || s[u1] != 44 {
        return Err(ParseFailure { at: u1 });
    }
    let (last_stop, u2) = match dec_uint_leading32(s, u1 + 1) {
        Ok(v) => v,
        Err(e) => {
            return Err(e);
        },
    };
    if u2 >= n || s[u2] != 13 {
        return Err(ParseFailure { at: u2 });
    }
    if u2 + 1 >= n || s[u2 + 1] != 10 {
        return Err(ParseFailure { at: u2 });
    }
    Ok((TransitMode { mode, first_stop, last_stop }, u2 + 2))
}

// ---------------------------------------------------------------------
// Company line: ID,CODE,NAME,HHMM
// ---------------------------------------------------------------------

pub open spec fn co_c1(s: Seq<u8>, i: int) -> int {
    find_byte(s, i, 44)
}

pub open spec fn co_c2(s: Seq<u8>, i: int) -> int {
    find_byte(s, co_c1(s, i) + 1, 44)
}

pub open spec fn co_c3(s: Seq<u8>, i: int) -> int {
    find_byte(s, co_c2(s, i) + 1, 44)
}

pub open spec fn co_end(s: Seq<u8>, i: int) -> int {
    co_c3(s, i) + 7
}

/// A company line starts at `i`, ending in a carriage-return pair.
pub open spec fn co_ok(s: Seq<u8>, i: int) -> bool {
    let c1 = co_c1(s, i);
    let c2 = co_c2(s, i);
    let c3 = co_c3(s, i);
    &&& 0 <= i <= s.len()
    &&& uint32_ok(s, i)
    &&& c1 < s.len()
    &&& c2 < s.len()
    &&& c3 < s.len()
    &&& time_ok(s, c3 + 1)
    &&& c3 + 6 < s.len() && s[c3 + 5] == 13 && s[c3 + 6] == 10
}

/// The company value a well-formed company line at `i` denotes.
pub open spec fn co_matches(s: Seq<u8>, i: int, c: Company) -> bool {
    &&& c.id == uint_val(s, i)
    &&& str_is_ascii_bytes(c.code@, spec_trim(s.subrange(co_c1(s, i) + 1, co_c2(s, i))))
    &&& str_is_ascii_bytes(c.name@, spec_trim(s.subrange(co_c2(s, i) + 1, co_c3(s, i))))
    &&& c.end_of_timetable.spec_minutes() == time_val(s, co_c3(s, i) + 1)
}

/// Parses a company line.
pub fn parse_company(s: &[u8], i: usize) -> (r: Result<(Company, usize), ParseFailure>)
    requires
        i <= s@.len(),
        all_ascii(s@),
    ensures
        (match r {
            Ok((c, end)) => {
                &&& co_ok(s@, i as int)
                &&& co_matches(s@, i as int, c)
                &&& end == co_end(s@, i as int)
                &&& i < end <= s@.len()
            },
            Err(_) => !co_ok(s@, i as int),
        }),
{
    let n = s.len();
    let (id, _) = match dec_uint_leading32(s, i) {
        Ok(v) => v,
        Err(e) => {
            return Err(e);
        },
    };
    let c1 = scan_to_byte(s, i, 44);
    if c1 >= n {
        return Err(ParseFailure { at: c1 });
    }
    let c2 = scan_to_byte(s, c1 + 1, 44);
    if c2 >= n {
        return Err(ParseFailure { at: c2 });
    }
    let code = trimmed_string_of_range(s, c1 + 1, c2);
    let c3 = scan_to_byte(s, c2 + 1, 44);
    if c3 >= n {
        return Err(ParseFailure { at: c3 });
    }
    let name = trimmed_string_of_range(s, c2 + 1, c3);
    let (end_of_timetable, _) = match parse_time(s, c3 + 1) {
        Ok(v) => v,
        Err(e) => {
            return Err(e);
        },
    };
    if n - c3 < 7 || s[c3 + 5] != 13 || s[c3 + 6] != 10 {
        return Err(ParseFailure { at: c3 + 5 });
    }
    Ok((Company { id, code, name, end_of_timetable }, c3 + 7))
}

// ---------------------------------------------------------------------
// Records and whole files
// ---------------------------------------------------------------------

/// A fully parsed timetable file: its header and its raw records.
pub struct TimeTable {
    pub header: Header,
    pub rides: Vec<Record>,
}

/// A fully parsed company file.
pub struct CompanyFile {
    pub header: Header,
    pub companies: Vec<Company>,
}

/// What the grammar guarantees of every parsed record: a single transit
/// mode, a timetable opening with a departure line, and location handles
/// the interner can resolve.
pub open spec fn record_wf(rec: Record, interner_len: int) -> bool {
    &&& rec.transit_types@.len() == 1
    &&& rec.timetable@.len() >= 1
    &&& rec.timetable@[0].stop_kind is Departure
    &&& forall|k: int|
        0 <= k < rec.timetable@.len() ==> (#[trigger] rec.timetable@[k].code).inner
            < interner_len
}

/// The interner keeps every code it held before, under the same handle.
pub open spec fn interner_extends(old_v: Seq<Seq<char>>, new_v: Seq<Seq<char>>) -> bool {
    old_v.len() <= new_v.len() && forall|j: int| 0 <= j < old_v.len() ==> old_v[j] == new_v[j]
}

// ---------------------------------------------------------------------
// The record grammar, stated deterministically
// ---------------------------------------------------------------------

/// The bytes that open a stop line.
pub open spec fn is_entry_disc(b: u8) -> bool {
    b == 62 || b == 59 || b == 46 || b == 43 || b == 60
}

/// End of the run of well-formed ride-id lines starting at `i`. The
/// guard carries the bounds that make the recursion terminate.
pub open spec fn rid_run_end(s: Seq<u8>, i: int) -> int
    decreases s.len() - i,
{
    if 0 <= i < s.len() && s[i] == 37 && rid_ok(s, i) && i < rid_end(s, i) <= s.len() {
        rid_run_end(s, rid_end(s, i))
    } else {
        i
    }
}

/// End of the run of well-formed stop lines starting at `i`.
pub open spec fn entry_run_end(s: Seq<u8>, i: int) -> int
    decreases s.len() - i,
{
    if 0 <= i < s.len() && is_entry_disc(s[i]) && entry_ok(s, i) && i < entry_end(s, i)
        <= s.len() {
        entry_run_end(s, entry_end(s, i))
    } else {
        i
    }
}

/// Where a record's ride-id lines start: after its `#` id line.
pub open spec fn rec_rid_at(s: Seq<u8>, i: int) -> int {
    nl_skip(s, uint_end(s, i + 1))
}

/// Where a record's day-footnote line starts.
pub open spec fn rec_fnl_at(s: Seq<u8>, i: int) -> int {
    rid_run_end(s, rec_rid_at(s, i))
}

/// Where a record's transit-mode line starts.
pub open spec fn rec_tm_at(s: Seq<u8>, i: int) -> int {
    find_byte(s, fnl_end(s, rec_fnl_at(s, i)), 38)
}

/// Where a record's stop lines start.
pub open spec fn rec_entries_at(s: Seq<u8>, i: int) -> int {
    find_byte(s, tm_end(s, rec_tm_at(s, i)), 62)
}

/// Position after the whole record.
pub open spec fn record_text_end(s: Seq<u8>, i: int) -> int {
    entry_run_end(s, rec_entries_at(s, i))
}

/// A well-formed record starts at `i`: its id line, a clean run of
/// ride-id lines, a day footnote, a transit-mode line, and at least one
/// stop line opening with a departure.
pub open spec fn record_text_wf(s: Seq<u8>, i: int) -> bool {
    let p1 = rec_fnl_at(s, i);
    let p4 = rec_tm_at(s, i);
    let p6 = rec_entries_at(s, i);
    let p7 = record_text_end(s, i);
    &&& 0 <= i < s.len() && s[i] == 35
    &&& uint_ok(s, i + 1)
    &&& nl_ok(s, uint_end(s, i + 1))
    &&& !(p1 < s.len() && s[p1] == 37)
    &&& fnl_ok(s, p1)
    &&& tm_ok(s, p4)
    &&& p6 < s.len() && s[p6] == 62
    &&& p7 > p6
    &&& !(p7 < s.len() && is_entry_disc(s[p7]))
}

/// The stop line at `i` denotes this interned entry.
pub open spec fn entry_matches(
    s: Seq<u8>,
    i: int,
    e: TimetableEntry,
    interner: Seq<Seq<char>>,
) -> bool {
    &&& e.stop_kind == entry_kind(s, i)
    &&& e.code.inner < interner.len()
    &&& interner[e.code.inner as int] == chars_of(s, i + 1, entry_code_end(s, i))
}

/// Position after consuming exactly these ride-id lines from `start`.
pub open spec fn rid_list_prefix(s: Seq<u8>, start: int, rids: Seq<RideId>) -> Option<int>
    decreases rids.len(),
{
    if rids.len() == 0 {
        Some(start)
    } else {
        match rid_list_prefix(s, start, rids.drop_last()) {
            Some(e) => if 0 <= e < s.len() && s[e] == 37 && rid_ok(s, e) && rid_matches(
                s,
                e,
                rids.last(),
            ) {
                Some(rid_end(s, e))
            } else {
                None
            },
            None => None,
        }
    }
}

/// Position after consuming exactly these interned stop lines from
/// `start`.
pub open spec fn entry_list_prefix(
    s: Seq<u8>,
    start: int,
    tt: Seq<TimetableEntry>,
    interner: Seq<Seq<char>>,
) -> Option<int>
    decreases tt.len(),
{
    if tt.len() == 0 {
        Some(start)
    } else {
        match entry_list_prefix(s, start, tt.drop_last(), interner) {
            Some(e) => if 0 <= e < s.len() && is_entry_disc(s[e]) && entry_ok(s, e)
                && entry_matches(s, e, tt.last(), interner) {
                Some(entry_end(s, e))
            } else {
                None
            },
            None => None,
        }
    }
}

/// A grown interner keeps every stop line's denotation.
pub proof fn lemma_entry_prefix_extends(
    s: Seq<u8>,
    start: int,
    tt: Seq<TimetableEntry>,
    v1: Seq<Seq<char>>,
    v2: Seq<Seq<char>>,
)
    requires
        entry_list_prefix(s, start, tt, v1) is Some,
        interner_extends(v1, v2),
    ensures
        entry_list_prefix(s, start, tt, v2) == entry_list_prefix(s, start, tt, v1),
    decreases tt.len(),
{
    if tt.len() > 0 {
        lemma_entry_prefix_extends(s, start, tt.drop_last(), v1, v2);
    }
}

/// The record at `i` denotes this value, its codes resolving through the
/// interner to the code text of each stop line.
pub open spec fn record_content_at(
    s: Seq<u8>,
    i: int,
    rec: Record,
    interner: Seq<Seq<char>>,
) -> bool {
    &&& record_text_wf(s, i)
    &&& rec.id == uint_val(s, i + 1)
    &&& rid_list_prefix(s, rec_rid_at(s, i), rec.ride_id@) == Some(rec_fnl_at(s, i))
    &&& rec.day_validity_footnote == uint_val(s, rec_fnl_at(s, i) + 1)
    &&& rec.transit_types@.len() == 1
    &&& tm_matches(s, rec_tm_at(s, i), rec.transit_types@[0])
    &&& entry_list_prefix(s, rec_entries_at(s, i), rec.timetable@, interner) == Some(
        record_text_end(s, i),
    )
}

pub proof fn lemma_record_content_extends(
    s: Seq<u8>,
    i: int,
    rec: Record,
    v1: Seq<Seq<char>>,
    v2: Seq<Seq<char>>,
)
    requires
        record_content_at(s, i, rec, v1),
        interner_extends(v1, v2),
    ensures
        record_content_at(s, i, rec, v2),
{
    lemma_entry_prefix_extends(s, rec_entries_at(s, i), rec.timetable@, v1, v2);
}

/// Parses one `#`-record: its id line, ride-id lines, day footnote,
/// transit mode, and stop lines, interning every station code. It fails
/// exactly when no well-formed record starts at `i`, or the interner is
/// out of handles.
#[verifier::rlimit(100)]
pub fn parse_record(s: &[u8], i: usize, locations: &mut LocationCache) -> (r: Result<
    (Record, usize),
    ParseFailure,
>)
    requires
        i <= s@.len(),
        all_ascii(s@),
        old(locations).wf(),
    ensures
        final(locations).wf(),
        interner_extends(old(locations)@, final(locations)@),
        (match r {
            Ok((rec, end)) => {
                &&& record_content_at(s@, i as int, rec, final(locations)@)
                &&& end == record_text_end(s@, i as int)
                &&& i < end <= s@.len()
                &&& final(locations)@.len() <= old(locations)@.len() + (end - i)
                &&& record_wf(rec, final(locations)@.len() as int)
            },
            Err(_) => (!record_text_wf(s@, i as int) || final(locations)@.len() >= 65536)
                && final(locations)@.len() <= old(locations)@.len() + (s@.len() - i),
        }),
{
    let n = s.len();
    if i >= n || s[i] != 35 {
        return Err(ParseFailure { at: i });
    }
    let (id, p0) = match dec_uint_leading(s, i + 1) {
        Ok(v) => v,
        Err(e) => {
            return Err(e);
        },
    };
    let p_start = match expect_newline(s, p0) {
        Ok(j) => j,
        Err(e) => {
            return Err(e);
        },
    };
    let ghost rid0 = p_start as int;
    proof {
        assert(rid0 == rec_rid_at(s@, i as int));
    }
    let mut p = p_start;
    let mut ride_id: Vec<RideId> = Vec::new();
    while p < n && s[p] == 37
        invariant
            i < p <= n == s@.len(),
            all_ascii(s@),
            locations.wf(),
            locations@ == old(locations)@,
            rid0 == rec_rid_at(s@, i as int),
            rid_run_end(s@, rid0) == rid_run_end(s@, p as int),
            rid_list_prefix(s@, rid0, ride_id@) == Some(p as int),
        decreases n - p,
    {
        let ghost prev = ride_id@;
        let (rid, p2) = match parse_ride_id(s, p) {
            Ok(v) => v,
            Err(e) => {
                proof {
                    assert(rid_run_end(s@, p as int) == p as int);
                    assert(rec_fnl_at(s@, i as int) == p as int);
                    assert(!record_text_wf(s@, i as int));
                }
                return Err(e);
            },
        };
        ride_id.push(rid);
        proof {
            assert(ride_id@.drop_last() =~= prev);
        }
        p = p2;
    }
    proof {
        assert(rid_run_end(s@, p as int) == p as int);
        assert(rec_fnl_at(s@, i as int) == p as int);
    }
    let (day_footnote, p3) = match parse_day_footnote(s, p) {
        Ok(v) => v,
        Err(e) => {
            return Err(e);
        },
    };
    let p4 = scan_to_byte(s, p3, 38);
    let (mode, p5) = match parse_transit_mode(s, p4) {
        Ok(v) => v,
        Err(e) => {
            return Err(e);
        },
    };
    let p6_start = scan_to_byte(s, p5, 62);
    proof {
        crate::util::lemma_find_byte(s@, p5 as int, 62);
        assert(p6_start as int == rec_entries_at(s@, i as int));
    }
    let ghost entries0 = p6_start as int;
    let mut p6 = p6_start;
    let mut timetable: Vec<TimetableEntry> = Vec::new();
    while p6 < n && (s[p6] == 62 || s[p6] == 59 || s[p6] == 46 || s[p6] == 43 || s[p6] == 60)
        invariant
            i < p6 <= n == s@.len(),
            i < entries0 <= n,
            entries0 == rec_entries_at(s@, i as int),
            all_ascii(s@),
            locations.wf(),
            interner_extends(old(locations)@, locations@),
            locations@.len() <= old(locations)@.len() + (p6 as int - i),
            entry_run_end(s@, entries0) == entry_run_end(s@, p6 as int),
            entry_list_prefix(s@, entries0, timetable@, locations@) == Some(p6 as int),
            timetable@.len() == 0 ==> p6 as int == entries0,
            timetable@.len() >= 1 ==> p6 as int > entries0,
            timetable@.len() >= 1 ==> timetable@[0].stop_kind is Departure,
            forall|k: int|
                0 <= k < timetable@.len() ==> (#[trigger] timetable@[k].code).inner
                    < locations@.len(),
        decreases n - p6,
    {
        let ghost loop_v = locations@;
        let ghost prev_tt = timetable@;
        let (raw, p7) = match parse_entry(s, p6) {
            Ok(v) => v,
            Err(e) => {
                proof {
                    assert(entry_run_end(s@, p6 as int) == p6 as int);
                    assert(record_text_end(s@, i as int) == p6 as int);
                    assert(!record_text_wf(s@, i as int));
                }
                return Err(e);
            },
        };
        if locations.len() >= 65536 {
            return Err(ParseFailure { at: p6 });
        }
        let entry = raw.to_proper(locations);
        let was_first = timetable.len() == 0;
        if was_first && s[p6] != 62 {
            // The record's stop list must open with a departure line.
            proof {
                assert(!record_text_wf(s@, i as int));
            }
            return Err(ParseFailure { at: p6 });
        }
        timetable.push(entry);
        proof {
            lemma_entry_prefix_extends(s@, entries0, prev_tt, loop_v, locations@);
            assert(timetable@.drop_last() =~= prev_tt);
            assert(entry_matches(s@, p6 as int, entry, locations@));
        }
        p6 = p7;
    }
    proof {
        assert(entry_run_end(s@, p6 as int) == p6 as int);
        assert(record_text_end(s@, i as int) == p6 as int);
    }
    if timetable.len() == 0 {
        return Err(ParseFailure { at: p6 });
    }
    let transit_types: Vec<TransitMode> = vec![mode];
    let rec = Record {
        id,
        timetable,
        ride_id,
        day_validity_footnote: day_footnote.footnote,
        transit_types,
    };
    proof {
        assert(record_text_wf(s@, i as int));
        assert(record_content_at(s@, i as int, rec, locations@));
    }
    Ok((rec, p6))
}

/// End of the run of well-formed records starting at `i`.
pub open spec fn records_run_end(s: Seq<u8>, i: int) -> int
    decreases s.len() - i,
{
    if 0 <= i < s.len() && record_text_wf(s, i) && i < record_text_end(s, i) <= s.len() {
        records_run_end(s, record_text_end(s, i))
    } else {
        i
    }
}

/// Position after consuming exactly these records from `start`.
pub open spec fn record_list_prefix(
    s: Seq<u8>,
    start: int,
    records: Seq<Record>,
    interner: Seq<Seq<char>>,
) -> Option<int>
    decreases records.len(),
{
    if records.len() == 0 {
        Some(start)
    } else {
        match record_list_prefix(s, start, records.drop_last(), interner) {
            Some(e) => if record_content_at(s, e, records.last(), interner) {
                Some(record_text_end(s, e))
            } else {
                None
            },
            None => None,
        }
    }
}

pub proof fn lemma_record_prefix_extends(
    s: Seq<u8>,
    start: int,
    records: Seq<Record>,
    v1: Seq<Seq<char>>,
    v2: Seq<Seq<char>>,
)
    requires
        record_list_prefix(s, start, records, v1) is Some,
        interner_extends(v1, v2),
    ensures
        record_list_prefix(s, start, records, v2) == record_list_prefix(s, start, records, v1),
    decreases records.len(),
{
    if records.len() > 0 {
        lemma_record_prefix_extends(s, start, records.drop_last(), v1, v2);
        match record_list_prefix(s, start, records.drop_last(), v1) {
            Some(e) => {
                lemma_record_content_extends(s, e, records.last(), v1, v2);
            },
            None => (),
        }
    }
}

/// Parses the record section of a timetable file, interning every code.
/// It succeeds exactly when well-formed records cover the rest of the
/// input, unless the interner runs out of handles (which takes an input
/// of at least 65536 bytes).
pub fn parse_records(s: &[u8], i: usize) -> (r: Result<
    (Vec<Record>, LocationCache),
    ParseFailure,
>)
    requires
        i <= s@.len(),
        all_ascii(s@),
    ensures
        (match r {
            Ok((records, locations)) => {
                &&& locations.wf()
                &&& records_run_end(s@, i as int) == s@.len()
                &&& record_list_prefix(s@, i as int, records@, locations@) == Some(
                    s@.len() as int,
                )
                &&& forall|q: int|
                    0 <= q < records@.len() ==> record_wf(
                        #[trigger] records@[q],
                        locations@.len() as int,
                    )
            },
            Err(_) => records_run_end(s@, i as int) != s@.len() || s@.len() >= 65536,
        }),
{
    let n = s.len();
    let mut locations = LocationCache::with_capacity(1000);
    let mut records: Vec<Record> = Vec::new();
    let ghost i0 = i as int;
    let mut p = i;
    while p < n
        invariant
            i <= p <= n == s@.len(),
            all_ascii(s@),
            locations.wf(),
            locations@.len() <= p as int - i0,
            i0 == i as int,
            records_run_end(s@, i0) == records_run_end(s@, p as int),
            record_list_prefix(s@, i0, records@, locations@) == Some(p as int),
            forall|q: int|
                0 <= q < records@.len() ==> record_wf(
                    #[trigger] records@[q],
                    locations@.len() as int,
                ),
        decreases n - p,
    {
        let ghost loop_v = locations@;
        let ghost prev = records@;
        let (rec, p2) = match parse_record(s, p, &mut locations) {
            Ok(v) => v,
            Err(e) => {
                proof {
                    if !record_text_wf(s@, p as int) {
                        assert(records_run_end(s@, p as int) == p as int);
                    } else {
                        // Only handle exhaustion remains, and the interner
                        // grew by at most one entry per consumed byte.
                        assert(locations@.len() >= 65536);
                        assert(locations@.len() <= (p as int - i0) + (s@.len() - p as int));
                        assert(s@.len() >= 65536);
                    }
                }
                return Err(e);
            },
        };
        records.push(rec);
        proof {
            lemma_record_prefix_extends(s@, i0, prev, loop_v, locations@);
            assert(records@.drop_last() =~= prev);
            assert(records_run_end(s@, p as int) == records_run_end(s@, p2 as int));
        }
        p = p2;
    }
    proof {
        assert(records_run_end(s@, p as int) == p as int);
    }
    Ok((records, locations))
}

/// Parses a whole timetable file: the delivery header, then records until
/// the input ends. It succeeds exactly when the input is ASCII and the
/// grammar covers it, unless the interner runs out of handles.
pub fn parse_timetable_file(s: &[u8]) -> (r: Result<(TimeTable, LocationCache), ParseFailure>)
    ensures
        (match r {
            Ok((tt, locations)) => {
                &&& all_ascii(s@)
                &&& header_ok(s@, 0)
                &&& spec_header_matches(s@, 0, tt.header)
                &&& records_run_end(s@, hdr_end(s@, 0)) == s@.len()
                &&& record_list_prefix(s@, hdr_end(s@, 0), tt.rides@, locations@) == Some(
                    s@.len() as int,
                )
                &&& locations.wf()
                &&& forall|q: int|
                    0 <= q < tt.rides@.len() ==> record_wf(
                        #[trigger] tt.rides@[q],
                        locations@.len() as int,
                    )
            },
            Err(_) => !(all_ascii(s@) && header_ok(s@, 0) && records_run_end(s@, hdr_end(s@, 0))
                == s@.len()) || s@.len() >= 65536,
        }),
{
    if !crate::util::check_all_ascii(s) {
        return Err(ParseFailure { at: 0 });
    }
    let (header, p) = match parse_header(s, 0) {
        Ok(v) => v,
        Err(e) => {
            return Err(e);
        },
    };
    let (rides, locations) = match parse_records(s, p) {
        Ok(v) => v,
        Err(e) => {
            return Err(e);
        },
    };
    Ok((TimeTable { header, rides }, locations))
}

/// Parses a delivery file, which holds exactly one header line.
pub fn parse_delivery_file(s: &[u8]) -> (r: Result<Header, ParseFailure>)
    ensures
        (match r {
            Ok(h) => all_ascii(s@) && header_ok(s@, 0) && spec_header_matches(s@, 0, h)
                && hdr_end(s@, 0) == s@.len(),
            Err(_) => !(all_ascii(s@) && header_ok(s@, 0) && hdr_end(s@, 0) == s@.len()),
        }),
{
    if !crate::util::check_all_ascii(s) {
        return Err(ParseFailure { at: 0 });
    }
    let (header, p) = match parse_header(s, 0) {
        Ok(v) => v,
        Err(e) => {
            return Err(e);
        },
    };
    if p != s.len() {
        return Err(ParseFailure { at: p });
    }
    Ok(header)
}

/// End of the run of well-formed company lines starting at `i`.
pub open spec fn co_run_end(s: Seq<u8>, i: int) -> int
    decreases s.len() - i,
{
    if 0 <= i < s.len() && co_ok(s, i) && i < co_end(s, i) <= s.len() {
        co_run_end(s, co_end(s, i))
    } else {
        i
    }
}

/// Position after consuming exactly these company lines from `start`.
pub open spec fn company_list_prefix(s: Seq<u8>, start: int, cs: Seq<Company>) -> Option<int>
    decreases cs.len(),
{
    if cs.len() == 0 {
        Some(start)
    } else {
        match company_list_prefix(s, start, cs.drop_last()) {
            Some(e) => if 0 <= e < s.len() && co_ok(s, e) && co_matches(s, e, cs.last()) {
                Some(co_end(s, e))
            } else {
                None
            },
            None => None,
        }
    }
}

/// Parses a company file: the header, then company lines until the input
/// ends. It succeeds exactly when the input is ASCII and the grammar
/// covers it.
pub fn parse_company_file(s: &[u8]) -> (r: Result<CompanyFile, ParseFailure>)
    ensures
        (match r {
            Ok(cf) => {
                &&& all_ascii(s@)
                &&& header_ok(s@, 0)
                &&& spec_header_matches(s@, 0, cf.header)
                &&& co_run_end(s@, hdr_end(s@, 0)) == s@.len()
                &&& company_list_prefix(s@, hdr_end(s@, 0), cf.companies@) == Some(
                    s@.len() as int,
                )
            },
            Err(_) => !(all_ascii(s@) && header_ok(s@, 0) && co_run_end(s@, hdr_end(s@, 0))
                == s@.len()),
        }),
{
    if !crate::util::check_all_ascii(s) {
        return Err(ParseFailure { at: 0 });
    }
    let n = s.len();
    let (header, p0) = match parse_header(s, 0) {
        Ok(v) => v,
        Err(e) => {
            return Err(e);
        },
    };
    let ghost c0 = p0 as int;
    let mut companies: Vec<Company> = Vec::new();
    let mut p = p0;
    while p < n
        invariant
            p <= n == s@.len(),
            all_ascii(s@),
            c0 == hdr_end(s@, 0),
            co_run_end(s@, c0) == co_run_end(s@, p as int),
            company_list_prefix(s@, c0, companies@) == Some(p as int),
        decreases n - p,
    {
        let ghost prev = companies@;
        let (company, p2) = match parse_company(s, p) {
            Ok(v) => v,
            Err(e) => {
                proof {
                    assert(co_run_end(s@, p as int) == p as int);
                    assert(co_run_end(s@, hdr_end(s@, 0)) != s@.len());
                }
                return Err(e);
            },
        };
        companies.push(company);
        proof {
            assert(companies@.drop_last() =~= prev);
        }
        p = p2;
    }
    proof {
        assert(co_run_end(s@, p as int) == p as int);
    }
    Ok(CompanyFile { header, companies })
}

} // verus!
