use vstd::prelude::*;

use crate::util::{
    all_digits, ascii_to_string, dec_digits, digits_val, is_digit, lemma_dec_digits_are_digits,
    parse_u64_digits, str_is_ascii_bytes,
};
use vstd::string::StringSliceAdditionalSpecFns;

verus! {

/// A platform designation: a plain number, a number with a single
/// alphabetic suffix, or a numeric range such as "1-2".
#[derive(Debug, PartialEq, Eq, Structural, Clone, Copy, Hash)]
pub struct Platform {
    pub number: u8,
    pub suffix: Option<char>,
    pub range_to: Option<u8>,
}

#[derive(Debug, PartialEq, Eq, Structural, Clone, Copy)]
pub struct PlatformParseError;

pub open spec fn is_alpha(b: u8) -> bool {
    (65 <= b && b <= 90) || (97 <= b && b <= 122)
}

pub open spec fn is_field_space(b: u8) -> bool {
    b == 32 || b == 9 || b == 10 || b == 13
}

pub open spec fn trim_start(s: Seq<u8>) -> Seq<u8>
    decreases s.len(),
{
    if s.len() > 0 && is_field_space(s[0]) {
        trim_start(s.drop_first())
    } else {
        s
    }
}

pub open spec fn trim_end(s: Seq<u8>) -> Seq<u8>
    decreases s.len(),
{
    if s.len() > 0 && is_field_space(s.last()) {
        trim_end(s.drop_last())
    } else {
        s
    }
}

/// The byte sequence with leading and trailing whitespace removed.
pub open spec fn spec_trim(s: Seq<u8>) -> Seq<u8> {
    trim_end(trim_start(s))
}

proof fn lemma_trim_start_at(s: Seq<u8>, k: int)
    requires
        0 <= k <= s.len(),
        forall|j: int| 0 <= j < k ==> is_field_space(#[trigger] s[j]),
        k < s.len() ==> !is_field_space(s[k]),
    ensures
        trim_start(s) =~= s.subrange(k, s.len() as int),
    decreases k,
{
    if k == 0 {
        assert(trim_start(s) =~= s.subrange(0, s.len() as int));
    } else {
        let t = s.drop_first();
        assert(forall|j: int| 0 <= j < k - 1 ==> is_field_space(#[trigger] t[j]));
        lemma_trim_start_at(t, k - 1);
        assert(t.subrange(k - 1, t.len() as int) =~= s.subrange(k, s.len() as int));
    }
}

proof fn lemma_trim_end_at(s: Seq<u8>, k: int)
    requires
        0 <= k <= s.len(),
        forall|j: int| k <= j < s.len() ==> is_field_space(#[trigger] s[j]),
        k > 0 ==> !is_field_space(s[k - 1]),
    ensures
        trim_end(s) =~= s.subrange(0, k),
    decreases s.len() - k,
{
    if k == s.len() {
        assert(trim_end(s) =~= s.subrange(0, k));
    } else {
        let t = s.drop_last();
        assert(forall|j: int| k <= j < t.len() ==> is_field_space(#[trigger] t[j]));
        lemma_trim_end_at(t, k);
        assert(t.subrange(0, k) =~= s.subrange(0, k));
    }
}

/// Trimming removes exactly the spaces outside `[x, y)` when those bounds
/// hug the non-space content.
pub proof fn lemma_trim_field(s: Seq<u8>, x: int, y: int)
    requires
        0 <= x <= y <= s.len(),
        forall|j: int| 0 <= j < x ==> is_field_space(#[trigger] s[j]),
        x == s.len() || !is_field_space(s[x]),
        forall|j: int| y <= j < s.len() ==> is_field_space(#[trigger] s[j]),
        y == x || !is_field_space(s[y - 1]),
    ensures
        spec_trim(s) =~= s.subrange(x, y),
{
    lemma_trim_start_at(s, x);
    let t = s.subrange(x, s.len() as int);
    assert(forall|j: int| y - x <= j < t.len() ==> is_field_space(#[trigger] t[j]));
    lemma_trim_end_at(t, y - x);
    assert(t.subrange(0, y - x) =~= s.subrange(x, y));
}

/// The platform value denoted by a trimmed field, if any.
pub open spec fn spec_parse_platform(t: Seq<u8>) -> Option<Platform> {
    if t.len() > 0 && all_digits(t) && digits_val(t) <= 255 {
        Some(Platform { number: digits_val(t) as u8, suffix: None, range_to: None })
    } else if t.len() > 0 && is_alpha(t.last()) {
        let head = t.drop_last();
        if head.len() > 0 && all_digits(head) && digits_val(head) <= 255 {
            Some(
                Platform {
                    number: digits_val(head) as u8,
                    suffix: Some(t.last() as char),
                    range_to: None,
                },
            )
        } else {
            None
        }
    } else if t.len() >= 2 && t[1] == 45 && is_digit(t[0]) {
        let right = t.subrange(2, t.len() as int);
        if right.len() > 0 && all_digits(right) && digits_val(right) <= 255 {
            Some(
                Platform {
                    number: (t[0] - 48) as u8,
                    suffix: None,
                    range_to: Some(digits_val(right) as u8),
                },
            )
        } else {
            None
        }
    } else {
        None
    }
}

/// The rendering of a platform value: the number, then either the suffix
/// or a "-" and the upper end of the range.
pub open spec fn spec_render_platform(p: Platform) -> Seq<u8> {
    match p.suffix {
        Some(c) => dec_digits(p.number as int).push(c as u8),
        None => match p.range_to {
            Some(r) => dec_digits(p.number as int) + seq![45u8] + dec_digits(r as int),
            None => dec_digits(p.number as int),
        },
    }
}

impl Platform {
    /// A well-formed platform never carries both a suffix and a range,
    /// and its suffix is a plain letter.
    pub open spec fn wf(&self) -> bool {
        &&& (self.suffix is Some ==> self.range_to is None)
        &&& (match self.suffix {
            Some(c) => is_alpha(c as u8) && c as u8 as char == c,
            None => true,
        })
    }

    pub fn plain(n: u8) -> (r: Self)
        ensures
            r == (Platform { number: n, suffix: None, range_to: None }),
    {
        Platform { number: n, suffix: None, range_to: None }
    }

    /// Parses a platform field, ignoring surrounding whitespace.
    pub fn from_str(s: &str) -> (r: Result<Self, PlatformParseError>)
        ensures
            (match r {
                Ok(p) => spec_parse_platform(spec_trim(s.spec_bytes())) == Some(p),
                Err(_) => spec_parse_platform(spec_trim(s.spec_bytes())) is None,
            }),
    {
        let bytes = s.as_bytes();
        let r = parse_platform_field(bytes, 0, bytes.len());
        proof {
            assert(bytes@.subrange(0, bytes@.len() as int) =~= bytes@);
        }
        match r {
            Some(p) => Ok(p),
            None => Err(PlatformParseError),
        }
    }

    /// Renders the platform back into its field form.
    pub fn render(&self) -> (r: String)
        requires
            self.wf(),
        ensures
            str_is_ascii_bytes(r@, spec_render_platform(*self)),
            crate::util::spec_bytes_of(r@) == spec_render_platform(*self),
    {
        proof {
            lemma_dec_digits_are_digits(self.number as int);
        }
        let mut out = crate::util::u64_to_dec(self.number as u64);
        match self.suffix {
            Some(c) => {
                out.push(c as u8);
            },
            None => match self.range_to {
                Some(rng) => {
                    proof {
                        lemma_dec_digits_are_digits(rng as int);
                    }
                    out.push(45u8);
                    let mut tail = crate::util::u64_to_dec(rng as u64);
                    out.append(&mut tail);
                },
                None => {},
            },
        }
        assert(out@ =~= spec_render_platform(*self));
        ascii_to_string(out.as_slice())
    }
}

/// Parses the platform field `s[from..to]`, ignoring surrounding whitespace.
pub fn parse_platform_field(s: &[u8], from: usize, to: usize) -> (r: Option<Platform>)
    requires
        from <= to <= s@.len(),
    ensures
        r == spec_parse_platform(spec_trim(s@.subrange(from as int, to as int))),
{
    let ghost field = s@.subrange(from as int, to as int);
    let mut a = from;
    while a < to && (s[a] == 32 || s[a] == 9 || s[a] == 10 || s[a] == 13)
        invariant
            from <= a <= to <= s@.len(),
            forall|j: int| from <= j < a ==> is_field_space(#[trigger] s@[j]),
        decreases to - a,
    {
        a = a + 1;
    }
    let mut b = to;
    while b > a && (s[b - 1] == 32 || s[b - 1] == 9 || s[b - 1] == 10 || s[b - 1] == 13)
        invariant
            from <= a <= b <= to <= s@.len(),
            forall|j: int| from <= j < a ==> is_field_space(#[trigger] s@[j]),
            forall|j: int| b <= j < to ==> is_field_space(#[trigger] s@[j]),
        decreases b,
    {
        b = b - 1;
    }
    proof {
        lemma_trim_start_at(field, a - from);
        let started = field.subrange(a - from, field.len() as int);
        lemma_trim_end_at(started, b - a);
        assert(spec_trim(field) =~= s@.subrange(a as int, b as int));
    }
    let ghost t = s@.subrange(a as int, b as int);
    // Plain number.
    if let Some(v) = parse_u64_digits(s, a, b) {
        if v <= 255 {
            return Some(Platform { number: v as u8, suffix: None, range_to: None });
        }
        // A digit run never ends in a letter and never holds a '-'.
        assert(spec_parse_platform(t) is None) by {
            assert(is_digit(t[t.len() - 1]));
            if t.len() >= 2 {
                assert(is_digit(t[1]));
            }
        }
        return None;
    }
    // Number with a single alphabetic suffix.
    if b > a {
        let lastb = s[b - 1];
        assert(lastb == t.last());
        if (65 <= lastb && lastb <= 90) || (97 <= lastb && lastb <= 122) {
            assert(t.drop_last() =~= s@.subrange(a as int, b - 1));
            assert(!all_digits(t)) by {
                assert(!is_digit(t[t.len() - 1]));
            }
            if let Some(v) = parse_u64_digits(s, a, b - 1) {
                if v <= 255 {
                    return Some(
                        Platform {
                            number: v as u8,
                            suffix: Some(lastb as char),
                            range_to: None,
                        },
                    );
                }
            }
            return None;
        }
    }
    // Single-digit start of a numeric range.
    if b - a >= 2 && s[a + 1] == 45 && s[a] >= 48 && s[a] <= 57 {
        assert(t[1] == 45 && is_digit(t[0]));
        assert(!all_digits(t)) by {
            assert(!is_digit(t[1]));
        }
        assert(t.subrange(2, t.len() as int) =~= s@.subrange(a + 2, b as int));
        if let Some(v) = parse_u64_digits(s, a + 2, b) {
            if v <= 255 {
                return Some(
                    Platform { number: s[a] - 48, suffix: None, range_to: Some(v as u8) },
                );
            }
        }
        return None;
    }
    None
}

/// A platform value rendered and parsed back comes out unchanged, as long
/// as the low end of a range keeps to a single digit.
pub proof fn lemma_platform_round_trip(p: Platform)
    requires
        p.wf(),
        p.range_to is Some ==> p.number <= 9,
    ensures
        spec_parse_platform(spec_trim(spec_render_platform(p))) == Some(p),
{
    let r = spec_render_platform(p);
    lemma_dec_digits_are_digits(p.number as int);
    assert(r.len() > 0);
    assert(!is_field_space(r[0]));
    match p.suffix {
        Some(c) => {
            assert(!is_field_space(r.last()));
            assert(trim_start(r) =~= r);
            assert(trim_end(r) =~= r);
            assert(!all_digits(r)) by {
                assert(!is_digit(r[r.len() - 1]));
            }
            assert(r.drop_last() =~= dec_digits(p.number as int));
            assert(spec_parse_platform(r) == Some(p));
        },
        None => match p.range_to {
            Some(rng) => {
                lemma_dec_digits_are_digits(rng as int);
                assert(dec_digits(p.number as int) =~= seq![(48 + p.number) as u8]);
                assert(r.last() == dec_digits(rng as int).last());
                assert(!is_field_space(r.last()));
                assert(trim_start(r) =~= r);
                assert(trim_end(r) =~= r);
                assert(!all_digits(r)) by {
                    assert(!is_digit(r[1]));
                }
                assert(!is_alpha(r.last()));
                assert(r.subrange(2, r.len() as int) =~= dec_digits(rng as int));
                assert(spec_parse_platform(r) == Some(p));
            },
            None => {
                assert(!is_field_space(r.last()));
                assert(trim_start(r) =~= r);
                assert(trim_end(r) =~= r);
                assert(spec_parse_platform(r) == Some(p));
            },
        },
    }
}

} // verus!
