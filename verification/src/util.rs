use vstd::prelude::*;
use vstd::string::StringSliceAdditionalSpecFns;

verus! {

/// True for the ASCII digits `'0'` through `'9'`.
pub open spec fn is_digit(b: u8) -> bool {
    48 <= b && b <= 57
}

/// Numeric value of a single ASCII digit.
pub open spec fn digit_val(b: u8) -> int {
    b - 48
}

/// Numeric value of a sequence of ASCII digits, most significant first.
pub open spec fn digits_val(s: Seq<u8>) -> int
    decreases s.len(),
{
    if s.len() == 0 {
        0
    } else {
        digits_val(s.drop_last()) * 10 + digit_val(s.last())
    }
}

/// All bytes of the sequence are ASCII digits.
pub open spec fn all_digits(s: Seq<u8>) -> bool {
    forall|i: int| 0 <= i < s.len() ==> is_digit(#[trigger] s[i])
}

/// All bytes of the sequence are ASCII (below 128).
pub open spec fn all_ascii(s: Seq<u8>) -> bool {
    forall|i: int| 0 <= i < s.len() ==> #[trigger] s[i] < 128
}

/// The characters of the string are exactly the given ASCII bytes.
pub open spec fn str_is_ascii_bytes(s: Seq<char>, b: Seq<u8>) -> bool {
    s.len() == b.len() && forall|i: int| 0 <= i < b.len() ==> s[i] == #[trigger] b[i] as char
}

/// The UTF-8 bytes of a character sequence.
pub open spec fn spec_bytes_of(s: Seq<char>) -> Seq<u8> {
    vstd::utf8::encode_utf8(s)
}

/// Relies on String::from_utf8_lossy: ASCII bytes decode to the same
/// characters, and the string keeps exactly those bytes.
#[verifier::external_body]
pub fn ascii_to_string(bytes: &[u8]) -> (r: String)
    requires
        all_ascii(bytes@),
    ensures
        str_is_ascii_bytes(r@, bytes@),
        spec_bytes_of(r@) == bytes@,
{
    String::from_utf8_lossy(bytes).into_owned()
}

/// What str::to_lowercase returns; it depends on the characters alone.
pub uninterp spec fn lower_of(s: Seq<char>) -> Seq<char>;

/// Relies on str::to_lowercase: the result depends on the characters alone.
#[verifier::external_body]
pub fn lowercase(s: &str) -> (r: String)
    ensures
        r@ == lower_of(s@),
{
    s.to_lowercase()
}

/// An empty field means absence.
pub fn empty_str_to_none(a: &str) -> (r: Option<&str>)
    ensures
        (match r {
            Some(s) => a@.len() > 0 && s@ == a@,
            None => a@.len() == 0,
        }),
{
    if a.is_empty() {
        None
    } else {
        Some(a)
    }
}

/// Checks that a byte slice is entirely ASCII.
pub fn check_all_ascii(s: &[u8]) -> (r: bool)
    ensures
        r == all_ascii(s@),
{
    let mut i: usize = 0;
    while i < s.len()
        invariant
            0 <= i <= s@.len(),
            forall|j: int| 0 <= j < i ==> #[trigger] s@[j] < 128,
        decreases s@.len() - i,
    {
        if s[i] >= 128 {
            return false;
        }
        i = i + 1;
    }
    true
}

pub proof fn lemma_digits_val_nonneg(s: Seq<u8>)
    requires
        all_digits(s),
    ensures
        digits_val(s) >= 0,
    decreases s.len(),
{
    if s.len() > 0 {
        assert(all_digits(s.drop_last()));
        lemma_digits_val_nonneg(s.drop_last());
    }
}

pub proof fn lemma_digits_val_prefix(s: Seq<u8>, k: int)
    requires
        all_digits(s),
        0 <= k <= s.len(),
    ensures
        digits_val(s.subrange(0, k)) <= digits_val(s),
    decreases s.len(),
{
    if k == s.len() {
        assert(s.subrange(0, k) =~= s);
    } else {
        assert(all_digits(s.drop_last()));
        assert(s.subrange(0, k) =~= s.drop_last().subrange(0, k));
        lemma_digits_val_prefix(s.drop_last(), k);
        lemma_digits_val_nonneg(s.drop_last());
    }
}

/// End of the run of ASCII digits starting at `i`.
pub open spec fn digit_run_end(s: Seq<u8>, i: int) -> int
    decreases s.len() - i,
{
    if 0 <= i < s.len() && is_digit(s[i]) {
        digit_run_end(s, i + 1)
    } else {
        i
    }
}

pub proof fn lemma_digit_run_end(s: Seq<u8>, i: int)
    requires
        0 <= i <= s.len(),
    ensures
        i <= digit_run_end(s, i) <= s.len(),
        forall|j: int| i <= j < digit_run_end(s, i) ==> is_digit(#[trigger] s[j]),
        digit_run_end(s, i) < s.len() ==> !is_digit(s[digit_run_end(s, i)]),
    decreases s.len() - i,
{
    if i < s.len() && is_digit(s[i]) {
        lemma_digit_run_end(s, i + 1);
    }
}

/// First position at or after `i` holding byte `c`, or the length if none.
pub open spec fn find_byte(s: Seq<u8>, i: int, c: u8) -> int
    decreases s.len() - i,
{
    if 0 <= i < s.len() {
        if s[i] == c {
            i
        } else {
            find_byte(s, i + 1, c)
        }
    } else {
        i
    }
}

pub proof fn lemma_find_byte(s: Seq<u8>, i: int, c: u8)
    requires
        0 <= i <= s.len(),
    ensures
        i <= find_byte(s, i, c) <= s.len(),
        forall|j: int| i <= j < find_byte(s, i, c) ==> #[trigger] s[j] != c,
        find_byte(s, i, c) < s.len() ==> s[find_byte(s, i, c)] == c,
    decreases s.len() - i,
{
    if i < s.len() && s[i] != c {
        lemma_find_byte(s, i + 1, c);
    }
}

/// Scans the digit run starting at `i`.
pub fn scan_digits(s: &[u8], i: usize) -> (r: usize)
    requires
        i <= s@.len(),
    ensures
        r == digit_run_end(s@, i as int),
        i <= r <= s@.len(),
    decreases s@.len() - i,
{
    proof {
        lemma_digit_run_end(s@, i as int);
    }
    if i < s.len() && s[i] >= 48 && s[i] <= 57 {
        scan_digits(s, i + 1)
    } else {
        i
    }
}

/// Scans forward to the first occurrence of `c` at or after `i`.
pub fn scan_to_byte(s: &[u8], i: usize, c: u8) -> (r: usize)
    requires
        i <= s@.len(),
    ensures
        r == find_byte(s@, i as int, c),
        i <= r <= s@.len(),
    decreases s@.len() - i,
{
    proof {
        lemma_find_byte(s@, i as int, c);
    }
    if i < s.len() {
        if s[i] == c {
            i
        } else {
            scan_to_byte(s, i + 1, c)
        }
    } else {
        i
    }
}

/// Parses the ASCII-digit field `s[from..to]` as an unsigned number.
/// Fails on an empty field, a non-digit byte, or overflow.
pub fn parse_u64_digits(s: &[u8], from: usize, to: usize) -> (r: Option<u64>)
    requires
        from <= to <= s@.len(),
    ensures
        (match r {
            Some(v) => to - from >= 1 && all_digits(s@.subrange(from as int, to as int)) && v
                == digits_val(s@.subrange(from as int, to as int)),
            None => !(to - from >= 1 && all_digits(s@.subrange(from as int, to as int))
                && digits_val(s@.subrange(from as int, to as int)) <= u64::MAX),
        }),
{
    let ghost f = s@.subrange(from as int, to as int);
    if from == to {
        return None;
    }
    let mut val: u64 = 0;
    let mut i: usize = from;
    while i < to
        invariant
            from <= i <= to <= s@.len(),
            f == s@.subrange(from as int, to as int),
            all_digits(f.subrange(0, i - from)),
            val == digits_val(f.subrange(0, i - from)),
        decreases to - i,
    {
        let b = s[i];
        assert(b == f[i - from]);
        if b < 48 || b > 57 {
            return None;
        }
        let d = (b - 48) as u64;
        proof {
            assert(f.subrange(0, i + 1 - from).drop_last() =~= f.subrange(0, i - from));
        }
        if val > (u64::MAX - d) / 10 {
            proof {
                lemma_digits_val_nonneg(f.subrange(0, i - from));
                assert(val * 10 + d > u64::MAX) by (nonlinear_arith)
                    requires
                        val > (u64::MAX - d) / 10,
                        0 <= d <= 9,
                        val >= 0,
                ;
                if all_digits(f) {
                    lemma_digits_val_prefix(f, i + 1 - from);
                }
            }
            return None;
        }
        val = val * 10 + d;
        i = i + 1;
    }
    proof {
        assert(f.subrange(0, to - from) =~= f);
    }
    Some(val)
}

/// The elements of `s` that satisfy `p`, in order.
pub open spec fn seq_filter<T>(s: Seq<T>, p: spec_fn(T) -> bool) -> Seq<T>
    decreases s.len(),
{
    if s.len() == 0 {
        Seq::empty()
    } else if p(s.last()) {
        seq_filter(s.drop_last(), p).push(s.last())
    } else {
        seq_filter(s.drop_last(), p)
    }
}

pub proof fn lemma_seq_filter_extend<T>(s: Seq<T>, p: spec_fn(T) -> bool, i: int)
    requires
        0 <= i < s.len(),
    ensures
        p(s[i]) ==> seq_filter(s.subrange(0, i + 1), p) == seq_filter(s.subrange(0, i), p).push(
            s[i],
        ),
        !p(s[i]) ==> seq_filter(s.subrange(0, i + 1), p) == seq_filter(s.subrange(0, i), p),
{
    let a = s.subrange(0, i + 1);
    assert(a.drop_last() =~= s.subrange(0, i));
    assert(a.last() == s[i]);
}

/// The decimal digit bytes of `n`, most significant first, no leading zeros.
pub open spec fn dec_digits(n: int) -> Seq<u8>
    decreases n,
{
    if n < 10 {
        seq![(48 + if n < 0 { 0 } else { n }) as u8]
    } else {
        dec_digits(n / 10).push((48 + n % 10) as u8)
    }
}

pub proof fn lemma_dec_digits_are_digits(n: int)
    requires
        n >= 0,
    ensures
        all_digits(dec_digits(n)),
        digits_val(dec_digits(n)) == n,
        dec_digits(n).len() >= 1,
    decreases n,
{
    if n < 10 {
        assert(dec_digits(n) =~= seq![(48 + n) as u8]);
        assert(dec_digits(n).drop_last() =~= Seq::<u8>::empty());
        assert(digits_val(dec_digits(n)) == digits_val(Seq::<u8>::empty()) * 10 + n);
    } else {
        lemma_dec_digits_are_digits(n / 10);
        let s = dec_digits(n);
        assert(s.drop_last() =~= dec_digits(n / 10));
        assert(digits_val(s) == (n / 10) * 10 + n % 10);
    }
}

/// Formats a nonnegative integer in decimal.
pub fn u64_to_dec(n: u64) -> (r: Vec<u8>)
    ensures
        r@ == dec_digits(n as int),
{
    let mut rev: Vec<u8> = Vec::new();
    let mut m: u64 = n;
    loop
        invariant_except_break
            dec_digits(n as int) =~= dec_digits(m as int) + rev@.reverse(),
        ensures
            dec_digits(n as int) =~= rev@.reverse(),
        decreases m,
    {
        let ghost prev = rev@;
        let ghost mprev = m as int;
        if m < 10 {
            rev.push(48 + (m as u8));
            proof {
                assert(dec_digits(mprev) =~= seq![(48 + mprev) as u8]);
                assert(rev@.reverse() =~= dec_digits(mprev) + prev.reverse());
            }
            break;
        }
        rev.push(48 + ((m % 10) as u8));
        m = m / 10;
        proof {
            assert(dec_digits(mprev) =~= dec_digits(mprev / 10).push((48 + mprev % 10) as u8));
            assert(dec_digits(mprev) + prev.reverse() =~= dec_digits(m as int) + rev@.reverse());
        }
    }
    let mut out: Vec<u8> = Vec::new();
    let mut i: usize = rev.len();
    while i > 0
        invariant
            0 <= i <= rev@.len(),
            out@ =~= rev@.subrange(i as int, rev@.len() as int).reverse(),
        decreases i,
    {
        i = i - 1;
        out.push(rev[i]);
        proof {
            assert(out@ =~= rev@.subrange(i as int, rev@.len() as int).reverse());
        }
    }
    proof {
        assert(rev@.subrange(0, rev@.len() as int) =~= rev@);
        assert(dec_digits(n as int) =~= out@);
    }
    out
}

/// Formats a nonnegative integer as a decimal string.
pub fn u64_to_string(n: u64) -> (r: String)
    ensures
        str_is_ascii_bytes(r@, dec_digits(n as int)),
{
    proof {
        lemma_dec_digits_are_digits(n as int);
    }
    let digits = u64_to_dec(n);
    assert(all_ascii(digits@)) by {
        lemma_dec_digits_are_digits(n as int);
    }
    ascii_to_string(digits.as_slice())
}

} // verus!
