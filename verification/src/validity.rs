use vstd::prelude::*;

use std::collections::HashMap;

use crate::model::Header;
use crate::date::{ddmmyyyy_day, ddmmyyyy_month, ddmmyyyy_year, spec_day_number};
use crate::parsing::{
    expect_newline, hdr_end, hdr_j1, hdr_j2, parse_header, spec_header_matches, header_ok, nl_ok,
    nl_skip, uint_ok, uint_val, dec_uint_leading, ParseFailure,
};
use crate::util::all_ascii;

verus! {

broadcast use vstd::std_specs::hash::group_hash_axioms, vstd::std_specs::vec::vec_clone_deep_view_proof;

/// One footnote of the footnote file: a numbered day bit-vector.
#[derive(Debug, PartialEq, Eq, Clone)]
pub struct DayValidityFootnote {
    pub id: u64,
    pub validity: Vec<bool>,
}

/// The day-validity engine: for each footnote id, one bit per day of the
/// validity window.
pub struct RideValidity {
    header: Header,
    validities: HashMap<u64, Vec<bool>>,
}

/// The footnote map a list of footnotes denotes; a repeated id keeps its
/// last bit-vector.
pub open spec fn validity_map(entries: Seq<DayValidityFootnote>) -> Map<u64, Seq<bool>>
    decreases entries.len(),
{
    if entries.len() == 0 {
        Map::empty()
    } else {
        validity_map(entries.drop_last()).insert(entries.last().id, entries.last().validity@)
    }
}

/// The day bit-vectors a footnote table holds, by footnote id.
pub open spec fn table_of(m: Map<u64, Vec<bool>>) -> Map<u64, Seq<bool>> {
    Map::new(|k: u64| m.dom().contains(k), |k: u64| m[k]@)
}

impl RideValidity {
    pub closed spec fn spec_header(&self) -> Header {
        self.header
    }

    pub closed spec fn spec_validities(&self) -> Map<u64, Seq<bool>> {
        table_of(self.validities@)
    }

    /// Number of days in the validity window, endpoints included.
    pub open spec fn day_count(&self) -> int {
        self.spec_header().last_valid_date.spec_index()
            - self.spec_header().first_valid_date.spec_index() + 1
    }

    /// The sentinel answer a query surface gives: false for a date
    /// outside the window or an unknown footnote, else the date's bit.
    pub open spec fn spec_is_valid_sentinel(&self, footnote: u64, date: crate::date::Date) -> bool {
        &&& self.spec_header().first_valid_date.spec_index() <= date.spec_index()
            <= self.spec_header().last_valid_date.spec_index()
        &&& self.spec_validities().dom().contains(footnote)
        &&& self.spec_validities()[footnote][date.spec_index()
            - self.spec_header().first_valid_date.spec_index()]
    }

    /// Both window endpoints are real dates and every bit-vector covers
    /// the window exactly.
    pub open spec fn wf(&self) -> bool {
        &&& self.spec_header().first_valid_date.valid()
        &&& self.spec_header().last_valid_date.valid()
        &&& forall|id: u64|
            self.spec_validities().dom().contains(id) ==> (
            #[trigger] self.spec_validities()[id]).len() == self.day_count()
    }

    /// Builds the engine, rejecting any bit-vector whose length is not
    /// the number of days in the validity window.
    pub fn new(header: Header, entries: Vec<DayValidityFootnote>) -> (r: Result<
        Self,
        ParseFailure,
    >)
        requires
            header.first_valid_date.valid(),
            header.last_valid_date.valid(),
        ensures
            (match r {
                Ok(rv) => {
                    &&& rv.wf()
                    &&& rv.spec_header() == header
                    &&& rv.spec_validities() == validity_map(entries@)
                    &&& forall|q: int|
                        0 <= q < entries@.len() ==> (#[trigger] entries@[q]).validity@.len()
                            == rv.day_count()
                },
                Err(_) => exists|q: int|
                    0 <= q < entries@.len() && (#[trigger] entries@[q]).validity@.len()
                        != header.last_valid_date.spec_index()
                        - header.first_valid_date.spec_index() + 1,
            }),
    {
        let first = header.first_valid_date.day_number();
        let last = header.last_valid_date.day_number();
        let mut validities: HashMap<u64, Vec<bool>> = HashMap::new();
        proof {
            assert(table_of(validities@) =~= validity_map(Seq::<DayValidityFootnote>::empty()));
        }
        let mut q: usize = 0;
        let n = entries.len();
        while q < n
            invariant
                0 <= q <= n == entries@.len(),
                vstd::std_specs::hash::obeys_key_model::<u64>(),
                vstd::std_specs::hash::builds_valid_hashers::<std::hash::RandomState>(),
                table_of(validities@) == validity_map(entries@.subrange(0, q as int)),
                header.first_valid_date.valid(),
                header.last_valid_date.valid(),
                first == header.first_valid_date.spec_index(),
                last == header.last_valid_date.spec_index(),
                forall|j: int|
                    0 <= j < q ==> (#[trigger] entries@[j]).validity@.len() == last - first + 1,
            decreases n - q,
        {
            let entry = &entries[q];
            let count: i64 = last as i64 - first as i64 + 1;
            let len_ok = count >= 0 && entry.validity.len() as u64 == count as u64;
            if !len_ok {
                proof {
                    assert(entries@[q as int].validity@.len() != header.last_valid_date.spec_index()
                        - header.first_valid_date.spec_index() + 1);
                    assert(exists|w: int|
                        0 <= w < entries@.len() && (#[trigger] entries@[w]).validity@.len()
                            != header.last_valid_date.spec_index()
                            - header.first_valid_date.spec_index() + 1);
                }
                return Err(ParseFailure { at: 0 });
            }
            let cloned_validity = entry.validity.clone();
            proof {
                assert(cloned_validity.deep_view() =~= cloned_validity@);
                assert(entry.validity.deep_view() =~= entry.validity@);
                assert(cloned_validity@ == entries@[q as int].validity@);
            }
            let ghost before = validities@;
            validities.insert(entry.id, cloned_validity);
            proof {
                assert(entries@.subrange(0, q + 1).drop_last() =~= entries@.subrange(
                    0,
                    q as int,
                ));
                assert(entries@.subrange(0, q + 1).last() == entries@[q as int]);
                assert(table_of(validities@) =~= table_of(before).insert(
                    entries@[q as int].id,
                    entries@[q as int].validity@,
                ));
            }
            q = q + 1;
        }
        proof {
            assert(entries@.subrange(0, n as int) =~= entries@);
        }
        let rv = RideValidity { header, validities };
        proof {
            assert forall|id: u64| rv.spec_validities().dom().contains(id) implies (
            #[trigger] rv.spec_validities()[id]).len() == rv.day_count() by {
                lemma_validity_map_values(entries@, id);
            }
        }
        Ok(rv)
    }

    /// Whether the footnote applies on the given date.
    ///
    /// A date outside the validity window, or an unknown footnote id, is
    /// a query error; inside the window the answer is the date's bit of
    /// the footnote's vector.
    pub fn is_valid_on_day(&self, footnote_id: u64, date: crate::date::Date) -> (r: Result<
        bool,
        (),
    >)
        requires
            self.wf(),
            date.valid(),
        ensures
            (match r {
                Ok(b) => {
                    &&& self.spec_header().first_valid_date.spec_index() <= date.spec_index()
                        <= self.spec_header().last_valid_date.spec_index()
                    &&& self.spec_validities().dom().contains(footnote_id)
                    &&& b == self.spec_validities()[footnote_id][date.spec_index()
                        - self.spec_header().first_valid_date.spec_index()]
                },
                Err(_) => !(self.spec_header().first_valid_date.spec_index()
                    <= date.spec_index()
                    <= self.spec_header().last_valid_date.spec_index())
                    || !self.spec_validities().dom().contains(footnote_id),
            }),
    {
        let dn = date.day_number();
        let first = self.header.first_valid_date.day_number();
        let last = self.header.last_valid_date.day_number();
        if dn < first || dn > last {
            return Err(());
        }
        let day_id = (dn - first) as usize;
        match self.validities.get(&footnote_id) {
            Some(v) => {
                proof {
                    assert(self.validities@.contains_key(footnote_id));
                    assert(self.spec_validities().dom().contains(footnote_id));
                    assert(self.spec_validities()[footnote_id] == v@);
                }
                Ok(v[day_id])
            },
            None => Err(()),
        }
    }

    pub fn header(&self) -> (r: &Header)
        ensures
            r == self.spec_header(),
    {
        &self.header
    }
}

proof fn lemma_validity_map_values(entries: Seq<DayValidityFootnote>, id: u64)
    requires
        validity_map(entries).dom().contains(id),
    ensures
        exists|q: int|
            0 <= q < entries.len() && (#[trigger] entries[q]).id == id && entries[q].validity@
                == validity_map(entries)[id],
    decreases entries.len(),
{
    if entries.len() > 0 {
        if entries.last().id == id {
            assert(entries[entries.len() - 1].id == id);
        } else {
            lemma_validity_map_values(entries.drop_last(), id);
            let q = choose|q: int|
                0 <= q < entries.drop_last().len() && (#[trigger] entries.drop_last()[q]).id == id
                    && entries.drop_last()[q].validity@ == validity_map(entries.drop_last())[id];
            assert(entries[q].id == id && entries[q].validity@ == validity_map(entries)[id]);
        }
    }
}

/// End of the run of '0' and '1' bytes starting at `i`.
pub open spec fn bit_run_end(s: Seq<u8>, i: int) -> int
    decreases s.len() - i,
{
    if 0 <= i < s.len() && (s[i] == 48 || s[i] == 49) {
        bit_run_end(s, i + 1)
    } else {
        i
    }
}

fn scan_bits(s: &[u8], i: usize) -> (r: usize)
    requires
        i <= s@.len(),
    ensures
        r == bit_run_end(s@, i as int),
        i <= r <= s@.len(),
    decreases s@.len() - i,
{
    if i < s.len() && (s[i] == 48 || s[i] == 49) {
        scan_bits(s, i + 1)
    } else {
        i
    }
}

proof fn lemma_bit_run(s: Seq<u8>, i: int)
    requires
        0 <= i <= s.len(),
    ensures
        forall|j: int| i <= j < bit_run_end(s, i) ==> #[trigger] s[j] == 48 || s[j] == 49,
    decreases s.len() - i,
{
    if i < s.len() && (s[i] == 48 || s[i] == 49) {
        lemma_bit_run(s, i + 1);
    }
}

/// A footnote record starts at `i`: the id line, then the bit line.
pub open spec fn fnr_ok(s: Seq<u8>, i: int) -> bool {
    let u1 = crate::util::digit_run_end(s, i + 1);
    let bits_start = nl_skip(s, u1);
    let bits_end = bit_run_end(s, bits_start);
    &&& 0 <= i < s.len() && s[i] == 35
    &&& uint_ok(s, i + 1)
    &&& nl_ok(s, u1)
    &&& bits_end > bits_start
    &&& nl_ok(s, bits_end)
}

pub open spec fn fnr_bits_start(s: Seq<u8>, i: int) -> int {
    nl_skip(s, crate::util::digit_run_end(s, i + 1))
}

pub open spec fn fnr_bits_end(s: Seq<u8>, i: int) -> int {
    bit_run_end(s, fnr_bits_start(s, i))
}

pub open spec fn fnr_end(s: Seq<u8>, i: int) -> int {
    nl_skip(s, fnr_bits_end(s, i))
}

/// The footnote a well-formed footnote record at `i` denotes.
pub open spec fn fnr_matches(s: Seq<u8>, i: int, f: DayValidityFootnote) -> bool {
    &&& f.id == uint_val(s, i + 1)
    &&& f.validity@.len() == fnr_bits_end(s, i) - fnr_bits_start(s, i)
    &&& (forall|k: int|
        0 <= k < f.validity@.len() ==> #[trigger] f.validity@[k] == (s[fnr_bits_start(s, i) + k]
            == 49))
}

/// Parses one footnote record: `#ID`, then a line of '0' and '1' bits.
pub fn parse_footnote_record(s: &[u8], i: usize) -> (r: Result<
    (DayValidityFootnote, usize),
    ParseFailure,
>)
    requires
        i <= s@.len(),
    ensures
        (match r {
            Ok((f, end)) => {
                &&& fnr_ok(s@, i as int)
                &&& fnr_matches(s@, i as int, f)
                &&& end == fnr_end(s@, i as int)
                &&& i < end <= s@.len()
            },
            Err(_) => !fnr_ok(s@, i as int),
        }),
{
    let n = s.len();
    if i >= n || s[i] != 35 {
        return Err(ParseFailure { at: i });
    }
    let (id, u1) = match dec_uint_leading(s, i + 1) {
        Ok(v) => v,
        Err(e) => {
            return Err(e);
        },
    };
    let bits_start = match expect_newline(s, u1) {
        Ok(j) => j,
        Err(e) => {
            return Err(e);
        },
    };
    let bits_end = scan_bits(s, bits_start);
    if bits_end == bits_start {
        return Err(ParseFailure { at: bits_start });
    }
    proof {
        lemma_bit_run(s@, bits_start as int);
    }
    let mut validity: Vec<bool> = Vec::new();
    let mut k: usize = bits_start;
    while k < bits_end
        invariant
            bits_start <= k <= bits_end <= s@.len(),
            validity@.len() == k - bits_start,
            forall|j: int|
                0 <= j < validity@.len() ==> #[trigger] validity@[j] == (s@[bits_start + j]
                    == 49),
        decreases bits_end - k,
    {
        validity.push(s[k] == 49);
        k = k + 1;
    }
    let end = match expect_newline(s, bits_end) {
        Ok(j) => j,
        Err(e) => {
            return Err(e);
        },
    };
    Ok((DayValidityFootnote { id, validity }, end))
}

/// End of the run of well-formed footnote records starting at `i`.
pub open spec fn fnr_run_end(s: Seq<u8>, i: int) -> int
    decreases s.len() - i,
{
    if 0 <= i < s.len() && fnr_ok(s, i) && i < fnr_end(s, i) <= s.len() {
        fnr_run_end(s, fnr_end(s, i))
    } else {
        i
    }
}

/// Position after consuming exactly these footnotes from `start`.
pub open spec fn fnr_list_prefix(s: Seq<u8>, start: int, fs: Seq<DayValidityFootnote>) -> Option<
    int,
>
    decreases fs.len(),
{
    if fs.len() == 0 {
        Some(start)
    } else {
        match fnr_list_prefix(s, start, fs.drop_last()) {
            Some(e) => if 0 <= e < s.len() && fnr_ok(s, e) && fnr_matches(s, e, fs.last()) {
                Some(fnr_end(s, e))
            } else {
                None
            },
            None => None,
        }
    }
}

/// The number of days of the validity window the file's own header
/// declares.
pub open spec fn text_window_days(s: Seq<u8>) -> int {
    let f = s.subrange(hdr_j1(s, 0) + 1, hdr_j1(s, 0) + 9);
    let l = s.subrange(hdr_j2(s, 0) + 1, hdr_j2(s, 0) + 9);
    spec_day_number(ddmmyyyy_year(l), ddmmyyyy_month(l), ddmmyyyy_day(l)) - spec_day_number(
        ddmmyyyy_year(f),
        ddmmyyyy_month(f),
        ddmmyyyy_day(f),
    ) + 1
}

/// Parses a footnote file: the header, then footnote records until the
/// input ends, each bit-vector covering the validity window exactly.
/// It succeeds exactly when the input is ASCII, the grammar covers it,
/// and every bit-vector has the window's length.
pub fn parse_footnote_file(s: &[u8]) -> (r: Result<RideValidity, ParseFailure>)
    ensures
        (match r {
            Ok(rv) => {
                &&& all_ascii(s@)
                &&& header_ok(s@, 0)
                &&& spec_header_matches(s@, 0, rv.spec_header())
                &&& fnr_run_end(s@, hdr_end(s@, 0)) == s@.len()
                &&& exists|entries: Seq<DayValidityFootnote>|
                    {
                        &&& #[trigger] fnr_list_prefix(s@, hdr_end(s@, 0), entries) == Some(
                            s@.len() as int,
                        )
                        &&& rv.spec_validities() == validity_map(entries)
                        &&& forall|q: int|
                            0 <= q < entries.len() ==> (#[trigger] entries[q]).validity@.len()
                                == rv.day_count()
                    }
                &&& rv.wf()
            },
            Err(_) => !(all_ascii(s@) && header_ok(s@, 0) && fnr_run_end(s@, hdr_end(s@, 0))
                == s@.len()) || exists|entries: Seq<DayValidityFootnote>|
                #[trigger] fnr_list_prefix(s@, hdr_end(s@, 0), entries) == Some(s@.len() as int)
                    && exists|q: int|
                    0 <= q < entries.len() && (#[trigger] entries[q]).validity@.len()
                        != text_window_days(s@),
        }),
{
    if !crate::util::check_all_ascii(s) {
        return Err(ParseFailure { at: 0 });
    }
    let n = s.len();
    let (header, p0) = match parse_header(s, 0) {
        Ok(v) => v,
        Err(e) => {
            return Err(e);
        },
    };
    let ghost f0 = p0 as int;
    let mut entries: Vec<DayValidityFootnote> = Vec::new();
    let mut p = p0;
    while p < n
        invariant
            p <= n == s@.len(),
            f0 == hdr_end(s@, 0),
            fnr_run_end(s@, f0) == fnr_run_end(s@, p as int),
            fnr_list_prefix(s@, f0, entries@) == Some(p as int),
        decreases n - p,
    {
        let ghost prev = entries@;
        let (f, p2) = match parse_footnote_record(s, p) {
            Ok(v) => v,
            Err(e) => {
                proof {
                    assert(fnr_run_end(s@, p as int) == p as int);
                    assert(fnr_run_end(s@, hdr_end(s@, 0)) != s@.len());
                }
                return Err(e);
            },
        };
        entries.push(f);
        proof {
            assert(entries@.drop_last() =~= prev);
        }
        p = p2;
    }
    proof {
        assert(fnr_run_end(s@, p as int) == p as int);
    }
    let ghost entry_view = entries@;
    let r = RideValidity::new(header, entries);
    proof {
        match &r {
            Ok(rv) => {
                assert(fnr_list_prefix(s@, hdr_end(s@, 0), entry_view) == Some(s@.len() as int));
            },
            Err(_) => {
                // The header the engine rejected came from this file's own
                // header line, so some bit-vector misses the text's window.
                let q = choose|q: int|
                    0 <= q < entry_view.len() && (#[trigger] entry_view[q]).validity@.len()
                        != header.last_valid_date.spec_index()
                        - header.first_valid_date.spec_index() + 1;
                assert(header.first_valid_date.spec_index() == spec_day_number(
                    ddmmyyyy_year(s@.subrange(hdr_j1(s@, 0) + 1, hdr_j1(s@, 0) + 9)),
                    ddmmyyyy_month(s@.subrange(hdr_j1(s@, 0) + 1, hdr_j1(s@, 0) + 9)),
                    ddmmyyyy_day(s@.subrange(hdr_j1(s@, 0) + 1, hdr_j1(s@, 0) + 9)),
                ));
                assert(entry_view[q].validity@.len() != text_window_days(s@));
            },
        }
    }
    r
}

} // verus!
