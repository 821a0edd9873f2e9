use vstd::prelude::*;

use crate::util::{lower_of, lowercase, spec_bytes_of};
use vstd::string::StringSliceAdditionalSpecFns;

verus! {

/// A station's service level, from major hub down to technical stop.
#[derive(Debug, PartialEq, Eq, Structural, Clone, Copy)]
pub enum StationType {
    Mega,
    InterCityTransfer,
    InterCity,
    ExpressTransfer,
    Express,
    LocalTransfer,
    Local,
    Technical,
}

/// ASCII lowercase of a byte sequence: letters 'A'..'Z' are shifted,
/// everything else stays.
pub open spec fn lower_ascii_bytes(b: Seq<u8>) -> Seq<u8> {
    Seq::new(
        b.len(),
        |i: int|
            if 65 <= b[i] && b[i] <= 90 {
                (b[i] + 32) as u8
            } else {
                b[i]
            },
    )
}

/// Lowercases the ASCII letters of a byte slice.
pub fn ascii_lower(s: &[u8]) -> (r: Vec<u8>)
    ensures
        r@ == lower_ascii_bytes(s@),
{
    let mut out: Vec<u8> = Vec::new();
    let mut i: usize = 0;
    while i < s.len()
        invariant
            0 <= i <= s@.len(),
            out@ =~= lower_ascii_bytes(s@).subrange(0, i as int),
        decreases s@.len() - i,
    {
        let b = s[i];
        if 65 <= b && b <= 90 {
            out.push(b + 32);
        } else {
            out.push(b);
        }
        proof {
            assert(out@ =~= lower_ascii_bytes(s@).subrange(0, i + 1));
        }
        i = i + 1;
    }
    proof {
        assert(out@ =~= lower_ascii_bytes(s@));
    }
    out
}

/// Byte-slice equality.
pub fn bytes_eq(a: &[u8], b: &[u8]) -> (r: bool)
    ensures
        r == (a@ == b@),
{
    if a.len() != b.len() {
        proof {
            assert(a@.len() != b@.len());
        }
        return false;
    }
    let mut i: usize = 0;
    while i < a.len()
        invariant
            0 <= i <= a@.len() == b@.len(),
            forall|j: int| 0 <= j < i ==> a@[j] == b@[j],
        decreases a@.len() - i,
    {
        if a[i] != b[i] {
            return false;
        }
        i = i + 1;
    }
    proof {
        assert(a@ =~= b@);
    }
    true
}

/// The station type a type field denotes, compared after ASCII case
/// folding.
pub open spec fn station_type_of(b: Seq<u8>) -> Option<StationType> {
    let l = lower_ascii_bytes(b);
    if l == "mega_station".spec_bytes() {
        Some(StationType::Mega)
    } else if l == "knooppunt_intercity_station".spec_bytes() {
        Some(StationType::InterCityTransfer)
    } else if l == "intercity_station".spec_bytes() {
        Some(StationType::InterCity)
    } else if l == "knooppunt_sneltrein_station".spec_bytes() {
        Some(StationType::ExpressTransfer)
    } else if l == "sneltrein_station".spec_bytes() {
        Some(StationType::Express)
    } else if l == "knooppunt_stoptrein_station".spec_bytes() {
        Some(StationType::LocalTransfer)
    } else if l == "stoptrein_station".spec_bytes() {
        Some(StationType::Local)
    } else if l == "facultatief_station".spec_bytes() {
        Some(StationType::Technical)
    } else {
        None
    }
}

impl StationType {
    /// The numeric rank the station list serializes: 7 for the largest
    /// hubs down to 0 for technical stops.
    pub open spec fn spec_rank(&self) -> u8 {
        match self {
            StationType::Mega => 7,
            StationType::InterCityTransfer => 6,
            StationType::InterCity => 5,
            StationType::ExpressTransfer => 4,
            StationType::Express => 3,
            StationType::LocalTransfer => 2,
            StationType::Local => 1,
            StationType::Technical => 0,
        }
    }

    pub fn as_rank(&self) -> (r: u8)
        ensures
            r == self.spec_rank(),
    {
        match self {
            StationType::Mega => 7,
            StationType::InterCityTransfer => 6,
            StationType::InterCity => 5,
            StationType::ExpressTransfer => 4,
            StationType::Express => 3,
            StationType::LocalTransfer => 2,
            StationType::Local => 1,
            StationType::Technical => 0,
        }
    }

    /// Whether the station is a transfer hub.
    pub fn is_transfer(&self) -> (r: bool)
        ensures
            r == (*self is Mega || *self is InterCityTransfer || *self is ExpressTransfer
                || *self is LocalTransfer),
    {
        match self {
            StationType::Mega => true,
            StationType::InterCityTransfer => true,
            StationType::InterCity => false,
            StationType::ExpressTransfer => true,
            StationType::Express => false,
            StationType::LocalTransfer => true,
            StationType::Local => false,
            StationType::Technical => false,
        }
    }

    /// Maps a type field to the station type, folding ASCII case.
    pub fn from_str(s: &str) -> (r: Result<StationType, ()>)
        ensures
            (match r {
                Ok(t) => station_type_of(s.spec_bytes()) == Some(t),
                Err(_) => station_type_of(s.spec_bytes()) is None,
            }),
    {
        let l = ascii_lower(s.as_bytes());
        let lb = l.as_slice();
        if bytes_eq(lb, "mega_station".as_bytes()) {
            Ok(StationType::Mega)
        } else if bytes_eq(lb, "knooppunt_intercity_station".as_bytes()) {
            Ok(StationType::InterCityTransfer)
        } else if bytes_eq(lb, "intercity_station".as_bytes()) {
            Ok(StationType::InterCity)
        } else if bytes_eq(lb, "knooppunt_sneltrein_station".as_bytes()) {
            Ok(StationType::ExpressTransfer)
        } else if bytes_eq(lb, "sneltrein_station".as_bytes()) {
            Ok(StationType::Express)
        } else if bytes_eq(lb, "knooppunt_stoptrein_station".as_bytes()) {
            Ok(StationType::LocalTransfer)
        } else if bytes_eq(lb, "stoptrein_station".as_bytes()) {
            Ok(StationType::Local)
        } else if bytes_eq(lb, "facultatief_station".as_bytes()) {
            Ok(StationType::Technical)
        } else {
            Err(())
        }
    }
}

/// A station as the repository holds it: a lowercase code, the long
/// name, and the service level. Its position stays with the renderer.
#[derive(Debug, PartialEq, Eq, Clone)]
pub struct Station {
    pub code: String,
    pub name: String,
    pub station_type: StationType,
}

/// A station as the stations file carries it, before canonicalization.
#[derive(Debug, PartialEq, Eq, Clone)]
pub struct RawStation {
    pub code: String,
    pub name_long: String,
    pub station_type: String,
}

impl Station {
    /// Canonicalizes one raw station: the code is folded to lowercase
    /// (and must be ASCII), the type field is mapped through the known
    /// table; an unknown type is an ingestion error.
    pub fn new_from_raw(raw: &RawStation) -> (r: Result<Station, ()>)
        ensures
            (match r {
                Ok(st) => {
                    &&& spec_bytes_of(st.code@) == lower_ascii_bytes(spec_bytes_of(raw.code@))
                    &&& st.name == raw.name_long
                    &&& station_type_of(spec_bytes_of(raw.station_type@)) == Some(st.station_type)
                },
                Err(_) => station_type_of(spec_bytes_of(raw.station_type@)) is None || !crate::util::all_ascii(
                    spec_bytes_of(raw.code@),
                ),
            }),
    {
        let code_bytes = ascii_lower(raw.code.as_str().as_bytes());
        if !crate::util::check_all_ascii(raw.code.as_str().as_bytes()) {
            return Err(());
        }
        let station_type = match StationType::from_str(raw.station_type.as_str()) {
            Ok(t) => t,
            Err(_) => {
                return Err(());
            },
        };
        assert(crate::util::all_ascii(code_bytes@));
        let code = crate::util::ascii_to_string(code_bytes.as_slice());
        Ok(Station { code, name: raw.name_long.clone(), station_type })
    }
}

/// The canonicalized station list matches the raw list entry by entry.
pub open spec fn stations_extracted(raws: Seq<RawStation>, stations: Seq<Station>) -> bool {
    stations.len() == raws.len() && forall|i: int|
        0 <= i < raws.len() ==> {
            let st = #[trigger] stations[i];
            &&& spec_bytes_of(st.code@) == lower_ascii_bytes(spec_bytes_of(raws[i].code@))
            &&& st.name == raws[i].name_long
            &&& station_type_of(spec_bytes_of(raws[i].station_type@)) == Some(st.station_type)
        }
}

/// Canonicalizes the whole station list; any bad entry is an ingestion
/// error.
pub fn extract_stations(raws: &Vec<RawStation>) -> (r: Result<Vec<Station>, ()>)
    ensures
        (match r {
            Ok(stations) => stations_extracted(raws@, stations@),
            Err(_) => exists|i: int|
                0 <= i < raws@.len() && (station_type_of(
                    spec_bytes_of((#[trigger] raws@[i]).station_type@),
                ) is None || !crate::util::all_ascii(spec_bytes_of(raws@[i].code@))),
        }),
{
    let mut out: Vec<Station> = Vec::new();
    let mut i: usize = 0;
    let n = raws.len();
    while i < n
        invariant
            0 <= i <= n == raws@.len(),
            out@.len() == i,
            forall|j: int|
                0 <= j < i ==> {
                    let st = #[trigger] out@[j];
                    &&& spec_bytes_of(st.code@) == lower_ascii_bytes(spec_bytes_of(raws@[j].code@))
                    &&& st.name == raws@[j].name_long
                    &&& station_type_of(spec_bytes_of(raws@[j].station_type@)) == Some(
                        st.station_type,
                    )
                },
        decreases n - i,
    {
        match Station::new_from_raw(&raws[i]) {
            Ok(st) => {
                out.push(st);
            },
            Err(_) => {
                return Err(());
            },
        }
        i = i + 1;
    }
    Ok(out)
}

/// The folded haystack holds the folded needle as a contiguous run.
pub open spec fn contains_bytes(h: Seq<u8>, n: Seq<u8>) -> bool {
    exists|i: int| 0 <= i <= h.len() - n.len() && #[trigger] h.subrange(i, i + n.len()) == n
}

/// Whether `needle` sits at position `i` of `hay`.
fn match_at(hay: &[u8], needle: &[u8], i: usize) -> (r: bool)
    requires
        i + needle@.len() <= hay@.len(),
    ensures
        r == (hay@.subrange(i as int, i + needle@.len()) == needle@),
{
    let nn = needle.len();
    let hl = hay.len();
    let mut k: usize = 0;
    while k < nn
        invariant
            0 <= k <= nn == needle@.len(),
            i + nn <= hl == hay@.len(),
            forall|t: int| 0 <= t < k ==> hay@[i + t] == needle@[t],
        decreases nn - k,
    {
        if hay[i + k] != needle[k] {
            proof {
                assert(hay@.subrange(i as int, i + needle@.len())[k as int] != needle@[
                    k as int]);
            }
            return false;
        }
        k = k + 1;
    }
    proof {
        assert(hay@.subrange(i as int, i + needle@.len()) =~= needle@);
    }
    true
}

/// Finds whether `needle` occurs contiguously inside `hay`.
pub fn is_substring(hay: &[u8], needle: &[u8]) -> (r: bool)
    ensures
        r == contains_bytes(hay@, needle@),
{
    let hn = hay.len();
    let nn = needle.len();
    if nn > hn {
        return false;
    }
    if nn == 0 {
        proof {
            assert(contains_bytes(hay@, needle@)) by {
                assert(hay@.subrange(0, 0 + needle@.len() as int) =~= needle@);
            }
        }
        return true;
    }
    let mut i: usize = 0;
    while i <= hn - nn
        invariant
            0 <= i <= hn - nn + 1,
            1 <= nn <= hn == hay@.len(),
            nn == needle@.len(),
            forall|w: int| 0 <= w < i ==> #[trigger] hay@.subrange(w, w + needle@.len())
                != needle@,
        decreases hn + 1 - i,
    {
        if match_at(hay, needle, i) {
            return true;
        }
        i = i + 1;
    }
    false
}

/// A station whose folded name equals the folded needle.
pub open spec fn name_exact(st: Station, needle: Seq<char>) -> bool {
    lower_of(st.name@) == lower_of(needle)
}

/// A station whose folded name contains the folded needle.
pub open spec fn name_matches(st: Station, needle: Seq<char>) -> bool {
    contains_bytes(spec_bytes_of(lower_of(st.name@)), spec_bytes_of(lower_of(needle)))
}

/// Selects a station by name: a case-insensitive exact match is
/// preferred; failing that, any station whose folded name contains the
/// folded needle.
pub fn select_station_by_name<'a>(stations: &'a Vec<Station>, needle: &str) -> (r: Option<
    &'a Station,
>)
    ensures
        (match r {
            Some(st) => exists|i: int|
                0 <= i < stations@.len() && stations@[i] == *st && (name_exact(*st, needle@)
                    || name_matches(*st, needle@)),
            None => forall|i: int|
                0 <= i < stations@.len() ==> !name_exact(#[trigger] stations@[i], needle@)
                    && !name_matches(stations@[i], needle@),
        }),
        (exists|i: int| 0 <= i < stations@.len() && name_exact(#[trigger] stations@[i], needle@))
            ==> (r is Some && name_exact(*r.unwrap(), needle@)),
{
    let needle_l = lowercase(needle);
    let n = stations.len();
    let mut i: usize = 0;
    while i < n
        invariant
            0 <= i <= n == stations@.len(),
            needle_l@ == lower_of(needle@),
            forall|j: int| 0 <= j < i ==> !name_exact(#[trigger] stations@[j], needle@),
        decreases n - i,
    {
        let name_l = lowercase(stations[i].name.as_str());
        if name_l == needle_l {
            return Some(&stations[i]);
        }
        i = i + 1;
    }
    let mut j: usize = 0;
    while j < n
        invariant
            0 <= j <= n == stations@.len(),
            needle_l@ == lower_of(needle@),
            forall|w: int| 0 <= w < n ==> !name_exact(#[trigger] stations@[w], needle@),
            forall|w: int| 0 <= w < j ==> !name_matches(#[trigger] stations@[w], needle@),
        decreases n - j,
    {
        let name_l = lowercase(stations[j].name.as_str());
        if is_substring(name_l.as_str().as_bytes(), needle_l.as_str().as_bytes()) {
            return Some(&stations[j]);
        }
        j = j + 1;
    }
    None
}

} // verus!
