use vstd::prelude::*;

use crate::date::Date;
use crate::dayoffset::DayOffset;
use crate::locations::LocationCodeHandle;
use crate::platform::Platform;
use crate::util::{dec_digits, u64_to_string};
use vstd::pervasive::VecAdditionalExecFns;

verus! {

/// Platform assignment of one stop: arrival and departure platform, if
/// known, and the footnote tying the assignment to calendar days.
#[derive(Debug, PartialEq, Eq, Structural, Clone, Copy)]
pub struct PlatformInfo {
    pub arrival_platform: Option<Platform>,
    pub departure_platform: Option<Platform>,
    pub footnote: u64,
}

impl PlatformInfo {
    pub fn plain(number: u8, footnote: u64) -> (r: Self)
        ensures
            r == (PlatformInfo {
                arrival_platform: Some(Platform { number, suffix: None, range_to: None }),
                departure_platform: Some(Platform { number, suffix: None, range_to: None }),
                footnote,
            }),
    {
        PlatformInfo {
            arrival_platform: Some(Platform::plain(number)),
            departure_platform: Some(Platform::plain(number)),
            footnote,
        }
    }
}

/// What happens at one timetable entry.
#[derive(Debug, PartialEq, Eq, Structural, Clone, Copy)]
pub enum StopKind {
    Departure(Option<PlatformInfo>, DayOffset),
    Arrival(Option<PlatformInfo>, DayOffset),
    Waypoint,
    StopShort(Option<PlatformInfo>, DayOffset),
    StopLong(Option<PlatformInfo>, DayOffset, DayOffset),
}

impl StopKind {
    pub open spec fn spec_departure_time(&self) -> Option<DayOffset> {
        match self {
            StopKind::Departure(_, t) => Some(*t),
            StopKind::Arrival(_, _) => None,
            StopKind::Waypoint => None,
            StopKind::StopShort(_, t) => Some(*t),
            StopKind::StopLong(_, _, t) => Some(*t),
        }
    }

    pub open spec fn spec_arrival_time(&self) -> Option<DayOffset> {
        match self {
            StopKind::Departure(_, _) => None,
            StopKind::Arrival(_, t) => Some(*t),
            StopKind::Waypoint => None,
            StopKind::StopShort(_, t) => Some(*t),
            StopKind::StopLong(_, t, _) => Some(*t),
        }
    }

    pub open spec fn spec_platform_info(&self) -> Option<PlatformInfo> {
        match self {
            StopKind::Departure(p, _) => *p,
            StopKind::Arrival(p, _) => *p,
            StopKind::Waypoint => None,
            StopKind::StopShort(p, _) => *p,
            StopKind::StopLong(p, _, _) => *p,
        }
    }

    pub fn departure_time(&self) -> (r: Option<DayOffset>)
        ensures
            r == self.spec_departure_time(),
    {
        match self {
            StopKind::Departure(_, t) => Some(*t),
            StopKind::Arrival(_, _) => None,
            StopKind::Waypoint => None,
            StopKind::StopShort(_, t) => Some(*t),
            StopKind::StopLong(_, _, t) => Some(*t),
        }
    }

    pub fn arrival_time(&self) -> (r: Option<DayOffset>)
        ensures
            r == self.spec_arrival_time(),
    {
        match self {
            StopKind::Departure(_, _) => None,
            StopKind::Arrival(_, t) => Some(*t),
            StopKind::Waypoint => None,
            StopKind::StopShort(_, t) => Some(*t),
            StopKind::StopLong(_, t, _) => Some(*t),
        }
    }

    pub fn is_waypoint(&self) -> (r: bool)
        ensures
            r == (*self is Waypoint),
    {
        match self {
            StopKind::Waypoint => true,
            _ => false,
        }
    }

    /// Whether passengers can board the train at a stop of this kind.
    pub fn is_boardable(&self) -> (r: bool)
        ensures
            r == self.spec_is_boardable(),
    {
        match self {
            StopKind::Departure(_, _) => true,
            StopKind::Arrival(_, _) => false,
            StopKind::Waypoint => false,
            StopKind::StopShort(_, _) => true,
            StopKind::StopLong(_, _, _) => true,
        }
    }

    pub open spec fn spec_is_boardable(&self) -> bool {
        match self {
            StopKind::Departure(_, _) => true,
            StopKind::Arrival(_, _) => false,
            StopKind::Waypoint => false,
            StopKind::StopShort(_, _) => true,
            StopKind::StopLong(_, _, _) => true,
        }
    }

    pub fn platform_info(&self) -> (r: Option<PlatformInfo>)
        ensures
            r == self.spec_platform_info(),
    {
        match self {
            StopKind::Departure(p, _) => *p,
            StopKind::Arrival(p, _) => *p,
            StopKind::Waypoint => None,
            StopKind::StopShort(p, _) => *p,
            StopKind::StopLong(p, _, _) => *p,
        }
    }
}

/// One line of a record's timetable: a location and what happens there.
#[derive(Debug, PartialEq, Eq, Structural, Clone, Copy)]
pub struct TimetableEntry {
    pub code: LocationCodeHandle,
    pub stop_kind: StopKind,
}

/// A transit mode line of a record: mode code and the 1-indexed range of
/// non-waypoint stops it covers.
#[derive(Debug, PartialEq, Eq, Clone)]
pub struct TransitMode {
    pub mode: String,
    pub first_stop: u32,
    pub last_stop: u32,
}

/// A ride-id line of a record: one sub-journey, delimited by 1-indexed
/// non-waypoint stop positions.
#[derive(Debug, PartialEq, Eq, Clone)]
pub struct RideId {
    pub company_id: u32,
    pub ride_id: u32,
    pub line_id: Option<u32>,
    pub first_stop: u32,
    pub last_stop: u32,
    pub ride_name: Option<String>,
}

/// A day-validity footnote line of a record.
#[derive(Debug, PartialEq, Eq, Structural, Clone)]
pub struct Footnote {
    pub footnote: u64,
    pub first_stop: u64,
    pub last_stop: u64,
}

/// One raw `#`-record of the timetable file.
#[derive(Debug, PartialEq, Eq, Clone)]
pub struct Record {
    pub id: u64,
    pub timetable: Vec<TimetableEntry>,
    pub ride_id: Vec<RideId>,
    pub day_validity_footnote: u64,
    pub transit_types: Vec<TransitMode>,
}

/// One contiguous journey under a single ride number, derived by
/// splitting a record on its ride-id lines.
#[derive(Debug, PartialEq, Eq, Clone)]
pub struct Ride {
    pub id: String,
    pub transit_mode: String,
    pub timetable: Vec<TimetableEntry>,
    pub day_validity: u64,
    pub previous: Option<String>,
    pub next: Option<String>,
    pub operator: u32,
}

/// A company of the company file.
#[derive(Debug, PartialEq, Eq, Clone)]
pub struct Company {
    pub id: u32,
    pub code: String,
    pub name: String,
    pub end_of_timetable: DayOffset,
}

/// Delivery metadata shared by every file of the archive.
#[derive(Debug, PartialEq, Eq, Clone)]
pub struct Header {
    pub company_id: u64,
    pub first_valid_date: Date,
    pub last_valid_date: Date,
    pub version: u64,
    pub description: String,
}

/// Why a record could not be split into rides.
#[derive(Debug, PartialEq, Eq, Structural, Clone, Copy)]
pub enum SplitError {
    /// Several transit modes combined with several ride ids.
    MixedTransitModes,
    /// A ride id names a stop position the record does not have.
    StopIndexOutOfRange,
    /// A ride id spans fewer than two stops.
    SliceTooShort,
}

/// Number of non-waypoint entries among the first `k`.
pub open spec fn nw_before(tt: Seq<TimetableEntry>, k: int) -> int
    decreases k,
{
    if k <= 0 {
        0
    } else {
        nw_before(tt, k - 1) + if tt[k - 1].stop_kind is Waypoint {
            0int
        } else {
            1int
        }
    }
}

/// Number of non-waypoint entries in the whole timetable.
pub open spec fn nw_count(tt: Seq<TimetableEntry>) -> int {
    nw_before(tt, tt.len() as int)
}

/// Index of the `nth` non-waypoint entry (0-indexed), searching from `from`.
pub open spec fn spec_stop_index(tt: Seq<TimetableEntry>, nth: int, from: int) -> Option<int>
    decreases tt.len() - from,
{
    if from < 0 || from >= tt.len() {
        None
    } else if !(tt[from].stop_kind is Waypoint) {
        if nth == 0 {
            Some(from)
        } else {
            spec_stop_index(tt, nth - 1, from + 1)
        }
    } else {
        spec_stop_index(tt, nth, from + 1)
    }
}

pub proof fn lemma_stop_index_props(tt: Seq<TimetableEntry>, nth: int, from: int)
    requires
        0 <= from <= tt.len(),
        nth >= 0,
    ensures
        (match spec_stop_index(tt, nth, from) {
            Some(k) => from <= k < tt.len() && !(tt[k].stop_kind is Waypoint) && nw_before(tt, k)
                - nw_before(tt, from) == nth,
            None => true,
        }),
    decreases tt.len() - from,
{
    if from < tt.len() {
        if !(tt[from].stop_kind is Waypoint) {
            if nth != 0 {
                lemma_stop_index_props(tt, nth - 1, from + 1);
            }
        } else {
            lemma_stop_index_props(tt, nth, from + 1);
        }
    }
}

/// A later stop ordinal resolves to a later index.
pub proof fn lemma_stop_index_monotone(tt: Seq<TimetableEntry>, a: int, b: int, from: int)
    requires
        0 <= from <= tt.len(),
        0 <= a <= b,
        spec_stop_index(tt, a, from) is Some,
        spec_stop_index(tt, b, from) is Some,
    ensures
        spec_stop_index(tt, a, from).unwrap() <= spec_stop_index(tt, b, from).unwrap(),
        a < b ==> spec_stop_index(tt, a, from).unwrap() < spec_stop_index(tt, b, from).unwrap(),
    decreases tt.len() - from,
{
    if from < tt.len() {
        if !(tt[from].stop_kind is Waypoint) {
            if a == 0 {
                if b > 0 {
                    lemma_stop_index_props(tt, b - 1, from + 1);
                }
            } else {
                lemma_stop_index_monotone(tt, a - 1, b - 1, from + 1);
            }
        } else {
            lemma_stop_index_monotone(tt, a, b, from + 1);
        }
    }
}

/// Finds the index of the `nth` (0-indexed) non-waypoint entry.
pub fn timetable_stop_index(entries: &[TimetableEntry], nth: usize) -> (r: Option<usize>)
    ensures
        (match r {
            Some(k) => spec_stop_index(entries@, nth as int, 0) == Some(k as int) && k
                < entries@.len(),
            None => spec_stop_index(entries@, nth as int, 0) is None,
        }),
{
    let mut i: usize = 0;
    let mut remaining: usize = nth;
    while i < entries.len()
        invariant
            0 <= i <= entries@.len(),
            remaining <= nth,
            spec_stop_index(entries@, nth as int, 0) == spec_stop_index(
                entries@,
                remaining as int,
                i as int,
            ),
        decreases entries@.len() - i,
    {
        if !matches!(entries[i].stop_kind, StopKind::Waypoint) {
            if remaining == 0 {
                return Some(i);
            }
            remaining = remaining - 1;
        }
        i = i + 1;
    }
    None
}

/// The departure time an endpoint normalization gives the first entry:
/// its departure time, or its arrival time if only that exists.
pub open spec fn norm_departure_time(e: TimetableEntry) -> DayOffset {
    if e.stop_kind.spec_departure_time() is Some {
        e.stop_kind.spec_departure_time().unwrap()
    } else {
        e.stop_kind.spec_arrival_time().unwrap()
    }
}

/// The arrival time an endpoint normalization gives the last entry.
pub open spec fn norm_arrival_time(e: TimetableEntry) -> DayOffset {
    if e.stop_kind.spec_arrival_time() is Some {
        e.stop_kind.spec_arrival_time().unwrap()
    } else {
        e.stop_kind.spec_departure_time().unwrap()
    }
}

pub open spec fn norm_first(e: TimetableEntry) -> TimetableEntry {
    TimetableEntry {
        code: e.code,
        stop_kind: StopKind::Departure(e.stop_kind.spec_platform_info(), norm_departure_time(e)),
    }
}

pub open spec fn norm_last(e: TimetableEntry) -> TimetableEntry {
    TimetableEntry {
        code: e.code,
        stop_kind: StopKind::Arrival(e.stop_kind.spec_platform_info(), norm_arrival_time(e)),
    }
}

/// A timetable slice with its first entry forced to a departure and its
/// last to an arrival; inner entries untouched.
pub open spec fn spec_normalize(tt: Seq<TimetableEntry>) -> Seq<TimetableEntry> {
    Seq::new(
        tt.len(),
        |i: int|
            if i == 0 {
                norm_first(tt[0])
            } else if i == tt.len() - 1 {
                norm_last(tt[i])
            } else {
                tt[i]
            },
    )
}

/// Forces the ends of a timetable slice into departure and arrival form.
pub fn timetable_normalize_ends(entries: &mut Vec<TimetableEntry>)
    requires
        old(entries)@.len() >= 2,
        !(old(entries)@[0].stop_kind is Waypoint),
        !(old(entries)@[old(entries)@.len() - 1].stop_kind is Waypoint),
    ensures
        final(entries)@ =~= spec_normalize(old(entries)@),
{
    let n = entries.len();
    let first = entries[0];
    let dep = match first.stop_kind.departure_time() {
        Some(t) => t,
        None => first.stop_kind.arrival_time().unwrap(),
    };
    let first_platform = first.stop_kind.platform_info();
    entries.set(
        0,
        TimetableEntry { code: first.code, stop_kind: StopKind::Departure(first_platform, dep) },
    );
    let last = entries[n - 1];
    let arr = match last.stop_kind.arrival_time() {
        Some(t) => t,
        None => last.stop_kind.departure_time().unwrap(),
    };
    let last_platform = last.stop_kind.platform_info();
    entries.set(
        n - 1,
        TimetableEntry { code: last.code, stop_kind: StopKind::Arrival(last_platform, arr) },
    );
}

/// The decimal string of a ride number, as characters.
pub open spec fn dec_str(n: int) -> Seq<char> {
    Seq::new(dec_digits(n).len(), |i: int| dec_digits(n)[i] as char)
}

/// What splitting derives for ride `k` of a record: its slice of the
/// timetable with normalized ends, and its identity and neighbours.
pub open spec fn ride_derived(rec: Record, k: int, rd: Ride) -> bool {
    let rid = rec.ride_id@[k];
    &&& 0 <= k < rec.ride_id@.len()
    &&& rec.spec_ride_slice_ok(k)
    &&& rd.id@ == dec_str(rid.ride_id as int)
    &&& rd.operator == rid.company_id
    &&& rd.day_validity == rec.day_validity_footnote
    &&& rd.transit_mode@ == rec.spec_mode_for(k)
    &&& rd.timetable@ == rec.spec_ride_timetable(k)
    &&& (k == 0 ==> rd.previous is None)
    &&& (k > 0 ==> rd.previous is Some && rd.previous.unwrap()@ == dec_str(
        rec.ride_id@[k - 1].ride_id as int,
    ))
    &&& (k == rec.ride_id@.len() - 1 ==> rd.next is None)
    &&& (k < rec.ride_id@.len() - 1 ==> rd.next is Some && rd.next.unwrap()@ == dec_str(
        rec.ride_id@[k + 1].ride_id as int,
    ))
}

impl Record {
    /// The transit mode shared by a single-mode record, or the mode at a
    /// ride's own position when the counts pair up.
    pub open spec fn spec_mode_for(&self, k: int) -> Seq<char> {
        if self.transit_types@.len() == 1 {
            self.transit_types@[0].mode@
        } else {
            self.transit_types@[k].mode@
        }
    }

    /// Whether ride `k` delimits a usable slice of the timetable.
    pub open spec fn spec_ride_slice_ok(&self, k: int) -> bool {
        let rid = self.ride_id@[k];
        &&& rid.first_stop >= 1
        &&& rid.last_stop >= 1
        &&& spec_stop_index(self.timetable@, rid.first_stop - 1, 0) is Some
        &&& spec_stop_index(self.timetable@, rid.last_stop - 1, 0) is Some
        &&& spec_stop_index(self.timetable@, rid.first_stop - 1, 0).unwrap() < spec_stop_index(
            self.timetable@,
            rid.last_stop - 1,
            0,
        ).unwrap()
    }

    /// The normalized timetable slice of ride `k`.
    pub open spec fn spec_ride_timetable(&self, k: int) -> Seq<TimetableEntry> {
        let rid = self.ride_id@[k];
        let i = spec_stop_index(self.timetable@, rid.first_stop - 1, 0).unwrap();
        let j = spec_stop_index(self.timetable@, rid.last_stop - 1, 0).unwrap();
        spec_normalize(self.timetable@.subrange(i, j + 1))
    }

    /// Splits the record into one ride per ride-id line.
    ///
    /// A record with several transit modes and several ride ids is not
    /// supported; a ride id pointing outside the record, or spanning fewer
    /// than two stops, is rejected.
    /// The whole record can be split: mode and ride-id counts pair up and
    /// every ride id delimits a usable slice.
    pub open spec fn spec_splits_ok(&self) -> bool {
        &&& (self.transit_types@.len() == 1 || self.ride_id@.len() <= 1)
        &&& (self.transit_types@.len() >= 1 || self.ride_id@.len() == 0)
        &&& forall|k: int| 0 <= k < self.ride_id@.len() ==> self.spec_ride_slice_ok(k)
    }

    pub fn split_on_ride_id(&self) -> (r: Result<Vec<Ride>, SplitError>)
        ensures
            (match r {
                Ok(rides) => {
                    &&& self.spec_splits_ok()
                    &&& rides@.len() == self.ride_id@.len()
                    &&& forall|k: int|
                        0 <= k < rides@.len() ==> ride_derived(*self, k, #[trigger] rides@[k])
                },
                Err(_) => !self.spec_splits_ok(),
            }),
    {
        let is_sole = self.transit_types.len() == 1;
        if !is_sole && self.ride_id.len() > 1 {
            return Err(SplitError::MixedTransitModes);
        }
        if self.transit_types.len() == 0 && self.ride_id.len() == 1 {
            return Err(SplitError::MixedTransitModes);
        }
        let mut rides: Vec<Ride> = Vec::new();
        let mut k: usize = 0;
        while k < self.ride_id.len()
            invariant
                0 <= k <= self.ride_id@.len(),
                rides@.len() == k,
                is_sole == (self.transit_types@.len() == 1),
                self.transit_types@.len() == 1 || self.ride_id@.len() <= 1,
                self.transit_types@.len() >= 1 || self.ride_id@.len() == 0,
                forall|q: int| 0 <= q < k ==> ride_derived(*self, q, #[trigger] rides@[q]),
            decreases self.ride_id@.len() - k,
        {
            let rid = &self.ride_id[k];
            let mode: &TransitMode = if is_sole {
                &self.transit_types[0]
            } else {
                &self.transit_types[k]
            };
            if rid.first_stop < 1 || rid.last_stop < 1 {
                proof {
                    assert(!self.spec_ride_slice_ok(k as int));
                }
                return Err(SplitError::StopIndexOutOfRange);
            }
            let first_idx = match timetable_stop_index(
                self.timetable.as_slice(),
                (rid.first_stop - 1) as usize,
            ) {
                Some(i) => i,
                None => {
                    proof {
                        assert(!self.spec_ride_slice_ok(k as int));
                    }
                    return Err(SplitError::StopIndexOutOfRange);
                },
            };
            let last_idx = match timetable_stop_index(
                self.timetable.as_slice(),
                (rid.last_stop - 1) as usize,
            ) {
                Some(i) => i,
                None => {
                    proof {
                        assert(!self.spec_ride_slice_ok(k as int));
                    }
                    return Err(SplitError::StopIndexOutOfRange);
                },
            };
            if first_idx >= last_idx {
                proof {
                    assert(!self.spec_ride_slice_ok(k as int));
                }
                return Err(SplitError::SliceTooShort);
            }
            proof {
                lemma_stop_index_props(self.timetable@, rid.first_stop - 1, 0);
                lemma_stop_index_props(self.timetable@, rid.last_stop - 1, 0);
            }
            let mut slice: Vec<TimetableEntry> = Vec::new();
            let tt_len = self.timetable.len();
            let mut idx: usize = first_idx;
            while idx <= last_idx
                invariant
                    first_idx <= idx <= last_idx + 1,
                    last_idx < tt_len,
                    tt_len == self.timetable@.len(),
                    slice@ =~= self.timetable@.subrange(first_idx as int, idx as int),
                decreases last_idx + 1 - idx,
            {
                slice.push(self.timetable[idx]);
                idx = idx + 1;
            }
            proof {
                assert(slice@ =~= self.timetable@.subrange(first_idx as int, last_idx + 1));
            }
            timetable_normalize_ends(&mut slice);
            let next = if k + 1 < self.ride_id.len() {
                Some(u64_to_string(self.ride_id[k + 1].ride_id as u64))
            } else {
                None
            };
            let previous = if k > 0 {
                Some(u64_to_string(self.ride_id[k - 1].ride_id as u64))
            } else {
                None
            };
            let ghost oldrides = rides@;
            rides.push(
                Ride {
                    transit_mode: mode.mode.clone(),
                    timetable: slice,
                    id: u64_to_string(rid.ride_id as u64),
                    day_validity: self.day_validity_footnote,
                    next,
                    previous,
                    operator: rid.company_id,
                },
            );
            proof {
                let rd = rides@[k as int];
                assert(rd.id@ =~= dec_str(self.ride_id@[k as int].ride_id as int));
                if k > 0 {
                    assert(rd.previous.unwrap()@ =~= dec_str(
                        self.ride_id@[k as int - 1].ride_id as int,
                    ));
                }
                if (k as int) < self.ride_id@.len() - 1 {
                    assert(rd.next.unwrap()@ =~= dec_str(
                        self.ride_id@[k as int + 1].ride_id as int,
                    ));
                }
                assert(forall|q: int| 0 <= q < k ==> rides@[q] == oldrides[q]);
            }
            k = k + 1;
        }
        proof {
            assert forall|q: int|
                0 <= q < self.ride_id@.len() implies self.spec_ride_slice_ok(q) by {
                assert(ride_derived(*self, q, rides@[q]));
            }
        }
        Ok(rides)
    }
}

/// The first entry of a normalized slice is a departure, the last an
/// arrival, and every entry keeps its location; inner entries are
/// untouched.
pub proof fn lemma_normalize_shape(tt: Seq<TimetableEntry>)
    requires
        tt.len() >= 2,
    ensures
        spec_normalize(tt).len() == tt.len(),
        spec_normalize(tt)[0].stop_kind is Departure,
        spec_normalize(tt)[tt.len() - 1].stop_kind is Arrival,
        forall|i: int| 0 <= i < tt.len() ==> spec_normalize(tt)[i].code == tt[i].code,
        forall|i: int| 0 < i < tt.len() - 1 ==> spec_normalize(tt)[i] == tt[i],
{
}

/// Normalization never creates or removes a waypoint.
pub proof fn lemma_normalize_waypoints(tt: Seq<TimetableEntry>)
    requires
        tt.len() >= 2,
        !(tt[0].stop_kind is Waypoint),
        !(tt[tt.len() - 1].stop_kind is Waypoint),
    ensures
        forall|i: int|
            0 <= i < tt.len() ==> ((spec_normalize(tt)[i].stop_kind is Waypoint) <==> (
            tt[i].stop_kind is Waypoint)),
{
}

proof fn lemma_nw_before_pointwise(a: Seq<TimetableEntry>, b: Seq<TimetableEntry>, k: int)
    requires
        a.len() == b.len(),
        0 <= k <= a.len(),
        forall|i: int|
            0 <= i < a.len() ==> ((a[i].stop_kind is Waypoint) <==> (b[i].stop_kind is Waypoint)),
    ensures
        nw_before(a, k) == nw_before(b, k),
    decreases k,
{
    if k > 0 {
        lemma_nw_before_pointwise(a, b, k - 1);
    }
}

proof fn lemma_nw_before_split(tt: Seq<TimetableEntry>, a: int, b: int)
    requires
        0 <= a <= b <= tt.len(),
    ensures
        nw_before(tt, b) - nw_before(tt, a) == nw_count(tt.subrange(a, b)),
    decreases b - a,
{
    if b > a {
        lemma_nw_before_split(tt, a, b - 1);
        let sub = tt.subrange(a, b);
        assert(sub.subrange(0, b - 1 - a) =~= tt.subrange(a, b - 1));
        assert(nw_before(sub, b - a) == nw_before(sub, b - a - 1) + if tt[b - 1].stop_kind
            is Waypoint {
            0int
        } else {
            1int
        });
        lemma_nw_before_restrict(sub, tt.subrange(a, b - 1), b - 1 - a);
    }
}

proof fn lemma_nw_before_restrict(a: Seq<TimetableEntry>, b: Seq<TimetableEntry>, k: int)
    requires
        0 <= k <= a.len(),
        k <= b.len(),
        forall|i: int| 0 <= i < k ==> a[i] == b[i],
    ensures
        nw_before(a, k) == nw_before(b, k),
    decreases k,
{
    if k > 0 {
        lemma_nw_before_restrict(a, b, k - 1);
    }
}

/// The derived ride of a record covers exactly `last_stop - first_stop + 1`
/// non-waypoint stops, whatever waypoints lie between them.
pub proof fn lemma_ride_stop_count(rec: Record, k: int)
    requires
        0 <= k < rec.ride_id@.len(),
        rec.spec_ride_slice_ok(k),
    ensures
        nw_count(rec.spec_ride_timetable(k)) == rec.ride_id@[k].last_stop
            - rec.ride_id@[k].first_stop + 1,
{
    let tt = rec.timetable@;
    let rid = rec.ride_id@[k];
    let i = spec_stop_index(tt, rid.first_stop - 1, 0).unwrap();
    let j = spec_stop_index(tt, rid.last_stop - 1, 0).unwrap();
    lemma_stop_index_props(tt, rid.first_stop - 1, 0);
    lemma_stop_index_props(tt, rid.last_stop - 1, 0);
    let sub = tt.subrange(i, j + 1);
    lemma_nw_before_split(tt, i, j + 1);
    assert(nw_before(tt, j + 1) == nw_before(tt, j) + 1);
    assert(nw_count(sub) == nw_before(tt, j + 1) - nw_before(tt, i));
    lemma_normalize_waypoints(sub);
    lemma_nw_before_pointwise(spec_normalize(sub), sub, sub.len() as int);
}


proof fn lemma_nw_before_subrange(tt: Seq<TimetableEntry>, a: int, b: int, x: int)
    requires
        0 <= a <= b <= tt.len(),
        0 <= x <= b - a,
    ensures
        nw_before(tt.subrange(a, b), x) == nw_before(tt, a + x) - nw_before(tt, a),
    decreases x,
{
    if x > 0 {
        lemma_nw_before_subrange(tt, a, b, x - 1);
    }
}

/// The law of derived rides: when the record keeps its stop times in
/// order and the chosen slice's ends carry their natural times, the ride
/// the split derives starts with a departure, ends with an arrival, and
/// keeps its times in order.
pub proof fn lemma_derived_ride_invariants(rec: Record, k: int, rd: Ride)
    requires
        0 <= k < rec.ride_id@.len(),
        ride_derived(rec, k, rd),
        spec_times_monotone(rec.timetable@),
        (spec_stop_index(rec.timetable@, rec.ride_id@[k].first_stop - 1, 0) matches Some(i)
            && rec.timetable@[i].stop_kind.spec_departure_time() is Some),
        (spec_stop_index(rec.timetable@, rec.ride_id@[k].last_stop - 1, 0) matches Some(j)
            && rec.timetable@[j].stop_kind.spec_arrival_time() is Some),
    ensures
        rd.timetable@.len() >= 2,
        rd.timetable@[0].stop_kind is Departure,
        rd.timetable@[rd.timetable@.len() - 1].stop_kind is Arrival,
        spec_times_monotone(rd.timetable@),
{
    let tt = rec.timetable@;
    let rid = rec.ride_id@[k];
    let i = spec_stop_index(tt, rid.first_stop - 1, 0).unwrap();
    let j = spec_stop_index(tt, rid.last_stop - 1, 0).unwrap();
    lemma_stop_index_props(tt, rid.first_stop - 1, 0);
    lemma_stop_index_props(tt, rid.last_stop - 1, 0);
    let sub = tt.subrange(i, j + 1);
    lemma_normalize_shape(sub);
    assert(spec_times_monotone(sub)) by {
        assert forall|p: int, c: int|
            0 <= p < c < sub.len() && !(#[trigger] sub[p].stop_kind is Waypoint) && !(
            #[trigger] sub[c].stop_kind is Waypoint) && nw_before(sub, c) == nw_before(sub, p)
                + 1 implies {
            match (sub[p].stop_kind.spec_departure_time(), sub[c].stop_kind.spec_arrival_time()) {
                (Some(d), Some(a)) => d.spec_minutes() <= a.spec_minutes(),
                _ => true,
            }
        } by {
            lemma_nw_before_subrange(tt, i, j + 1, p);
            lemma_nw_before_subrange(tt, i, j + 1, c);
            assert(sub[p] == tt[i + p] && sub[c] == tt[i + c]);
            assert(nw_before(tt, i + c) == nw_before(tt, i + p) + 1);
        }
    }
    lemma_normalize_monotone(sub);
}

/// Times never move across consecutive non-waypoint stops of a normalized
/// slice, provided the raw slice already kept them in order and its
/// endpoints carried their natural times.
pub open spec fn spec_times_monotone(tt: Seq<TimetableEntry>) -> bool {
    forall|p: int, c: int|
        0 <= p < c < tt.len() && !(#[trigger] tt[p].stop_kind is Waypoint) && !(
        #[trigger] tt[c].stop_kind is Waypoint) && nw_before(tt, c) == nw_before(tt, p) + 1 ==> {
            match (tt[p].stop_kind.spec_departure_time(), tt[c].stop_kind.spec_arrival_time()) {
                (Some(d), Some(a)) => d.spec_minutes() <= a.spec_minutes(),
                _ => true,
            }
        }
}

/// Endpoint normalization keeps an ordered slice ordered.
pub proof fn lemma_normalize_monotone(tt: Seq<TimetableEntry>)
    requires
        tt.len() >= 2,
        !(tt[0].stop_kind is Waypoint),
        !(tt[tt.len() - 1].stop_kind is Waypoint),
        tt[0].stop_kind.spec_departure_time() is Some,
        tt[tt.len() - 1].stop_kind.spec_arrival_time() is Some,
        spec_times_monotone(tt),
    ensures
        spec_times_monotone(spec_normalize(tt)),
{
    let nt = spec_normalize(tt);
    lemma_normalize_waypoints(tt);
    assert forall|p: int, c: int|
        0 <= p < c < nt.len() && !(#[trigger] nt[p].stop_kind is Waypoint) && !(
        #[trigger] nt[c].stop_kind is Waypoint) && nw_before(nt, c) == nw_before(nt, p)
            + 1 implies {
        match (nt[p].stop_kind.spec_departure_time(), nt[c].stop_kind.spec_arrival_time()) {
            (Some(d), Some(a)) => d.spec_minutes() <= a.spec_minutes(),
            _ => true,
        }
    } by {
        lemma_nw_before_pointwise(nt, tt, p);
        lemma_nw_before_pointwise(nt, tt, c);
        assert(nt[p].stop_kind.spec_departure_time() == tt[p].stop_kind.spec_departure_time()
            || p == 0 || p == tt.len() - 1);
        if p == 0 {
            assert(nt[0].stop_kind.spec_departure_time() == Some(norm_departure_time(tt[0])));
            assert(norm_departure_time(tt[0]) == tt[0].stop_kind.spec_departure_time().unwrap());
        }
        if c == tt.len() - 1 {
            assert(nt[c].stop_kind.spec_arrival_time() == Some(norm_arrival_time(tt[c])));
            assert(norm_arrival_time(tt[c]) == tt[c].stop_kind.spec_arrival_time().unwrap());
        }
    }
}

} // verus!
