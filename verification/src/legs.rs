use vstd::prelude::*;

use crate::dayoffset::DayOffset;
use crate::locations::{LocationCache, LocationCodeHandle};
use crate::model::{nw_before, nw_count, spec_stop_index, Record, Ride, StopKind, TimetableEntry};

verus! {

/// A presentation unit of a ride: standing at a stop, or moving between
/// two stops through zero or more waypoints.
#[derive(Debug, Clone)]
pub enum LegKind {
    Stationary(LocationCodeHandle, StopKind),
    Moving { from: LocationCodeHandle, to: LocationCodeHandle, waypoints: Vec<LocationCodeHandle> },
}

#[derive(Debug, Clone)]
pub struct Leg {
    pub start: DayOffset,
    pub end: DayOffset,
    pub kind: LegKind,
}

impl LegKind {
    pub fn is_moving(&self) -> (r: bool)
        ensures
            r == (*self is Moving),
    {
        match self {
            LegKind::Moving { .. } => true,
            LegKind::Stationary(_, _) => false,
        }
    }

    pub fn waypoints(&self) -> (r: Option<&Vec<LocationCodeHandle>>)
        ensures
            (match r {
                Some(w) => *self is Moving && w@ == self->Moving_waypoints@,
                None => *self is Stationary,
            }),
    {
        match self {
            LegKind::Stationary(_, _) => None,
            LegKind::Moving { waypoints: wp, .. } => Some(wp),
        }
    }

    pub fn from(&self) -> (r: Option<&LocationCodeHandle>)
        ensures
            (match r {
                Some(h) => *self is Moving && *h == self->Moving_from,
                None => *self is Stationary,
            }),
    {
        match self {
            LegKind::Stationary(_, _) => None,
            LegKind::Moving { from, .. } => Some(from),
        }
    }

    pub fn to(&self) -> (r: Option<&LocationCodeHandle>)
        ensures
            (match r {
                Some(h) => *self is Moving && *h == self->Moving_to,
                None => *self is Stationary,
            }),
    {
        match self {
            LegKind::Stationary(_, _) => None,
            LegKind::Moving { to, .. } => Some(to),
        }
    }

    pub fn station_code(&self) -> (r: Option<&LocationCodeHandle>)
        ensures
            (match r {
                Some(h) => *self is Stationary && *h == self->Stationary_0,
                None => *self is Moving,
            }),
    {
        match self {
            LegKind::Stationary(code, _) => Some(code),
            LegKind::Moving { .. } => None,
        }
    }

    pub fn platform_info(&self) -> (r: Option<crate::model::PlatformInfo>)
        ensures
            (match self {
                LegKind::Stationary(_, kind) => r == kind.spec_platform_info(),
                LegKind::Moving { .. } => r is None,
            }),
    {
        match self {
            LegKind::Stationary(_, kind) => kind.platform_info(),
            LegKind::Moving { .. } => None,
        }
    }
}

/// Saturating minute arithmetic, as `DayOffset::offset_by` performs it.
pub open spec fn sat_minutes(m: int) -> int {
    if m < 0 {
        0
    } else if m > u32::MAX {
        u32::MAX as int
    } else {
        m
    }
}

/// The time window of a stationary leg at the given entry.
pub open spec fn spec_stationary_window(kind: StopKind) -> (int, int) {
    match kind {
        StopKind::Departure(_, t) => (sat_minutes(t.spec_minutes() - 1), t.spec_minutes()),
        StopKind::Arrival(_, t) => (t.spec_minutes(), sat_minutes(t.spec_minutes() + 1)),
        StopKind::StopShort(_, t) => (t.spec_minutes(), sat_minutes(t.spec_minutes() + 1)),
        StopKind::StopLong(_, a, d) => (a.spec_minutes(), d.spec_minutes()),
        StopKind::Waypoint => (0, 0),
    }
}

/// The stationary leg for one non-waypoint entry.
pub fn leg_for_stop(entry: &TimetableEntry) -> (r: Leg)
    requires
        !(entry.stop_kind is Waypoint),
    ensures
        r.start.spec_minutes() == spec_stationary_window(entry.stop_kind).0,
        r.end.spec_minutes() == spec_stationary_window(entry.stop_kind).1,
        r.kind is Stationary,
        r.kind->Stationary_0 == entry.code,
        r.kind->Stationary_1 == entry.stop_kind,
{
    let (start, end) = match &entry.stop_kind {
        StopKind::Departure(_, t) => (t.offset_by(-1), *t),
        StopKind::Arrival(_, t) => (*t, t.offset_by(1)),
        StopKind::StopShort(_, t) => (*t, t.offset_by(1)),
        StopKind::StopLong(_, a, d) => (*a, *d),
        StopKind::Waypoint => (DayOffset::from_minutes(0), DayOffset::from_minutes(0)),
    };
    Leg { start, end, kind: LegKind::Stationary(entry.code, entry.stop_kind) }
}

/// A timetable from which legs can be generated: it starts with a
/// non-waypoint stop, and every stop-to-stop hop has a departure time on
/// its left and an arrival time on its right.
pub open spec fn legs_wf(tt: Seq<TimetableEntry>) -> bool {
    &&& tt.len() >= 1
    &&& !(tt[0].stop_kind is Waypoint)
    &&& forall|p: int, c: int|
        0 <= p < c < tt.len() && !(#[trigger] tt[p].stop_kind is Waypoint) && !(
        #[trigger] tt[c].stop_kind is Waypoint) && nw_before(tt, c) == nw_before(tt, p) + 1
            ==> tt[p].stop_kind.spec_departure_time() is Some
            && tt[c].stop_kind.spec_arrival_time() is Some
}

/// The waypoint codes strictly between two timetable positions.
pub open spec fn wp_codes(tt: Seq<TimetableEntry>, a: int, b: int) -> Seq<LocationCodeHandle> {
    tt.subrange(a + 1, b).map_values(|e: TimetableEntry| e.code)
}

proof fn lemma_nw_before_mono(tt: Seq<TimetableEntry>, a: int, b: int)
    requires
        0 <= a <= b <= tt.len(),
    ensures
        nw_before(tt, a) <= nw_before(tt, b),
    decreases b - a,
{
    if a < b {
        lemma_nw_before_mono(tt, a, b - 1);
    }
}

pub proof fn lemma_ssi_at(tt: Seq<TimetableEntry>, from: int, k: int)
    requires
        0 <= from <= k < tt.len(),
        !(tt[k].stop_kind is Waypoint),
    ensures
        spec_stop_index(tt, nw_before(tt, k) - nw_before(tt, from), from) == Some(k),
    decreases k - from,
{
    lemma_nw_before_mono(tt, from, k);
    if from < k {
        lemma_ssi_at(tt, from + 1, k);
        if !(tt[from].stop_kind is Waypoint) {
            lemma_nw_before_mono(tt, from + 1, k);
        }
    }
}

/// Index of the `nth` non-waypoint stop, as `spec_stop_index` finds it.
pub open spec fn ssi0(tt: Seq<TimetableEntry>, nth: int) -> int {
    spec_stop_index(tt, nth, 0).unwrap()
}

/// Generates the presentation legs of a timetable: a stationary leg for
/// each stop, and between consecutive stops a moving leg carrying the
/// intervening waypoints.
#[verifier::rlimit(60)]
pub fn generate_legs(entries: &[TimetableEntry]) -> (r: Vec<Leg>)
    requires
        legs_wf(entries@),
    ensures
        r@.len() == 2 * nw_count(entries@) - 1,
        forall|t: int|
            0 <= t < nw_count(entries@) ==> spec_stop_index(entries@, t, 0) is Some && {
                let leg = #[trigger] r@[2 * t];
                let e = entries@[ssi0(entries@, t)];
                &&& leg.start.spec_minutes() == spec_stationary_window(e.stop_kind).0
                &&& leg.end.spec_minutes() == spec_stationary_window(e.stop_kind).1
                &&& leg.kind is Stationary
                &&& leg.kind->Stationary_0 == e.code
                &&& leg.kind->Stationary_1 == e.stop_kind
            },
        forall|t: int|
            0 <= t < nw_count(entries@) - 1 ==> {
                let leg = #[trigger] r@[2 * t + 1];
                let p = entries@[ssi0(entries@, t)];
                let c = entries@[ssi0(entries@, t + 1)];
                &&& leg.kind is Moving
                &&& leg.start == p.stop_kind.spec_departure_time().unwrap()
                &&& leg.end == c.stop_kind.spec_arrival_time().unwrap()
                &&& leg.kind->Moving_from == p.code
                &&& leg.kind->Moving_to == c.code
                &&& leg.kind->Moving_waypoints@ == wp_codes(
                    entries@,
                    ssi0(entries@, t),
                    ssi0(entries@, t + 1),
                )
            },
{
    let ghost tt = entries@;
    let mut out: Vec<Leg> = Vec::new();
    let mut waypoints: Vec<LocationCodeHandle> = Vec::new();
    let n = entries.len();
    out.push(leg_for_stop(&entries[0]));
    proof {
        lemma_ssi_at(tt, 0, 0);
        assert(nw_before(tt, 1) == 1);
    }
    let mut prev: usize = 0;
    let mut i: usize = 1;
    while i < n
        invariant
            legs_wf(tt),
            tt == entries@,
            n == tt.len(),
            1 <= i <= n,
            0 <= prev < i,
            !(tt[prev as int].stop_kind is Waypoint),
            forall|j: int| prev < j < i ==> (#[trigger] tt[j].stop_kind) is Waypoint,
            nw_before(tt, i as int) >= 1,
            nw_before(tt, prev as int) == nw_before(tt, i as int) - 1,
            spec_stop_index(tt, nw_before(tt, i as int) - 1, 0) == Some(prev as int),
            waypoints@ == wp_codes(tt, prev as int, i as int),
            out@.len() == 2 * nw_before(tt, i as int) - 1,
            forall|t: int|
                0 <= t < nw_before(tt, i as int) ==> spec_stop_index(tt, t, 0) is Some && {
                    let leg = #[trigger] out@[2 * t];
                    let e = tt[ssi0(tt, t)];
                    &&& leg.start.spec_minutes() == spec_stationary_window(e.stop_kind).0
                    &&& leg.end.spec_minutes() == spec_stationary_window(e.stop_kind).1
                    &&& leg.kind is Stationary
                    &&& leg.kind->Stationary_0 == e.code
                    &&& leg.kind->Stationary_1 == e.stop_kind
                },
            forall|t: int|
                0 <= t < nw_before(tt, i as int) - 1 ==> {
                    let leg = #[trigger] out@[2 * t + 1];
                    let p = tt[ssi0(tt, t)];
                    let c = tt[ssi0(tt, t + 1)];
                    &&& leg.kind is Moving
                    &&& leg.start == p.stop_kind.spec_departure_time().unwrap()
                    &&& leg.end == c.stop_kind.spec_arrival_time().unwrap()
                    &&& leg.kind->Moving_from == p.code
                    &&& leg.kind->Moving_to == c.code
                    &&& leg.kind->Moving_waypoints@ == wp_codes(tt, ssi0(tt, t), ssi0(tt, t + 1))
                },
        decreases n - i,
    {
        let ghost t_before = nw_before(tt, i as int);
        let entry = &entries[i];
        if matches!(entry.stop_kind, StopKind::Waypoint) {
            waypoints.push(entry.code);
            proof {
                assert(waypoints@ =~= wp_codes(tt, prev as int, i + 1));
                assert(nw_before(tt, i + 1) == t_before);
            }
        } else {
            proof {
                assert(nw_before(tt, i + 1) == t_before + 1);
                lemma_ssi_at(tt, 0, i as int);
                assert(spec_stop_index(tt, t_before, 0) == Some(i as int));
                // The hop from `prev` to `i` is between adjacent stops, so
                // the well-formedness of the timetable gives it its times.
                assert(tt[prev as int].stop_kind.spec_departure_time() is Some && tt[
                    i as int].stop_kind.spec_arrival_time() is Some);
            }
            let start = match entries[prev].stop_kind.departure_time() {
                Some(t) => t,
                None => {
                    proof {
                        assert(false);
                    }
                    DayOffset::from_minutes(0)
                },
            };
            let end = match entry.stop_kind.arrival_time() {
                Some(t) => t,
                None => {
                    proof {
                        assert(false);
                    }
                    DayOffset::from_minutes(0)
                },
            };
            let ghost old_out = out@;
            out.push(
                Leg {
                    start,
                    end,
                    kind: LegKind::Moving {
                        from: entries[prev].code,
                        to: entry.code,
                        waypoints,
                    },
                },
            );
            out.push(leg_for_stop(entry));
            waypoints = Vec::new();
            proof {
                assert(forall|q: int| 0 <= q < old_out.len() ==> out@[q] == old_out[q]);
                assert(waypoints@ =~= wp_codes(tt, i as int, i + 1));
            }
            prev = i;
        }
        i = i + 1;
    }
    proof {
        assert(nw_before(tt, n as int) == nw_count(tt));
    }
    out
}

/// Departure time of the first entry.
pub fn timetable_start(entries: &[TimetableEntry]) -> (r: DayOffset)
    requires
        entries@.len() > 0,
        entries@[0].stop_kind.spec_departure_time() is Some,
    ensures
        Some(r) == entries@[0].stop_kind.spec_departure_time(),
{
    entries[0].stop_kind.departure_time().unwrap()
}

/// Arrival time of the last entry.
pub fn timetable_end(entries: &[TimetableEntry]) -> (r: DayOffset)
    requires
        entries@.len() > 0,
        entries@[entries@.len() - 1].stop_kind.spec_arrival_time() is Some,
    ensures
        Some(r) == entries@[entries@.len() - 1].stop_kind.spec_arrival_time(),
{
    entries[entries.len() - 1].stop_kind.arrival_time().unwrap()
}

/// Index of the first non-waypoint entry at the given location, looking
/// from `from`.
pub open spec fn spec_stop_find(
    tt: Seq<TimetableEntry>,
    code: LocationCodeHandle,
    from: int,
) -> Option<int>
    decreases tt.len() - from,
{
    if from < 0 || from >= tt.len() {
        None
    } else if tt[from].code == code && !(tt[from].stop_kind is Waypoint) {
        Some(from)
    } else {
        spec_stop_find(tt, code, from + 1)
    }
}

impl Ride {
    /// A ride in presentable shape: at least two entries, starting with a
    /// departure and ending with an arrival.
    pub open spec fn wf(&self) -> bool {
        &&& self.timetable@.len() >= 2
        &&& self.timetable@[0].stop_kind is Departure
        &&& self.timetable@[self.timetable@.len() - 1].stop_kind is Arrival
    }

    pub fn start_time(&self) -> (r: DayOffset)
        requires
            self.wf(),
        ensures
            Some(r) == self.timetable@[0].stop_kind.spec_departure_time(),
    {
        timetable_start(self.timetable.as_slice())
    }

    pub fn end_time(&self) -> (r: DayOffset)
        requires
            self.wf(),
        ensures
            Some(r) == self.timetable@[self.timetable@.len()
                - 1].stop_kind.spec_arrival_time(),
    {
        timetable_end(self.timetable.as_slice())
    }

    pub fn generate_legs(&self) -> (r: Vec<Leg>)
        requires
            legs_wf(self.timetable@),
        ensures
            r@.len() == 2 * nw_count(self.timetable@) - 1,
    {
        generate_legs(self.timetable.as_slice())
    }

    /// The first non-waypoint entry at the given location, if any.
    pub fn stop_at_code(&self, code: &LocationCodeHandle) -> (r: Option<&TimetableEntry>)
        ensures
            (match spec_stop_find(self.timetable@, *code, 0) {
                Some(k) => r is Some && *r.unwrap() == self.timetable@[k],
                None => r is None,
            }),
    {
        let n = self.timetable.len();
        let mut i: usize = 0;
        while i < n
            invariant
                0 <= i <= n == self.timetable@.len(),
                spec_stop_find(self.timetable@, *code, 0) == spec_stop_find(
                    self.timetable@,
                    *code,
                    i as int,
                ),
            decreases n - i,
        {
            let entry = &self.timetable[i];
            if entry.code.inner == code.inner && !matches!(entry.stop_kind, StopKind::Waypoint) {
                assert(entry.code == *code);
                return Some(entry);
            }
            proof {
                assert(self.timetable@[i as int].code == *code ==> self.timetable@[
                    i as int].code.inner == code.inner);
            }
            i = i + 1;
        }
        None
    }

    /// Whether passengers can board this ride at the given location.
    pub fn boardable_at_code(&self, code: &LocationCodeHandle) -> (r: bool)
        ensures
            r == exists|k: int|
                0 <= k < self.timetable@.len() && (#[trigger] self.timetable@[k].code) == *code
                    && self.timetable@[k].stop_kind.spec_is_boardable(),
    {
        let n = self.timetable.len();
        let mut i: usize = 0;
        while i < n
            invariant
                0 <= i <= n == self.timetable@.len(),
                forall|k: int|
                    0 <= k < i ==> !((#[trigger] self.timetable@[k].code) == *code
                        && self.timetable@[k].stop_kind.spec_is_boardable()),
            decreases n - i,
        {
            let entry = &self.timetable[i];
            if entry.code.inner == code.inner && entry.stop_kind.is_boardable() {
                assert(entry.code == *code);
                return true;
            }
            proof {
                assert(self.timetable@[i as int].code == *code ==> self.timetable@[
                    i as int].code.inner == code.inner);
            }
            i = i + 1;
        }
        false
    }

    /// A plain-text rendering: the ride number, then each stop's code on
    /// its own line.
    pub fn pretty_print(&self, codes: &LocationCache) -> (r: String)
        requires
            codes.wf(),
    {
        let mut out = String::new();
        out.append("#");
        out.append(self.id.as_str());
        out.append("\n");
        let n = self.timetable.len();
        let mut i: usize = 0;
        while i < n
            invariant
                0 <= i <= n == self.timetable@.len(),
            decreases n - i,
        {
            match codes.get_str(&self.timetable[i].code) {
                Some(code) => {
                    out.append(code);
                },
                None => {},
            }
            out.append("\n");
            i = i + 1;
        }
        out
    }
}

impl Record {
    pub fn start_time(&self) -> (r: DayOffset)
        requires
            self.timetable@.len() > 0,
            self.timetable@[0].stop_kind.spec_departure_time() is Some,
        ensures
            Some(r) == self.timetable@[0].stop_kind.spec_departure_time(),
    {
        timetable_start(self.timetable.as_slice())
    }

    pub fn end_time(&self) -> (r: DayOffset)
        requires
            self.timetable@.len() > 0,
            self.timetable@[self.timetable@.len() - 1].stop_kind.spec_arrival_time() is Some,
        ensures
            Some(r) == self.timetable@[self.timetable@.len()
                - 1].stop_kind.spec_arrival_time(),
    {
        timetable_end(self.timetable.as_slice())
    }

    pub fn generate_legs(&self) -> (r: Vec<Leg>)
        requires
            legs_wf(self.timetable@),
        ensures
            r@.len() == 2 * nw_count(self.timetable@) - 1,
    {
        generate_legs(self.timetable.as_slice())
    }
}

} // verus!
