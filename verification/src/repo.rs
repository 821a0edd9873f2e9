use vstd::prelude::*;

use crate::date::Date;
use crate::dayoffset::DayOffset;
use crate::iff::Iff;
use crate::legs::{legs_wf, Leg, LegKind};
use crate::links::{Link, LinkCode, LinkIndex};
use crate::locations::{LocationCache, LocationCodeHandle};
use crate::model::{nw_before, Company, Header, Record, Ride, TimetableEntry};
use crate::stations::{RawStation, Station};
use crate::util::{seq_filter, lemma_seq_filter_extend};
use crate::validity::RideValidity;

verus! {

/// A link as the routes file carries it: its two endpoint codes.
#[derive(Debug, PartialEq, Eq, Clone)]
pub struct RawLink {
    pub from: String,
    pub to: String,
}

/// Builds the link list, interning every endpoint code.
pub fn extract_links(raws: &Vec<RawLink>, locations: &mut LocationCache) -> (r: Result<
    Vec<Link>,
    (),
>)
    requires
        old(locations).wf(),
    ensures
        final(locations).wf(),
        crate::parsing::interner_extends(old(locations)@, final(locations)@),
        (match r {
            Ok(links) => links@.len() == raws@.len() && forall|i: int|
                0 <= i < links@.len() ==> {
                    let l = #[trigger] links@[i];
                    &&& l.from.inner < final(locations)@.len()
                    &&& l.to.inner < final(locations)@.len()
                    &&& final(locations)@[l.from.inner as int] == raws@[i].from@
                    &&& final(locations)@[l.to.inner as int] == raws@[i].to@
                },
            Err(_) => old(locations)@.len() + 2 * raws@.len() >= 65536,
        }),
{
    let mut out: Vec<Link> = Vec::new();
    let mut i: usize = 0;
    let n = raws.len();
    while i < n
        invariant
            0 <= i <= n == raws@.len(),
            out@.len() == i,
            locations.wf(),
            locations@.len() <= old(locations)@.len() + 2 * i,
            crate::parsing::interner_extends(old(locations)@, locations@),
            forall|j: int|
                0 <= j < i ==> {
                    let l = #[trigger] out@[j];
                    &&& l.from.inner < locations@.len()
                    &&& l.to.inner < locations@.len()
                    &&& locations@[l.from.inner as int] == raws@[j].from@
                    &&& locations@[l.to.inner as int] == raws@[j].to@
                },
        decreases n - i,
    {
        if locations.len() >= 65534 {
            proof {
                assert(old(locations)@.len() + 2 * raws@.len() >= 65536);
            }
            return Err(());
        }
        let link = Link::new_from_codes(raws[i].from.as_str(), raws[i].to.as_str(), locations);
        out.push(link);
        i = i + 1;
    }
    Ok(out)
}

/// Two consecutive non-waypoint stops with only waypoints between them
/// are adjacent in the stop numbering.
proof fn lemma_nw_const_over_waypoints(tt: Seq<TimetableEntry>, a: int, b: int)
    requires
        0 <= a <= b <= tt.len(),
        forall|j: int| a <= j < b ==> (#[trigger] tt[j].stop_kind) is Waypoint,
    ensures
        nw_before(tt, b) == nw_before(tt, a),
    decreases b - a,
{
    if a < b {
        lemma_nw_const_over_waypoints(tt, a, b - 1);
    }
}

proof fn lemma_between_waypoints_adjacent(tt: Seq<TimetableEntry>, p: int, c: int)
    requires
        0 <= p < c < tt.len(),
        !(tt[p].stop_kind is Waypoint),
        !(tt[c].stop_kind is Waypoint),
        forall|j: int| p < j < c ==> (#[trigger] tt[j].stop_kind) is Waypoint,
    ensures
        nw_before(tt, c) == nw_before(tt, p) + 1,
{
    lemma_nw_const_over_waypoints(tt, p + 1, c);
}

proof fn lemma_nw_before_mono_repo(tt: Seq<TimetableEntry>, a: int, b: int)
    requires
        0 <= a <= b <= tt.len(),
    ensures
        nw_before(tt, a) <= nw_before(tt, b),
    decreases b - a,
{
    if a < b {
        lemma_nw_before_mono_repo(tt, a, b - 1);
    }
}

/// Adjacent stop numbering means only waypoints lie between.
proof fn lemma_adjacent_means_between_waypoints(tt: Seq<TimetableEntry>, p: int, c: int)
    requires
        0 <= p < c < tt.len(),
        !(tt[p].stop_kind is Waypoint),
        !(tt[c].stop_kind is Waypoint),
        nw_before(tt, c) == nw_before(tt, p) + 1,
    ensures
        forall|j: int| p < j < c ==> (#[trigger] tt[j].stop_kind) is Waypoint,
{
    assert forall|j: int| p < j < c implies (#[trigger] tt[j].stop_kind) is Waypoint by {
        if !(tt[j].stop_kind is Waypoint) {
            lemma_nw_before_mono_repo(tt, p + 1, j);
            lemma_nw_before_mono_repo(tt, j + 1, c);
            assert(nw_before(tt, p + 1) == nw_before(tt, p) + 1);
            assert(nw_before(tt, j + 1) == nw_before(tt, j) + 1);
        }
    }
}

/// Checks at run time that legs can be generated from a timetable: it
/// opens with a stop, and every hop has its departure and arrival times.
pub fn legs_ready(entries: &[TimetableEntry]) -> (r: bool)
    ensures
        r == legs_wf(entries@),
{
    let ghost tt = entries@;
    let n = entries.len();
    if n == 0 {
        return false;
    }
    if matches!(entries[0].stop_kind, crate::model::StopKind::Waypoint) {
        return false;
    }
    let mut prev: usize = 0;
    let mut i: usize = 1;
    while i < n
        invariant
            1 <= i <= n == tt.len(),
            tt == entries@,
            0 <= prev < i,
            !(tt[prev as int].stop_kind is Waypoint),
            !(tt[0].stop_kind is Waypoint),
            forall|j: int| prev < j < i ==> (#[trigger] tt[j].stop_kind) is Waypoint,
            forall|p: int, c: int|
                0 <= p < c < i && !(#[trigger] tt[p].stop_kind is Waypoint) && !(
                #[trigger] tt[c].stop_kind is Waypoint) && nw_before(tt, c) == nw_before(tt, p)
                    + 1 ==> tt[p].stop_kind.spec_departure_time() is Some
                    && tt[c].stop_kind.spec_arrival_time() is Some,
        decreases n - i,
    {
        let entry = &entries[i];
        if !matches!(entry.stop_kind, crate::model::StopKind::Waypoint) {
            let dep_ok = matches!(
                entries[prev].stop_kind.departure_time(),
                Some(_)
            );
            let arr_ok = matches!(entry.stop_kind.arrival_time(), Some(_));
            proof {
                lemma_between_waypoints_adjacent(tt, prev as int, i as int);
            }
            if !dep_ok || !arr_ok {
                return false;
            }
            proof {
                assert forall|p: int, c: int|
                    0 <= p < c < i + 1 && !(#[trigger] tt[p].stop_kind is Waypoint) && !(
                    #[trigger] tt[c].stop_kind is Waypoint) && nw_before(tt, c) == nw_before(
                    tt,
                    p,
                ) + 1 implies tt[p].stop_kind.spec_departure_time() is Some
                    && tt[c].stop_kind.spec_arrival_time() is Some by {
                    if c == i {
                        lemma_adjacent_means_between_waypoints(tt, p, c);
                        if p != prev {
                            if p < prev {
                                lemma_nw_before_mono_repo(tt, p + 1, prev as int);
                                assert(nw_before(tt, prev as int + 1) == nw_before(
                                    tt,
                                    prev as int,
                                ) + 1);
                            } else {
                                assert((tt[p as int].stop_kind) is Waypoint);
                            }
                        }
                    }
                }
            }
            prev = i;
        }
        i = i + 1;
    }
    true
}

/// One missing piece of geographic data for a record.
#[derive(Debug, PartialEq, Eq, Structural, Clone, Copy, Hash)]
pub enum MissingLinkReport {
    NoRoute(LocationCodeHandle, LocationCodeHandle),
    NoStation(LocationCodeHandle),
}

impl MissingLinkReport {
    /// Renders the report for a human, resolving the handles.
    pub fn display(&self, cache: &LocationCache) -> (r: String)
        ensures
            (match *self {
                MissingLinkReport::NoRoute(from, to) => from.inner < cache@.len() && to.inner
                    < cache@.len() ==> r@ == "no route from "@ + cache@[from.inner as int]
                    + " to "@ + cache@[to.inner as int],
                MissingLinkReport::NoStation(code) => code.inner < cache@.len() ==> r@
                    == "no station code "@ + cache@[code.inner as int],
            }),
    {
        match self {
            MissingLinkReport::NoRoute(from, to) => {
                let mut out = String::new();
                out.append("no route from ");
                match cache.get_str(from) {
                    Some(s) => out.append(s),
                    None => (),
                }
                out.append(" to ");
                match cache.get_str(to) {
                    Some(s) => out.append(s),
                    None => (),
                }
                proof {
                    assert(*self is NoRoute);
                }
                out
            },
            MissingLinkReport::NoStation(code) => {
                let mut out = String::new();
                out.append("no station code ");
                match cache.get_str(code) {
                    Some(s) => out.append(s),
                    None => (),
                }
                out
            },
        }
    }
}

/// The undirected link keys a moving leg needs, one per consecutive pair
/// along its chain of locations.
pub open spec fn spec_leg_chain(kind: LegKind) -> Seq<LocationCodeHandle> {
    seq![kind->Moving_from] + kind->Moving_waypoints@ + seq![kind->Moving_to]
}

/// The link keys required to traverse a moving leg.
pub fn leg_codes(kind: &LegKind) -> (r: Option<Vec<LinkCode>>)
    ensures
        (match r {
            Some(v) => *kind is Moving && v@.len() == spec_leg_chain(*kind).len() - 1 && forall|
                i: int,
            |
                0 <= i < v@.len() ==> #[trigger] v@[i] == LinkCode(
                    spec_leg_chain(*kind)[i],
                    spec_leg_chain(*kind)[i + 1],
                ),
            None => *kind is Stationary,
        }),
{
    match kind {
        LegKind::Stationary(_, _) => None,
        LegKind::Moving { from, to, waypoints } => {
            let ghost chain = spec_leg_chain(*kind);
            let mut nodes: Vec<LocationCodeHandle> = Vec::new();
            nodes.push(*from);
            let mut i: usize = 0;
            let wn = waypoints.len();
            while i < wn
                invariant
                    0 <= i <= wn == waypoints@.len(),
                    nodes@ =~= seq![kind->Moving_from] + waypoints@.subrange(0, i as int),
                    kind->Moving_waypoints == *waypoints,
                decreases wn - i,
            {
                nodes.push(waypoints[i]);
                proof {
                    assert(nodes@ =~= seq![kind->Moving_from] + waypoints@.subrange(0, i + 1));
                }
                i = i + 1;
            }
            nodes.push(*to);
            proof {
                assert(nodes@ =~= chain);
            }
            let mut out: Vec<LinkCode> = Vec::new();
            let total = nodes.len();
            let mut k: usize = 0;
            while k + 1 < total
                invariant
                    0 <= k < total == nodes@.len(),
                    nodes@ == chain,
                    chain.len() >= 2,
                    out@.len() == k,
                    forall|j: int|
                        0 <= j < k ==> #[trigger] out@[j] == LinkCode(chain[j], chain[j + 1]),
                decreases nodes@.len() - k,
            {
                out.push(LinkCode(nodes[k], nodes[k + 1]));
                k = k + 1;
            }
            Some(out)
        },
    }
}

/// A station with exactly this code is known.
pub open spec fn station_known(stations: Seq<Station>, code: Seq<char>) -> bool {
    exists|i: int| 0 <= i < stations.len() && (#[trigger] stations[i]).code@ == code
}

/// Every handle a leg mentions resolves through the interner.
pub open spec fn leg_handles_ok(kind: LegKind, interner_len: int) -> bool {
    match kind {
        LegKind::Stationary(code, _) => code.inner < interner_len,
        LegKind::Moving { from, to, waypoints } => from.inner < interner_len && to.inner
            < interner_len && forall|i: int|
            0 <= i < waypoints@.len() ==> (#[trigger] waypoints@[i]).inner < interner_len,
    }
}

/// What it means for one leg to be renderable: a stationary leg's station
/// is known, and a moving leg's chain is covered by undirected links.
pub open spec fn spec_leg_complete(
    kind: LegKind,
    stations: Seq<Station>,
    cache: LocationCache,
    links: LinkIndex,
) -> bool {
    match kind {
        LegKind::Stationary(code, _) => code.inner < cache@.len() && station_known(
            stations,
            cache@[code.inner as int],
        ),
        LegKind::Moving { .. } => forall|i: int|
            0 <= i < spec_leg_chain(kind).len() - 1 ==> #[trigger] links.spec_contains_undirected(
                LinkCode(spec_leg_chain(kind)[i], spec_leg_chain(kind)[i + 1]),
            ),
    }
}

/// Decides whether one leg has complete geographic data.
pub fn leg_has_complete_data(
    leg: &Leg,
    stations: &Vec<Station>,
    cache: &LocationCache,
    links: &LinkIndex,
) -> (r: bool)
    ensures
        r == spec_leg_complete(leg.kind, stations@, *cache, *links),
{
    match &leg.kind {
        LegKind::Stationary(code, _) => {
            let resolved: String = match cache.get_str(code) {
                Some(s) => s.to_owned(),
                None => {
                    return false;
                },
            };
            let n = stations.len();
            let mut i: usize = 0;
            while i < n
                invariant
                    leg.kind is Stationary,
                    leg.kind->Stationary_0.inner < cache@.len(),
                    0 <= i <= n == stations@.len(),
                    resolved@ == cache@[leg.kind->Stationary_0.inner as int],
                    forall|j: int|
                        0 <= j < i ==> (#[trigger] stations@[j]).code@ != resolved@,
                decreases n - i,
            {
                if stations[i].code == resolved {
                    assert(stations@[i as int].code@ == resolved@);
                    return true;
                }
                i = i + 1;
            }
            false
        },
        LegKind::Moving { .. } => {
            let codes = match leg_codes(&leg.kind) {
                Some(v) => v,
                None => {
                    proof {
                        assert(false);
                    }
                    Vec::new()
                },
            };
            let n = codes.len();
            let mut i: usize = 0;
            while i < n
                invariant
                    leg.kind is Moving,
                    0 <= i <= n == codes@.len(),
                    codes@.len() == spec_leg_chain(leg.kind).len() - 1,
                    forall|j: int|
                        0 <= j < codes@.len() ==> #[trigger] codes@[j] == LinkCode(
                            spec_leg_chain(leg.kind)[j],
                            spec_leg_chain(leg.kind)[j + 1],
                        ),
                    forall|j: int|
                        0 <= j < i ==> #[trigger] links.spec_contains_undirected(
                            LinkCode(
                                spec_leg_chain(leg.kind)[j],
                                spec_leg_chain(leg.kind)[j + 1],
                            ),
                        ),
                decreases n - i,
            {
                if !links.contains_undirected(&codes[i]) {
                    return false;
                }
                i = i + 1;
            }
            true
        },
    }
}

/// Reports what is missing for one leg, if anything: an unknown station,
/// or no undirected link between a moving leg's endpoints.
pub fn report_missing_leg(
    leg: &Leg,
    stations: &Vec<Station>,
    cache: &LocationCache,
    links: &LinkIndex,
) -> (r: Option<MissingLinkReport>)
    ensures
        (match r {
            Some(MissingLinkReport::NoStation(c)) => leg.kind is Stationary && c == leg.kind
                ->Stationary_0 && !spec_leg_complete(leg.kind, stations@, *cache, *links),
            Some(MissingLinkReport::NoRoute(f, t)) => leg.kind is Moving && f == leg.kind
                ->Moving_from && t == leg.kind->Moving_to && !links.spec_contains_undirected(
                LinkCode(f, t),
            ),
            None => (leg.kind is Stationary && spec_leg_complete(
                leg.kind,
                stations@,
                *cache,
                *links,
            )) || (leg.kind is Moving && links.spec_contains_undirected(
                LinkCode(leg.kind->Moving_from, leg.kind->Moving_to),
            )),
        }),
{
    match &leg.kind {
        LegKind::Stationary(code, _) => {
            if leg_has_complete_data(leg, stations, cache, links) {
                None
            } else {
                Some(MissingLinkReport::NoStation(*code))
            }
        },
        LegKind::Moving { from, to, .. } => {
            let key = LinkCode(*from, *to);
            if links.contains_undirected(&key) {
                None
            } else {
                Some(MissingLinkReport::NoRoute(*from, *to))
            }
        },
    }
}

/// What it means for a derived ride to be held by the repository: it is
/// presentable, leg generation is defined on it, and every handle
/// resolves.
pub open spec fn ride_ok(rd: Ride, interner_len: int) -> bool {
    &&& rd.wf()
    &&& legs_wf(rd.timetable@)
    &&& forall|k: int|
        0 <= k < rd.timetable@.len() ==> (#[trigger] rd.timetable@[k].code).inner < interner_len
}

/// A record the splitter can turn wholly into rides: leg generation is
/// defined on it and on each of its ride slices, and the slices pair up.
pub open spec fn record_splittable(rec: Record) -> bool {
    &&& legs_wf(rec.timetable@)
    &&& rec.spec_splits_ok()
    &&& forall|k: int|
        0 <= k < rec.ride_id@.len() ==> legs_wf(#[trigger] rec.spec_ride_timetable(k))
}

/// A repository record in good standing: resolvable and splittable.
pub open spec fn record_ok(rec: Record, interner_len: int) -> bool {
    &&& crate::parsing::record_wf(rec, interner_len)
    &&& record_splittable(rec)
}

/// Number of rides the first `upto` records split into.
pub open spec fn split_count(records: Seq<Record>, upto: int) -> int
    decreases upto,
{
    if upto <= 0 {
        0
    } else {
        split_count(records, upto - 1) + records[upto - 1].ride_id@.len()
    }
}

/// The ride list is exactly the concatenated split of the records, in
/// order: record `q`'s ride `k` sits at slot `split_count(records, q) + k`
/// and is the value the split derives.
pub open spec fn rides_are_splits(records: Seq<Record>, rides: Seq<Ride>) -> bool {
    &&& rides.len() == split_count(records, records.len() as int)
    &&& forall|q: int, k: int|
        0 <= q < records.len() && 0 <= k < records[q].ride_id@.len()
            ==> crate::model::ride_derived(
            records[q],
            k,
            #[trigger] rides[split_count(records, q) + k],
        )
}

proof fn lemma_split_count_nonneg(records: Seq<Record>, upto: int)
    ensures
        split_count(records, upto) >= 0,
    decreases upto,
{
    if upto > 0 {
        lemma_split_count_nonneg(records, upto - 1);
    }
}

proof fn lemma_split_count_mono(records: Seq<Record>, a: int, b: int)
    requires
        a <= b,
    ensures
        split_count(records, a) <= split_count(records, b),
    decreases b - a,
{
    if a < b {
        lemma_split_count_mono(records, a, b - 1);
    }
}

/// A derived ride keeps the shape the split promised: normalized ends
/// and the record's own location handles.
proof fn lemma_ride_shape(rec: Record, k: int, rd: Ride, ilen: int)
    requires
        crate::parsing::record_wf(rec, ilen),
        crate::model::ride_derived(rec, k, rd),
    ensures
        rd.wf(),
        forall|x: int|
            0 <= x < rd.timetable@.len() ==> (#[trigger] rd.timetable@[x].code).inner < ilen,
{
    let tt = rec.timetable@;
    let rid = rec.ride_id@[k];
    let i = crate::model::spec_stop_index(tt, rid.first_stop - 1, 0).unwrap();
    let j = crate::model::spec_stop_index(tt, rid.last_stop - 1, 0).unwrap();
    crate::model::lemma_stop_index_props(tt, rid.first_stop - 1, 0);
    crate::model::lemma_stop_index_props(tt, rid.last_stop - 1, 0);
    let sub = tt.subrange(i, j + 1);
    crate::model::lemma_normalize_shape(sub);
    assert(rd.timetable@.len() == sub.len());
    assert forall|x: int|
        0 <= x < rd.timetable@.len() implies (#[trigger] rd.timetable@[x].code).inner < ilen by {
        assert(rd.timetable@[x].code == sub[x].code);
        assert(sub[x] == tt[i + x]);
        assert(tt[i + x].code.inner < ilen);
    }
}

/// Splits every record into its rides, checking that leg generation is
/// defined on each derived ride. On success the output is exactly the
/// concatenated split of the records, in order.
fn derive_rides(records: &Vec<Record>, Ghost(ilen): Ghost<int>) -> (r: Result<Vec<Ride>, String>)
    requires
        forall|q: int| 0 <= q < records@.len() ==> crate::parsing::record_wf(#[trigger] records@[q], ilen),
    ensures
        (match r {
            Ok(rides) => {
                &&& forall|q: int| 0 <= q < records@.len() ==> record_ok(#[trigger] records@[q], ilen)
                &&& forall|j: int| 0 <= j < rides@.len() ==> ride_ok(#[trigger] rides@[j], ilen)
                &&& rides_are_splits(records@, rides@)
            },
            Err(_) => exists|q: int|
                0 <= q < records@.len() && !record_splittable(#[trigger] records@[q]),
        }),
{
    let mut rides: Vec<Ride> = Vec::new();
    let mut q: usize = 0;
    let n = records.len();
    while q < n
        invariant
            0 <= q <= n == records@.len(),
            forall|w: int| 0 <= w < records@.len() ==> crate::parsing::record_wf(#[trigger] records@[w], ilen),
            forall|w: int| 0 <= w < q ==> record_ok(#[trigger] records@[w], ilen),
            forall|j: int| 0 <= j < rides@.len() ==> ride_ok(#[trigger] rides@[j], ilen),
            rides@.len() == split_count(records@, q as int),
            forall|w: int, k: int|
                0 <= w < q && 0 <= k < records@[w].ride_id@.len()
                    ==> crate::model::ride_derived(
                    records@[w],
                    k,
                    #[trigger] rides@[split_count(records@, w) + k],
                ),
        decreases n - q,
    {
        let rec = &records[q];
        if !legs_ready(rec.timetable.as_slice()) {
            proof {
                assert(!record_splittable(records@[q as int]));
            }
            return Err("Record timetable unsuitable for leg generation".to_owned());
        }
        let mut split = match rec.split_on_ride_id() {
            Ok(v) => v,
            Err(_) => {
                proof {
                    assert(!records@[q as int].spec_splits_ok());
                    assert(!record_splittable(records@[q as int]));
                }
                return Err("Unsupported or malformed record".to_owned());
            },
        };
        let ghost full = split@;
        let ghost total = split@.len() as int;
        let ghost base = rides@.len() as int;
        let total_e = split.len();
        let mut k: usize = 0;
        while split.len() > 0
            invariant
                0 <= k <= total == full.len(),
                total == total_e,
                split@ =~= full.subrange(k as int, total),
                rides@.len() == base + k,
                0 <= base == split_count(records@, q as int),
                forall|x: int| 0 <= x < total ==> crate::model::ride_derived(records@[q as int], x, #[trigger] full[x]),
                forall|x: int| 0 <= x < k ==> legs_wf((#[trigger] full[x]).timetable@),
                forall|x: int| 0 <= x < k ==> rides@[base + x] == full[x],
                0 <= (q as int) < records@.len(),
                forall|w: int| 0 <= w < records@.len() ==> crate::parsing::record_wf(#[trigger] records@[w], ilen),
                forall|j: int| 0 <= j < rides@.len() ==> ride_ok(#[trigger] rides@[j], ilen),
                forall|w: int, k2: int|
                    0 <= w < q && 0 <= k2 < records@[w].ride_id@.len()
                        ==> crate::model::ride_derived(
                        records@[w],
                        k2,
                        #[trigger] rides@[split_count(records@, w) + k2],
                    ),
            decreases split@.len(),
        {
            let rd = split.remove(0);
            proof {
                assert(rd == full[k as int]);
                assert(split@ =~= full.subrange(k + 1, total));
            }
            if !legs_ready(rd.timetable.as_slice()) {
                proof {
                    assert(crate::model::ride_derived(records@[q as int], k as int, rd));
                    assert(rd.timetable@ == records@[q as int].spec_ride_timetable(k as int));
                    assert(!record_splittable(records@[q as int]));
                }
                return Err("Ride timetable unsuitable for leg generation".to_owned());
            }
            proof {
                lemma_ride_shape(records@[q as int], k as int, rd, ilen);
                assert(ride_ok(rd, ilen));
            }
            let ghost prev_rides = rides@;
            rides.push(rd);
            proof {
                assert forall|x: int|
                    0 <= x < k + 1 implies #[trigger] rides@[base + x] == full[x] by {
                    if x < k {
                        assert(rides@[base + x] == prev_rides[base + x]);
                    } else {
                        assert(rides@[base + k] == rd);
                    }
                }
                assert forall|w: int, k2: int|
                    0 <= w < q && 0 <= k2 < records@[w].ride_id@.len()
                        implies crate::model::ride_derived(
                        records@[w],
                        k2,
                        #[trigger] rides@[split_count(records@, w) + k2],
                    ) by {
                    lemma_split_count_nonneg(records@, w);
                    lemma_split_count_mono(records@, w + 1, q as int);
                    assert(split_count(records@, w) + k2 < split_count(records@, w + 1));
                    assert(split_count(records@, w) + k2 < base);
                    assert(rides@[split_count(records@, w) + k2] == prev_rides[split_count(
                        records@,
                        w,
                    ) + k2]);
                }
            }
            k = k + 1;
        }
        proof {
            // Every slice of this record generates legs, so the record is
            // in good standing.
            assert forall|x: int|
                0 <= x < records@[q as int].ride_id@.len() implies legs_wf(
                #[trigger] records@[q as int].spec_ride_timetable(x),
            ) by {
                assert(crate::model::ride_derived(records@[q as int], x, full[x]));
                assert(full[x].timetable@ == records@[q as int].spec_ride_timetable(x));
                assert(legs_wf(full[x].timetable@));
            }
            assert(record_ok(records@[q as int], ilen));
            assert(split_count(records@, q + 1) == split_count(records@, q as int)
                + records@[q as int].ride_id@.len());
            assert forall|w: int, k2: int|
                0 <= w < q + 1 && 0 <= k2 < records@[w].ride_id@.len()
                    implies crate::model::ride_derived(
                    records@[w],
                    k2,
                    #[trigger] rides@[split_count(records@, w) + k2],
                ) by {
                if w == q as int {
                    assert(rides@[base + k2] == full[k2]);
                } else {
                    lemma_split_count_nonneg(records@, w);
                }
            }
        }
        q = q + 1;
    }
    proof {
        assert(rides_are_splits(records@, rides@));
    }
    Ok(rides)
}

/// Everything a record needs from the geographic datasets: each of its
/// stops is a known station, and every consecutive pair of entries up to
/// the last stop is joined by an undirected link.
pub open spec fn record_complete(
    tt: Seq<TimetableEntry>,
    stations: Seq<Station>,
    cache: LocationCache,
    links: LinkIndex,
) -> bool {
    &&& forall|j: int|
        0 <= j < tt.len() && !((#[trigger] tt[j].stop_kind) is Waypoint) ==> station_known(
            stations,
            cache@[tt[j].code.inner as int],
        )
    &&& (match crate::model::spec_stop_index(tt, crate::model::nw_count(tt) - 1, 0) {
        Some(last) => forall|j: int|
            0 <= j < last ==> #[trigger] links.spec_contains_undirected(
                LinkCode(tt[j].code, tt[j + 1].code),
            ),
        None => true,
    })
}

/// Decides whether a record's legs can all be rendered from the
/// geographic datasets.
pub fn has_complete_data(
    record: &Record,
    stations: &Vec<Station>,
    cache: &LocationCache,
    links: &LinkIndex,
) -> (r: bool)
    requires
        cache.wf(),
        forall|j: int|
            0 <= j < record.timetable@.len() ==> (#[trigger] record.timetable@[j].code).inner
                < cache@.len(),
    ensures
        r == record_complete(record.timetable@, stations@, *cache, *links),
{
    let ghost tt = record.timetable@;
    let n = record.timetable.len();
    let mut j: usize = 0;
    while j < n
        invariant
            0 <= j <= n == tt.len(),
            tt == record.timetable@,
            cache.wf(),
            forall|w: int| 0 <= w < tt.len() ==> (#[trigger] tt[w].code).inner < cache@.len(),
            forall|w: int|
                0 <= w < j && !((#[trigger] tt[w].stop_kind) is Waypoint) ==> station_known(
                    stations@,
                    cache@[tt[w].code.inner as int],
                ),
        decreases n - j,
    {
        let entry = &record.timetable[j];
        if !matches!(entry.stop_kind, crate::model::StopKind::Waypoint) {
            let resolved: String = match cache.get_str(&entry.code) {
                Some(s) => s.to_owned(),
                None => {
                    proof {
                        assert(false);
                    }
                    String::new()
                },
            };
            let mut found = false;
            let sn = stations.len();
            let mut w: usize = 0;
            while w < sn
                invariant
                    0 <= w <= sn == stations@.len(),
                    found ==> station_known(stations@, resolved@),
                    !found ==> forall|x: int|
                        0 <= x < w ==> (#[trigger] stations@[x]).code@ != resolved@,
                decreases sn - w,
            {
                if stations[w].code == resolved {
                    assert(stations@[w as int].code@ == resolved@);
                    found = true;
                }
                w = w + 1;
            }
            if !found {
                proof {
                    assert(!((tt[j as int].stop_kind) is Waypoint));
                    assert(!station_known(stations@, cache@[tt[j as int].code.inner as int]));
                }
                return false;
            }
        }
        j = j + 1;
    }
    // Find the last non-waypoint entry.
    if n == 0 {
        return true;
    }
    let mut last: usize = n - 1;
    while last > 0 && matches!(record.timetable[last].stop_kind, crate::model::StopKind::Waypoint)
        invariant
            0 <= last < n == tt.len(),
            tt == record.timetable@,
            forall|w: int| last < w < tt.len() ==> (#[trigger] tt[w].stop_kind) is Waypoint,
        decreases last,
    {
        last = last - 1;
    }
    if matches!(record.timetable[last].stop_kind, crate::model::StopKind::Waypoint) {
        // The whole timetable is waypoints; there are no stops and no legs.
        proof {
            assert(last == 0);
            lemma_nw_const_over_waypoints(tt, 0, tt.len() as int);
            assert(crate::model::nw_count(tt) == 0);
            assert(crate::model::spec_stop_index(tt, -1, 0) is None) by {
                lemma_ssi_negative(tt, -1, 0);
            }
        }
        return true;
    }
    proof {
        crate::legs::lemma_ssi_at(tt, 0, last as int);
        lemma_nw_const_over_waypoints(tt, last + 1, tt.len() as int);
        assert(crate::model::nw_before(tt, last + 1) == crate::model::nw_before(tt, last as int)
            + 1);
        assert(crate::model::spec_stop_index(tt, crate::model::nw_count(tt) - 1, 0) == Some(
            last as int,
        ));
    }
    let mut j2: usize = 0;
    while j2 < last
        invariant
            0 <= j2 <= last < n == tt.len(),
            tt == record.timetable@,
            crate::model::spec_stop_index(tt, crate::model::nw_count(tt) - 1, 0) == Some(
                last as int,
            ),
            forall|w: int|
                0 <= w < j2 ==> #[trigger] links.spec_contains_undirected(
                    LinkCode(tt[w].code, tt[w + 1].code),
                ),
        decreases last - j2,
    {
        let key = LinkCode(record.timetable[j2].code, record.timetable[j2 + 1].code);
        if !links.contains_undirected(&key) {
            proof {
                assert(!links.spec_contains_undirected(
                    LinkCode(tt[j2 as int].code, tt[j2 + 1].code),
                ));
            }
            return false;
        }
        j2 = j2 + 1;
    }
    true
}

proof fn lemma_ssi_negative(tt: Seq<TimetableEntry>, nth: int, from: int)
    requires
        nth < 0,
    ensures
        crate::model::spec_stop_index(tt, nth, from) is None,
    decreases tt.len() - from,
{
    if 0 <= from < tt.len() {
        if !(tt[from].stop_kind is Waypoint) {
            lemma_ssi_negative(tt, nth - 1, from + 1);
        } else {
            lemma_ssi_negative(tt, nth, from + 1);
        }
    }
}

/// The master container of all parsed and derived data, logically
/// immutable once the unknown-leg filter has run.
pub struct DataRepo {
    locations: LocationCache,
    header: Header,
    records: Vec<Record>,
    rides: Vec<Ride>,
    validity: RideValidity,
    companies: Vec<Company>,
    stations: Vec<Station>,
    links: Vec<Link>,
    link_index: LinkIndex,
    version: u64,
}

impl DataRepo {
    pub closed spec fn spec_locations(&self) -> LocationCache {
        self.locations
    }

    pub closed spec fn spec_header(&self) -> Header {
        self.header
    }

    pub closed spec fn spec_records(&self) -> Seq<Record> {
        self.records@
    }

    pub closed spec fn spec_rides(&self) -> Seq<Ride> {
        self.rides@
    }

    pub closed spec fn spec_validity(&self) -> RideValidity {
        self.validity
    }

    pub closed spec fn spec_companies(&self) -> Seq<Company> {
        self.companies@
    }

    pub closed spec fn spec_stations(&self) -> Seq<Station> {
        self.stations@
    }

    pub closed spec fn spec_links(&self) -> Seq<Link> {
        self.links@
    }

    pub closed spec fn spec_link_index(&self) -> LinkIndex {
        self.link_index
    }

    pub closed spec fn spec_version(&self) -> u64 {
        self.version
    }

    /// The repository invariant: the validity engine and the interner are
    /// well formed, and every record and ride is in good standing.
    pub open spec fn wf(&self) -> bool {
        &&& self.spec_locations().wf()
        &&& self.spec_validity().wf()
        &&& forall|q: int|
            0 <= q < self.spec_records().len() ==> record_ok(
                #[trigger] self.spec_records()[q],
                self.spec_locations()@.len() as int,
            )
        &&& forall|j: int|
            0 <= j < self.spec_rides().len() ==> ride_ok(
                #[trigger] self.spec_rides()[j],
                self.spec_locations()@.len() as int,
            )
    }

    /// Assembles the repository from the parsed archive and the two
    /// geographic datasets, splitting every record into its rides.
    pub fn new(iff: Iff, raw_stations: &Vec<RawStation>, raw_links: &Vec<RawLink>) -> (r: Result<
        DataRepo,
        String,
    >)
        requires
            iff.wf(),
        ensures
            (match r {
                Ok(repo) => {
                    &&& repo.wf()
                    &&& repo.spec_version() == iff.spec_header().version
                    &&& repo.spec_header() == iff.spec_header()
                    &&& repo.spec_records() == iff.spec_timetable().rides@
                    &&& rides_are_splits(repo.spec_records(), repo.spec_rides())
                    &&& repo.spec_companies() == iff.spec_companies()@
                    &&& repo.spec_validity() == iff.spec_validity()
                    &&& crate::stations::stations_extracted(raw_stations@, repo.spec_stations())
                },
                Err(_) => {
                    ||| exists|x: int|
                        0 <= x < raw_stations@.len() && (crate::stations::station_type_of(
                            crate::util::spec_bytes_of(
                                (#[trigger] raw_stations@[x]).station_type@,
                            ),
                        ) is None || !crate::util::all_ascii(
                            crate::util::spec_bytes_of(raw_stations@[x].code@),
                        ))
                    ||| iff.spec_locations()@.len() + 2 * raw_links@.len() >= 65536
                    ||| exists|q: int|
                        0 <= q < iff.spec_timetable().rides@.len() && !record_splittable(
                            #[trigger] iff.spec_timetable().rides@[q],
                        )
                },
            }),
    {
        let (timetable, validity, companies, header, mut locations) = iff.into_parts();
        let stations = match crate::stations::extract_stations(raw_stations) {
            Ok(v) => v,
            Err(_) => {
                return Err("Error reading stations".to_owned());
            },
        };
        let links = match extract_links(raw_links, &mut locations) {
            Ok(v) => v,
            Err(_) => {
                return Err("Error reading links".to_owned());
            },
        };
        proof {
            // The interner only grew while the links were read, so every
            // record still resolves.
            assert forall|q: int|
                0 <= q < timetable.rides@.len() implies crate::parsing::record_wf(
                #[trigger] timetable.rides@[q],
                locations@.len() as int,
            ) by {
                assert(crate::parsing::record_wf(
                    timetable.rides@[q],
                    iff.spec_locations()@.len() as int,
                ));
            }
        }
        let ghost ilen = locations@.len() as int;
        let rides = match derive_rides(&timetable.rides, Ghost(ilen)) {
            Ok(v) => v,
            Err(e) => {
                return Err(e);
            },
        };
        let link_index = LinkIndex::new(&links);
        let version = header.version;
        Ok(
            DataRepo {
                locations,
                header,
                records: timetable.rides,
                rides,
                validity,
                companies,
                stations,
                links,
                link_index,
                version,
            },
        )
    }

    /// Reports every missing station or route over all records: every
    /// returned report names a genuinely unknown station or link.
    pub fn report_unkown_legs(&self) -> (r: Vec<MissingLinkReport>)
        requires
            self.wf(),
        ensures
            forall|j: int|
                0 <= j < r@.len() ==> (match #[trigger] r@[j] {
                    MissingLinkReport::NoStation(c) => c.inner < self.spec_locations()@.len()
                        ==> !station_known(
                        self.spec_stations(),
                        self.spec_locations()@[c.inner as int],
                    ),
                    MissingLinkReport::NoRoute(f, t) => !self.spec_link_index(
                    ).spec_contains_undirected(LinkCode(f, t)),
                }),
    {
        let mut out: Vec<MissingLinkReport> = Vec::new();
        let n = self.records.len();
        let mut q: usize = 0;
        while q < n
            invariant
                0 <= q <= n == self.spec_records().len(),
                self.wf(),
                forall|j: int|
                    0 <= j < out@.len() ==> (match #[trigger] out@[j] {
                        MissingLinkReport::NoStation(c) => c.inner < self.spec_locations()@.len()
                            ==> !station_known(
                            self.spec_stations(),
                            self.spec_locations()@[c.inner as int],
                        ),
                        MissingLinkReport::NoRoute(f, t) => !self.spec_link_index(
                        ).spec_contains_undirected(LinkCode(f, t)),
                    }),
            decreases n - q,
        {
            let record = &self.records[q];
            proof {
                assert(record_ok(
                    self.spec_records()[q as int],
                    self.spec_locations()@.len() as int,
                ));
            }
            if !has_complete_data(record, &self.stations, &self.locations, &self.link_index) {
                let legs = crate::legs::generate_legs(record.timetable.as_slice());
                let ln = legs.len();
                let mut li: usize = 0;
                while li < ln
                    invariant
                        0 <= li <= ln == legs@.len(),
                        self.wf(),
                        0 <= (q as int) < self.spec_records().len(),
                        forall|j: int|
                            0 <= j < out@.len() ==> (match #[trigger] out@[j] {
                                MissingLinkReport::NoStation(c) => c.inner < self.spec_locations(
                                )@.len() ==> !station_known(
                                    self.spec_stations(),
                                    self.spec_locations()@[c.inner as int],
                                ),
                                MissingLinkReport::NoRoute(f, t) => !self.spec_link_index(
                                ).spec_contains_undirected(LinkCode(f, t)),
                            }),
                    decreases ln - li,
                {
                    match report_missing_leg(
                        &legs[li],
                        &self.stations,
                        &self.locations,
                        &self.link_index,
                    ) {
                        Some(rep) => {
                            out.push(rep);
                        },
                        None => {},
                    }
                    li = li + 1;
                }
            }
            q = q + 1;
        }
        out
    }

    /// Discards every record that references a station or link the
    /// geographic datasets do not know, and re-derives the rides from the
    /// records that survive.
    pub fn filter_unknown_legs(&mut self)
        requires
            old(self).wf(),
        ensures
            final(self).wf(),
            final(self).spec_records() == seq_filter(
                old(self).spec_records(),
                |rec: Record|
                    record_complete(
                        rec.timetable@,
                        old(self).spec_stations(),
                        old(self).spec_locations(),
                        old(self).spec_link_index(),
                    ),
            ),
            final(self).spec_stations() == old(self).spec_stations(),
            final(self).spec_links() == old(self).spec_links(),
            final(self).spec_validity() == old(self).spec_validity(),
            final(self).spec_header() == old(self).spec_header(),
            final(self).spec_version() == old(self).spec_version(),
            final(self).spec_locations() == old(self).spec_locations(),
            rides_are_splits(final(self).spec_records(), final(self).spec_rides()),
            forall|j: int|
                0 <= j < final(self).spec_rides().len() ==> ride_ok(
                    #[trigger] final(self).spec_rides()[j],
                    final(self).spec_locations()@.len() as int,
                ),
    {
        let ghost pred = |rec: Record|
            record_complete(
                rec.timetable@,
                old(self).spec_stations(),
                old(self).spec_locations(),
                old(self).spec_link_index(),
            );
        let ghost orig = self.records@;
        let total = self.records.len();
        let mut kept: Vec<Record> = Vec::new();
        let mut q: usize = 0;
        proof {
            assert(orig.subrange(0, 0) =~= Seq::<Record>::empty());
            assert(self.records@ =~= orig.subrange(0, orig.len() as int));
            assert forall|w: int|
                0 <= w < orig.len() implies record_ok(
                #[trigger] orig[w],
                self.locations@.len() as int,
            ) by {
                assert(orig[w] == old(self).spec_records()[w]);
                assert(record_ok(
                    old(self).spec_records()[w],
                    old(self).spec_locations()@.len() as int,
                ));
            }
        }
        while self.records.len() > 0
            invariant
                0 <= q <= total == orig.len(),
                (pred == |rec: Record|
                    record_complete(
                        rec.timetable@,
                        old(self).spec_stations(),
                        old(self).spec_locations(),
                        old(self).spec_link_index(),
                    )),
                self.records@ =~= orig.subrange(q as int, orig.len() as int),
                kept@ =~= seq_filter(orig.subrange(0, q as int), pred),
                self.stations@ == old(self).spec_stations(),
                self.locations == old(self).spec_locations(),
                self.link_index == old(self).spec_link_index(),
                self.validity == old(self).spec_validity(),
                self.header == old(self).spec_header(),
                self.version == old(self).spec_version(),
                self.links@ == old(self).spec_links(),
                self.locations.wf(),
                forall|w: int|
                    0 <= w < orig.len() ==> record_ok(
                        #[trigger] orig[w],
                        self.locations@.len() as int,
                    ),
                forall|w: int|
                    0 <= w < kept@.len() ==> record_ok(
                        #[trigger] kept@[w],
                        self.locations@.len() as int,
                    ),
            decreases self.records@.len(),
        {
            let rec = self.records.remove(0);
            proof {
                assert(rec == orig[q as int]);
                assert(self.records@ =~= orig.subrange(q + 1, orig.len() as int));
                lemma_seq_filter_extend(orig, pred, q as int);
            }
            let complete = has_complete_data(
                &rec,
                &self.stations,
                &self.locations,
                &self.link_index,
            );
            if complete {
                kept.push(rec);
            }
            proof {
                assert(orig.subrange(0, q as int + 1).drop_last() =~= orig.subrange(0, q as int));
                assert(kept@ =~= seq_filter(orig.subrange(0, q + 1), pred));
            }
            q = q + 1;
        }
        proof {
            assert(orig.subrange(0, orig.len() as int) =~= orig);
        }
        self.records = kept;
        let ghost ilen = self.locations@.len() as int;
        let rides = match derive_rides(&self.records, Ghost(ilen)) {
            Ok(v) => v,
            Err(_) => {
                proof {
                    assert(false);
                }
                Vec::new()
            },
        };
        self.rides = rides;
    }

    pub fn rides(&self) -> (r: &Vec<Ride>)
        ensures
            r@ == self.spec_rides(),
    {
        &self.rides
    }

    pub fn companies(&self) -> (r: &Vec<Company>)
        ensures
            r@ == self.spec_companies(),
    {
        &self.companies
    }

    pub fn links(&self) -> (r: &Vec<Link>)
        ensures
            r@ == self.spec_links(),
    {
        &self.links
    }

    pub fn stations(&self) -> (r: &Vec<Station>)
        ensures
            r@ == self.spec_stations(),
    {
        &self.stations
    }

    pub fn version(&self) -> (r: u64)
        ensures
            r == self.spec_version(),
    {
        self.version
    }

    pub fn location_cache(&self) -> (r: &LocationCache)
        ensures
            *r == self.spec_locations(),
    {
        &self.locations
    }

    pub fn header(&self) -> (r: &Header)
        ensures
            *r == self.spec_header(),
    {
        &self.header
    }

    /// Whether a footnote applies on a day, with query errors (a date
    /// outside the window, an unknown footnote) swallowed to false.
    pub fn is_ride_valid(&self, footnote: u64, day: Date) -> (r: bool)
        requires
            self.wf(),
            day.valid(),
        ensures
            r == self.spec_validity().spec_is_valid_sentinel(footnote, day),
    {
        match self.validity.is_valid_on_day(footnote, day) {
            Ok(b) => b,
            Err(_) => false,
        }
    }

    /// The station with exactly this code, if any.
    pub fn station_by_code(&self, code: &str) -> (r: Option<&Station>)
        ensures
            (match r {
                Some(st) => exists|i: int|
                    0 <= i < self.spec_stations().len() && self.spec_stations()[i] == *st
                        && st.code@ == code@,
                None => forall|i: int|
                    0 <= i < self.spec_stations().len() ==> (#[trigger] self.spec_stations()[
                    i]).code@ != code@,
            }),
    {
        let needle = code.to_owned();
        let n = self.stations.len();
        let mut i: usize = 0;
        while i < n
            invariant
                0 <= i <= n == self.spec_stations().len(),
                needle@ == code@,
                forall|j: int|
                    0 <= j < i ==> (#[trigger] self.spec_stations()[j]).code@ != code@,
            decreases n - i,
        {
            if self.stations[i].code == needle {
                assert(self.spec_stations()[i as int].code@ == code@);
                return Some(&self.stations[i]);
            }
            i = i + 1;
        }
        None
    }

    /// Selects a station by (folded) name: a case-insensitive exact match
    /// is preferred; failing that, any station whose folded name contains
    /// the folded needle.
    pub fn select_station_by_name(&self, needle: &str) -> (r: Option<&Station>)
        ensures
            (match r {
                Some(st) => exists|i: int|
                    0 <= i < self.spec_stations().len() && #[trigger] self.spec_stations()[i]
                        == *st && (crate::stations::name_exact(*st, needle@)
                        || crate::stations::name_matches(*st, needle@)),
                None => forall|i: int|
                    0 <= i < self.spec_stations().len() ==> !crate::stations::name_exact(
                        #[trigger] self.spec_stations()[i],
                        needle@,
                    ) && !crate::stations::name_matches(self.spec_stations()[i], needle@),
            }),
    {
        let r = crate::stations::select_station_by_name(&self.stations, needle);
        proof {
            match r {
                Some(st) => {
                    let i = choose|i: int|
                        0 <= i < self.stations@.len() && self.stations@[i] == *st && (
                        crate::stations::name_exact(*st, needle@)
                        || crate::stations::name_matches(*st, needle@));
                    assert(self.spec_stations()[i] == *st);
                },
                None => {
                    assert forall|i: int|
                        0 <= i < self.spec_stations().len() implies !crate::stations::name_exact(
                        #[trigger] self.spec_stations()[i],
                        needle@,
                    ) && !crate::stations::name_matches(self.spec_stations()[i], needle@) by {
                        assert(self.spec_stations()[i] == self.stations@[i]);
                        assert(!crate::stations::name_exact(self.stations@[i], needle@));
                    }
                },
            }
        }
        r
    }
}

/// The departure time of a presentable ride.
pub open spec fn ride_start(rd: Ride) -> int {
    rd.timetable@[0].stop_kind.spec_departure_time().unwrap().spec_minutes()
}

/// The arrival time of a presentable ride.
pub open spec fn ride_end(rd: Ride) -> int {
    rd.timetable@[rd.timetable@.len() - 1].stop_kind.spec_arrival_time().unwrap().spec_minutes()
}

impl DataRepo {
    /// Rides under way at the given moment: departed before it, arriving
    /// after it, and running on the given date.
    pub fn rides_active_at_time<'a>(&'a self, time: &DayOffset, date: &Date) -> (r: Vec<
        &'a Ride,
    >)
        requires
            self.wf(),
            date.valid(),
        ensures
            r@.map_values(|x: &Ride| *x) == seq_filter(
                self.spec_rides(),
                |rd: Ride|
                    ride_start(rd) < time.spec_minutes() && ride_end(rd) > time.spec_minutes()
                        && self.spec_validity().spec_is_valid_sentinel(rd.day_validity, *date),
            ),
    {
        let ghost pred = |rd: Ride|
            ride_start(rd) < time.spec_minutes() && ride_end(rd) > time.spec_minutes()
                && self.spec_validity().spec_is_valid_sentinel(rd.day_validity, *date);
        let mut out: Vec<&'a Ride> = Vec::new();
        let n = self.rides.len();
        let mut i: usize = 0;
        while i < n
            invariant
                0 <= i <= n == self.spec_rides().len(),
                self.wf(),
                date.valid(),
                out@.map_values(|x: &Ride| *x) =~= seq_filter(
                    self.spec_rides().subrange(0, i as int),
                    pred,
                ),
                (pred == |rd: Ride|
                    ride_start(rd) < time.spec_minutes() && ride_end(rd) > time.spec_minutes()
                        && self.spec_validity().spec_is_valid_sentinel(rd.day_validity, *date)),
            decreases n - i,
        {
            let ride = &self.rides[i];
            let starts = ride.start_time();
            let ends = ride.end_time();
            let valid = self.is_ride_valid(ride.day_validity, *date);
            let cond = starts.minutes() < time.minutes() && ends.minutes() > time.minutes()
                && valid;
            proof {
                assert(cond == pred(self.spec_rides()[i as int]));
                lemma_seq_filter_extend(self.spec_rides(), pred, i as int);
            }
            if cond {
                out.push(ride);
            }
            proof {
                assert(out@.map_values(|x: &Ride| *x) =~= seq_filter(
                    self.spec_rides().subrange(0, i + 1),
                    pred,
                ));
            }
            i = i + 1;
        }
        proof {
            assert(self.spec_rides().subrange(0, n as int) =~= self.spec_rides());
        }
        out
    }

    /// Rides overlapping the given window on the given date: departed by
    /// its end and still under way at its start.
    pub fn rides_active_in_timespan<'a>(
        &'a self,
        time_start: &DayOffset,
        time_end: &DayOffset,
        date: &Date,
    ) -> (r: Vec<&'a Ride>)
        requires
            self.wf(),
            date.valid(),
        ensures
            r@.map_values(|x: &Ride| *x) == seq_filter(
                self.spec_rides(),
                |rd: Ride|
                    ride_start(rd) <= time_end.spec_minutes() && ride_end(rd)
                        > time_start.spec_minutes() && self.spec_validity().spec_is_valid_sentinel(
                        rd.day_validity,
                        *date,
                    ),
            ),
    {
        let ghost pred = |rd: Ride|
            ride_start(rd) <= time_end.spec_minutes() && ride_end(rd) > time_start.spec_minutes()
                && self.spec_validity().spec_is_valid_sentinel(rd.day_validity, *date);
        let mut out: Vec<&'a Ride> = Vec::new();
        let n = self.rides.len();
        let mut i: usize = 0;
        while i < n
            invariant
                0 <= i <= n == self.spec_rides().len(),
                self.wf(),
                date.valid(),
                out@.map_values(|x: &Ride| *x) =~= seq_filter(
                    self.spec_rides().subrange(0, i as int),
                    pred,
                ),
                (pred == |rd: Ride|
                    ride_start(rd) <= time_end.spec_minutes() && ride_end(rd)
                        > time_start.spec_minutes() && self.spec_validity().spec_is_valid_sentinel(
                        rd.day_validity,
                        *date,
                    )),
            decreases n - i,
        {
            let ride = &self.rides[i];
            let starts = ride.start_time();
            let ends = ride.end_time();
            let valid = self.is_ride_valid(ride.day_validity, *date);
            let cond = starts.minutes() <= time_end.minutes() && ends.minutes()
                > time_start.minutes() && valid;
            proof {
                assert(cond == pred(self.spec_rides()[i as int]));
                lemma_seq_filter_extend(self.spec_rides(), pred, i as int);
            }
            if cond {
                out.push(ride);
            }
            proof {
                assert(out@.map_values(|x: &Ride| *x) =~= seq_filter(
                    self.spec_rides().subrange(0, i + 1),
                    pred,
                ));
            }
            i = i + 1;
        }
        proof {
            assert(self.spec_rides().subrange(0, n as int) =~= self.spec_rides());
        }
        out
    }

    /// Rides running on the given date, irrespective of time of day.
    pub fn rides_active_on_date<'a>(&'a self, date: &Date) -> (r: Vec<&'a Ride>)
        requires
            self.wf(),
            date.valid(),
        ensures
            r@.map_values(|x: &Ride| *x) == seq_filter(
                self.spec_rides(),
                |rd: Ride| self.spec_validity().spec_is_valid_sentinel(rd.day_validity, *date),
            ),
    {
        let ghost pred = |rd: Ride|
            self.spec_validity().spec_is_valid_sentinel(rd.day_validity, *date);
        let mut out: Vec<&'a Ride> = Vec::new();
        let n = self.rides.len();
        let mut i: usize = 0;
        while i < n
            invariant
                0 <= i <= n == self.spec_rides().len(),
                self.wf(),
                date.valid(),
                out@.map_values(|x: &Ride| *x) =~= seq_filter(
                    self.spec_rides().subrange(0, i as int),
                    pred,
                ),
                (pred == |rd: Ride|
                    self.spec_validity().spec_is_valid_sentinel(rd.day_validity, *date)),
            decreases n - i,
        {
            let ride = &self.rides[i];
            let cond = self.is_ride_valid(ride.day_validity, *date);
            proof {
                assert(cond == pred(self.spec_rides()[i as int]));
                lemma_seq_filter_extend(self.spec_rides(), pred, i as int);
            }
            if cond {
                out.push(ride);
            }
            proof {
                assert(out@.map_values(|x: &Ride| *x) =~= seq_filter(
                    self.spec_rides().subrange(0, i + 1),
                    pred,
                ));
            }
            i = i + 1;
        }
        proof {
            assert(self.spec_rides().subrange(0, n as int) =~= self.spec_rides());
        }
        out
    }
}

/// What the departure board shows for one ride: the ride overlaps the
/// window and runs on the date, passengers can board it at the location,
/// and its first stop there departs strictly inside the window.
pub open spec fn spec_departure_listed(
    rd: Ride,
    code: LocationCodeHandle,
    window_start: DayOffset,
    window_end: DayOffset,
) -> bool {
    &&& ride_start(rd) <= window_end.spec_minutes()
    &&& ride_end(rd) > window_start.spec_minutes()
    &&& rd.boardable_spec(code)
    &&& (match crate::legs::spec_stop_find(rd.timetable@, code, 0) {
        Some(k) => (match rd.timetable@[k].stop_kind.spec_departure_time() {
            Some(t) => window_start.spec_minutes() < t.spec_minutes()
                < window_end.spec_minutes(),
            None => false,
        }),
        None => false,
    })
}

impl Ride {
    /// Passengers can board this ride at the location.
    pub open spec fn boardable_spec(&self, code: LocationCodeHandle) -> bool {
        exists|k: int|
            0 <= k < self.timetable@.len() && (#[trigger] self.timetable@[k].code) == code
                && self.timetable@[k].stop_kind.spec_is_boardable()
    }
}

impl DataRepo {
    /// The departure board: every ride under way in the window and on the
    /// date whose first stop at the location departs strictly inside the
    /// window, paired with that departure time — these and no others.
    pub fn departures_in_window<'a>(
        &'a self,
        code: &LocationCodeHandle,
        window_start: &DayOffset,
        window_end: &DayOffset,
        date: &Date,
    ) -> (r: Vec<(&'a Ride, DayOffset)>)
        requires
            self.wf(),
            date.valid(),
        ensures
            forall|j: int|
                0 <= j < r@.len() ==> {
                    let (rd, t) = #[trigger] r@[j];
                    &&& spec_departure_listed(*rd, *code, *window_start, *window_end)
                    &&& self.spec_validity().spec_is_valid_sentinel(rd.day_validity, *date)
                    &&& (match crate::legs::spec_stop_find(rd.timetable@, *code, 0) {
                        Some(k) => Some(t) == rd.timetable@[k].stop_kind.spec_departure_time(),
                        None => false,
                    })
                },
            forall|w: int|
                0 <= w < self.spec_rides().len() && spec_departure_listed(
                    #[trigger] self.spec_rides()[w],
                    *code,
                    *window_start,
                    *window_end,
                ) && self.spec_validity().spec_is_valid_sentinel(
                    self.spec_rides()[w].day_validity,
                    *date,
                ) ==> exists|j: int|
                    0 <= j < r@.len() && *(#[trigger] r@[j]).0 == self.spec_rides()[w],
    {
        let mut out: Vec<(&'a Ride, DayOffset)> = Vec::new();
        let n = self.rides.len();
        let mut i: usize = 0;
        while i < n
            invariant
                0 <= i <= n == self.spec_rides().len(),
                self.wf(),
                date.valid(),
                forall|j: int|
                    0 <= j < out@.len() ==> {
                        let (rd, t) = #[trigger] out@[j];
                        &&& spec_departure_listed(*rd, *code, *window_start, *window_end)
                        &&& self.spec_validity().spec_is_valid_sentinel(rd.day_validity, *date)
                        &&& (match crate::legs::spec_stop_find(rd.timetable@, *code, 0) {
                            Some(k) => Some(t) == rd.timetable@[
                                k].stop_kind.spec_departure_time(),
                            None => false,
                        })
                    },
                forall|w: int|
                    0 <= w < i && spec_departure_listed(
                        #[trigger] self.spec_rides()[w],
                        *code,
                        *window_start,
                        *window_end,
                    ) && self.spec_validity().spec_is_valid_sentinel(
                        self.spec_rides()[w].day_validity,
                        *date,
                    ) ==> exists|j: int|
                        0 <= j < out@.len() && *(#[trigger] out@[j]).0 == self.spec_rides()[w],
            decreases n - i,
        {
            let ride: &'a Ride = &self.rides[i];
            let valid = self.is_ride_valid(ride.day_validity, *date);
            let in_span = ride.start_time().minutes() <= window_end.minutes()
                && ride.end_time().minutes() > window_start.minutes();
            let ghost prev = out@;
            if valid && in_span && ride.boardable_at_code(code) {
                match ride.stop_at_code(code) {
                    Some(stop) => match stop.stop_kind.departure_time() {
                        Some(depart) => {
                            if window_start.minutes() < depart.minutes() && depart.minutes()
                                < window_end.minutes() {
                                out.push((ride, depart));
                                proof {
                                    assert(*(out@[out@.len() - 1]).0 == self.spec_rides()[
                                        i as int]);
                                }
                            }
                        },
                        None => {},
                    },
                    None => {},
                }
            }
            proof {
                assert forall|j: int| 0 <= j < prev.len() implies out@[j] == prev[j] by {}
                if spec_departure_listed(
                    self.spec_rides()[i as int],
                    *code,
                    *window_start,
                    *window_end,
                ) && self.spec_validity().spec_is_valid_sentinel(
                    self.spec_rides()[i as int].day_validity,
                    *date,
                ) {
                    assert(out@.len() == prev.len() + 1);
                    assert(*(out@[out@.len() - 1]).0 == self.spec_rides()[i as int]);
                }
            }
            i = i + 1;
        }
        out
    }
}

} // verus!
