use vstd::prelude::*;

use crate::legs::{Leg, LegKind};
use crate::locations::{LocationCache, LocationCodeHandle};
use crate::model::{PlatformInfo, Ride, StopKind};
use crate::platform::spec_render_platform;
use crate::util::{dec_digits, spec_bytes_of};
use vstd::string::StringSliceAdditionalSpecFns;

verus! {

// The payloads the query endpoints serve. Station codes and ride numbers
// are alphanumeric in this format, so the emitters copy them into the
// string fields verbatim, without an escaping pass.

/// A JSON string holding exactly these bytes.
pub open spec fn json_string(b: Seq<u8>) -> Seq<u8> {
    "\"".spec_bytes() + b + "\"".spec_bytes()
}

/// A JSON string, or `null` for an absent value.
pub open spec fn json_or_null(o: Option<Seq<u8>>) -> Seq<u8> {
    match o {
        Some(b) => json_string(b),
        None => "null".spec_bytes(),
    }
}

/// The bytes of the code a handle resolves to.
pub open spec fn code_bytes(interner: Seq<Seq<char>>, h: LocationCodeHandle) -> Seq<u8> {
    spec_bytes_of(interner[h.inner as int])
}

/// The JSON object of a platform assignment.
pub open spec fn json_of_platform_info(pi: PlatformInfo) -> Seq<u8> {
    "{\"arrival_platform\":".spec_bytes() + json_or_null(
        match pi.arrival_platform {
            Some(p) => Some(spec_render_platform(p)),
            None => None,
        },
    ) + ",\"departure_platform\":".spec_bytes() + json_or_null(
        match pi.departure_platform {
            Some(p) => Some(spec_render_platform(p)),
            None => None,
        },
    ) + ",\"footnote\":".spec_bytes() + dec_digits(pi.footnote as int) + "}".spec_bytes()
}

/// The wire number of a stop kind.
pub open spec fn spec_stop_type_num(kind: StopKind) -> int {
    match kind {
        StopKind::Waypoint => 1,
        StopKind::StopShort(_, _) => 2,
        StopKind::StopLong(_, _, _) => 3,
        StopKind::Departure(_, _) => 4,
        StopKind::Arrival(_, _) => 5,
    }
}

pub fn stopkind_to_num(stop_kind: &StopKind) -> (r: u8)
    ensures
        r == spec_stop_type_num(*stop_kind),
{
    match stop_kind {
        StopKind::Waypoint => 1,
        StopKind::StopShort(_, _) => 2,
        StopKind::StopLong(_, _, _) => 3,
        StopKind::Departure(_, _) => 4,
        StopKind::Arrival(_, _) => 5,
    }
}

/// The comma-joined items of a JSON array of codes.
pub open spec fn code_items(hs: Seq<LocationCodeHandle>, interner: Seq<Seq<char>>) -> Seq<u8>
    decreases hs.len(),
{
    if hs.len() == 0 {
        Seq::empty()
    } else if hs.len() == 1 {
        json_string(code_bytes(interner, hs[0]))
    } else {
        code_items(hs.drop_last(), interner) + ",".spec_bytes() + json_string(
            code_bytes(interner, hs.last()),
        )
    }
}

/// The JSON of one presentation leg.
pub open spec fn json_of_leg(leg: Leg, interner: Seq<Seq<char>>) -> Seq<u8> {
    "{\"timeStart\":".spec_bytes() + dec_digits(leg.start.spec_minutes())
        + ",\"timeEnd\":".spec_bytes() + dec_digits(leg.end.spec_minutes())
        + ",\"moving\":".spec_bytes() + (if leg.kind is Moving {
        "true".spec_bytes()
    } else {
        "false".spec_bytes()
    }) + ",\"waypoints\":[".spec_bytes() + (match leg.kind {
        LegKind::Moving { waypoints, .. } => code_items(waypoints@, interner),
        LegKind::Stationary(_, _) => Seq::empty(),
    }) + "],\"from\":".spec_bytes() + json_or_null(
        match leg.kind {
            LegKind::Moving { from, .. } => Some(code_bytes(interner, from)),
            LegKind::Stationary(_, _) => None,
        },
    ) + ",\"to\":".spec_bytes() + json_or_null(
        match leg.kind {
            LegKind::Moving { to, .. } => Some(code_bytes(interner, to)),
            LegKind::Stationary(_, _) => None,
        },
    ) + ",\"stationCode\":".spec_bytes() + json_or_null(
        match leg.kind {
            LegKind::Stationary(code, _) => Some(code_bytes(interner, code)),
            LegKind::Moving { .. } => None,
        },
    ) + ",\"platform\":".spec_bytes() + (match leg.kind {
        LegKind::Stationary(_, kind) => match kind.spec_platform_info() {
            Some(pi) => json_of_platform_info(pi),
            None => "null".spec_bytes(),
        },
        LegKind::Moving { .. } => "null".spec_bytes(),
    }) + ",\"stopType\":".spec_bytes() + (match leg.kind {
        LegKind::Stationary(_, kind) => dec_digits(spec_stop_type_num(kind)),
        LegKind::Moving { .. } => "null".spec_bytes(),
    }) + "}".spec_bytes()
}

/// The comma-joined items of the legs array.
pub open spec fn leg_items(legs: Seq<Leg>, interner: Seq<Seq<char>>) -> Seq<u8>
    decreases legs.len(),
{
    if legs.len() == 0 {
        Seq::empty()
    } else if legs.len() == 1 {
        json_of_leg(legs[0], interner)
    } else {
        leg_items(legs.drop_last(), interner) + ",".spec_bytes() + json_of_leg(
            legs.last(),
            interner,
        )
    }
}

/// The JSON of one ride, over already generated legs. The `distance` and
/// `dayValidity` fields are emitted as zero, reserved for future use.
pub open spec fn json_of_ride(rd: Ride, legs: Seq<Leg>, interner: Seq<Seq<char>>) -> Seq<u8> {
    "{\"id\":".spec_bytes() + json_string(spec_bytes_of(rd.id@)) + ",\"operator\":".spec_bytes()
        + dec_digits(rd.operator as int) + ",\"startTime\":".spec_bytes() + dec_digits(
        crate::repo::ride_start(rd),
    ) + ",\"endTime\":".spec_bytes() + dec_digits(crate::repo::ride_end(rd))
        + ",\"distance\":0,\"dayValidity\":0,\"legs\":[".spec_bytes() + leg_items(legs, interner)
        + "]}".spec_bytes()
}

/// Appends raw bytes.
fn append_bytes(out: &mut Vec<u8>, s: &[u8])
    ensures
        final(out)@ == old(out)@ + s@,
{
    let n = s.len();
    let mut i: usize = 0;
    while i < n
        invariant
            0 <= i <= n == s@.len(),
            out@ =~= old(out)@ + s@.subrange(0, i as int),
        decreases n - i,
    {
        out.push(s[i]);
        proof {
            assert(out@ =~= old(out)@ + s@.subrange(0, i + 1));
        }
        i = i + 1;
    }
    proof {
        assert(out@ =~= old(out)@ + s@);
    }
}

/// Appends the bytes of a string literal or resolved code.
fn append_str(out: &mut Vec<u8>, s: &str)
    ensures
        final(out)@ == old(out)@ + s.spec_bytes(),
{
    append_bytes(out, s.as_bytes());
}

/// Appends a number in decimal.
fn append_u64(out: &mut Vec<u8>, n: u64)
    ensures
        final(out)@ == old(out)@ + dec_digits(n as int),
{
    let mut digits = crate::util::u64_to_dec(n);
    append_bytes(out, digits.as_slice());
}

/// Appends a quoted code.
fn append_code(out: &mut Vec<u8>, cache: &LocationCache, h: &LocationCodeHandle)
    requires
        h.inner < cache@.len(),
    ensures
        final(out)@ == old(out)@ + json_string(code_bytes(cache@, *h)),
{
    append_str(out, "\"");
    match cache.get_str(h) {
        Some(s) => {
            append_str(out, s);
        },
        None => {
            proof {
                assert(false);
            }
        },
    }
    append_str(out, "\"");
    proof {
        assert(out@ =~= old(out)@ + json_string(code_bytes(cache@, *h)));
    }
}

/// Appends a platform assignment object.
fn append_platform_info(out: &mut Vec<u8>, pi: &PlatformInfo)
    requires
        (match pi.arrival_platform {
            Some(p) => p.wf(),
            None => true,
        }),
        (match pi.departure_platform {
            Some(p) => p.wf(),
            None => true,
        }),
    ensures
        final(out)@ == old(out)@ + json_of_platform_info(*pi),
{
    append_str(out, "{\"arrival_platform\":");
    match &pi.arrival_platform {
        Some(p) => {
            let rendered = p.render();
            append_str(out, "\"");
            append_str(out, rendered.as_str());
            append_str(out, "\"");
        },
        None => {
            append_str(out, "null");
        },
    }
    append_str(out, ",\"departure_platform\":");
    match &pi.departure_platform {
        Some(p) => {
            let rendered = p.render();
            append_str(out, "\"");
            append_str(out, rendered.as_str());
            append_str(out, "\"");
        },
        None => {
            append_str(out, "null");
        },
    }
    append_str(out, ",\"footnote\":");
    append_u64(out, pi.footnote);
    append_str(out, "}");
    proof {
        assert(out@ =~= old(out)@ + json_of_platform_info(*pi));
    }
}

/// Every platform a leg carries is well formed.
pub open spec fn leg_platforms_wf(leg: Leg) -> bool {
    match leg.kind {
        LegKind::Stationary(_, kind) => match kind.spec_platform_info() {
            Some(pi) => (match pi.arrival_platform {
                Some(p) => p.wf(),
                None => true,
            }) && (match pi.departure_platform {
                Some(p) => p.wf(),
                None => true,
            }),
            None => true,
        },
        LegKind::Moving { .. } => true,
    }
}

/// Appends one leg object.
#[verifier::rlimit(100)]
fn append_leg(out: &mut Vec<u8>, leg: &Leg, cache: &LocationCache)
    requires
        crate::repo::leg_handles_ok(leg.kind, cache@.len() as int),
        leg_platforms_wf(*leg),
    ensures
        final(out)@ == old(out)@ + json_of_leg(*leg, cache@),
{
    append_str(out, "{\"timeStart\":");
    append_u64(out, leg.start.minutes() as u64);
    append_str(out, ",\"timeEnd\":");
    append_u64(out, leg.end.minutes() as u64);
    append_str(out, ",\"moving\":");
    if leg.kind.is_moving() {
        append_str(out, "true");
    } else {
        append_str(out, "false");
    }
    append_str(out, ",\"waypoints\":[");
    match &leg.kind {
        LegKind::Moving { waypoints, .. } => {
            let ghost base = out@;
            let n = waypoints.len();
            let mut i: usize = 0;
            while i < n
                invariant
                    0 <= i <= n == waypoints@.len(),
                    leg.kind is Moving,
                    waypoints == &leg.kind->Moving_waypoints,
                    forall|w: int|
                        0 <= w < waypoints@.len() ==> (#[trigger] waypoints@[w]).inner
                            < cache@.len(),
                    out@ =~= base + code_items(waypoints@.subrange(0, i as int), cache@),
                decreases n - i,
            {
                if i > 0 {
                    append_str(out, ",");
                }
                append_code(out, cache, &waypoints[i]);
                proof {
                    let pre = waypoints@.subrange(0, i as int);
                    let cur = waypoints@.subrange(0, i + 1);
                    assert(cur.drop_last() =~= pre);
                    assert(cur.last() == waypoints@[i as int]);
                    assert(out@ =~= base + code_items(cur, cache@));
                }
                i = i + 1;
            }
            proof {
                assert(waypoints@.subrange(0, n as int) =~= waypoints@);
            }
        },
        LegKind::Stationary(_, _) => {},
    }
    append_str(out, "],\"from\":");
    match &leg.kind {
        LegKind::Moving { from, .. } => append_code(out, cache, from),
        LegKind::Stationary(_, _) => append_str(out, "null"),
    }
    append_str(out, ",\"to\":");
    match &leg.kind {
        LegKind::Moving { to, .. } => append_code(out, cache, to),
        LegKind::Stationary(_, _) => append_str(out, "null"),
    }
    append_str(out, ",\"stationCode\":");
    match &leg.kind {
        LegKind::Stationary(code, _) => append_code(out, cache, code),
        LegKind::Moving { .. } => append_str(out, "null"),
    }
    append_str(out, ",\"platform\":");
    match &leg.kind {
        LegKind::Stationary(_, kind) => match kind.platform_info() {
            Some(pi) => append_platform_info(out, &pi),
            None => append_str(out, "null"),
        },
        LegKind::Moving { .. } => append_str(out, "null"),
    }
    append_str(out, ",\"stopType\":");
    match &leg.kind {
        LegKind::Stationary(_, kind) => append_u64(out, stopkind_to_num(kind) as u64),
        LegKind::Moving { .. } => append_str(out, "null"),
    }
    append_str(out, "}");
    proof {
        assert(out@ =~= old(out)@ + json_of_leg(*leg, cache@));
    }
}

/// Serializes one ride, with its generated legs, into the JSON payload
/// the ride endpoints serve.
pub fn ride_to_json(ride: &Ride, legs: &Vec<Leg>, cache: &LocationCache) -> (r: Vec<u8>)
    requires
        ride.wf(),
        forall|j: int|
            0 <= j < legs@.len() ==> crate::repo::leg_handles_ok(
                (#[trigger] legs@[j]).kind,
                cache@.len() as int,
            ),
        forall|j: int| 0 <= j < legs@.len() ==> leg_platforms_wf(#[trigger] legs@[j]),
    ensures
        r@ == json_of_ride(*ride, legs@, cache@),
{
    let mut out: Vec<u8> = Vec::new();
    append_str(&mut out, "{\"id\":");
    append_str(&mut out, "\"");
    append_str(&mut out, ride.id.as_str());
    append_str(&mut out, "\"");
    append_str(&mut out, ",\"operator\":");
    append_u64(&mut out, ride.operator as u64);
    append_str(&mut out, ",\"startTime\":");
    append_u64(&mut out, ride.start_time().minutes() as u64);
    append_str(&mut out, ",\"endTime\":");
    append_u64(&mut out, ride.end_time().minutes() as u64);
    append_str(&mut out, ",\"distance\":0,\"dayValidity\":0,\"legs\":[");
    let ghost base = out@;
    let n = legs.len();
    let mut i: usize = 0;
    while i < n
        invariant
            0 <= i <= n == legs@.len(),
            forall|j: int|
                0 <= j < legs@.len() ==> crate::repo::leg_handles_ok(
                    (#[trigger] legs@[j]).kind,
                    cache@.len() as int,
                ),
            forall|j: int| 0 <= j < legs@.len() ==> leg_platforms_wf(#[trigger] legs@[j]),
            out@ =~= base + leg_items(legs@.subrange(0, i as int), cache@),
        decreases n - i,
    {
        if i > 0 {
            append_str(&mut out, ",");
        }
        append_leg(&mut out, &legs[i], cache);
        proof {
            let pre = legs@.subrange(0, i as int);
            let cur = legs@.subrange(0, i + 1);
            assert(cur.drop_last() =~= pre);
            assert(cur.last() == legs@[i as int]);
            assert(out@ =~= base + leg_items(cur, cache@));
        }
        i = i + 1;
    }
    proof {
        assert(legs@.subrange(0, n as int) =~= legs@);
    }
    append_str(&mut out, "]}");
    proof {
        assert(out@ =~= json_of_ride(*ride, legs@, cache@));
    }
    out
}

} // verus!
