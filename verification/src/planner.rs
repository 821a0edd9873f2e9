use vstd::prelude::*;

use crate::date::Date;
use crate::model::Ride;
use crate::repo::DataRepo;
use crate::util::{lemma_seq_filter_extend, seq_filter};

verus! {

/// Arguments of a trip-advice request to the route planner.
#[derive(Debug, PartialEq, Eq, Clone)]
pub struct TripAdviceArguments {
    pub from: String,
    pub to: String,
    pub via: Option<String>,
}

/// The conveyance of one leg of a planned trip.
#[derive(Debug, PartialEq, Eq, Clone)]
pub enum Product {
    Walk,
    Train { number: String, category_code: String },
}

impl Product {
    pub fn get_number(&self) -> (r: Option<&str>)
        ensures
            (match r {
                Some(s) => *self is Train && s@ == self->Train_number@,
                None => *self is Walk,
            }),
    {
        match self {
            Product::Walk => None,
            Product::Train { number, .. } => Some(number.as_str()),
        }
    }
}

/// An endpoint of one leg of a planned trip.
#[derive(Debug, PartialEq, Eq, Clone)]
pub enum Location {
    Station { station_code: String },
    Address,
}

impl Location {
    pub fn get_code(&self) -> (r: Option<&str>)
        ensures
            (match r {
                Some(s) => *self is Station && s@ == self->Station_station_code@,
                None => *self is Address,
            }),
    {
        match self {
            Location::Station { station_code } => Some(station_code.as_str()),
            Location::Address => None,
        }
    }
}

/// How one leg of a planned trip is travelled.
#[derive(Debug, PartialEq, Eq, Structural, Clone, Copy)]
pub enum LegKind {
    Walk,
    PublicTransit,
}

/// One leg of a planned trip, as the upstream planner describes it.
#[derive(Debug, PartialEq, Eq, Clone)]
pub struct Leg {
    pub name: Option<String>,
    pub origin: Location,
    pub destination: Location,
    pub product: Product,
    pub travel_type: LegKind,
}

/// One planned trip.
#[derive(Debug, PartialEq, Eq, Clone)]
pub struct Trip {
    pub legs: Vec<Leg>,
}

/// The upstream planner's whole answer.
#[derive(Debug, PartialEq, Eq, Clone)]
pub struct Response {
    pub trips: Vec<Trip>,
}

/// One mapped leg: endpoint codes and the local ride id.
#[derive(Debug, PartialEq, Eq, Clone)]
pub struct RoutePlannerLeg {
    pub from: String,
    pub to: String,
    pub id: String,
}

/// One mapped trip.
#[derive(Debug, PartialEq, Eq, Clone)]
pub struct RoutePlannerTrip {
    pub legs: Vec<RoutePlannerLeg>,
}

/// The mapped answer: the surviving trips, and every local ride they
/// use that runs today.
#[derive(Debug)]
pub struct RoutePlannerResponse<'a> {
    pub trips: Vec<RoutePlannerTrip>,
    pub rides: Vec<&'a Ride>,
}

/// A leg the mapper can use: public transit between two stations, on a
/// numbered train.
pub open spec fn leg_usable(leg: Leg) -> bool {
    &&& leg.travel_type is PublicTransit
    &&& leg.origin is Station
    &&& leg.destination is Station
    &&& leg.product is Train
}

/// A trip survives the mapping when every one of its legs is usable.
pub open spec fn trip_kept(trip: Trip) -> bool {
    forall|l: int| 0 <= l < trip.legs@.len() ==> leg_usable(#[trigger] trip.legs@[l])
}

/// The mapped trip mirrors the surviving trip leg by leg.
pub open spec fn trip_mapped(src: Trip, dst: RoutePlannerTrip) -> bool {
    &&& dst.legs@.len() == src.legs@.len()
    &&& forall|l: int|
        0 <= l < src.legs@.len() ==> {
            let sl = src.legs@[l];
            let dl = #[trigger] dst.legs@[l];
            &&& dl.from@ == sl.origin->Station_station_code@
            &&& dl.to@ == sl.destination->Station_station_code@
            &&& dl.id@ == sl.product->Train_number@
        }
}

/// A ride id appears in some surviving trip of the response.
pub open spec fn id_used(trips: Seq<Trip>, id: Seq<char>) -> bool {
    exists|t: int, l: int|
        0 <= t < trips.len() && trip_kept(trips[t]) && 0 <= l < trips[t].legs@.len() && (
        #[trigger] trips[t].legs@[l]).product->Train_number@ == id
}

/// Checks whether every leg of a trip is usable.
fn trip_kept_exec(trip: &Trip) -> (r: bool)
    ensures
        r == trip_kept(*trip),
{
    let n = trip.legs.len();
    let mut l: usize = 0;
    while l < n
        invariant
            0 <= l <= n == trip.legs@.len(),
            forall|w: int| 0 <= w < l ==> leg_usable(#[trigger] trip.legs@[w]),
        decreases n - l,
    {
        let leg = &trip.legs[l];
        let usable = matches!(leg.travel_type, LegKind::PublicTransit) && matches!(
            leg.origin,
            Location::Station { .. },
        ) && matches!(leg.destination, Location::Station { .. }) && matches!(
            leg.product,
            Product::Train { .. },
        );
        if !usable {
            proof {
                assert(!leg_usable(trip.legs@[l as int]));
            }
            return false;
        }
        l = l + 1;
    }
    true
}

/// Checks whether a ride id is used by any surviving trip.
fn response_uses_id(res: &Response, id: &String) -> (r: bool)
    ensures
        r == id_used(res.trips@, id@),
{
    let tn = res.trips.len();
    let mut t: usize = 0;
    while t < tn
        invariant
            0 <= t <= tn == res.trips@.len(),
            forall|w: int, l: int|
                0 <= w < t && trip_kept(res.trips@[w]) && 0 <= l < res.trips@[w].legs@.len()
                    ==> (#[trigger] res.trips@[w].legs@[l]).product->Train_number@ != id@,
        decreases tn - t,
    {
        let trip = &res.trips[t];
        if trip_kept_exec(trip) {
            let ln = trip.legs.len();
            let mut l: usize = 0;
            while l < ln
                invariant
                    0 <= l <= ln == trip.legs@.len(),
                    trip_kept(*trip),
                    trip == &res.trips@[t as int],
                    0 <= (t as int) < res.trips@.len(),
                    forall|w: int|
                        0 <= w < l ==> (#[trigger] trip.legs@[w]).product->Train_number@ != id@,
                decreases ln - l,
            {
                let leg = &trip.legs[l];
                match &leg.product {
                    Product::Train { number, .. } => {
                        if *number == *id {
                            proof {
                                assert(res.trips@[t as int].legs@[l as int].product
                                    ->Train_number@ == id@);
                            }
                            return true;
                        }
                    },
                    Product::Walk => {
                        proof {
                            assert(leg_usable(trip.legs@[l as int]));
                            assert(false);
                        }
                    },
                }
                l = l + 1;
            }
        }
        t = t + 1;
    }
    false
}

impl<'a> RoutePlannerResponse<'a> {
    /// Maps the upstream answer onto the local ride database: trips made
    /// purely of usable train legs survive and are mirrored, and every
    /// ride they name that runs today is collected.
    #[verifier::rlimit(80)]
    pub fn new(res: &Response, repo: &'a DataRepo, today: Date) -> (r: RoutePlannerResponse<'a>)
        requires
            repo.wf(),
            today.valid(),
        ensures
            r.trips@.len() == seq_filter(res.trips@, |t: Trip| trip_kept(t)).len(),
            forall|t: int|
                0 <= t < r.trips@.len() ==> trip_mapped(
                    seq_filter(res.trips@, |t: Trip| trip_kept(t))[t],
                    #[trigger] r.trips@[t],
                ),
            r.rides@.map_values(|x: &Ride| *x) == seq_filter(
                repo.spec_rides(),
                |rd: Ride|
                    repo.spec_validity().spec_is_valid_sentinel(rd.day_validity, today)
                        && id_used(res.trips@, rd.id@),
            ),
    {
        let ghost keep = |t: Trip| trip_kept(t);
        let mut trips: Vec<RoutePlannerTrip> = Vec::new();
        let tn = res.trips.len();
        let mut t: usize = 0;
        while t < tn
            invariant
                0 <= t <= tn == res.trips@.len(),
                (keep == |t: Trip| trip_kept(t)),
                trips@.len() == seq_filter(res.trips@.subrange(0, t as int), keep).len(),
                forall|w: int|
                    0 <= w < trips@.len() ==> trip_mapped(
                        seq_filter(res.trips@.subrange(0, t as int), keep)[w],
                        #[trigger] trips@[w],
                    ),
            decreases tn - t,
        {
            let trip = &res.trips[t];
            let kept = trip_kept_exec(trip);
            proof {
                lemma_seq_filter_extend(res.trips@, keep, t as int);
            }
            if kept {
                let ln = trip.legs.len();
                let mut legs: Vec<RoutePlannerLeg> = Vec::new();
                let mut l: usize = 0;
                while l < ln
                    invariant
                        0 <= l <= ln == trip.legs@.len(),
                        trip_kept(*trip),
                        trip == &res.trips@[t as int],
                        0 <= (t as int) < res.trips@.len(),
                        legs@.len() == l,
                        forall|w: int|
                            0 <= w < l ==> {
                                let sl = trip.legs@[w];
                                let dl = #[trigger] legs@[w];
                                &&& dl.from@ == sl.origin->Station_station_code@
                                &&& dl.to@ == sl.destination->Station_station_code@
                                &&& dl.id@ == sl.product->Train_number@
                            },
                    decreases ln - l,
                {
                    let leg = &trip.legs[l];
                    proof {
                        assert(leg_usable(trip.legs@[l as int]));
                    }
                    let from = match leg.origin.get_code() {
                        Some(s) => s.to_owned(),
                        None => {
                            proof {
                                assert(false);
                            }
                            String::new()
                        },
                    };
                    let to = match leg.destination.get_code() {
                        Some(s) => s.to_owned(),
                        None => {
                            proof {
                                assert(false);
                            }
                            String::new()
                        },
                    };
                    let id = match leg.product.get_number() {
                        Some(s) => s.to_owned(),
                        None => {
                            proof {
                                assert(false);
                            }
                            String::new()
                        },
                    };
                    legs.push(RoutePlannerLeg { from, to, id });
                    l = l + 1;
                }
                trips.push(RoutePlannerTrip { legs });
            }
            proof {
                assert(trips@.len() == seq_filter(res.trips@.subrange(0, t + 1), keep).len());
            }
            t = t + 1;
        }
        proof {
            assert(res.trips@.subrange(0, tn as int) =~= res.trips@);
        }
        let ghost pred = |rd: Ride|
            repo.spec_validity().spec_is_valid_sentinel(rd.day_validity, today) && id_used(
                res.trips@,
                rd.id@,
            );
        let mut rides: Vec<&'a Ride> = Vec::new();
        let all = repo.rides();
        let rn = all.len();
        let mut j: usize = 0;
        while j < rn
            invariant
                0 <= j <= rn == repo.spec_rides().len(),
                repo.wf(),
                today.valid(),
                all@ == repo.spec_rides(),
                (pred == |rd: Ride|
                    repo.spec_validity().spec_is_valid_sentinel(rd.day_validity, today)
                        && id_used(res.trips@, rd.id@)),
                rides@.map_values(|x: &Ride| *x) =~= seq_filter(
                    repo.spec_rides().subrange(0, j as int),
                    pred,
                ),
            decreases rn - j,
        {
            let ride = &all[j];
            let valid = repo.is_ride_valid(ride.day_validity, today);
            let used = response_uses_id(res, &ride.id);
            let cond = valid && used;
            proof {
                assert(cond == pred(repo.spec_rides()[j as int]));
                lemma_seq_filter_extend(repo.spec_rides(), pred, j as int);
            }
            if cond {
                rides.push(ride);
            }
            proof {
                assert(rides@.map_values(|x: &Ride| *x) =~= seq_filter(
                    repo.spec_rides().subrange(0, j + 1),
                    pred,
                ));
            }
            j = j + 1;
        }
        proof {
            assert(repo.spec_rides().subrange(0, rn as int) =~= repo.spec_rides());
        }
        RoutePlannerResponse { trips, rides }
    }
}

} // verus!
