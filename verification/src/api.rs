use vstd::prelude::*;

use vstd::string::StringSliceAdditionalSpecFns;

verus! {

/// The error surfaced when the upstream route planner fails or answers
/// with something unreadable.
#[derive(Debug, PartialEq, Eq, Structural, Clone, Copy)]
pub struct UpstreamError;

impl UpstreamError {
    pub fn message(&self) -> (r: &'static str)
        ensures
            r@ == "Upstream Error"@,
    {
        "Upstream Error"
    }

    /// The HTTP status this error is served with.
    pub fn status(&self) -> (r: u16)
        ensures
            r == 500,
    {
        500
    }
}

/// The query arguments of a route-finding request.
#[derive(Debug, PartialEq, Eq, Clone)]
pub struct PathfindingArguments {
    pub from: String,
    pub to: String,
}

/// The argument names a known station and keeps to a sane length.
pub open spec fn spec_valid_station_arg(s: Seq<char>, allowed: Seq<Seq<char>>) -> bool {
    s.len() <= 50 && exists|i: int| 0 <= i < allowed.len() && #[trigger] allowed[i] == s
}

impl PathfindingArguments {
    /// Checks one argument against the allow-list and the length bound.
    pub fn validate_string(s: &str, stations: &Vec<String>) -> (r: bool)
        ensures
            r == spec_valid_station_arg(s@, stations.deep_view()),
    {
        if s.unicode_len() > 50 {
            return false;
        }
        let needle = s.to_owned();
        let n = stations.len();
        let mut i: usize = 0;
        while i < n
            invariant
                0 <= i <= n == stations@.len(),
                needle@ == s@,
                s@.len() <= 50,
                forall|j: int| 0 <= j < i ==> stations.deep_view()[j] != s@,
            decreases n - i,
        {
            proof {
                assert(stations.deep_view()[i as int] == stations@[i as int]@);
            }
            if stations[i] == needle {
                assert(stations.deep_view()[i as int] == s@);
                return true;
            }
            i = i + 1;
        }
        false
    }

    /// Both arguments pass the allow-list and length checks.
    pub fn validate(&self, stations: &Vec<String>) -> (r: bool)
        ensures
            r == (spec_valid_station_arg(self.from@, stations.deep_view())
                && spec_valid_station_arg(self.to@, stations.deep_view())),
    {
        let val_a = Self::validate_string(self.from.as_str(), stations);
        let val_b = Self::validate_string(self.to.as_str(), stations);
        val_a && val_b
    }
}

} // verus!
