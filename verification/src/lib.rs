//! A weather-forecast pipeline: extraction of per-day, per-time-step records
//! from a markup document, and resampling of one day's sparse time series
//! onto caller-chosen query times by linear interpolation.

use vstd::prelude::*;

pub mod extract;
pub mod fixed;
pub mod mixer;
pub mod pipeline;
pub mod record;
pub mod search;
pub mod text;
pub mod timerange;

verus! {

/// A named geographic location. A location with no geohash is too coarse to
/// address a single forecast document, so it cannot be forecast.
pub struct Location {
    pub name: String,
    pub area: Option<String>,
    pub geohash: Option<String>,
}

/// The mathematical value of a `Location`.
pub struct LocationModel {
    pub name: Seq<char>,
    pub area: Option<Seq<char>>,
    pub geohash: Option<Seq<char>>,
}

impl View for Location {
    type V = LocationModel;

    open spec fn view(&self) -> LocationModel {
        LocationModel {
            name: self.name.deep_view(),
            area: self.area.deep_view(),
            geohash: self.geohash.deep_view(),
        }
    }
}

impl Location {
    /// Whether this location can be forecast at all.
    pub fn has_forecast(&self) -> (r: bool)
        ensures
            r == self.geohash is Some,
    {
        self.geohash.is_some()
    }
}

impl Clone for Location {
    fn clone(&self) -> (r: Self)
        ensures
            r@ == self@,
    {
        let r = Location {
            name: self.name.clone(),
            area: match &self.area {
                Option::Some(a) => Some(a.clone()),
                Option::None => None,
            },
            geohash: match &self.geohash {
                Option::Some(g) => Some(g.clone()),
                Option::None => None,
            },
        };
        proof {
            assert(r@ =~= self@);
        }
        r
    }
}

} // verus!
