//! The data model: one time-step's forecast record, a calendar date, and
//! one day's ordered collection of `(time, record)` pairs.
//!
//! Numeric record fields are fixed-point milli-units (see `fixed`); times
//! of day are whole minutes since midnight.

use vstd::prelude::*;

use crate::fixed::in_range;

verus! {

/// Minutes in a day; every time of day is strictly below this.
pub const MINUTES_PER_DAY: u32 = 1440;

/// One time-step's weather data. Numeric fields are milli-units; `status`
/// and `wind_direction` are free-text labels. Absent markup fields leave
/// the zero / empty defaults in place.
pub struct Forecast {
    pub status: String,
    pub precipitation: i64,
    pub temperature: i64,
    pub feels_like: i64,
    pub wind_speed: i64,
    pub wind_direction: String,
    pub wind_gust: i64,
    pub visibility: i64,
    pub humidity: i64,
    pub uv_index: i64,
}

/// The mathematical value of a `Forecast`.
pub struct ForecastModel {
    pub status: Seq<char>,
    pub precipitation: int,
    pub temperature: int,
    pub feels_like: int,
    pub wind_speed: int,
    pub wind_direction: Seq<char>,
    pub wind_gust: int,
    pub visibility: int,
    pub humidity: int,
    pub uv_index: int,
}

impl ForecastModel {
    /// All-zero, all-empty defaults: the state of a record slot before any
    /// per-field population pass has written to it.
    pub open spec fn empty() -> ForecastModel {
        ForecastModel {
            status: Seq::empty(),
            precipitation: 0,
            temperature: 0,
            feels_like: 0,
            wind_speed: 0,
            wind_direction: Seq::empty(),
            wind_gust: 0,
            visibility: 0,
            humidity: 0,
            uv_index: 0,
        }
    }

    /// Every numeric field lies in the representable fixed-point range.
    pub open spec fn wf(self) -> bool {
        &&& in_range(self.precipitation)
        &&& in_range(self.temperature)
        &&& in_range(self.feels_like)
        &&& in_range(self.wind_speed)
        &&& in_range(self.wind_gust)
        &&& in_range(self.visibility)
        &&& in_range(self.humidity)
        &&& in_range(self.uv_index)
    }
}

impl View for Forecast {
    type V = ForecastModel;

    open spec fn view(&self) -> ForecastModel {
        ForecastModel {
            status: self.status@,
            precipitation: self.precipitation as int,
            temperature: self.temperature as int,
            feels_like: self.feels_like as int,
            wind_speed: self.wind_speed as int,
            wind_direction: self.wind_direction@,
            wind_gust: self.wind_gust as int,
            visibility: self.visibility as int,
            humidity: self.humidity as int,
            uv_index: self.uv_index as int,
        }
    }
}

impl Forecast {
    /// The explicit all-default constructor: every numeric field zero,
    /// every textual field empty.
    pub fn default_record() -> (r: Forecast)
        ensures
            r@ == ForecastModel::empty(),
    {
        let r = Forecast {
            status: String::new(),
            precipitation: 0,
            temperature: 0,
            feels_like: 0,
            wind_speed: 0,
            wind_direction: String::new(),
            wind_gust: 0,
            visibility: 0,
            humidity: 0,
            uv_index: 0,
        };
        proof {
            assert(r@ =~= ForecastModel::empty());
        }
        r
    }
}

impl Clone for Forecast {
    fn clone(&self) -> (r: Self)
        ensures
            r@ == self@,
    {
        Forecast {
            status: self.status.clone(),
            precipitation: self.precipitation,
            temperature: self.temperature,
            feels_like: self.feels_like,
            wind_speed: self.wind_speed,
            wind_direction: self.wind_direction.clone(),
            wind_gust: self.wind_gust,
            visibility: self.visibility,
            humidity: self.humidity,
            uv_index: self.uv_index,
        }
    }
}

/// A calendar date.
#[derive(Clone, Copy, PartialEq, Eq, Structural)]
pub struct Date {
    pub year: u32,
    pub month: u32,
    pub day: u32,
}

/// The Gregorian leap-year rule.
pub open spec fn is_leap_year(y: int) -> bool {
    y % 4 == 0 && (y % 100 != 0 || y % 400 == 0)
}

/// Days in a month under the Gregorian calendar.
pub open spec fn spec_days_in_month(y: int, m: int) -> int
    recommends
        1 <= m <= 12,
{
    if m == 2 {
        if is_leap_year(y) {
            29
        } else {
            28
        }
    } else if m == 4 || m == 6 || m == 9 || m == 11 {
        30
    } else {
        31
    }
}

impl Date {
    /// A calendar-valid date with a four-digit year.
    pub open spec fn wf(self) -> bool {
        &&& self.year <= 9999
        &&& 1 <= self.month <= 12
        &&& 1 <= self.day <= spec_days_in_month(self.year as int, self.month as int)
    }
}

/// A calendar date paired with that day's ordered `(time, record)` pairs,
/// one per observed time step. Times are minutes since midnight; the
/// markup gives no guarantee they arrive sorted.
pub struct DayForecast {
    pub date: Date,
    pub steps: Vec<(u32, Forecast)>,
}

/// The mathematical value of a `DayForecast`.
pub struct DayForecastModel {
    pub date: Date,
    pub steps: Seq<(u32, ForecastModel)>,
}

/// The mathematical value of a sequence of `(time, record)` pairs.
pub open spec fn pairs_model(s: Seq<(u32, Forecast)>) -> Seq<(u32, ForecastModel)> {
    Seq::new(s.len(), |i: int| (s[i].0, s[i].1@))
}

/// Every pair has a valid minute of the day and an in-range record.
pub open spec fn pairs_wf(s: Seq<(u32, ForecastModel)>) -> bool {
    forall|i: int|
        0 <= i < s.len() ==> (#[trigger] s[i]).0 < MINUTES_PER_DAY && s[i].1.wf()
}

impl View for DayForecast {
    type V = DayForecastModel;

    open spec fn view(&self) -> DayForecastModel {
        DayForecastModel {
            date: self.date,
            steps: pairs_model(self.steps@),
        }
    }
}

impl DayForecastModel {
    /// Valid date, every time a valid minute of the day, every record with
    /// in-range numeric fields.
    pub open spec fn wf(self) -> bool {
        &&& self.date.wf()
        &&& pairs_wf(self.steps)
    }
}

} // verus!
