//! The resampler: one day's `(time, record)` pairs, sorted by time, and
//! linear interpolation onto arbitrary query times strictly inside the
//! observed range.

use vstd::prelude::*;

use crate::fixed::{spec_lerp, lerp_milli, lemma_lerp_between};
use crate::record::{pairs_model, pairs_wf, Forecast, ForecastModel, MINUTES_PER_DAY};

verus! {

/// The record produced between two bracketing observations `a` and `b`,
/// `dt` minutes past `a` inside a bracket `span` minutes wide.
///
/// Numeric fields interpolate linearly. `status` follows the record with
/// the worse precipitation outlook; `wind_direction` is not numerically
/// interpolatable and stays with `a`; `uv_index` takes the larger of the
/// two so exposure is never understated. The `temperature` field
/// deliberately interpolates toward `b`'s *precipitation chance*: a quirk
/// of the data source's observed behaviour, kept for compatibility and
/// exercised by the tests.
pub open spec fn interp_model(a: ForecastModel, b: ForecastModel, dt: int, span: int) -> ForecastModel {
    ForecastModel {
        status: if b.precipitation > a.precipitation {
            b.status
        } else {
            a.status
        },
        precipitation: spec_lerp(a.precipitation, b.precipitation, dt, span),
        temperature: spec_lerp(a.temperature, b.precipitation, dt, span),
        feels_like: spec_lerp(a.feels_like, b.feels_like, dt, span),
        wind_speed: spec_lerp(a.wind_speed, b.wind_speed, dt, span),
        wind_direction: a.wind_direction,
        wind_gust: spec_lerp(a.wind_gust, b.wind_gust, dt, span),
        visibility: spec_lerp(a.visibility, b.visibility, dt, span),
        humidity: spec_lerp(a.humidity, b.humidity, dt, span),
        uv_index: if a.uv_index >= b.uv_index {
            a.uv_index
        } else {
            b.uv_index
        },
    }
}

/// Nondecreasing by time.
pub open spec fn sorted_by_time(s: Seq<(u32, ForecastModel)>) -> bool {
    forall|a: int, b: int| 0 <= a < b < s.len() ==> (#[trigger] s[a]).0 <= (#[trigger] s[b]).0
}

/// The least index whose time is at or after `t`, or the length when
/// every time is before `t`.
pub open spec fn spec_lower_bound(s: Seq<(u32, ForecastModel)>, t: u32) -> int
    decreases s.len(),
{
    if s.len() == 0 {
        0
    } else if s[0].0 >= t {
        0
    } else {
        1 + spec_lower_bound(s.drop_first(), t)
    }
}

pub proof fn lemma_spec_lower_bound(s: Seq<(u32, ForecastModel)>, t: u32)
    ensures
        0 <= spec_lower_bound(s, t) <= s.len(),
        forall|l: int| 0 <= l < spec_lower_bound(s, t) ==> (#[trigger] s[l]).0 < t,
        spec_lower_bound(s, t) < s.len() ==> s[spec_lower_bound(s, t)].0 >= t,
    decreases s.len(),
{
    if s.len() > 0 && s[0].0 < t {
        lemma_spec_lower_bound(s.drop_first(), t);
        assert forall|l: int| 0 <= l < spec_lower_bound(s, t) implies (#[trigger] s[l]).0 < t by {
            if l >= 1 {
                assert(s.drop_first()[l - 1] == s[l]);
            }
        }
    }
}

/// What resampling a sorted series at minute `t` yields: the earliest
/// record observed exactly at `t`; or the interpolation of the two
/// records bracketing `t`; or nothing when `t` lies outside the observed
/// range.
pub open spec fn spec_resample(s: Seq<(u32, ForecastModel)>, t: u32) -> Option<ForecastModel> {
    let idx = spec_lower_bound(s, t);
    if idx < s.len() && s[idx].0 == t {
        Some(s[idx].1)
    } else if idx == 0 || idx >= s.len() {
        None
    } else {
        Some(interp_model(s[idx - 1].1, s[idx].1, t - s[idx - 1].0, s[idx].0 - s[idx - 1].0))
    }
}

/// One day's time series, held sorted by time ascending.
pub struct Mixer {
    data: Vec<(u32, Forecast)>,
}

impl Mixer {
    /// The held `(time, record)` pairs, in their sorted order.
    pub closed spec fn steps(self) -> Seq<(u32, ForecastModel)> {
        pairs_model(self.data@)
    }

    /// Sorted, with every time a valid minute and every record in range.
    pub open spec fn wf(self) -> bool {
        &&& sorted_by_time(self.steps())
        &&& pairs_wf(self.steps())
    }

    /// Sort one day's pairs by time ascending. Records are reordered,
    /// never altered; equal times keep no particular order.
    pub fn new(data: Vec<(u32, Forecast)>) -> (m: Mixer)
        requires
            pairs_wf(pairs_model(data@)),
        ensures
            m.wf(),
            m.steps().to_multiset() == pairs_model(data@).to_multiset(),
            m.steps().len() == data@.len(),
    {
        broadcast use vstd::seq_lib::group_to_multiset_ensures;
        broadcast use vstd::multiset::group_multiset_axioms;

        let ghost orig = pairs_model(data@);
        let mut v = data;
        let n = v.len();
        let mut i: usize = 1;
        while i < n
            invariant
                n == v@.len(),
                pairs_wf(pairs_model(v@)),
                pairs_model(v@).to_multiset() == orig.to_multiset(),
                v@.len() == orig.len(),
                1 <= i,
                forall|a: int, b: int|
                    0 <= a < b < i && b < v@.len() ==> (#[trigger] pairs_model(v@)[a]).0 <= (
                    #[trigger] pairs_model(v@)[b]).0,
            decreases n - i,
        {
            let key = v[i].0;
            let mut j: usize = i;
            while j > 0 && v[j - 1].0 > key
                invariant
                    0 <= j <= i < v@.len(),
                    key == v@[i as int].0,
                    forall|l: int| j <= l < i ==> (#[trigger] v@[l]).0 > key,
                decreases j,
            {
                j -= 1;
            }
            let ghost pre = v@;
            let ghost old_m = pairs_model(pre);
            let ghost xm = old_m[i as int];
            let x = v.remove(i);
            v.insert(j, x);
            proof {
                let mid = pre.remove(i as int);
                let mid_m = pairs_model(mid);
                let new_m = pairs_model(v@);
                assert(v@ == pre.remove(i as int).insert(j as int, x));
                assert(mid_m =~= old_m.remove(i as int));
                assert(new_m =~= mid_m.insert(j as int, xm));
                vstd::seq_lib::to_multiset_remove(old_m, i as int);
                vstd::seq_lib::to_multiset_insert(mid_m, j as int, xm);
                vstd::seq_lib::to_multiset_contains(old_m, xm);
                assert(old_m.contains(xm)) by {
                    assert(old_m[i as int] == xm);
                }
                assert(old_m.to_multiset().count(xm) > 0);
                assert(old_m.to_multiset().remove(xm).insert(xm) =~= old_m.to_multiset());
                assert(new_m.to_multiset() == orig.to_multiset());
                assert(forall|l: int| 0 <= l < j ==> #[trigger] new_m[l] == old_m[l]);
                assert(new_m[j as int] == xm);
                assert(forall|l: int| j < l <= i ==> #[trigger] new_m[l] == old_m[l - 1]);
                assert(forall|l: int| i < l < new_m.len() ==> #[trigger] new_m[l] == old_m[l]);
                assert(forall|l: int| j <= l < i ==> (#[trigger] old_m[l]).0 > key);
                assert(xm.0 == key);
                assert(pairs_wf(new_m)) by {
                    assert forall|l: int|
                        0 <= l < new_m.len() implies (#[trigger] new_m[l]).0 < MINUTES_PER_DAY
                        && new_m[l].1.wf() by {
                        if l < j {
                            assert(new_m[l] == old_m[l]);
                        } else if l == j {
                            assert(new_m[l] == old_m[i as int]);
                        } else if l <= i {
                            assert(new_m[l] == old_m[l - 1]);
                        } else {
                            assert(new_m[l] == old_m[l]);
                        }
                    }
                }
                assert forall|a: int, b: int|
                    0 <= a < b < i + 1 && b < new_m.len() implies (#[trigger] new_m[a]).0 <= (
                #[trigger] new_m[b]).0 by {
                    if b < j {
                        assert(new_m[a] == old_m[a] && new_m[b] == old_m[b]);
                    } else if b == j {
                        assert(j > 0 && a < j);
                        assert(pre[j - 1].0 <= key);
                        assert(old_m[a].0 <= old_m[j - 1].0);
                        assert(new_m[b].0 == key);
                    } else if a < j {
                        assert(new_m[b] == old_m[b - 1]);
                        assert(a < b - 1 || a == b - 1);
                        if a < b - 1 {
                            assert(old_m[a].0 <= old_m[b - 1].0);
                        }
                    } else if a == j {
                        assert(new_m[a].0 == key);
                        assert(new_m[b] == old_m[b - 1]);
                        assert(old_m[b - 1].0 > key);
                    } else {
                        assert(new_m[a] == old_m[a - 1] && new_m[b] == old_m[b - 1]);
                        assert(old_m[a - 1].0 <= old_m[b - 1].0);
                    }
                }
            }
            i += 1;
        }
        Mixer { data: v }
    }

    /// The least index whose time is at or after `t`, or the length when
    /// every observed time is before `t`.
    fn lower_bound(&self, t: u32) -> (idx: usize)
        requires
            self.wf(),
        ensures
            idx <= self.steps().len(),
            forall|l: int| 0 <= l < idx ==> (#[trigger] self.steps()[l]).0 < t,
            idx < self.steps().len() ==> self.steps()[idx as int].0 >= t,
    {
        let mut lo: usize = 0;
        let mut hi: usize = self.data.len();
        while lo < hi
            invariant
                self.wf(),
                lo <= hi <= self.steps().len(),
                self.steps().len() == self.data@.len(),
                forall|l: int| 0 <= l < lo ==> (#[trigger] self.steps()[l]).0 < t,
                forall|l: int| hi <= l < self.steps().len() ==> (#[trigger] self.steps()[l]).0 >= t,
            decreases hi - lo,
        {
            let mid = lo + (hi - lo) / 2;
            if self.data[mid].0 < t {
                proof {
                    assert(forall|l: int|
                        0 <= l < mid ==> (#[trigger] self.steps()[l]).0 <= self.steps()[
                            mid as int].0);
                }
                lo = mid + 1;
            } else {
                proof {
                    assert(forall|l: int|
                        mid < l < self.steps().len() ==> self.steps()[mid as int].0 <= (
                        #[trigger] self.steps()[l]).0);
                }
                hi = mid;
            }
        }
        lo
    }

    /// Resample the day at minute `time`.
    ///
    /// An exact hit on an observed time returns that record unmodified
    /// (the earliest such record when several share the time). A query
    /// strictly between two neighbouring observed times returns their
    /// interpolation. A query before the first or after the last observed
    /// time returns nothing: the resampler never extrapolates.
    pub fn lerp(&self, time: u32) -> (r: Option<Forecast>)
        requires
            self.wf(),
        ensures
            (r is None) <==> ((forall|l: int|
                0 <= l < self.steps().len() ==> (#[trigger] self.steps()[l]).0 != time) && (
            self.steps().len() == 0 || time < self.steps()[0].0 || time > self.steps()[
                self.steps().len() - 1].0)),
            forall|i: int|
                (0 <= i < self.steps().len() && (#[trigger] self.steps()[i]).0 == time && (
                forall|l: int| 0 <= l < i ==> (#[trigger] self.steps()[l]).0 != time)) ==> r
                    is Some && r->Some_0@ == self.steps()[i].1,
            forall|i: int|
                (0 < i < self.steps().len() && (#[trigger] self.steps()[i - 1]).0 < time < self.steps()[
                    i].0) ==> r is Some && r->Some_0@ == interp_model(
                    self.steps()[i - 1].1,
                    self.steps()[i].1,
                    time - self.steps()[i - 1].0,
                    self.steps()[i].0 - self.steps()[i - 1].0,
                ),
            r is Some ==> r->Some_0@.wf(),
            (r is Some) == (spec_resample(self.steps(), time) is Some),
            r matches Some(f) ==> f@ == spec_resample(self.steps(), time)->Some_0,
    {
        let n = self.data.len();
        let idx = self.lower_bound(time);
        proof {
            lemma_spec_lower_bound(self.steps(), time);
            let sidx = spec_lower_bound(self.steps(), time);
            if sidx < idx {
                assert(self.steps()[sidx].0 < time);
            }
            if idx < sidx {
                assert(self.steps()[idx as int].0 < time);
            }
            assert(idx == sidx);
        }
        if idx < n && self.data[idx].0 == time {
            let rec = self.data[idx].1.clone();
            proof {
                assert forall|i: int|
                    (0 <= i < self.steps().len() && (#[trigger] self.steps()[i]).0 == time && (
                    forall|l: int| 0 <= l < i ==> (#[trigger] self.steps()[l]).0 != time))
                    implies self.steps()[i].1 == rec@ by {
                    if i > idx {
                        assert(self.steps()[idx as int].0 != time);
                    }
                }
                assert forall|i: int|
                    0 < i < self.steps().len() implies !((#[trigger] self.steps()[i - 1]).0 < time
                    < self.steps()[i].0) by {
                    if idx <= i - 1 {
                        assert(self.steps()[idx as int].0 <= self.steps()[i - 1].0);
                    } else {
                        assert(self.steps()[i].0 <= self.steps()[idx as int].0);
                    }
                }
            }
            return Some(rec);
        }
        if idx == 0 || idx == n {
            proof {
                if idx == 0 && n > 0 {
                    assert(forall|l: int|
                        0 <= l < self.steps().len() ==> self.steps()[0].0 <= (
                        #[trigger] self.steps()[l]).0);
                }
            }
            return None;
        }
        let at = self.data[idx - 1].0;
        let bt = self.data[idx].0;
        proof {
            assert(self.steps()[idx - 1].0 == at && at < time);
            assert(self.steps()[idx as int].0 == bt && bt > time);
            assert(self.steps()[idx - 1].1.wf() && self.steps()[idx as int].1.wf());
            assert(self.steps()[0].0 <= at);
            assert(bt <= self.steps()[self.steps().len() - 1].0);
        }
        let dt = (time - at) as i64;
        let span = (bt - at) as i64;
        let a = &self.data[idx - 1].1;
        let b = &self.data[idx].1;
        let rec = Forecast {
            status: if b.precipitation > a.precipitation {
                b.status.clone()
            } else {
                a.status.clone()
            },
            precipitation: lerp_milli(a.precipitation, b.precipitation, dt, span),
            // Quirk of the data source's observed behaviour, kept for
            // compatibility: temperature mixes toward b's precipitation.
            temperature: lerp_milli(a.temperature, b.precipitation, dt, span),
            feels_like: lerp_milli(a.feels_like, b.feels_like, dt, span),
            wind_speed: lerp_milli(a.wind_speed, b.wind_speed, dt, span),
            wind_direction: a.wind_direction.clone(),
            wind_gust: lerp_milli(a.wind_gust, b.wind_gust, dt, span),
            visibility: lerp_milli(a.visibility, b.visibility, dt, span),
            humidity: lerp_milli(a.humidity, b.humidity, dt, span),
            uv_index: if a.uv_index >= b.uv_index {
                a.uv_index
            } else {
                b.uv_index
            },
        };
        proof {
            assert(rec@ =~= interp_model(
                self.steps()[idx - 1].1,
                self.steps()[idx as int].1,
                dt as int,
                span as int,
            ));
            assert forall|i: int|
                (0 < i < self.steps().len() && (#[trigger] self.steps()[i - 1]).0 < time
                < self.steps()[i].0) implies i == idx by {
                if i - 1 >= idx {
                    assert(self.steps()[idx as int].0 <= self.steps()[i - 1].0);
                }
                if i < idx {
                    assert(self.steps()[i].0 <= self.steps()[idx - 1].0);
                }
            }
            assert forall|i: int|
                0 <= i < self.steps().len() implies (#[trigger] self.steps()[i]).0 != time by {
                if i < idx {
                    assert(self.steps()[i].0 <= self.steps()[idx - 1].0);
                } else {
                    assert(self.steps()[idx as int].0 <= self.steps()[i].0);
                }
            }
        }
        Some(rec)
    }
}

/// For a query time falling strictly between two neighbouring observed
/// records, the resampled precipitation chance lies between those
/// records' precipitation chances, inclusive. Together with `lerp`'s
/// contract this covers every in-range query: an exact hit returns an
/// observed record unmodified.
pub proof fn lemma_resample_precipitation_between(m: Mixer, t: u32, i: int)
    requires
        m.wf(),
        0 < i < m.steps().len(),
        m.steps()[i - 1].0 < t < m.steps()[i].0,
    ensures
        ({
            let a = m.steps()[i - 1].1;
            let b = m.steps()[i].1;
            let r = interp_model(a, b, t - m.steps()[i - 1].0, m.steps()[i].0 - m.steps()[i - 1].0);
            &&& a.precipitation <= b.precipitation ==> a.precipitation <= r.precipitation
                <= b.precipitation
            &&& b.precipitation <= a.precipitation ==> b.precipitation <= r.precipitation
                <= a.precipitation
        }),
{
    let a = m.steps()[i - 1].1;
    let b = m.steps()[i].1;
    lemma_lerp_between(
        a.precipitation,
        b.precipitation,
        t - m.steps()[i - 1].0,
        m.steps()[i].0 - m.steps()[i - 1].0,
    );
}

/// A resampled record's UV index is never lower than either bracketing
/// record's UV index: exposure is never understated.
pub proof fn lemma_resample_uv_monotone(m: Mixer, t: u32, i: int)
    requires
        m.wf(),
        0 < i < m.steps().len(),
        m.steps()[i - 1].0 < t < m.steps()[i].0,
    ensures
        ({
            let a = m.steps()[i - 1].1;
            let b = m.steps()[i].1;
            let r = interp_model(a, b, t - m.steps()[i - 1].0, m.steps()[i].0 - m.steps()[i - 1].0);
            r.uv_index >= a.uv_index && r.uv_index >= b.uv_index
        }),
{
}

/// A resampled record's status follows the worsening trend: it is the
/// later record's status exactly when that record's precipitation chance
/// is the greater, and the earlier record's status otherwise.
pub proof fn lemma_resample_status_trend(m: Mixer, t: u32, i: int)
    requires
        m.wf(),
        0 < i < m.steps().len(),
        m.steps()[i - 1].0 < t < m.steps()[i].0,
    ensures
        ({
            let a = m.steps()[i - 1].1;
            let b = m.steps()[i].1;
            let r = interp_model(a, b, t - m.steps()[i - 1].0, m.steps()[i].0 - m.steps()[i - 1].0);
            &&& b.precipitation > a.precipitation ==> r.status == b.status
            &&& b.precipitation <= a.precipitation ==> r.status == a.status
        }),
{
}

} // verus!
