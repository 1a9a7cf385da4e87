//! The per-invocation pipeline step: pick a window of days out of an
//! extracted forecast and resample each day onto the caller's query
//! times.

use vstd::prelude::*;

use crate::mixer::{sorted_by_time, spec_resample, Mixer};
use crate::record::{pairs_model, pairs_wf, DayForecast, ForecastModel, MINUTES_PER_DAY};

verus! {

/// The `(time, record)` pairs resampling yields for the first `j` query
/// times against one sorted series: each in-range query contributes its
/// record, in query order; out-of-range queries contribute nothing.
pub open spec fn spec_query_upto(
    ss: Seq<(u32, ForecastModel)>,
    ts: Seq<u32>,
    j: int,
) -> Seq<(u32, ForecastModel)>
    decreases j,
{
    if j <= 0 {
        Seq::empty()
    } else {
        let pre = spec_query_upto(ss, ts, j - 1);
        match spec_resample(ss, ts[j - 1]) {
            Option::None => pre,
            Option::Some(f) => pre.push((ts[j - 1], f)),
        }
    }
}

/// Whether `day` is the resampling of `src` onto the query times `ts`:
/// its steps are exactly the in-range query results, in query order,
/// against some sorted arrangement of `src`'s records.
pub open spec fn resampled_from(
    day: crate::record::DayForecastModel,
    src: crate::record::DayForecastModel,
    ts: Seq<u32>,
) -> bool {
    exists|ss: Seq<(u32, ForecastModel)>|
        sorted_by_time(ss) && ss.to_multiset() == src.steps.to_multiset() && day.steps
            == spec_query_upto(ss, ts, ts.len() as int)
}

/// Resample a window of days: skip the first `skip`, keep at most
/// `take`, and answer every query time against each kept day.
///
/// Each output day keeps its source day's date, and its steps are
/// exactly the in-range query results, in query order, against a sorted
/// arrangement of that day's records (ties between equal observed times
/// keep no particular order).
pub fn resample_days(days: Vec<DayForecast>, skip: usize, take: usize, times: &Vec<u32>) -> (r:
    Vec<DayForecast>)
    requires
        forall|d: int| 0 <= d < days@.len() ==> (#[trigger] days@[d])@.wf(),
        forall|k: int| 0 <= k < times@.len() ==> #[trigger] times@[k] < MINUTES_PER_DAY,
    ensures
        r@.len() == if days@.len() <= skip {
            0int
        } else if days@.len() - skip <= take {
            days@.len() - skip
        } else {
            take as int
        },
        forall|d: int|
            0 <= d < r@.len() ==> (#[trigger] r@[d]).date == days@[skip + d].date && r@[d]@.wf(),
        forall|d: int|
            0 <= d < r@.len() ==> resampled_from((#[trigger] r@[d])@, days@[skip + d]@, times@),
{
    let mut out: Vec<DayForecast> = Vec::new();
    let mut d = skip;
    while d < days.len() && d - skip < take
        invariant
            skip <= d,
            d - skip == out@.len(),
            d <= days@.len() || d == skip,
            out@.len() <= take,
            forall|e: int| 0 <= e < days@.len() ==> (#[trigger] days@[e])@.wf(),
            forall|k: int| 0 <= k < times@.len() ==> #[trigger] times@[k] < MINUTES_PER_DAY,
            forall|e: int|
                0 <= e < out@.len() ==> (#[trigger] out@[e]).date == days@[skip + e].date
                    && out@[e]@.wf(),
            forall|e: int|
                0 <= e < out@.len() ==> resampled_from((#[trigger] out@[e])@, days@[skip + e]@, times@),
        decreases days@.len() - d,
    {
        let src = &days[d];
        let mut pairs: Vec<(u32, crate::record::Forecast)> = Vec::new();
        let mut k: usize = 0;
        while k < src.steps.len()
            invariant
                k <= src.steps@.len(),
                src@.wf(),
                pairs_model(pairs@) =~= pairs_model(src.steps@).take(k as int),
            decreases src.steps@.len() - k,
        {
            let t = src.steps[k].0;
            let f = src.steps[k].1.clone();
            let ghost pre = pairs_model(pairs@);
            pairs.push((t, f));
            proof {
                assert(pairs_model(pairs@) =~= pre.push((t, f@)));
                assert(pairs_model(src.steps@).take(k + 1) =~= pairs_model(src.steps@).take(
                    k as int,
                ).push(pairs_model(src.steps@)[k as int]));
            }
            k += 1;
        }
        proof {
            assert(pairs_model(pairs@) =~= pairs_model(src.steps@));
        }
        let mixer = Mixer::new(pairs);
        let mut steps: Vec<(u32, crate::record::Forecast)> = Vec::new();
        let mut q: usize = 0;
        while q < times.len()
            invariant
                q <= times@.len(),
                mixer.wf(),
                forall|m: int| 0 <= m < times@.len() ==> #[trigger] times@[m] < MINUTES_PER_DAY,
                pairs_model(steps@) == spec_query_upto(mixer.steps(), times@, q as int),
                pairs_wf(pairs_model(steps@)),
            decreases times@.len() - q,
        {
            let t = times[q];
            match mixer.lerp(t) {
                Option::None => {
                },
                Option::Some(f) => {
                    let ghost pre = pairs_model(steps@);
                    steps.push((t, f));
                    proof {
                        assert(pairs_model(steps@) =~= pre.push((t, f@)));
                    }
                },
            }
            q += 1;
        }
        let day = DayForecast { date: src.date, steps };
        proof {
            assert(day@.steps == spec_query_upto(mixer.steps(), times@, times@.len() as int));
            assert(mixer.steps().to_multiset() == days@[d as int]@.steps.to_multiset());
            assert(day@.wf());
        }
        let ghost old_out = out@;
        out.push(day);
        proof {
            assert(out@ == old_out.push(day));
            assert(resampled_from(day@, days@[d as int]@, times@)) by {
                let ss0 = mixer.steps();
                assert(sorted_by_time(ss0) && ss0.to_multiset() == days@[
                    d as int]@.steps.to_multiset() && day@.steps == spec_query_upto(
                    ss0,
                    times@,
                    times@.len() as int,
                ));
            }
            assert forall|e: int|
                0 <= e < out@.len() implies resampled_from(
                (#[trigger] out@[e])@,
                days@[skip + e]@,
                times@,
            ) by {
                if e < old_out.len() {
                    assert(out@[e] == old_out[e]);
                } else {
                    assert(out@[e] == day);
                    assert(skip + e == d);
                }
            }
        }
        d += 1;
    }
    out
}

} // verus!