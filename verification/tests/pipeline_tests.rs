use weathercast::pipeline::resample_days;
use weathercast::record::{Date, DayForecast, Forecast};

fn rec(precip: i64) -> Forecast {
    let mut r = Forecast::default_record();
    r.precipitation = precip;
    r
}

fn day(d: u32) -> DayForecast {
    DayForecast {
        date: Date { year: 2023, month: 5, day: d },
        steps: vec![(8 * 60, rec(10_000)), (12 * 60, rec(30_000))],
    }
}

#[test]
fn window_skips_and_takes_days() {
    let days = vec![day(1), day(2), day(3), day(4)];
    let times = vec![10 * 60];
    let out = resample_days(days, 1, 2, &times);
    assert_eq!(out.len(), 2);
    assert_eq!(out[0].date.day, 2);
    assert_eq!(out[1].date.day, 3);
}

#[test]
fn window_past_the_end_is_empty() {
    let days = vec![day(1)];
    let out = resample_days(days, 5, 2, &vec![10 * 60]);
    assert!(out.is_empty());
}

#[test]
fn out_of_range_query_times_are_skipped() {
    let days = vec![day(1)];
    let times = vec![0, 10 * 60, 23 * 60];
    let out = resample_days(days, 0, 1, &times);
    assert_eq!(out[0].steps.len(), 1);
    assert_eq!(out[0].steps[0].0, 10 * 60);
    assert_eq!(out[0].steps[0].1.precipitation, 20_000);
}

#[test]
fn each_query_time_answers_in_order() {
    let days = vec![day(1)];
    let times = vec![8 * 60, 9 * 60, 12 * 60];
    let out = resample_days(days, 0, 1, &times);
    let got: Vec<u32> = out[0].steps.iter().map(|s| s.0).collect();
    assert_eq!(got, vec![8 * 60, 9 * 60, 12 * 60]);
    assert_eq!(out[0].steps[0].1.precipitation, 10_000);
    assert_eq!(out[0].steps[1].1.precipitation, 15_000);
    assert_eq!(out[0].steps[2].1.precipitation, 30_000);
}
