use weathercast::mixer::Mixer;
use weathercast::record::Forecast;

fn rec(status: &str, precip: i64, feels: i64) -> Forecast {
    let mut r = Forecast::default_record();
    r.status = status.to_string();
    r.precipitation = precip;
    r.feels_like = feels;
    r
}

fn two_point_mixer() -> Mixer {
    // 08:00 and 12:00, precipitation 10% and 30%, feels-like 10 and 20
    let a = rec("Sunny day", 10_000, 10_000);
    let b = rec("Heavy rain", 30_000, 20_000);
    Mixer::new(vec![(8 * 60, a), (12 * 60, b)])
}

#[test]
fn exact_match_returns_record_unmodified() {
    let m = two_point_mixer();
    let r = m.lerp(8 * 60).unwrap();
    assert_eq!(r.status, "Sunny day");
    assert_eq!(r.precipitation, 10_000);
    assert_eq!(r.feels_like, 10_000);
    assert_eq!(r.temperature, 0);
}

#[test]
fn out_of_range_returns_nothing() {
    let m = two_point_mixer();
    assert!(m.lerp(7 * 60).is_none());
    assert!(m.lerp(13 * 60).is_none());
}

#[test]
fn midpoint_interpolates_linearly() {
    let m = two_point_mixer();
    let r = m.lerp(10 * 60).unwrap();
    assert_eq!(r.precipitation, 20_000);
    assert_eq!(r.feels_like, 15_000);
}

#[test]
fn quarter_point_interpolates_linearly() {
    let m = two_point_mixer();
    let r = m.lerp(9 * 60).unwrap();
    assert_eq!(r.precipitation, 15_000);
    assert_eq!(r.feels_like, 12_500);
}

#[test]
fn status_follows_worsening_precipitation() {
    let m = two_point_mixer();
    let r = m.lerp(10 * 60).unwrap();
    // the later record has the greater precipitation chance
    assert_eq!(r.status, "Heavy rain");

    let a = rec("Heavy rain", 30_000, 10_000);
    let b = rec("Sunny day", 10_000, 20_000);
    let m2 = Mixer::new(vec![(8 * 60, a), (12 * 60, b)]);
    let r2 = m2.lerp(10 * 60).unwrap();
    assert_eq!(r2.status, "Heavy rain");
}

#[test]
fn uv_index_takes_the_larger_neighbour() {
    let mut a = rec("x", 0, 0);
    a.uv_index = 5_000;
    let mut b = rec("y", 0, 0);
    b.uv_index = 2_000;
    let m = Mixer::new(vec![(8 * 60, a), (12 * 60, b)]);
    let r = m.lerp(10 * 60).unwrap();
    assert_eq!(r.uv_index, 5_000);
}

#[test]
fn precipitation_stays_between_neighbours() {
    let m = two_point_mixer();
    for t in (8 * 60 + 1)..(12 * 60) {
        let r = m.lerp(t).unwrap();
        assert!(10_000 <= r.precipitation && r.precipitation <= 30_000);
    }
}

#[test]
fn temperature_mixes_toward_next_precipitation() {
    // the temperature channel's known quirk: it interpolates between the
    // earlier temperature and the later record's precipitation chance
    let mut a = rec("x", 0, 0);
    a.temperature = 10_000;
    let mut b = rec("y", 30_000, 0);
    b.temperature = 99_000;
    let m = Mixer::new(vec![(8 * 60, a), (12 * 60, b)]);
    let r = m.lerp(10 * 60).unwrap();
    assert_eq!(r.temperature, 20_000);
}

#[test]
fn wind_direction_comes_from_the_earlier_record() {
    let mut a = rec("x", 0, 0);
    a.wind_direction = "NW".to_string();
    let mut b = rec("y", 0, 0);
    b.wind_direction = "SE".to_string();
    let m = Mixer::new(vec![(8 * 60, a), (12 * 60, b)]);
    let r = m.lerp(10 * 60).unwrap();
    assert_eq!(r.wind_direction, "NW");
}

#[test]
fn unsorted_input_is_sorted_by_time() {
    let a = rec("early", 0, 0);
    let b = rec("late", 0, 0);
    let m = Mixer::new(vec![(12 * 60, b), (8 * 60, a)]);
    assert_eq!(m.lerp(8 * 60).unwrap().status, "early");
    assert_eq!(m.lerp(12 * 60).unwrap().status, "late");
}

#[test]
fn single_record_answers_only_its_own_time() {
    let m = Mixer::new(vec![(8 * 60, rec("only", 0, 0))]);
    assert_eq!(m.lerp(8 * 60).unwrap().status, "only");
    assert!(m.lerp(8 * 60 + 1).is_none());
    assert!(m.lerp(8 * 60 - 1).is_none());
}

#[test]
fn equal_times_resolve_to_the_earliest_record() {
    // records may share a time after sorting; an exact query takes the
    // earliest of them
    let a = rec("first", 1_000, 0);
    let b = rec("second", 2_000, 0);
    let m = Mixer::new(vec![(8 * 60, a), (8 * 60, b)]);
    assert_eq!(m.lerp(8 * 60).unwrap().status, "first");
}

#[test]
fn empty_series_answers_nothing() {
    let m = Mixer::new(vec![]);
    assert!(m.lerp(0).is_none());
}
