use weathercast::search::{
    classify_results, forecast_url, location_search_url, normalize_search_term, FoundLocation,
    LocationFilter,
};
use weathercast::Location;

fn loc(name: &str, geohash: &str) -> Location {
    Location {
        name: name.to_string(),
        area: None,
        geohash: Some(geohash.to_string()),
    }
}

#[test]
fn terms_are_trimmed_collapsed_and_lowered() {
    assert_eq!(normalize_search_term("  Milton   Keynes "), b"milton keynes".to_vec());
    assert_eq!(normalize_search_term("York"), b"york".to_vec());
    assert_eq!(normalize_search_term("a\t b"), b"a b".to_vec());
    assert_eq!(normalize_search_term(""), b"".to_vec());
}

#[test]
fn postcodes_become_their_upper_cased_first_group() {
    assert_eq!(normalize_search_term("sw1a 1aa"), b"SW1A".to_vec());
    assert_eq!(normalize_search_term("M1 2ab"), b"M1".to_vec());
    assert_eq!(normalize_search_term("ab12"), b"AB12".to_vec());
    assert_eq!(normalize_search_term("ab1 2cd"), b"AB1".to_vec());
    // not postcodes: stay as cleaned text
    assert_eq!(normalize_search_term("Leeds"), b"leeds".to_vec());
    assert_eq!(normalize_search_term("a1 b2"), b"a1 b2".to_vec());
}

#[test]
fn no_results_is_not_found() {
    let r = classify_results(vec![], &b"york".to_vec());
    assert!(matches!(r, FoundLocation::NotFound));
}

#[test]
fn a_single_result_is_found_as_it_stands() {
    let r = classify_results(vec![loc("Elsewhere", "g1")], &b"york".to_vec());
    match r {
        FoundLocation::Found(l) => assert_eq!(l.name, "Elsewhere"),
        _ => panic!("expected a found location"),
    }
}

#[test]
fn a_unique_exact_name_match_wins_among_many() {
    let r = classify_results(
        vec![loc("York Area", "g1"), loc(" York ", "g2"), loc("New York", "g3")],
        &b"york".to_vec(),
    );
    match r {
        FoundLocation::Found(l) => assert_eq!(l.geohash.as_deref(), Some("g2")),
        _ => panic!("expected a found location"),
    }
}

#[test]
fn several_exact_matches_stay_ambiguous() {
    let r = classify_results(
        vec![loc("York", "g1"), loc("YORK", "g2")],
        &b"york".to_vec(),
    );
    match r {
        FoundLocation::Ambiguous(v) => assert_eq!(v.len(), 2),
        _ => panic!("expected an ambiguous outcome"),
    }
}

#[test]
fn no_exact_match_among_many_stays_ambiguous() {
    let r = classify_results(
        vec![loc("Old York", "g1"), loc("New York", "g2")],
        &b"york".to_vec(),
    );
    assert!(matches!(r, FoundLocation::Ambiguous(_)));
}

#[test]
fn search_url_percent_encodes_the_term() {
    let url = location_search_url(&b"milton keynes".to_vec(), &vec![]);
    assert_eq!(
        url,
        "https://www.metoffice.gov.uk/plain-rest-services/location-search/milton%20keynes/?filter="
    );
}

#[test]
fn search_url_joins_filters_in_order() {
    let url = location_search_url(
        &b"york".to_vec(),
        &vec![LocationFilter::Domestic, LocationFilter::NoUKRegions],
    );
    assert_eq!(
        url,
        "https://www.metoffice.gov.uk/plain-rest-services/location-search/york/?filter=domesticno-uk-regions"
    );
}

#[test]
fn forecast_url_appends_the_geohash() {
    assert_eq!(
        forecast_url("gcrgw"),
        "https://www.metoffice.gov.uk/weather/forecast/gcrgw"
    );
}

#[test]
fn locations_without_geohash_cannot_be_forecast() {
    let l = Location { name: "Wales".to_string(), area: None, geohash: None };
    assert!(!l.has_forecast());
    assert!(loc("York", "g").has_forecast());
}
