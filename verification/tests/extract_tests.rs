use weathercast::extract::{extract, ExtractError};

fn day_html(id: &str) -> String {
    let mut h = String::new();
    h.push_str("<div class=\"forecast-day\" id=\"");
    h.push_str(id);
    h.push_str("\"><table>");
    h.push_str(
        "<tr class=\"step-time\">\
         <th scope=\"col\" data-time=\"08:00\">8am</th>\
         <th scope=\"col\" data-time=\"12:00\">12pm</th></tr>",
    );
    h.push_str(
        "<tr class=\"step-symbol\"><td><img title=\"Sunny day\"></td>\
         <td><img title=\"Cloudy\"></td></tr>",
    );
    h.push_str("<tr class=\"step-pop\"><td>10%</td><td>&lt;5%</td></tr>");
    h.push_str(
        "<tr class=\"step-temp\"><td><div data-value=\"12.5\"></div></td>\
         <td><div data-value=\"-3\"></div></td></tr>",
    );
    h.push_str(
        "<tr class=\"step-feels-like\"><td data-value=\"10\"></td>\
         <td data-value=\"11\"></td></tr>",
    );
    h.push_str(
        "<tr class=\"step-wind\"><td><div>\
         <span class=\"speed\" data-value=\"5\"></span>\
         <span class=\"direction\" data-value=\"NW\"></span>\
         </div></td></tr>",
    );
    h.push_str(
        "<tr class=\"step-wind-gust\"><td><span class=\"gust\" data-value=\"10\"></span></td></tr>",
    );
    h.push_str(
        "<tr class=\"step-visibility\"><td><span class=\"visibility\" data-value=\"20000\"></span></td></tr>",
    );
    h.push_str("<tr class=\"step-humidity\"><td>50%</td><td>60%</td></tr>");
    h.push_str("<tr class=\"step-uv\"><td data-value=\"3\"></td><td data-value=\"1\"></td></tr>");
    h.push_str("</table></div>");
    h
}

#[test]
fn extracts_one_day_with_two_steps() {
    let html = format!("<html><body>{}</body></html>", day_html("2023-05-01"));
    let days = extract(&html, false).unwrap();
    assert_eq!(days.len(), 1);
    let day = &days[0];
    assert_eq!(day.date.year, 2023);
    assert_eq!(day.date.month, 5);
    assert_eq!(day.date.day, 1);
    assert_eq!(day.steps.len(), 2);
    assert_eq!(day.steps[0].0, 8 * 60);
    assert_eq!(day.steps[1].0, 12 * 60);
}

#[test]
fn extracts_fields_positionally_in_metric() {
    let html = format!("<html><body>{}</body></html>", day_html("2023-05-01"));
    let days = extract(&html, false).unwrap();
    let a = &days[0].steps[0].1;
    let b = &days[0].steps[1].1;
    assert_eq!(a.status, "Sunny day");
    assert_eq!(b.status, "Cloudy");
    assert_eq!(a.precipitation, 10_000);
    // the below-threshold marker reads as zero
    assert_eq!(b.precipitation, 0);
    assert_eq!(a.temperature, 12_500);
    assert_eq!(b.temperature, -3_000);
    assert_eq!(a.feels_like, 10_000);
    // wind speed 5 m/s shown as 18 km/h in metric
    assert_eq!(a.wind_speed, 18_000);
    assert_eq!(a.wind_direction, "NW");
    assert_eq!(a.wind_gust, 36_000);
    assert_eq!(a.visibility, 20_000_000);
    assert_eq!(a.humidity, 50_000);
    assert_eq!(a.uv_index, 3_000);
}

#[test]
fn short_field_lists_leave_defaults() {
    let html = format!("<html><body>{}</body></html>", day_html("2023-05-01"));
    let days = extract(&html, false).unwrap();
    let b = &days[0].steps[1].1;
    // wind, gust and visibility lists held one node; step two keeps zeros
    assert_eq!(b.wind_speed, 0);
    assert_eq!(b.wind_direction, "");
    assert_eq!(b.wind_gust, 0);
    assert_eq!(b.visibility, 0);
}

#[test]
fn customary_units_convert_at_extraction() {
    let html = format!("<html><body>{}</body></html>", day_html("2023-05-01"));
    let days = extract(&html, true).unwrap();
    let a = &days[0].steps[0].1;
    // 12.5 C is 54.5 F
    assert_eq!(a.temperature, 54_500);
    // 5 m/s is 11.185 mph
    assert_eq!(a.wind_speed, 11_185);
}

#[test]
fn days_come_in_document_order() {
    let html = format!(
        "<html><body>{}{}</body></html>",
        day_html("2023-05-02"),
        day_html("2023-05-01")
    );
    let days = extract(&html, false).unwrap();
    assert_eq!(days.len(), 2);
    assert_eq!(days[0].date.day, 2);
    assert_eq!(days[1].date.day, 1);
}

#[test]
fn malformed_date_aborts_extraction() {
    let html = format!("<html><body>{}</body></html>", day_html("May-01"));
    assert!(matches!(extract(&html, false), Err(ExtractError::MalformedDate)));
}

#[test]
fn missing_date_attribute_is_malformed_date() {
    let html = "<html><body><div class=\"forecast-day\"></div></body></html>";
    assert!(matches!(extract(html, false), Err(ExtractError::MalformedDate)));
}

#[test]
fn missing_time_attribute_aborts_extraction() {
    let html = "<html><body><div class=\"forecast-day\" id=\"2023-05-01\"><table>\
        <tr class=\"step-time\"><th scope=\"col\">8am</th></tr>\
        </table></div></body></html>";
    assert!(matches!(
        extract(html, false),
        Err(ExtractError::MissingRequiredAttribute)
    ));
}

#[test]
fn unreadable_numeric_field_aborts_extraction() {
    let html = "<html><body><div class=\"forecast-day\" id=\"2023-05-01\"><table>\
        <tr class=\"step-time\"><th scope=\"col\" data-time=\"08:00\">8am</th></tr>\
        <tr class=\"step-temp\"><td><div data-value=\"warm\"></div></td></tr>\
        </table></div></body></html>";
    assert!(matches!(
        extract(html, false),
        Err(ExtractError::NumericParseFailure)
    ));
}

#[test]
fn empty_document_extracts_no_days() {
    let days = extract("<html><body></body></html>", false).unwrap();
    assert!(days.is_empty());
}
