use pingd::measurement::Measurement;
use pingd::report::{
    clamp_timestamp, format_times, handle_request, parse_route, render_report, Route, TS_MAX,
    TS_MIN,
};
use pingd::store::Store;

fn row(t: i64, missing: bool, latency_us: u64) -> Measurement {
    Measurement::new(String::from("example.net"), t, missing, latency_us)
}

#[test]
fn empty_segment_selects_default_window() {
    assert_eq!(parse_route(""), Route::DefaultWindow);
}

#[test]
fn all_selects_full_history() {
    assert_eq!(parse_route("all"), Route::FullHistory);
}

#[test]
fn number_selects_window() {
    assert_eq!(parse_route("42"), Route::WindowOf(42));
    assert_eq!(parse_route("0"), Route::WindowOf(0));
}

#[test]
fn garbage_is_invalid() {
    assert_eq!(parse_route("banana"), Route::Invalid);
    assert_eq!(parse_route("all2"), Route::Invalid);
    assert_eq!(parse_route("-1"), Route::Invalid);
    assert_eq!(parse_route("18446744073709551616"), Route::Invalid);
}

#[test]
fn invalid_segment_gets_404() {
    let store = Store::open_in_memory().unwrap();
    let resp = handle_request(&store, "banana").unwrap();
    assert_eq!(resp.status, 404);
    assert_eq!(resp.body, "404 Not Found");
    assert!(!resp.html);
}

#[test]
fn valid_request_gets_html_report() {
    let mut store = Store::open_in_memory().unwrap();
    store.insert(&row(100, false, 12_500)).unwrap();
    let resp = handle_request(&store, "").unwrap();
    assert_eq!(resp.status, 200);
    assert!(resp.html);
    assert!(resp.body.starts_with(
        "<html><body><table border=\"1\"><tr><th>Hostname</th><th>Time</th><th>Ping</th></tr>"
    ));
    assert!(resp.body.ends_with("</table></body></html>"));
    assert!(resp.body.contains("<td>example.net</td>"));
    assert!(resp.body.contains("<td>12.5 ms</td>"));
}

#[test]
fn rendering_is_deterministic_for_fixed_rows() {
    let rows = vec![row(200, false, 42_000), row(100, true, 0)];
    let times = vec![String::from("time a"), String::from("time b")];
    let first = render_report(&rows, &times);
    let second = render_report(&rows, &times);
    assert_eq!(first, second);
}

#[test]
fn rendered_rows_read_as_expected() {
    let rows = vec![row(200, false, 42_000), row(100, true, 0)];
    let times = vec![String::from("time a"), String::from("time b")];
    let body = render_report(&rows, &times);
    assert!(body.contains("<tr><td>example.net</td><td>time a</td><td>42 ms</td></tr>"));
    assert!(body.contains("<tr><td>example.net</td><td>time b</td><td>NO RESPONSE</td></tr>"));
}

#[test]
fn time_texts_are_rendered_per_row() {
    let rows = vec![row(0, false, 1_000), row(86_400, false, 1_000)];
    let times = format_times(&rows);
    assert_eq!(times.len(), 2);
    // the epoch renders as a calendar date (1970, or 1969 in a zone west
    // of Greenwich), not as the raw number
    assert!(!times[0].is_empty());
    assert!(times[0].contains("19"));
    assert_ne!(times[0], "0");
}

#[test]
fn timestamps_clamp_to_the_calendar_range() {
    assert_eq!(clamp_timestamp(0), 0);
    assert_eq!(clamp_timestamp(1_700_000_000), 1_700_000_000);
    assert_eq!(clamp_timestamp(TS_MIN), TS_MIN);
    assert_eq!(clamp_timestamp(TS_MAX), TS_MAX);
    assert_eq!(clamp_timestamp(i64::MIN), TS_MIN);
    assert_eq!(clamp_timestamp(i64::MAX), TS_MAX);
}

#[test]
fn extreme_timestamps_render_without_panic() {
    let mut store = Store::open_in_memory().unwrap();
    store.insert(&row(i64::MAX, false, 1_000)).unwrap();
    store.insert(&row(i64::MIN, true, 0)).unwrap();
    let resp = handle_request(&store, "all").unwrap();
    assert_eq!(resp.status, 200);
    assert_eq!(resp.body.matches("<tr>").count(), 3);
    assert!(resp.body.contains("NO RESPONSE"));
    let times = format_times(&store.query(None).unwrap());
    assert_eq!(times.len(), 2);
    assert!(!times[0].is_empty() && !times[1].is_empty());
}

#[test]
fn window_caps_the_report() {
    let mut store = Store::open_in_memory().unwrap();
    for t in [10i64, 30, 20] {
        store.insert(&row(t, false, 5_000)).unwrap();
    }
    let resp = handle_request(&store, "2").unwrap();
    assert_eq!(resp.status, 200);
    assert_eq!(resp.body.matches("<tr>").count(), 3);
    assert!(resp.body.contains("<td>5 ms</td>"));
}
