use entsoe_logger::instant::{format_minute, interval_text};
use entsoe_logger::planner::{
    chunk, floor_to_hour, get_fetch_time_interval, next_window, RangeError, TimeParams,
    MAX_FETCH_SPAN,
};

const DAY: i64 = 86400;
const D0: i64 = 1577836800;

#[test]
fn chunk_long_range_into_three_spans() {
    let spans = chunk(D0, D0 + 800 * DAY, 370 * DAY);
    assert_eq!(
        spans,
        vec![
            (D0, D0 + 370 * DAY),
            (D0 + 370 * DAY, D0 + 740 * DAY),
            (D0 + 740 * DAY, D0 + 800 * DAY),
        ]
    );
    assert_eq!(MAX_FETCH_SPAN, 370 * DAY);
}

#[test]
fn chunk_short_and_empty_ranges() {
    assert_eq!(chunk(D0, D0 + DAY, 370 * DAY), vec![(D0, D0 + DAY)]);
    assert_eq!(chunk(D0, D0 + 2 * DAY, DAY), vec![(D0, D0 + DAY), (D0 + DAY, D0 + 2 * DAY)]);
    assert!(chunk(D0, D0, DAY).is_empty());
    assert!(chunk(D0 + 1, D0, DAY).is_empty());
}

#[test]
fn next_window_resumes_from_the_laggard() {
    let watermarks = vec![Some(D0 + 5 * DAY), Some(D0 + 2 * DAY)];
    assert_eq!(next_window(D0, &watermarks, 1), Some((D0 + 2 * DAY, D0 + 3 * DAY)));
}

#[test]
fn next_window_counts_missing_watermark_as_configured_start() {
    let watermarks = vec![Some(D0 + 5 * DAY), None];
    assert_eq!(next_window(D0, &watermarks, 2), Some((D0, D0 + 2 * DAY)));
}

#[test]
fn next_window_never_starts_before_configured_start() {
    let watermarks = vec![Some(D0 - 5 * DAY), Some(D0 + DAY)];
    assert_eq!(next_window(D0, &watermarks, 1), Some((D0, D0 + DAY)));
    assert_eq!(next_window(D0, &vec![], 3), Some((D0, D0 + 3 * DAY)));
}

#[test]
fn next_window_out_of_range() {
    assert_eq!(next_window(D0, &vec![], 5_000_000), None);
    assert_eq!(next_window(D0, &vec![Some(i64::MAX)], 1), None);
}

#[test]
fn fetch_interval_text_starts_on_the_hour() {
    let watermarks = vec![Some(1656625500), None];
    assert_eq!(
        get_fetch_time_interval(1656622800, &watermarks, 1),
        Some("2022-06-30T21:00Z/2022-07-01T21:00Z".to_string())
    );
    assert_eq!(floor_to_hour(1656625500), 1656622800);
    assert_eq!(floor_to_hour(-1), -3600);
}

#[test]
fn instants_are_written_with_minute_precision() {
    assert_eq!(format_minute(1656622800), "2022-06-30T21:00Z");
    assert_eq!(interval_text(1656622800, 1659301200), "2022-06-30T21:00Z/2022-07-31T21:00Z");
}

fn params(start: &str, stop: &str) -> TimeParams {
    TimeParams { start: start.to_string(), stop: stop.to_string(), in_domain: None, out_domain: None }
}

#[test]
fn requested_range_is_chunked() {
    let spans = params("2020-01-01T00:00Z", "2022-03-11T00:00Z").chunks().unwrap();
    assert_eq!(
        spans,
        vec![
            (D0, D0 + 370 * DAY),
            (D0 + 370 * DAY, D0 + 740 * DAY),
            (D0 + 740 * DAY, D0 + 800 * DAY),
        ]
    );
}

#[test]
fn requested_range_errors() {
    assert_eq!(params("2020-01-01", "2020-02-01T00:00Z").chunks(), Err(RangeError::InvalidDateFormat));
    assert_eq!(params("2020-01-01T00:00Z", "later").chunks(), Err(RangeError::InvalidDateFormat));
    assert_eq!(
        params("2020-01-02T00:00Z", "2020-01-01T00:00Z").chunks(),
        Err(RangeError::EmptyRange)
    );
    assert_eq!(
        params("2020-01-01T00:00Z", "2020-01-01T00:00Z").chunks(),
        Err(RangeError::EmptyRange)
    );
}
