use world_clock::aggregate::{aggregate, rows_from_responses, sort_rows, FailurePolicy};
use world_clock::config::{build_url, default_zones, Config, ConfigError};
use world_clock::offset::parse_offset;
use world_clock::record::{format_time, to_row, FetchError, OutputRow, TimezoneRecord};

fn record(id: &str, hour: &str, minutes: &str, seconds: &str, am_pm: &str, offset: &str) -> TimezoneRecord {
    TimezoneRecord {
        zone_id: id.to_string(),
        hour_12: hour.to_string(),
        minutes: minutes.to_string(),
        seconds: seconds.to_string(),
        am_pm: am_pm.to_string(),
        offset_hours: offset.to_string(),
    }
}

fn row(offset: i8, zone: &str) -> OutputRow {
    OutputRow { offset, time_zone: zone.to_string(), current_time: "12:00:00 PM".to_string() }
}

fn offsets(rows: &[OutputRow]) -> Vec<i8> {
    rows.iter().map(|r| r.offset).collect()
}

fn zones(rows: &[OutputRow]) -> Vec<String> {
    rows.iter().map(|r| r.time_zone.clone()).collect()
}

#[test]
fn parse_offset_accepts_signed_decimals() {
    assert_eq!(parse_offset("1"), Some(1));
    assert_eq!(parse_offset("0"), Some(0));
    assert_eq!(parse_offset("-5"), Some(-5));
    assert_eq!(parse_offset("+3"), Some(3));
    assert_eq!(parse_offset("-0"), Some(0));
    assert_eq!(parse_offset("007"), Some(7));
    assert_eq!(parse_offset("14"), Some(14));
    assert_eq!(parse_offset("127"), Some(127));
    assert_eq!(parse_offset("-128"), Some(-128));
}

#[test]
fn parse_offset_rejects_other_text() {
    assert_eq!(parse_offset(""), None);
    assert_eq!(parse_offset("-"), None);
    assert_eq!(parse_offset("+"), None);
    assert_eq!(parse_offset("128"), None);
    assert_eq!(parse_offset("-129"), None);
    assert_eq!(parse_offset("99999999999"), None);
    assert_eq!(parse_offset("1a"), None);
    assert_eq!(parse_offset(" 1"), None);
    assert_eq!(parse_offset("1.5"), None);
    assert_eq!(parse_offset("--1"), None);
}

#[test]
fn format_time_joins_fields() {
    let rec = record("Europe/Lisbon", "05", "30", "00", "PM", "1");
    assert_eq!(format_time(&rec), "05:30:00 PM");
}

#[test]
fn lisbon_answer_gives_its_row() {
    let rec = record("Europe/Lisbon", "05", "30", "00", "PM", "1");
    match OutputRow::from_record(rec) {
        Ok(r) => {
            assert_eq!(r.offset, 1);
            assert_eq!(r.time_zone, "Europe/Lisbon");
            assert_eq!(r.current_time, "05:30:00 PM");
        }
        Err(e) => panic!("unexpected error {:?}", e),
    }
}

#[test]
fn row_takes_echoed_zone_name() {
    let rec = record("Europe/Lisbon", "11", "05", "59", "AM", "0");
    match to_row(Ok(rec)) {
        Ok(r) => {
            assert_eq!(r.time_zone, "Europe/Lisbon");
            assert_eq!(r.current_time, "11:05:59 AM");
            assert_eq!(r.offset, 0);
        }
        Err(e) => panic!("unexpected error {:?}", e),
    }
}

#[test]
fn bad_offset_is_an_error() {
    let rec = record("America/Denver", "01", "00", "00", "AM", "minus seven");
    assert_eq!(OutputRow::from_record(rec).err(), Some(FetchError::InvalidOffset));
    let rec = record("America/Denver", "01", "00", "00", "AM", "300");
    assert_eq!(to_row(Ok(rec)).err(), Some(FetchError::InvalidOffset));
}

#[test]
fn fetch_errors_pass_through() {
    assert_eq!(to_row(Err(FetchError::Transport)).err(), Some(FetchError::Transport));
    assert_eq!(to_row(Err(FetchError::Decode)).err(), Some(FetchError::Decode));
}

#[test]
fn sort_puts_largest_offset_first() {
    let sorted = sort_rows(vec![row(-5, "a"), row(-8, "b"), row(0, "c")]);
    assert_eq!(offsets(&sorted), vec![0, -5, -8]);
    assert_eq!(zones(&sorted), vec!["c", "a", "b"]);
}

#[test]
fn sort_keeps_order_of_equal_offsets() {
    let sorted = sort_rows(vec![
        row(-6, "America/Chicago"),
        row(1, "Europe/Lisbon"),
        row(-6, "America/Mexico_City"),
        row(-3, "America/Fortaleza"),
        row(-6, "America/Winnipeg"),
    ]);
    assert_eq!(offsets(&sorted), vec![1, -3, -6, -6, -6]);
    assert_eq!(
        zones(&sorted),
        vec!["Europe/Lisbon", "America/Fortaleza", "America/Chicago", "America/Mexico_City", "America/Winnipeg"]
    );
}

#[test]
fn sort_of_nothing_is_nothing() {
    assert!(sort_rows(Vec::new()).is_empty());
}

#[test]
fn sorted_rows_never_increase() {
    let sorted = sort_rows(vec![row(3, "a"), row(-12, "b"), row(14, "c"), row(3, "d"), row(0, "e"), row(14, "f")]);
    for w in sorted.windows(2) {
        assert!(w[0].offset >= w[1].offset);
    }
    assert_eq!(zones(&sorted), vec!["c", "f", "a", "d", "e", "b"]);
}

#[test]
fn all_answers_give_one_row_each() {
    let resps = vec![
        Ok(record("America/Detroit", "12", "30", "00", "PM", "-4")),
        Ok(record("Pacific/Kiritimati", "06", "30", "00", "AM", "14")),
        Ok(record("Etc/GMT+12", "04", "30", "00", "AM", "-12")),
    ];
    let report = aggregate(rows_from_responses(resps), FailurePolicy::AllOrNothing);
    assert!(report.errors.is_empty());
    assert_eq!(report.rows.len(), 3);
    assert_eq!(offsets(&report.rows), vec![14, -4, -12]);
    for r in &report.rows {
        assert!(r.offset >= -12 && r.offset <= 14);
    }
}

fn three_with_one_failure() -> Vec<Result<TimezoneRecord, FetchError>> {
    vec![
        Ok(record("America/Chicago", "11", "00", "00", "AM", "-5")),
        Err(FetchError::Transport),
        Ok(record("Europe/Lisbon", "05", "00", "00", "PM", "1")),
    ]
}

#[test]
fn one_failure_voids_strict_table() {
    let report = aggregate(rows_from_responses(three_with_one_failure()), FailurePolicy::AllOrNothing);
    assert!(report.rows.is_empty());
    assert_eq!(report.errors, vec![FetchError::Transport]);
}

#[test]
fn one_failure_keeps_other_rows_when_lenient() {
    let report = aggregate(rows_from_responses(three_with_one_failure()), FailurePolicy::BestEffort);
    assert_eq!(report.errors, vec![FetchError::Transport]);
    assert_eq!(offsets(&report.rows), vec![1, -5]);
    assert_eq!(zones(&report.rows), vec!["Europe/Lisbon", "America/Chicago"]);
}

#[test]
fn offset_error_counts_as_failure() {
    let resps = vec![
        Ok(record("America/Denver", "10", "00", "00", "AM", "x")),
        Ok(record("America/Los_Angeles", "09", "00", "00", "AM", "-7")),
    ];
    let report = aggregate(rows_from_responses(resps), FailurePolicy::BestEffort);
    assert_eq!(report.errors, vec![FetchError::InvalidOffset]);
    assert_eq!(zones(&report.rows), vec!["America/Los_Angeles"]);
}

#[test]
fn three_zones_render_in_offset_order() {
    let resps = vec![
        Ok(record("America/Chicago", "11", "00", "00", "AM", "-5")),
        Ok(record("America/Los_Angeles", "08", "00", "00", "AM", "-8")),
        Ok(record("Europe/London", "04", "00", "00", "PM", "0")),
    ];
    let report = aggregate(rows_from_responses(resps), FailurePolicy::AllOrNothing);
    assert_eq!(offsets(&report.rows), vec![0, -5, -8]);
}

#[test]
fn no_answers_no_rows() {
    let report = aggregate(rows_from_responses(Vec::new()), FailurePolicy::BestEffort);
    assert!(report.rows.is_empty());
    assert!(report.errors.is_empty());
}

#[test]
fn missing_key_is_refused() {
    let r = Config::new(None, default_zones());
    assert_eq!(r.err(), Some(ConfigError::MissingApiKey));
}

#[test]
fn config_builds_one_url_per_zone() {
    let cfg = match Config::new(Some("SECRET".to_string()), default_zones()) {
        Ok(c) => c,
        Err(e) => panic!("unexpected error {:?}", e),
    };
    let urls = cfg.request_urls();
    assert_eq!(urls.len(), 6);
    assert_eq!(urls[0], "https://timezoneapi.io/api/timezone/?Europe/Lisbon&token=SECRET");
    assert_eq!(urls[5], "https://timezoneapi.io/api/timezone/?America/Los_Angeles&token=SECRET");
}

#[test]
fn build_url_embeds_zone_and_key() {
    assert_eq!(build_url("America/Denver", "k1"), "https://timezoneapi.io/api/timezone/?America/Denver&token=k1");
    assert_eq!(build_url("", ""), "https://timezoneapi.io/api/timezone/?&token=");
}

#[test]
fn default_zone_list() {
    let z = default_zones();
    assert_eq!(
        z,
        vec!["Europe/Lisbon", "America/Fortaleza", "America/Detroit", "America/Chicago", "America/Denver", "America/Los_Angeles"]
    );
}
