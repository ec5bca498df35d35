use nail::datetime::{format_rfc3339_utc, parse_iso8601_ms};
use nail::error::LogicError;
use nail::config::test_config;
use nail::search::{check_search_query, parse_time_window};

const ISO_FROM: &str =
    "from must be an ISO8601 datetime (year to second precision, no timezone means UTC)";
const ISO_TO: &str =
    "to must be an ISO8601 datetime (year to second precision, no timezone means UTC)";

#[test]
fn formats_whole_seconds_in_utc() {
    assert_eq!(
        format_rfc3339_utc(1_705_314_600_000).unwrap(),
        "2024-01-15T10:30:00Z"
    );
    assert_eq!(
        format_rfc3339_utc(1_705_314_600_999).unwrap(),
        "2024-01-15T10:30:00Z"
    );
    assert_eq!(format_rfc3339_utc(0).unwrap(), "1970-01-01T00:00:00Z");
    assert_eq!(
        format_rfc3339_utc(1_700_000_000_123).unwrap(),
        "2023-11-14T22:13:20Z"
    );
    assert_eq!(
        format_rfc3339_utc(951_825_600_000).unwrap(),
        "2000-02-29T12:00:00Z"
    );
}

#[test]
fn format_stops_before_the_year_ten_thousand() {
    assert_eq!(
        format_rfc3339_utc(253_402_300_799_999).unwrap(),
        "9999-12-31T23:59:59Z"
    );
    assert_eq!(format_rfc3339_utc(253_402_300_800_000), None);
    assert_eq!(format_rfc3339_utc(u64::MAX), None);
}

#[test]
fn parses_every_precision_from_year_to_second() {
    assert_eq!(parse_iso8601_ms("2024"), Some(1_704_067_200_000));
    assert_eq!(parse_iso8601_ms("2024-01"), Some(1_704_067_200_000));
    assert_eq!(parse_iso8601_ms("2024-01-15"), Some(1_705_276_800_000));
    assert_eq!(parse_iso8601_ms("2024-01-15T10"), Some(1_705_312_800_000));
    assert_eq!(parse_iso8601_ms("2024-01-15T10:30"), Some(1_705_314_600_000));
    assert_eq!(
        parse_iso8601_ms("2024-01-15T10:30:00"),
        Some(1_705_314_600_000)
    );
    assert_eq!(
        parse_iso8601_ms("2024-01-15T10:30:00Z"),
        Some(1_705_314_600_000)
    );
}

#[test]
fn numeric_zones_shift_to_utc() {
    assert_eq!(
        parse_iso8601_ms("2024-01-15T12:30:00+02:00"),
        Some(1_705_314_600_000)
    );
    assert_eq!(
        parse_iso8601_ms("2024-01-15T05:30-05:00"),
        Some(1_705_314_600_000)
    );
    assert_eq!(parse_iso8601_ms("2024-01-15T10:30:00+24:00"), None);
    assert_eq!(parse_iso8601_ms("2024-01-15T10:30:00+02:60"), None);
    assert_eq!(parse_iso8601_ms("2024-01-15T10:30:00+0a:00"), None);
}

#[test]
fn rejects_what_names_no_time() {
    for bad in [
        "",
        "not-a-datetime",
        "24",
        "2024-1-15",
        "2024-13-01",
        "2023-02-29",
        "2024-04-31",
        "2024-01-15T24:00",
        "2024-01-15T10:60",
        "2024-01-15T10:30:60",
        "2024-01-15 10:30:00",
        "2024-01-15Z",
        "2024-01-15T10:30:00.5Z",
        "1969-12-31T23:59:59Z",
        "1970-01-01T00:00:00+00:01",
    ] {
        assert_eq!(parse_iso8601_ms(bad), None, "{bad:?}");
    }
    assert_eq!(parse_iso8601_ms("2024-02-29"), Some(1_709_164_800_000));
    assert_eq!(parse_iso8601_ms("1970-01-01T00:00:00Z"), Some(0));
}

#[test]
fn formatted_seconds_read_back() {
    for ms in [
        0u64,
        999,
        86_399_999,
        951_825_600_000,
        1_700_000_000_123,
        4_102_444_800_000,
        253_402_300_799_999,
    ] {
        let text = format_rfc3339_utc(ms).unwrap();
        assert_eq!(parse_iso8601_ms(&text), Some(ms - ms % 1000), "{text}");
    }
}

#[test]
fn window_refuses_a_from_after_its_to() {
    assert_eq!(
        parse_time_window(Some("2024-01-15T10:30:00Z"), Some("2024-01-15T10:00:00Z")),
        Err(LogicError::bad_request("from must not be greater than to"))
    );
}

#[test]
fn window_refuses_bounds_that_name_no_time() {
    assert_eq!(
        parse_time_window(Some("not-a-datetime"), None),
        Err(LogicError::bad_request(ISO_FROM))
    );
    assert_eq!(
        parse_time_window(None, Some("yesterday")),
        Err(LogicError::bad_request(ISO_TO))
    );
    assert_eq!(
        parse_time_window(Some("never"), Some("yesterday")),
        Err(LogicError::bad_request(ISO_FROM))
    );
}

#[test]
fn window_treats_blank_bounds_as_absent() {
    assert_eq!(parse_time_window(Some("   "), Some("   ")), Ok((None, None)));
    assert_eq!(parse_time_window(None, None), Ok((None, None)));
    assert_eq!(
        parse_time_window(Some(" 2024 "), Some("2024-01-15T10:30:00Z")),
        Ok((Some(1_704_067_200_000), Some(1_705_314_600_000)))
    );
    assert_eq!(
        parse_time_window(Some("2024-01-15"), Some("2024-01-15")),
        Ok((Some(1_705_276_800_000), Some(1_705_276_800_000)))
    );
}

#[test]
fn search_query_length_is_bounded_in_characters() {
    let max = test_config().server.max_search_query_chars;
    assert_eq!(check_search_query(Some(&"a".repeat(512)), max), Ok(()));
    assert_eq!(
        check_search_query(Some(&"a".repeat(513)), max),
        Err(LogicError::bad_request("search query too long (max 512 chars)"))
    );
    assert_eq!(check_search_query(Some(&"é".repeat(512)), max), Ok(()));
    assert_eq!(check_search_query(None, max), Ok(()));
    assert_eq!(check_search_query(Some(""), 0), Ok(()));
    assert_eq!(
        check_search_query(Some("ab"), 1),
        Err(LogicError::bad_request("search query too long (max 1 chars)"))
    );
}
