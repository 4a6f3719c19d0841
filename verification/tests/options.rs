use cep::config::{format_api_date, parse_interval, Config, OutputFormat, QueryType};
use cep::time::{Span, Timestamp};
use chrono::NaiveDateTime;

fn wall(text: &str) -> Timestamp {
    let dt = NaiveDateTime::parse_from_str(text, "%Y%m%d%H%M").unwrap();
    Timestamp { secs: dt.and_utc().timestamp(), nanos: dt.and_utc().timestamp_subsec_nanos() }
}

fn config(start: Option<&str>, end: Option<&str>) -> Config {
    Config {
        base_url: "https://hourlypricing.comed.com".to_string(),
        query_type: "range".to_string(),
        start: start.map(|s| s.to_string()),
        end: end.map(|s| s.to_string()),
        average: "n".to_string(),
        interval: "1h".to_string(),
        format: "csv".to_string(),
    }
}

// 2025-05-15 12:00:00 UTC
const NOW: Timestamp = Timestamp { secs: 1_747_310_400, nanos: 123 };

#[test]
fn test_parse_interval_valid() {
    assert_eq!(parse_interval("5m").ok().unwrap(), Span::minutes(5));
    assert_eq!(parse_interval("30m").ok().unwrap(), Span::minutes(30));
    assert_eq!(parse_interval("2h").ok().unwrap(), Span::hours(2));
    assert_eq!(parse_interval("1d").ok().unwrap(), Span::days(1));
    assert_eq!(parse_interval("7d").ok().unwrap(), Span::days(7));
}

#[test]
fn test_parse_interval_invalid() {
    assert!(parse_interval("4m").is_err()); // below min
    assert!(parse_interval("8d").is_err()); // above max
    assert!(parse_interval("3x").is_err()); // bad unit
    assert!(parse_interval("0m").is_err()); // zero
    assert!(parse_interval("").is_err()); // empty
    assert!(parse_interval("h").is_err()); // no digits
}

#[test]
fn test_format_api_date() {
    let dt = wall("202505151430");
    assert_eq!(format_api_date(dt), "202505151430");
}

#[test]
fn parse_interval_edge_cases() {
    assert_eq!(parse_interval("+5m").ok().unwrap(), Span::minutes(5));
    assert_eq!(parse_interval("168h").ok().unwrap(), Span::days(7));
    assert!(parse_interval("169h").is_err());
    assert!(parse_interval("10080m").is_ok());
    assert!(parse_interval("10081m").is_err());
    assert!(parse_interval("-5m").is_err());
    assert!(parse_interval(" 5m").is_err());
    assert!(parse_interval("5M").is_err());
    assert_eq!(
        parse_interval("99999999999999999999h").err().unwrap().message(),
        "Invalid interval '99999999999999999999h': must be like 5m, 2h, 1d (units: m/h/d, min 5m, max 7d)"
    );
    // counts far beyond seven days are refused, however large
    assert!(parse_interval("18446744073709551611m").is_err());
    assert!(parse_interval("18446744073709551615m").is_err());
    assert!(parse_interval("9223372036854775808m").is_err());
}

#[test]
fn odd_intervals_are_refused() {
    for text in ["5é", "é", "5µm", "153722867280913m", "99999999999999999h", "10081m", "8d", "３m"] {
        assert_eq!(
            parse_interval(text).err().unwrap().message(),
            format!(
                "Invalid interval '{}': must be like 5m, 2h, 1d (units: m/h/d, min 5m, max 7d)",
                text
            )
        );
    }
}

#[test]
fn validate_reports_earlier_errors_before_a_bad_interval() {
    let mut cfg = config(Some("202505150600"), Some("202505151200"));
    cfg.query_type = "hourly".to_string();
    cfg.interval = "5é".to_string();
    assert_eq!(
        cfg.validate().err().unwrap().message(),
        "Invalid value 'hourly' for --type. Possible values: current, cur, range"
    );
    cfg.query_type = "RANGE".to_string();
    assert_eq!(
        cfg.validate().err().unwrap().message(),
        "Invalid interval '5é': must be like 5m, 2h, 1d (units: m/h/d, min 5m, max 7d)"
    );
}

#[test]
fn validate_at_with_explicit_dates() {
    let cfg = config(Some("202505150600"), Some("202505151200"));
    let v = cfg.validate_at(NOW, NOW).ok().unwrap();
    assert_eq!(v.query_type, QueryType::Range);
    assert_eq!(v.format, OutputFormat::Csv);
    assert!(!v.average);
    assert_eq!(v.interval, Span::hours(1));
    assert_eq!(v.start_naive, wall("202505150600"));
    assert_eq!(v.end_naive, wall("202505151200"));
    // CDT is five hours behind UTC
    assert_eq!(v.start_utc, wall("202505151100"));
    assert_eq!(v.end_utc, wall("202505151700"));
    assert_eq!(v.base_url, "https://hourlypricing.comed.com");
}

#[test]
fn validate_at_defaults_to_the_last_day() {
    let cfg = config(None, None);
    let v = cfg.validate_at(NOW, NOW).ok().unwrap();
    // 12:00 UTC is 07:00 CDT
    assert_eq!(v.end_naive, Timestamp { secs: wall("202505150700").secs, nanos: 123 });
    assert_eq!(v.start_naive, Timestamp { secs: wall("202505140700").secs, nanos: 123 });
    assert_eq!(v.end_utc, NOW);
}

#[test]
fn validate_at_uses_fallback_in_dst_gap() {
    // 02:30 on 2025-03-09 does not exist in US Central time
    let cfg = config(Some("202503090230"), Some("202503091200"));
    let fallback = Timestamp { secs: 42, nanos: 7 };
    let v = cfg.validate_at(NOW, fallback).ok().unwrap();
    assert_eq!(v.start_utc, fallback);
    assert_eq!(v.end_utc, wall("202503091700"));
}

#[test]
fn validate_at_picks_earliest_in_dst_overlap() {
    // 01:30 on 2025-11-02 occurs twice; the earlier one is CDT (UTC-5)
    let cfg = config(Some("202511020130"), Some("202511021200"));
    let v = cfg.validate_at(NOW, NOW).ok().unwrap();
    assert_eq!(v.start_utc, wall("202511020630"));
}

#[test]
fn validate_at_reports_errors_in_order() {
    let mut cfg = config(Some("bad"), Some("202505151200"));
    cfg.query_type = "Hourly".to_string();
    cfg.average = "maybe".to_string();
    assert_eq!(
        cfg.validate_at(NOW, NOW).err().unwrap().message(),
        "Invalid value 'hourly' for --type. Possible values: current, cur, range"
    );
    cfg.query_type = "CUR".to_string();
    assert_eq!(
        cfg.validate_at(NOW, NOW).err().unwrap().message(),
        "Invalid value 'maybe' for --average. Possible values: y, n"
    );
    cfg.average = "Yes".to_string();
    cfg.format = "XML".to_string();
    assert_eq!(
        cfg.validate_at(NOW, NOW).err().unwrap().message(),
        "Invalid value 'xml' for --format. Possible values: text, json, yaml, csv"
    );
    cfg.format = "Text".to_string();
    assert_eq!(
        cfg.validate_at(NOW, NOW).err().unwrap().message(),
        "Invalid date format 'bad': expected YYYYMMDDhhmm (e.g. 202505151430)"
    );
    cfg.start = Some("202505151200".to_string());
    assert_eq!(cfg.validate_at(NOW, NOW).err().unwrap().message(), "--start must be before --end");
    cfg.start = Some("202505151100".to_string());
    cfg.interval = "4m".to_string();
    assert_eq!(
        cfg.validate_at(NOW, NOW).err().unwrap().message(),
        "Invalid interval '4m': must be like 5m, 2h, 1d (units: m/h/d, min 5m, max 7d)"
    );
    cfg.interval = "5m".to_string();
    let v = cfg.validate_at(NOW, NOW).ok().unwrap();
    assert_eq!(v.query_type, QueryType::Current);
    assert!(v.average);
    assert_eq!(v.format, OutputFormat::Text);
}

#[test]
fn validate_trims_trailing_slashes() {
    let mut cfg = config(Some("202505150600"), Some("202505151200"));
    cfg.base_url = "http://localhost:8080///".to_string();
    let v = cfg.validate_at(NOW, NOW).ok().unwrap();
    assert_eq!(v.base_url, "http://localhost:8080");
    cfg.base_url = "/".to_string();
    assert_eq!(cfg.validate_at(NOW, NOW).ok().unwrap().base_url, "");
}

#[test]
fn validate_against_the_clock() {
    let cfg = config(None, None);
    let v = cfg.validate().ok().unwrap();
    assert!(v.start_naive.is_before(&v.end_naive));
    let d = v.end_naive.since(&v.start_naive);
    assert_eq!(d, Span::hours(24));
}

fn days_from_civil(y: i64, m: i64, d: i64) -> i64 {
    let yy = if m <= 2 { y - 1 } else { y };
    let era = yy.div_euclid(400);
    let yoe = yy - era * 400;
    let mp = if m > 2 { m - 3 } else { m + 9 };
    let doy = (153 * mp + 2) / 5 + d - 1;
    let doe = yoe * 365 + yoe / 4 - yoe / 100 + doy;
    era * 146097 + doe - 719468
}

#[test]
fn api_dates_parse_to_their_calendar_reading_and_back() {
    for (text, y, m, d, h, mi) in [
        ("202402290000", 2024, 2, 29, 0, 0),
        ("000001010000", 0, 1, 1, 0, 0),
        ("999912312359", 9999, 12, 31, 23, 59),
        ("190003010101", 1900, 3, 1, 1, 1),
        ("200002291200", 2000, 2, 29, 12, 0),
    ] {
        let cfg = config(Some(text), Some("999912312359"));
        let end_is_start = text == "999912312359";
        let expected = days_from_civil(y, m, d) * 86400 + h * 3600 + mi * 60;
        if end_is_start {
            let cfg2 = config(Some("000001010000"), Some(text));
            let v = cfg2.validate_at(NOW, NOW).ok().unwrap();
            assert_eq!(v.end_naive, Timestamp { secs: expected, nanos: 0 });
            assert_eq!(format_api_date(v.end_naive), text);
        } else {
            let v = cfg.validate_at(NOW, NOW).ok().unwrap();
            assert_eq!(v.start_naive, Timestamp { secs: expected, nanos: 0 });
            assert_eq!(format_api_date(v.start_naive), text);
        }
    }
}

#[test]
fn impossible_api_dates_are_refused() {
    for text in ["202302290000", "190002290000", "202513010000", "202500010000", "202504310000", "202505152400", "202505151260", "202505150000x"] {
        let cfg = config(Some(text), Some("999912312359"));
        assert_eq!(
            cfg.validate_at(NOW, NOW).err().unwrap().message(),
            format!("Invalid date format '{}': expected YYYYMMDDhhmm (e.g. 202505151430)", text)
        );
    }
}

#[test]
fn formatting_then_reading_a_minute_gives_it_back() {
    for secs in [0i64, -62_167_219_200, 253_402_300_740, 1_747_310_400, 951_782_400, -2_208_988_800] {
        let dt = Timestamp { secs, nanos: 0 };
        let text = format_api_date(dt);
        assert_eq!(text.len(), 12);
        let cfg = config(Some(&text), Some("999912312359"));
        let v = cfg.validate_at(NOW, NOW);
        if text == "999912312359" {
            assert!(v.is_err());
        } else {
            assert_eq!(v.ok().unwrap().start_naive, dt);
        }
    }
    // within a minute, the text names the minute
    assert_eq!(format_api_date(Timestamp { secs: 1_747_310_459, nanos: 999_999_999 }), "202505151200");
}
