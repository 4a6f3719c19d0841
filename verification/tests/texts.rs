use cep::api::{fetch_current, fetch_range};
use cep::error::CepError;
use cep::text::{format_i64, parse_i64, parse_u64};

#[test]
fn integers_parse_like_std() {
    for s in [
        "0", "+0", "-0", "42", "+42", "-42", "007", "9223372036854775807", "9223372036854775808",
        "-9223372036854775808", "-9223372036854775809", "", "+", "-", "+-1", "--1", " 1", "1 ",
        "1_000", "١", "18446744073709551615", "18446744073709551616",
    ] {
        assert_eq!(parse_i64(s), s.parse::<i64>().ok(), "i64 {:?}", s);
        assert_eq!(parse_u64(s), s.parse::<u64>().ok(), "u64 {:?}", s);
    }
}

#[test]
fn integers_format_like_std() {
    for n in [0i64, 7, -7, 10, 1_000_000_000_000, i64::MAX, i64::MIN, -1] {
        assert_eq!(format_i64(n), n.to_string());
        assert_eq!(parse_i64(&format_i64(n)), Some(n));
    }
}

#[test]
fn request_urls() {
    assert_eq!(
        fetch_current("https://hourlypricing.comed.com"),
        "https://hourlypricing.comed.com/api?type=currenthouraverage"
    );
    assert_eq!(
        fetch_range("http://h", "202505150600", "202505151200"),
        "http://h/api?type=5minutefeed&datestart=202505150600&dateend=202505151200"
    );
}

#[test]
fn error_messages() {
    assert_eq!(CepError::StartNotBeforeEnd.message(), "--start must be before --end");
    assert_eq!(CepError::Api("boom".to_string()).message(), "API error: boom");
    assert_eq!(CepError::Output("disk".to_string()).message(), "Output error: disk");
    assert_eq!(
        CepError::InvalidDateFormat { input: "x".to_string() }.message(),
        "Invalid date format 'x': expected YYYYMMDDhhmm (e.g. 202505151430)"
    );
    assert_eq!(
        CepError::InvalidOptionValue {
            option: "type".to_string(),
            value: "v".to_string(),
            possible: "a, b".to_string()
        }
        .message(),
        "Invalid value 'v' for --type. Possible values: a, b"
    );
}
