use cep::api::ApiEntry;
use cep::bucket::{
    bucket_by_interval, bucketing_is_defined, parse_entries, sort_by_time, Bucket, PricePoint,
};
use cep::time::{Span, Timestamp, MAX_SECS, MIN_SECS};

fn stamp_of_millis(millis: i64) -> Timestamp {
    let secs = millis / 1000;
    let nanos = ((millis % 1000) * 1_000_000) as u32;
    Timestamp { secs, nanos }
}

fn make_point(millis: i64, price: f64) -> PricePoint<f64> {
    PricePoint { timestamp: stamp_of_millis(millis), price }
}

fn entry(millis: &str, price: &str) -> ApiEntry {
    ApiEntry { millis_utc: millis.to_string(), price: price.to_string() }
}

fn prices_of(raw: &[ApiEntry]) -> Vec<Option<f64>> {
    raw.iter().map(|e| e.price.parse::<f64>().ok()).collect()
}

fn average(b: &Bucket<f64>) -> f64 {
    if b.prices.is_empty() {
        0.0
    } else {
        let sum: f64 = b.prices.iter().sum();
        sum / b.prices.len() as f64
    }
}

fn secs(s: i64) -> Timestamp {
    Timestamp { secs: s, nanos: 0 }
}

#[test]
fn test_parse_entries() {
    let raw = vec![entry("1000000000000", "2.5"), entry("999999999000", "3.0")];
    let prices = prices_of(&raw);
    let points = parse_entries(raw, prices).ok().unwrap();
    assert_eq!(points.len(), 2);
    // sorted ascending
    assert!(points[0].timestamp.is_before(&points[1].timestamp));
    assert_eq!(points[0].price, 3.0);
    assert_eq!(points[1].price, 2.5);
}

#[test]
fn test_bucket_by_interval_two_buckets() {
    // 4 points spread over 2 hours, bucket by 1h → 2 buckets of 2 each
    let base_ms: i64 = 1_700_000_000_000;
    let hour_ms = 3_600_000i64;
    let points = vec![
        make_point(base_ms, 1.0),
        make_point(base_ms + 1800_000, 3.0),
        make_point(base_ms + hour_ms, 5.0),
        make_point(base_ms + hour_ms + 1800_000, 7.0),
    ];
    let start = secs(base_ms / 1000);
    let end = secs((base_ms + 2 * hour_ms) / 1000);
    let buckets = bucket_by_interval(&points, start, end, Span::hours(1));
    assert_eq!(buckets.len(), 2);
    assert_eq!(buckets[0].count, 2);
    assert_eq!(average(&buckets[0]), 2.0);
    assert_eq!(buckets[1].count, 2);
    assert_eq!(average(&buckets[1]), 6.0);
}

#[test]
fn test_bucket_interval_larger_than_range() {
    let points = vec![make_point(0, 4.0), make_point(60_000, 6.0)];
    let start = secs(0);
    let end = secs(120);
    let buckets = bucket_by_interval(&points, start, end, Span::hours(1));
    assert_eq!(buckets.len(), 1);
    assert_eq!(average(&buckets[0]), 5.0);
    assert_eq!(buckets[0].count, 2);
}

#[test]
fn parse_entries_refuses_bad_millis_first() {
    let raw = vec![entry("1000", "1.0"), entry("12x", "oops"), entry("-1", "2.0")];
    let prices = prices_of(&raw);
    let err = parse_entries(raw, prices).err().unwrap();
    assert_eq!(err.message(), "API error: invalid millisUTC: 12x");
}

#[test]
fn parse_entries_refuses_bad_price() {
    let raw = vec![entry("1000", "1.0"), entry("2000", "abc")];
    let prices = prices_of(&raw);
    let err = parse_entries(raw, prices).err().unwrap();
    assert_eq!(err.message(), "API error: invalid price: abc");
}

#[test]
fn parse_entries_refuses_negative_millis_with_remainder() {
    // -1 ms splits into 0 s and a negative remainder that wraps to an
    // invalid nanosecond count.
    let raw = vec![entry("-1", "1.0")];
    let prices = prices_of(&raw);
    let err = parse_entries(raw, prices).err().unwrap();
    assert_eq!(err.message(), "API error: invalid timestamp: -1");
}

#[test]
fn parse_entries_accepts_negative_whole_seconds_and_plus_sign() {
    let raw = vec![entry("+5000", "1.5"), entry("-2000", "2.5")];
    let prices = prices_of(&raw);
    let points = parse_entries(raw, prices).ok().unwrap();
    assert_eq!(points[0].timestamp, secs(-2));
    assert_eq!(points[1].timestamp, Timestamp { secs: 5, nanos: 0 });
    assert_eq!(points[0].price, 2.5);
}

#[test]
fn parse_entries_keeps_order_of_equal_times() {
    let raw = vec![entry("3000", "1"), entry("1500", "2"), entry("3000", "3"), entry("1500", "4")];
    let prices = prices_of(&raw);
    let points = parse_entries(raw, prices).ok().unwrap();
    let got: Vec<f64> = points.iter().map(|p| p.price).collect();
    assert_eq!(got, vec![2.0, 4.0, 1.0, 3.0]);
    assert_eq!(points[0].timestamp, Timestamp { secs: 1, nanos: 500_000_000 });
}

#[test]
fn parse_entries_of_nothing_is_empty() {
    let points = parse_entries::<f64>(vec![], vec![]).ok().unwrap();
    assert!(points.is_empty());
}

#[test]
fn sort_by_time_of_descending_feed() {
    let points: Vec<PricePoint<f64>> =
        (0..50).map(|i| make_point((50 - i) * 300_000, i as f64)).collect();
    let sorted = sort_by_time(&points);
    for w in sorted.windows(2) {
        assert!(w[0].timestamp.is_before(&w[1].timestamp));
    }
    assert_eq!(sorted[0].price, 49.0);
}

#[test]
fn calendar_range_matches_chrono() {
    let last = (MAX_SECS * 1000 + 999).to_string();
    let past = (MAX_SECS * 1000 + 1000).to_string();
    let first = (MIN_SECS * 1000).to_string();
    let before = (MIN_SECS * 1000 - 1000).to_string();
    let raw = vec![entry(&last, "1"), entry(&first, "2")];
    let prices = prices_of(&raw);
    let points = parse_entries(raw, prices).ok().unwrap();
    assert_eq!(points[0].timestamp, secs(MIN_SECS));
    assert_eq!(points[1].timestamp, Timestamp { secs: MAX_SECS, nanos: 999_000_000 });
    let raw = vec![entry(&past, "1")];
    let prices = prices_of(&raw);
    assert_eq!(
        parse_entries(raw, prices).err().unwrap().message(),
        format!("API error: invalid timestamp: {}", past)
    );
    let raw = vec![entry(&before, "1")];
    let prices = prices_of(&raw);
    assert!(parse_entries(raw, prices).is_err());
}

#[test]
fn buckets_tile_range_with_short_last_bucket() {
    // points at 0, 10, 20, ..., 90 minutes; buckets of 25 minutes over [0, 70 min)
    let points: Vec<PricePoint<f64>> = (0..10).map(|i| make_point(i * 600_000, i as f64)).collect();
    let buckets = bucket_by_interval(&points, secs(0), secs(4200), Span::minutes(25));
    assert_eq!(buckets.len(), 3);
    assert_eq!(buckets[0].start, secs(0));
    assert_eq!(buckets[0].end, secs(1500));
    assert_eq!(buckets[1].start, secs(1500));
    assert_eq!(buckets[1].end, secs(3000));
    assert_eq!(buckets[2].start, secs(3000));
    assert_eq!(buckets[2].end, secs(4200));
    assert_eq!(buckets[0].prices, vec![0.0, 1.0, 2.0]);
    assert_eq!(buckets[1].prices, vec![3.0, 4.0]);
    assert_eq!(buckets[2].prices, vec![5.0, 6.0]);
    let total: usize = buckets.iter().map(|b| b.count).sum();
    assert_eq!(total, 7);
}

#[test]
fn empty_bucket_has_zero_count() {
    let points = vec![make_point(0, 1.0)];
    let buckets = bucket_by_interval(&points, secs(0), secs(7200), Span::hours(1));
    assert_eq!(buckets.len(), 2);
    assert_eq!(buckets[1].count, 0);
    assert_eq!(average(&buckets[1]), 0.0);
}

#[test]
fn reversed_range_gives_single_bucket_for_positive_interval() {
    let points = vec![make_point(0, 1.0), make_point(999_000_000, 3.0)];
    let buckets = bucket_by_interval(&points, secs(100), secs(50), Span::minutes(5));
    assert_eq!(buckets.len(), 1);
    assert_eq!(buckets[0].count, 2);
}

#[test]
fn reversed_range_with_more_negative_interval_gives_nothing() {
    let points = vec![make_point(0, 1.0)];
    let buckets = bucket_by_interval(&points, secs(100), secs(50), Span::minutes(-5));
    assert!(buckets.is_empty());
}

#[test]
fn sub_second_bounds_are_respected() {
    let points = vec![make_point(1_000, 1.0), make_point(1_500, 2.0), make_point(2_000, 3.0)];
    let start = Timestamp { secs: 1, nanos: 250_000_000 };
    let end = Timestamp { secs: 3, nanos: 0 };
    let buckets = bucket_by_interval(&points, start, end, Span { secs: 0, nanos: 750_000_000 });
    assert_eq!(buckets.len(), 3);
    assert_eq!(buckets[0].end, Timestamp { secs: 2, nanos: 0 });
    assert_eq!(buckets[0].prices, vec![2.0]);
    assert_eq!(buckets[1].prices, vec![3.0]);
    assert_eq!(buckets[2].start, Timestamp { secs: 2, nanos: 750_000_000 });
    assert_eq!(buckets[2].count, 0);
}

#[test]
fn bucketing_definedness() {
    assert!(bucketing_is_defined(secs(0), secs(7200), Span::hours(1)));
    assert!(bucketing_is_defined(secs(0), secs(60), Span::hours(1)));
    assert!(bucketing_is_defined(secs(100), secs(50), Span::minutes(-5)));
    assert!(!bucketing_is_defined(secs(0), secs(7200), Span::minutes(-5)));
    assert!(!bucketing_is_defined(secs(0), secs(7200), Span { secs: 0, nanos: 0 }));
    // the last window would end past the last representable instant
    assert!(!bucketing_is_defined(secs(MAX_SECS - 100), secs(MAX_SECS), Span::minutes(1)));
    assert!(bucketing_is_defined(secs(MAX_SECS - 120), secs(MAX_SECS - 60), Span { secs: 20, nanos: 0 }));
}
