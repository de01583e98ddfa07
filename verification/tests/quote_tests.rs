use quotes_stream::decimal::{decimal_chars, parse_decimal_chars};
use quotes_stream::quote::{draw_volume, is_popular_ticker, volume_for, QuoteRecord};

fn record(ticker: &str, price: &str, volume: u32, timestamp: u64) -> QuoteRecord {
    QuoteRecord {
        ticker: ticker.to_string(),
        price: price.to_string(),
        volume,
        timestamp,
    }
}

fn chars(s: &str) -> Vec<char> {
    s.chars().collect()
}

#[test]
fn test_to_string() {
    let price: f64 = 0.123_f64;
    let quote = record("AAPL", &price.to_string(), 325, 3486970);
    assert_eq!(quote.to_line(), "AAPL|0.123|325|3486970".to_string());
}

#[test]
fn to_bytes_is_the_line_in_utf8() {
    let quote = record("AAPL", "0.123", 325, 3486970);
    assert_eq!(quote.to_bytes(), b"AAPL|0.123|325|3486970".to_vec());
    let quote = record("ÄPFEL", "1", 0, 0);
    assert_eq!(quote.to_bytes(), "ÄPFEL|1|0|0".as_bytes().to_vec());
}

#[test]
fn from_line_reads_the_four_fields() {
    let q = QuoteRecord::from_line("AAPL|0.123|325|3486970").unwrap();
    assert_eq!(q.ticker, "AAPL");
    assert_eq!(q.price, "0.123");
    assert_eq!(q.volume, 325);
    assert_eq!(q.timestamp, 3486970);
}

#[test]
fn from_line_reads_back_to_line() {
    let quote = record("TSLA", "101.5", u32::MAX, u64::MAX);
    let back = QuoteRecord::from_line(&quote.to_line()).unwrap();
    assert_eq!(back.ticker, quote.ticker);
    assert_eq!(back.price, quote.price);
    assert_eq!(back.volume, quote.volume);
    assert_eq!(back.timestamp, quote.timestamp);
}

#[test]
fn from_line_refuses_wrong_field_counts() {
    assert!(QuoteRecord::from_line("").is_none());
    assert!(QuoteRecord::from_line("AAPL|1.0|325").is_none());
    assert!(QuoteRecord::from_line("AAPL|1.0|325|7|9").is_none());
}

#[test]
fn from_line_refuses_bad_numbers() {
    assert!(QuoteRecord::from_line("AAPL|1.0|-1|7").is_none());
    assert!(QuoteRecord::from_line("AAPL|1.0|4294967296|7").is_none());
    assert!(QuoteRecord::from_line("AAPL|1.0|12|").is_none());
    assert!(QuoteRecord::from_line("AAPL|1.0|12|18446744073709551616").is_none());
    assert!(QuoteRecord::from_line("AAPL|1.0| 12|7").is_none());
}

#[test]
fn from_line_accepts_what_from_str_accepts() {
    let q = QuoteRecord::from_line("X|p|+12|007").unwrap();
    assert_eq!(q.volume, 12);
    assert_eq!(q.timestamp, 7);
    assert!(QuoteRecord::from_line("X|p|+|7").is_none());
}

#[test]
fn decimal_text_of_numbers() {
    assert_eq!(decimal_chars(0), chars("0"));
    assert_eq!(decimal_chars(3486970), chars("3486970"));
    assert_eq!(decimal_chars(u64::MAX), chars("18446744073709551615"));
}

#[test]
fn decimal_parse_limits() {
    assert_eq!(parse_decimal_chars(&chars("4294967295"), u32::MAX as u64), Some(4294967295));
    assert_eq!(parse_decimal_chars(&chars("4294967296"), u32::MAX as u64), None);
    assert_eq!(parse_decimal_chars(&chars(""), 10), None);
    assert_eq!(parse_decimal_chars(&chars("+"), 10), None);
    assert_eq!(parse_decimal_chars(&chars("1a"), 10), None);
    assert_eq!(parse_decimal_chars(&chars("+10"), 10), Some(10));
    assert_eq!(parse_decimal_chars(&chars("11"), 10), None);
}

#[test]
fn decimal_roundtrip_on_values() {
    for n in [0u64, 1, 9, 10, 99, 100, 65535, 4294967295, u64::MAX] {
        assert_eq!(parse_decimal_chars(&decimal_chars(n), u64::MAX), Some(n));
    }
}

#[test]
fn popular_tickers() {
    assert!(is_popular_ticker("AAPL"));
    assert!(is_popular_ticker("MSFT"));
    assert!(is_popular_ticker("TSLA"));
    assert!(!is_popular_ticker("GOOGL"));
    assert!(!is_popular_ticker("aapl"));
}

#[test]
fn volume_from_draws() {
    assert_eq!(volume_for("AAPL", 0), 1000);
    assert_eq!(volume_for("AAPL", 4999), 5999);
    assert_eq!(volume_for("GOOGL", 0), 100);
    assert_eq!(volume_for("GOOGL", 999), 1099);
}

#[test]
fn drawn_volumes_stay_in_range() {
    for _ in 0..200 {
        let v = draw_volume("MSFT");
        assert!((1000..6000).contains(&v));
        let w = draw_volume("AMZN");
        assert!((100..1100).contains(&w));
    }
}
