use orderbook_combiner::decimal::parse_decimal;
use orderbook_combiner::models::{parse_level, parse_levels, parse_offer, LevelRecord, OfferData};

#[test]
fn parses_eight_decimal_prices() {
    assert_eq!(parse_decimal("0.06812000"), Some(6_812_000));
    assert_eq!(parse_decimal("1"), Some(100_000_000));
    assert_eq!(parse_decimal("12.5"), Some(1_250_000_000));
    assert_eq!(parse_decimal("0.00000001"), Some(1));
    assert_eq!(parse_decimal("007.10"), Some(710_000_000));
    assert_eq!(parse_decimal("30123.45"), Some(3_012_345_000_000));
    assert_eq!(parse_decimal("1."), Some(100_000_000));
    assert_eq!(parse_decimal(".5"), Some(50_000_000));
    assert_eq!(parse_decimal("+2.25"), Some(225_000_000));
    assert_eq!(parse_decimal("+.5"), Some(50_000_000));
}

#[test]
fn refuses_malformed_text() {
    assert_eq!(parse_decimal(""), None);
    assert_eq!(parse_decimal("."), None);
    assert_eq!(parse_decimal("+"), None);
    assert_eq!(parse_decimal("++1"), None);
    assert_eq!(parse_decimal("+-1"), None);
    assert_eq!(parse_decimal("1+"), None);
    assert_eq!(parse_decimal("1.123456789"), None);
    assert_eq!(parse_decimal("abc"), None);
    assert_eq!(parse_decimal("1.2.3"), None);
    assert_eq!(parse_decimal("-1"), None);
    assert_eq!(parse_decimal("1e5"), None);
    assert_eq!(parse_decimal(" 1"), None);
}

#[test]
fn refuses_values_past_u64() {
    assert_eq!(parse_decimal("184467440737.09551615"), Some(u64::MAX));
    assert_eq!(parse_decimal("184467440737.09551616"), None);
    assert_eq!(parse_decimal("184467440738"), None);
    assert_eq!(parse_decimal("99999999999999999999999"), None);
}

#[test]
fn parses_level_entries() {
    let entry = vec!["0.06812000".to_string(), "12.5".to_string(), "3".to_string()];
    assert_eq!(parse_level(&entry), Some(LevelRecord { price: 6_812_000, quantity: 1_250_000_000 }));
    let entry = vec!["0.06812000".to_string(), "12.5".to_string(), "x".to_string()];
    assert_eq!(parse_level(&entry), None);
    assert_eq!(parse_level(&vec!["1".to_string()]), None);
    assert_eq!(parse_level(&vec!["1".to_string(), "x".to_string()]), None);

    let entries = vec![
        vec!["2".to_string(), "0.5".to_string()],
        vec!["1".to_string(), "0".to_string()],
    ];
    let levels = parse_levels(&entries).unwrap();
    assert_eq!(
        levels,
        vec![
            LevelRecord { price: 200_000_000, quantity: 50_000_000 },
            LevelRecord { price: 100_000_000, quantity: 0 },
        ]
    );
    let bad = vec![vec!["2".to_string(), "0.5".to_string()], vec!["oops".to_string(), "1".to_string()]];
    assert!(parse_levels(&bad).is_none());
    assert_eq!(parse_levels(&vec![]), Some(vec![]));
}

#[test]
fn parses_offers() {
    assert_eq!(parse_offer("0.5", "3"), Some(OfferData { price: 50_000_000, size: 300_000_000 }));
    assert_eq!(parse_offer("0.5", ""), None);
    assert_eq!(parse_offer("x", "3"), None);
}
