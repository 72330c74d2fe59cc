use price_monitor::fetch::{parse_price, FetchError};

#[test]
fn parse_price_reads_yen_with_separator() {
    assert_eq!(parse_price("\u{a5}2,980"), Ok(2980));
}

#[test]
fn parse_price_reads_plain_number() {
    assert_eq!(parse_price("1000"), Ok(1000));
}

#[test]
fn parse_price_skips_everything_but_digits() {
    assert_eq!(parse_price("about 12,345 yen today"), Ok(12345));
}

#[test]
fn parse_price_without_digits_is_unparseable() {
    assert_eq!(parse_price("no price here!"), Err(FetchError::PriceUnparseable));
    assert_eq!(parse_price(""), Err(FetchError::PriceUnparseable));
}

#[test]
fn parse_price_at_the_integer_limit() {
    assert_eq!(parse_price("2147483647"), Ok(i32::MAX));
    assert_eq!(parse_price("2147483648"), Err(FetchError::PriceUnparseable));
    assert_eq!(parse_price("99999999999999999999"), Err(FetchError::PriceUnparseable));
}

#[test]
fn parse_price_keeps_leading_zeros_harmless() {
    assert_eq!(parse_price("\u{a5}0,042"), Ok(42));
}
