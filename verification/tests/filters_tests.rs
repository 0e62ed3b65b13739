//! Filter expressions: parsing and address lists.
use can_decoder::filters::{parse_hex_or_dec_u8, FilterParser};




#[test]
fn test_numeric_filter_parser_hex_exact_values() {
    let filter = FilterParser::parse("numeric:RPM:144,0xfe");
    assert!(filter.is_ok());
    let f = filter.unwrap();
    assert_eq!(f.name(), "numeric_filter");
}

#[test]
fn test_numeric_filter_parser_hex_range() {
    let filter = FilterParser::parse("numeric:RPM:0x90-0xfe");
    assert!(filter.is_ok());
    let f = filter.unwrap();
    assert_eq!(f.name(), "numeric_filter");
}

#[test]
fn test_numeric_filter_parser_hex_min() {
    let filter = FilterParser::parse("numeric:RPM:>=0x90");
    assert!(filter.is_ok());
    let f = filter.unwrap();
    assert_eq!(f.name(), "numeric_filter");
}

#[test]
fn test_source_filter_parser_hex() {
    let filter = FilterParser::parse("source:144,0xfe");
    assert!(filter.is_ok());
    let f = filter.unwrap();
    assert_eq!(f.name(), "source_filter");
}

#[test]
fn test_dest_filter_parser_hex() {
    let filter = FilterParser::parse("dest:0x90,254");
    assert!(filter.is_ok());
    let f = filter.unwrap();
    assert_eq!(f.name(), "dest_filter");
}

#[test]
fn filters_test_parse_hex_or_dec_u8_decimal() {
    assert_eq!(parse_hex_or_dec_u8("144").unwrap(), 144);
    assert_eq!(parse_hex_or_dec_u8("255").unwrap(), 255);
}

#[test]
fn filters_test_parse_hex_or_dec_u8_hex() {
    assert_eq!(parse_hex_or_dec_u8("0x90").unwrap(), 144);
    assert_eq!(parse_hex_or_dec_u8("0xfe").unwrap(), 254);
    assert_eq!(parse_hex_or_dec_u8("0XFF").unwrap(), 255);
}

#[test]
fn filters_test_parse_hex_or_dec_u8_invalid() {
    assert!(parse_hex_or_dec_u8("300").is_err());
    assert!(parse_hex_or_dec_u8("abc").is_err());
}

#[test]
fn numeric_bounds_are_checked_when_parsed() {
    let msg = |e: &str| match FilterParser::parse(e) {
        Err(err) => err.to_display_string(),
        Ok(_) => String::from("ok"),
    };
    assert_eq!(msg("numeric:RPM:abc"), "invalid numeric value: abc");
    assert_eq!(msg("numeric:RPM:0x1G"), "invalid digit found in string");
    assert_eq!(msg("numeric:RPM:1,,2"), "invalid numeric value: ");
    assert_eq!(msg("numeric:RPM:1.5e3-2E-1"), "ok");
    assert_eq!(msg("numeric:RPM:>=inf"), "ok");
    assert_eq!(msg("numeric:RPM:<=-.5"), "ok");
    assert_eq!(msg("numeric:RPM:1e"), "invalid numeric value: 1e");
}
