//! Formatting of values, timestamps and payload bytes.
use can_decoder::formats::{format_data_hex, format_elapsed_time, format_timestamp, format_value};
use can_decoder::types::{FlagValue, FloatValue, Numeric};

fn float(v: f64) -> Numeric {
    Numeric::Float(FloatValue { bits: v.to_bits(), shortest: format!("{}", v), fixed4: format!("{:.4}", v) })
}

#[test]
fn test_format_value_int() {
    assert_eq!(format_value(&Numeric::Int(42)), "42");
    assert_eq!(format_value(&Numeric::Int(-17)), "-17");
}

#[test]
fn test_format_value_float() {
    assert_eq!(format_value(&float(3.14159)), "3.1416");
    assert_eq!(format_value(&float(0.25)), "0.2500");
}

#[test]
fn test_format_value_hex() {
    assert_eq!(format_value(&Numeric::Hex(0xDEADBEEF)), "0xDEADBEEF");
    assert_eq!(format_value(&Numeric::Hex(0xFF)), "0xFF");
}

#[test]
fn test_format_value_bool() {
    assert_eq!(format_value(&Numeric::Bool(true)), "true");
    assert_eq!(format_value(&Numeric::Bool(false)), "false");
}

#[test]
fn test_format_value_flag() {
    assert_eq!(format_value(&Numeric::Flag(FlagValue::On)), "ON");
    assert_eq!(format_value(&Numeric::Flag(FlagValue::Off)), "OFF");
    assert_eq!(format_value(&Numeric::Flag(FlagValue::Error)), "ERR");
    assert_eq!(format_value(&Numeric::Flag(FlagValue::Unavailable)), "N/A");
}

#[test]
fn test_format_timestamp() {
    assert_eq!(format_timestamp(0), "0.000000");
    assert_eq!(format_timestamp(1_000_000), "1.000000");
    assert_eq!(format_timestamp(1_500_000), "1.500000");
    assert_eq!(format_timestamp(1234567890_123456), "1234567890.123456");
}

#[test]
fn test_format_elapsed_time() {
    let start = 1_000_000;
    assert_eq!(format_elapsed_time(1_000_000, Some(start)), "0.000");
    assert_eq!(format_elapsed_time(2_000_000, Some(start)), "1.000");
    assert_eq!(format_elapsed_time(1_500_000, Some(start)), "0.500");
    assert_eq!(format_elapsed_time(3_750_000, Some(start)), "2.750");
    assert_eq!(format_elapsed_time(500_000, Some(start)), "0.000");
    assert_eq!(format_elapsed_time(1_000_000, None), "0.000");
}

#[test]
fn test_format_data_hex() {
    assert_eq!(format_data_hex(&[]), "");
    assert_eq!(format_data_hex(&[0xAB]), "AB");
    assert_eq!(format_data_hex(&[0x01, 0x23, 0x45]), "01 23 45");
    assert_eq!(format_data_hex(&[0xFF; 8]), "FF FF FF FF FF FF FF FF");
    assert_eq!(format_data_hex(&[0xFF; 9]), "FF FF FF FF FF FF FF FF ...");
    let mut repeated: Vec<u8> = Vec::new();
    for _ in 0..5 {
        repeated.extend_from_slice(&[0xDE, 0xAD, 0xBE, 0xEF]);
    }
    assert_eq!(format_data_hex(&repeated), "DE AD BE EF DE AD BE EF ...");
}
