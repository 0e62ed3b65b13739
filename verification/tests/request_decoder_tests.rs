//! The Request parameter group.
use can_decoder::pgn_decoders::j1939::request_decoder::{RequestDecoder, REQUEST_PGN};
use can_decoder::types::{DecodeContext, DecodeError, DecodedField, Numeric};

fn make_dummy_context() -> DecodeContext {
    DecodeContext {
        pgn: REQUEST_PGN,
        priority: 6,
        src_addr: 0x20,
        dest_addr: 0xFF,
        src_name: None,
        dest_name: None,
        timestamp: 1_000_000,
    }
}

// ========================================================================
// Payload Parsing Tests
// ========================================================================

#[test]
fn test_parse_payload_pgn_0ea00() {
    let payload = vec![0x00u8, 0xEA, 0x00]; // PGN 0xEA00 in little-endian
    let pgn = RequestDecoder::parse_payload(&payload).unwrap();
    assert_eq!(pgn, 0xEA00);
}

#[test]
fn test_parse_payload_pgn_0ec00() {
    let payload = vec![0x00u8, 0xEC, 0x00]; // PGN 0xEC00 in little-endian
    let pgn = RequestDecoder::parse_payload(&payload).unwrap();
    assert_eq!(pgn, 0xEC00);
}

#[test]
fn test_parse_payload_pgn_0cf00() {
    let payload = vec![0x00u8, 0xCF, 0x00]; // PGN 0xCF00 (Vehicle Speed)
    let pgn = RequestDecoder::parse_payload(&payload).unwrap();
    assert_eq!(pgn, 0xCF00);
}

#[test]
fn test_parse_payload_pgn_0000() {
    let payload = vec![0x00u8, 0x00, 0x00];
    let pgn = RequestDecoder::parse_payload(&payload).unwrap();
    assert_eq!(pgn, 0x0000);
}

#[test]
fn test_parse_payload_pgn_max_18bit() {
    // Max 18-bit PGN: 0x3FFFF = 0xFF, 0xFF, 0x03
    let payload = vec![0xFFu8, 0xFF, 0x03];
    let pgn = RequestDecoder::parse_payload(&payload).unwrap();
    assert_eq!(pgn, 0x3FFFF);
}

#[test]
fn request_decoder_test_parse_payload_too_short() {
    let payload = vec![0x00u8, 0xEA];
    let result = RequestDecoder::parse_payload(&payload);
    assert!(result.is_err());
    match result.unwrap_err() {
        DecodeError::InvalidLength {
            expected: 3,
            found: 2,
        } => {}
        other => panic!("Expected InvalidLength(3,2), got {:?}", other),
    }
}

#[test]
fn request_decoder_test_parse_payload_empty() {
    let payload = Vec::<u8>::new();
    let result = RequestDecoder::parse_payload(&payload);
    assert!(result.is_err());
    match result.unwrap_err() {
        DecodeError::InvalidLength {
            expected: 3,
            found: 0,
        } => {}
        other => panic!("Expected InvalidLength(3,0), got {:?}", other),
    }
}

#[test]
fn test_parse_payload_one_byte() {
    let payload = vec![0x00u8];
    let result = RequestDecoder::parse_payload(&payload);
    assert!(result.is_err());
    match result.unwrap_err() {
        DecodeError::InvalidLength {
            expected: 3,
            found: 1,
        } => {}
        other => panic!("Expected InvalidLength(3,1), got {:?}", other),
    }
}

// ========================================================================
// ComplexDecoder Trait Integration Tests
// ========================================================================

#[test]
fn test_decode_request_pgn() {
    let mut decoder = RequestDecoder::new();
    let context = make_dummy_context();
    let payload = vec![0x00u8, 0xEA, 0x00]; // PGN 0xEA00

    let result = decoder.decode_with_title(&payload, None).unwrap();
    assert!(result.is_some());
    let msg = result.unwrap();

    assert_eq!(msg.title, "Request");
    assert_eq!(msg.outputs.len(), 2);

    match &msg.outputs[0] {
        DecodedField::Value {
            title, value, unit, ..
        } => {
            assert_eq!(title, "Requested PGN");
            assert_eq!(*value, Numeric::Int(0xEA00i64));
            assert_eq!(unit.as_ref(), Some(&"PGN".to_string()));
        }
        _ => panic!("Expected Value for Requested PGN"),
    }

    match &msg.outputs[1] {
        DecodedField::StringMessage { text, .. } => {
            // Should contain the PGN title lookup or hex representation
            assert!(text.contains("0xEA00") || text.len() > 0);
        }
        _ => panic!("Expected StringMessage for PGN title"),
    }
}

#[test]
fn test_decode_request_address_claim_pgn() {
    let mut decoder = RequestDecoder::new();
    let context = make_dummy_context();
    let payload = vec![0x00u8, 0xEC, 0x00]; // PGN 0xEC00 (Address Claim)

    let result = decoder.decode_with_title(&payload, None).unwrap();
    assert!(result.is_some());
    let msg = result.unwrap();

    match &msg.outputs[1] {
        DecodedField::StringMessage { text, .. } => {
            // Address Claim should be looked up by iso11783_data
            assert!(!text.is_empty());
        }
        _ => panic!("Expected StringMessage"),
    }
}

#[test]
fn test_decode_short_payload_returns_error() {
    let mut decoder = RequestDecoder::new();
    let context = make_dummy_context();
    let payload = vec![0x00u8, 0xEA];

    let result = decoder.decode_with_title(&payload, None);
    assert!(result.is_err());
    match result.unwrap_err() {
        DecodeError::InvalidLength {
            expected: 3,
            found: 2,
        } => {}
        other => panic!("Expected InvalidLength(3,2), got {:?}", other),
    }
}

#[test]
fn test_decoder_tracks_requests() {
    let mut decoder = RequestDecoder::new();
    let context = make_dummy_context();

    // Decode request for PGN 0xEC00
    let payload_1 = vec![0x00u8, 0xEC, 0x00];
    decoder.decode_with_title(&payload_1, None).unwrap();

    // Decode request for PGN 0xEF00
    let payload_2 = vec![0x00u8, 0xEF, 0x00];
    decoder.decode_with_title(&payload_2, None).unwrap();

    assert_eq!(decoder.last_requests().len(), 2);
    assert_eq!(decoder.last_requests()[0], 0xEC00);
    assert_eq!(decoder.last_requests()[1], 0xEF00);
}

#[test]
fn test_request_pgn_constant() {
    assert_eq!(REQUEST_PGN, 0x0EA00);
    assert_eq!(REQUEST_PGN, 59904u32);
}
