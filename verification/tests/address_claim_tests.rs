//! The Address Claimed parameter group: NAME fields.
use can_decoder::pgn_decoders::j1939::address_claim::{AddressClaimDecoder, NameTitles, ADDRESS_CLAIMED_PGN};
use can_decoder::types::{DecodeContext, DecodeError, DecodedField, FlagValue, Numeric};

fn no_titles() -> NameTitles {
    NameTitles { industry_group: None, vehicle_system: None, function: None, manufacturer: None }
}

fn make_dummy_context(src_addr: u8) -> DecodeContext {
    DecodeContext {
        pgn: ADDRESS_CLAIMED_PGN,
        priority: 7,
        src_addr,
        dest_addr: 0xFF,
        src_name: None,
        dest_name: None,
        timestamp: 1_000_000,
    }
}

// ========================================================================
// NAME Parsing Tests
// ========================================================================

#[test]
fn test_parse_name_valid() {
    let payload = vec![0x6e, 0x83, 0x0d, 0x46, 0x00, 0x3e, 0x00, 0x80];
    let name = AddressClaimDecoder::parse_name(&payload).unwrap();

    assert_eq!(name.raw(), 0x8000_3e00_460d_836e);
    assert_eq!(name.identity(), 885614);
    assert_eq!(name.manufacturer(), 560);
    assert_eq!(name.ecu_instance(), 0);
    assert_eq!(name.function_instance(), 0);
    assert_eq!(name.function(), 62);
    assert_eq!(name.vehicle_system(), 0);
    assert_eq!(name.vehicle_system_instance(), 0);
    assert_eq!(name.industry_group(), 0);
    assert!(name.self_configurable());
}

#[test]
fn test_parse_name_too_short() {
    let payload = vec![0x6e, 0x83, 0x0d];
    let result = AddressClaimDecoder::parse_name(&payload);
    assert!(result.is_err());
    match result.unwrap_err() {
        DecodeError::InvalidLength {
            expected: 8,
            found: 3,
        } => {}
        other => panic!("Expected InvalidLength(8,3), got {:?}", other),
    }
}

#[test]
fn test_parse_name_empty() {
    let payload = Vec::<u8>::new();
    let result = AddressClaimDecoder::parse_name(&payload);
    assert!(result.is_err());
    match result.unwrap_err() {
        DecodeError::InvalidLength {
            expected: 8,
            found: 0,
        } => {}
        other => panic!("Expected InvalidLength(8,0), got {:?}", other),
    }
}

#[test]
fn test_parse_name_seven_bytes() {
    let payload = vec![0x6e, 0x83, 0x0d, 0x46, 0x00, 0x3e, 0x00];
    let result = AddressClaimDecoder::parse_name(&payload);
    assert!(result.is_err());
    match result.unwrap_err() {
        DecodeError::InvalidLength {
            expected: 8,
            found: 7,
        } => {}
        other => panic!("Expected InvalidLength(8,7), got {:?}", other),
    }
}

// ========================================================================
// ComplexDecoder Trait Integration Tests
// ========================================================================

#[test]
fn test_decode_address_claim() {
    let mut decoder = AddressClaimDecoder::new();
    let context = make_dummy_context(0x20);
    let payload = vec![0x6e, 0x83, 0x0d, 0x46, 0x00, 0x3e, 0x00, 0x80];

    let result = decoder.decode_with_titles(&context, &payload, &no_titles()).unwrap();
    assert!(result.is_some());
    let msg = result.unwrap();

    assert_eq!(msg.title, "Address Claim");
    assert!(msg.outputs.len() >= 9);

    // Check Industry Group output
    match &msg.outputs[0] {
        DecodedField::Value { title, value, .. } => {
            assert_eq!(title, "Industry Group");
            assert_eq!(*value, Numeric::Int(0i64));
        }
        _ => panic!("Expected Industry Group Value"),
    }

    // Check Manufacturer ID output
    let mfr_idx = msg.outputs.iter().position(|o| match o {
        DecodedField::Value { title, .. } => title == "Manufacturer ID",
        _ => false,
    });
    assert!(mfr_idx.is_some());
    if let Some(idx) = mfr_idx {
        match &msg.outputs[idx] {
            DecodedField::Value { value, .. } => {
                assert_eq!(*value, Numeric::Int(560i64));
            }
            _ => panic!("Expected Manufacturer ID Value"),
        }
    }

    // Check Identity output
    let identity_idx = msg.outputs.iter().position(|o| match o {
        DecodedField::Value { title, .. } => title == "Identity",
        _ => false,
    });
    assert!(identity_idx.is_some());
    if let Some(idx) = identity_idx {
        match &msg.outputs[idx] {
            DecodedField::Value { value, .. } => {
                assert_eq!(*value, Numeric::Int(885614i64));
            }
            _ => panic!("Expected Identity Value"),
        }
    }

    // Check Raw NAME output (8 bytes in little-endian order)
    let raw_idx = msg.outputs.iter().position(|o| match o {
        DecodedField::Value { title, .. } => title == "Raw NAME",
        _ => false,
    });
    assert!(raw_idx.is_some());
    if let Some(idx) = raw_idx {
        match &msg.outputs[idx] {
            DecodedField::Value { value, .. } => {
                assert_eq!(*value, Numeric::Hex(0x6E830D46003E0080));
            }
            _ => panic!("Expected Raw NAME Value"),
        }
    }

    // Check manufacturer lookup string message exists (MFR 560 = Danfoss)
    let mfr_str_idx = msg.outputs.iter().position(|o| match o {
        DecodedField::StringMessage { text, .. } => {
            text.contains("Danfoss") || text.contains("560")
        }
        _ => false,
    });
    // MFR ID 560 is beyond u8 range for lookup table, so string message may not exist
    let _ = mfr_str_idx;
}

#[test]
fn test_decode_address_claim_non_configurable() {
    let mut decoder = AddressClaimDecoder::new();
    let context = make_dummy_context(0x30);
    // Non-self-configurable NAME (bit 63 = 0)
    let payload = vec![0x6e, 0x83, 0x0d, 0x46, 0x00, 0x3e, 0x00, 0x00];

    let result = decoder.decode_with_titles(&context, &payload, &no_titles()).unwrap();
    assert!(result.is_some());
    let msg = result.unwrap();

    // Check Self Configurable flag is Off (it's the first Flag output)
    let sc_idx = msg.outputs.iter().position(|o| {
        matches!(
            o,
            DecodedField::Value {
                value: Numeric::Flag(..),
                ..
            }
        )
    });
    assert!(sc_idx.is_some());
    if let Some(idx) = sc_idx {
        match &msg.outputs[idx] {
            DecodedField::Value {
                value: Numeric::Flag(value),
                ..
            } => {
                assert_eq!(*value, FlagValue::Off);
            }
            _ => panic!("Expected Self Configurable Flag"),
        }
    }
}

#[test]
fn test_decode_address_claim_all_on() {
    let mut decoder = AddressClaimDecoder::new();
    let context = make_dummy_context(0x40);
    // All bits set except reserved (bit 63 is self_configurable, so all on means SC=true)
    let payload = vec![0xFF, 0xFF, 0xFF, 0xFF, 0xFF, 0xFF, 0xFE, 0xFF];

    let result = decoder.decode_with_titles(&context, &payload, &no_titles()).unwrap();
    assert!(result.is_some());
    let msg = result.unwrap();

    // Check Self Configurable flag is On (it's the first Flag output)
    let sc_idx = msg.outputs.iter().position(|o| {
        matches!(
            o,
            DecodedField::Value {
                value: Numeric::Flag(..),
                ..
            }
        )
    });
    assert!(sc_idx.is_some());
    if let Some(idx) = sc_idx {
        match &msg.outputs[idx] {
            DecodedField::Value {
                value: Numeric::Flag(value),
                ..
            } => {
                assert_eq!(*value, FlagValue::On);
            }
            _ => panic!("Expected Self Configurable Flag"),
        }
    }

    // Check manufacturer lookup string message exists (MFR 560 = Danfoss)
    let mfr_str_idx = msg.outputs.iter().position(|o| match o {
        DecodedField::StringMessage { text, .. } => {
            text.contains("Danfoss") || text.contains("560")
        }
        _ => false,
    });
    // MFR ID 560 is beyond u8 range for lookup table, so string message may not exist
    let _ = mfr_str_idx;
}

#[test]
fn test_decode_address_claim_short_payload() {
    let mut decoder = AddressClaimDecoder::new();
    let context = make_dummy_context(0x20);
    let payload = vec![0x6e, 0x83, 0x0d];

    let result = decoder.decode_with_titles(&context, &payload, &no_titles());
    assert!(result.is_err());
    match result.unwrap_err() {
        DecodeError::InvalidLength {
            expected: 8,
            found: 3,
        } => {}
        other => panic!("Expected InvalidLength(8,3), got {:?}", other),
    }
}

#[test]
fn test_decoder_tracks_claims() {
    let mut decoder = AddressClaimDecoder::new();
    let context1 = make_dummy_context(0x20);
    let payload = vec![0x6e, 0x83, 0x0d, 0x46, 0x00, 0x3e, 0x00, 0x80];

    decoder.decode_with_titles(&context1, &payload, &no_titles()).unwrap();

    let context2 = make_dummy_context(0x30);
    decoder.decode_with_titles(&context2, &payload, &no_titles()).unwrap();

    assert_eq!(decoder.last_claimed().len(), 2);
    assert_eq!(decoder.last_claimed()[0], 0x20);
    assert_eq!(decoder.last_claimed()[1], 0x30);
}

#[test]
fn test_address_claim_pgn_constant() {
    assert_eq!(ADDRESS_CLAIMED_PGN, 0x0EE00);
    assert_eq!(ADDRESS_CLAIMED_PGN, 60928u32);
}
