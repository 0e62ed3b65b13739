//! Task controller process data: payload fields and commands.
use can_decoder::pgn_decoders::iso11783::task_controller::{TaskCommand, TaskControllerDecoder, PROCESS_DATA_PGN};
use can_decoder::types::DecodeError;
use can_decoder::traits::ComplexDecoder;
use can_decoder::proprietary::ddi::canot::{is_proprietary, lookup, to_physical};

#[test]
fn test_parse_payload_element_10() {
    let payload = vec![0xA3, 0x00, 0x00, 0xE0, 0xB2, 0xB2, 0x88, 0x9B];
    let data = TaskControllerDecoder::parse_payload(&payload).unwrap();

    assert_eq!(data.command, TaskCommand::Value);
    assert_eq!(data.element_id, 10);
    assert_eq!(data.ddi, 0xE000);
    assert_eq!(data.value, -1685540174i32);
}

#[test]
fn test_parse_payload_element_11() {
    let payload = vec![0xB3, 0x00, 0x00, 0xE0, 0xB3, 0xB8, 0x7E, 0x9B];
    let data = TaskControllerDecoder::parse_payload(&payload).unwrap();

    assert_eq!(data.command, TaskCommand::Value);
    assert_eq!(data.element_id, 11);
    assert_eq!(data.ddi, 0xE000);
    assert_eq!(data.value, -1686193997i32);
}

#[test]
fn test_parse_payload_element_12() {
    let payload = vec![0xC3, 0x00, 0x00, 0xE0, 0x10, 0x12, 0x7E, 0x9B];
    let data = TaskControllerDecoder::parse_payload(&payload).unwrap();

    assert_eq!(data.command, TaskCommand::Value);
    assert_eq!(data.element_id, 12);
    assert_eq!(data.ddi, 0xE000);
    assert_eq!(data.value, -1686236656i32);
}

#[test]
fn test_parse_payload_element_13() {
    let payload = vec![0xD3, 0x00, 0x00, 0xE0, 0x5F, 0x99, 0x76, 0x9B];
    let data = TaskControllerDecoder::parse_payload(&payload).unwrap();

    assert_eq!(data.command, TaskCommand::Value);
    assert_eq!(data.element_id, 13);
    assert_eq!(data.ddi, 0xE000);
    assert_eq!(data.value, -1686726305i32);
}

#[test]
fn test_parse_payload_all_candump_frames() {
    let frames = [
        (vec![0xA3, 0x00, 0x00, 0xE0, 0xB2, 0xB2, 0x88, 0x9B], 10),
        (vec![0xB3, 0x00, 0x00, 0xE0, 0xB3, 0xB8, 0x7E, 0x9B], 11),
        (vec![0xC3, 0x00, 0x00, 0xE0, 0x10, 0x12, 0x7E, 0x9B], 12),
        (vec![0xD3, 0x00, 0x00, 0xE0, 0x5F, 0x99, 0x76, 0x9B], 13),
    ];

    for (payload, expected_elem) in &frames {
        let data = TaskControllerDecoder::parse_payload(payload).unwrap();
        assert_eq!(data.element_id, *expected_elem);
        assert_eq!(data.command, TaskCommand::Value);
        assert_eq!(data.ddi, 0xE000);
    }
}

// ========================================================================
// Short Payload Tests (6c.2)
// ========================================================================

#[test]
fn task_controller_test_parse_payload_too_short() {
    let payload = vec![0xA3, 0x00, 0x00];
    let result = TaskControllerDecoder::parse_payload(&payload);
    assert!(result.is_err());

    match result.unwrap_err() {
        DecodeError::InvalidLength { expected, found } => {
            assert_eq!(expected, 8);
            assert_eq!(found, 3);
        }
        _ => panic!("Expected InvalidLength error"),
    }
}

#[test]
fn task_controller_test_parse_payload_empty() {
    let payload = vec![];
    let result = TaskControllerDecoder::parse_payload(&payload);
    assert!(result.is_err());

    match result.unwrap_err() {
        DecodeError::InvalidLength { expected, found } => {
            assert_eq!(expected, 8);
            assert_eq!(found, 0);
        }
        _ => panic!("Expected InvalidLength error"),
    }
}

#[test]
fn test_parse_payload_seven_bytes() {
    let payload = vec![0xA3, 0x00, 0x00, 0xE0, 0xB2, 0xB2, 0x88];
    let result = TaskControllerDecoder::parse_payload(&payload);
    assert!(result.is_err());

    match result.unwrap_err() {
        DecodeError::InvalidLength { expected, found } => {
            assert_eq!(expected, 8);
            assert_eq!(found, 7);
        }
        _ => panic!("Expected InvalidLength error"),
    }
}

// ========================================================================
// Command Dispatch Tests (6c.3)
// ========================================================================

#[test]
fn test_element_id_extraction_all_nibbles() {
    let expected_elements = [0, 1, 2, 3, 4, 5, 6, 7, 8, 9, 10, 11, 12, 13, 14, 15];

    for (i, &expected) in expected_elements.iter().enumerate() {
        let payload = vec![
            (i as u8) << 4 | 0x03, // element nibble + command=3
            0x00,
            0x00,
            0xE0,
            0x00,
            0x00,
            0x00,
            0x00,
        ];

        let data = TaskControllerDecoder::parse_payload(&payload).unwrap();
        assert_eq!(data.element_id, expected, "Failed for element {}", expected);
    }
}

// ========================================================================
// DDI Value Tests
// ========================================================================

#[test]
fn test_ddi_various_values() {
    let ddis = [0xE000u16, 0xD3D8, 0x9240, 0x0000, 0xFFFF];

    for &ddi in &ddis {
        let payload = vec![
            0xA3, // element=10, command=3
            0x00,
            (ddi & 0xFF) as u8,
            ((ddi >> 8) & 0xFF) as u8,
            0x00,
            0x00,
            0x00,
            0x00,
        ];

        let data = TaskControllerDecoder::parse_payload(&payload).unwrap();
        assert_eq!(data.ddi, ddi, "Failed for DDI {:#06X}", ddi);
    }
}

// ========================================================================
// Value Field Tests (signed i32 LE)
// ========================================================================

#[test]
fn test_value_positive() {
    let payload = vec![
        0xA3, // element=10, command=3
        0x00, 0x00, 0xE0, 0x64, 0x00, 0x00, 0x00, // value = 100 (little-endian)
    ];

    let data = TaskControllerDecoder::parse_payload(&payload).unwrap();
    assert_eq!(data.value, 100i32);
}

#[test]
fn test_value_negative() {
    // -1 in two's complement: 0xFFFFFFFF
    let payload = vec![0xA3, 0x00, 0x00, 0xE0, 0xFF, 0xFF, 0xFF, 0xFF];

    let data = TaskControllerDecoder::parse_payload(&payload).unwrap();
    assert_eq!(data.value, -1i32);
}

#[test]
fn test_value_max_i32() {
    // i32::MAX = 0x7FFFFFFF
    let payload = vec![0xA3, 0x00, 0x00, 0xE0, 0xFF, 0xFF, 0xFF, 0x7F];

    let data = TaskControllerDecoder::parse_payload(&payload).unwrap();
    assert_eq!(data.value, i32::MAX);
}

#[test]
fn test_value_min_i32() {
    // i32::MIN = 0x80000000
    let payload = vec![0xA3, 0x00, 0x00, 0xE0, 0x00, 0x00, 0x00, 0x80];

    let data = TaskControllerDecoder::parse_payload(&payload).unwrap();
    assert_eq!(data.value, i32::MIN);
}

// ========================================================================
// ComplexDecoder Trait Integration Tests
// ========================================================================

#[test]
fn test_process_data_pgn_constant() {
    assert_eq!(PROCESS_DATA_PGN, 0x00cb00);
    assert_eq!(PROCESS_DATA_PGN, 51968u32);
}

fn make_dummy_context() -> can_decoder::types::DecodeContext {
    can_decoder::types::DecodeContext {
        pgn: PROCESS_DATA_PGN,
        priority: 7,
        src_addr: 0x90,
        dest_addr: 0xFF,
        src_name: None,
        dest_name: None,
        timestamp: 1_000_000,
    }
}

#[test]
fn test_decode_unknown_command_zero() {
    let mut decoder = TaskControllerDecoder::new();
    let context = make_dummy_context();
    let payload = vec![0xF0, 0x00, 0x00, 0xE0, 0x00, 0x00, 0x00, 0x00];

    let result = decoder.decode(&context, &payload).unwrap();
    assert!(result.is_some());
    let msg = result.unwrap();

    assert_eq!(msg.title, "TaskController Unknown Command 0x0");
    assert_eq!(msg.outputs.len(), 1);

    match &msg.outputs[0] {
        can_decoder::types::DecodedField::StringMessage { severity, text } => {
            assert_eq!(*severity, can_decoder::types::Severity::Warning);
            assert!(text.contains("command=0x00"));
            assert!(text.contains("element=15"));
        }
        _ => panic!("Expected StringMessage for unknown command"),
    }
}

#[test]
fn test_decode_unknown_command_four() {
    let mut decoder = TaskControllerDecoder::new();
    let context = make_dummy_context();
    let payload = vec![0xC4, 0x05, 0x00, 0xE0, 0x00, 0x00, 0x00, 0x00];

    let result = decoder.decode(&context, &payload).unwrap();
    assert!(result.is_some());
    let msg = result.unwrap();

    assert_eq!(msg.title, "TaskController Unknown Command 0x4");
    match &msg.outputs[0] {
        can_decoder::types::DecodedField::StringMessage { text, .. } => {
            assert!(text.contains("command=0x04"));
            assert!(text.contains("element=12"));
        }
        _ => panic!("Expected StringMessage"),
    }
}

#[test]
fn test_decode_all_commands_produce_output() {
    let mut decoder = TaskControllerDecoder::new();
    let context = make_dummy_context();

    for cmd in 0..=15u8 {
        let payload = vec![(cmd << 4) | cmd, 0x00, 0x00, 0xE0, 0x00, 0x00, 0x00, 0x00];
        let result = decoder.decode(&context, &payload);
        assert!(result.is_ok(), "Command 0x{:X} should not error", cmd);
        let msg = result.unwrap();
        assert!(msg.is_some(), "Command 0x{:X} should produce output", cmd);
    }
}

#[test]
fn test_complex_decoder_trait_integration() {
    let mut decoder = TaskControllerDecoder::new();
    let context = make_dummy_context();
    let payload = vec![0xA3, 0x00, 0x00, 0xE0, 0x64, 0x00, 0x00, 0x00];

    let result = ComplexDecoder::decode(&mut decoder, &context, &payload);
    assert!(result.is_ok());
    assert!(result.unwrap().is_some());
}

#[test]
fn test_complex_decoder_short_payload_returns_error() {
    let mut decoder = TaskControllerDecoder::new();
    let context = make_dummy_context();
    let payload = vec![0xA3, 0x00];

    let result = decoder.decode(&context, &payload);
    assert!(result.is_err());
    match result.unwrap_err() {
        DecodeError::InvalidLength { expected: 8, found: 2 } => {}
        other => panic!("Expected InvalidLength(8,2), got {:?}", other),
    }
}

#[test]
fn test_decoder_tracks_elements() {
    let mut decoder = TaskControllerDecoder::new();
    let context = make_dummy_context();

    let payload_10 = vec![0xA3, 0x00, 0x00, 0xE0, 0x64, 0x00, 0x00, 0x00];
    decoder.decode(&context, &payload_10).unwrap();
    let payload_11 = vec![0xB3, 0x00, 0x00, 0xE0, 0x65, 0x00, 0x00, 0x00];
    decoder.decode(&context, &payload_11).unwrap();
    let payload_12 = vec![0xC3, 0x00, 0x00, 0xE0, 0x66, 0x00, 0x00, 0x00];
    decoder.decode(&context, &payload_12).unwrap();

    assert_eq!(decoder.last_elements().len(), 3);
    assert_eq!(decoder.last_elements()[0], 10);
    assert_eq!(decoder.last_elements()[1], 11);
    assert_eq!(decoder.last_elements()[2], 12);
}

#[test]
fn decode_value_without_dictionary_names_unknown_proprietary() {
    let mut decoder = TaskControllerDecoder::new();
    let payload = vec![0xA3, 0x00, 0x00, 0xE0, 0x64, 0x00, 0x00, 0x00];
    let msg = decoder.decode(&make_dummy_context(), &payload).unwrap().unwrap();
    assert_eq!(msg.title, "TC Value");
    assert_eq!(msg.outputs.len(), 4);
    match &msg.outputs[2] {
        can_decoder::types::DecodedField::Value { title, value, .. } => {
            assert_eq!(title, "Unknown Proprietary");
            assert_eq!(*value, can_decoder::types::Numeric::Int(100));
        }
        other => panic!("unexpected {:?}", other),
    }
}

#[test]
fn decode_value_with_canot_dictionary() {
    let mut decoder = TaskControllerDecoder::with_proprietary_handlers(&["canot".to_string()]);
    let payload = vec![0xA3, 0x00, 0x01, 0xE0, 0x64, 0x00, 0x00, 0x00];
    let msg = decoder.decode(&make_dummy_context(), &payload).unwrap().unwrap();
    match &msg.outputs[2] {
        can_decoder::types::DecodedField::Value { title, value, unit, decimal_places } => {
            assert_eq!(title, "Current");
            assert_eq!(unit.as_deref(), Some("micro-amp"));
            assert_eq!(*decimal_places, Some(2));
            match value {
                can_decoder::types::Numeric::Float(f) => {
                    assert_eq!(f64::from_bits(f.bits), 100.0);
                    assert_eq!(f.shortest, "100");
                }
                other => panic!("unexpected {:?}", other),
            }
        }
        other => panic!("unexpected {:?}", other),
    }
    let unknown = vec![0xA3, 0x00, 0x05, 0xE0, 0x64, 0x00, 0x00, 0x00];
    let msg2 = decoder.decode(&make_dummy_context(), &unknown).unwrap().unwrap();
    match &msg2.outputs[2] {
        can_decoder::types::DecodedField::Value { title, .. } => assert_eq!(title, "Unknown Proprietary"),
        other => panic!("unexpected {:?}", other),
    }
}

#[test]
fn canot_table_lookup() {
    let t = lookup(0xE010).unwrap();
    assert_eq!(t.name, "Temperature");
    assert_eq!(t.unit.as_deref(), Some("micro-degrees"));
    assert_eq!(lookup(0xE004).unwrap().unit.as_deref(), Some("ADC counts (2.5 μV)"));
    assert!(lookup(0xE005).is_none());
    assert_eq!(to_physical(0xE012, -7), Some(-7));
    assert_eq!(to_physical(0x0001, 5), None);
    assert!(is_proprietary(0xE000) && is_proprietary(0xFFFE) && !is_proprietary(0xFFFF));
}
