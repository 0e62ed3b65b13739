//! Raw component values, the decoder's texts, NAME records and frame messages.
use can_decoder::device_manager::DeviceManager;
use can_decoder::pgn_decoder::{
    add_device_names, assembled_fields, component_fields, frame_message, insufficient_field, name_field, read_component, record_address_claim,
    timeout_field, unrecognized_field, RawComponent, ValueType,
};
use can_decoder::pipeline::{NullDecoder, PassThroughFilter};
use can_decoder::filters::Filter;
use can_decoder::tp_reassembler::PartialAssembly;
use can_decoder::types::{AssembledMessage, DecodedField, DecodedMessage, FloatValue, Numeric, RawFrame, Severity};

fn text_of(f: &DecodedField) -> (Severity, String) {
    match f {
        DecodedField::StringMessage { severity, text } => (*severity, text.clone()),
        other => panic!("expected a text, got {:?}", other),
    }
}

#[test]
fn raw_components_little_endian_and_signed() {
    let data = [0xFE, 0xFF, 0x34, 0x12, 0x00, 0x00, 0x00, 0x80];
    assert_eq!(read_component(&data, "a", 0, 1, ValueType::Int8), Ok(RawComponent::Number(-2)));
    assert_eq!(read_component(&data, "a", 0, 1, ValueType::UInt8), Ok(RawComponent::Number(254)));
    assert_eq!(read_component(&data, "a", 0, 2, ValueType::Int16), Ok(RawComponent::Number(-2)));
    assert_eq!(read_component(&data, "a", 2, 2, ValueType::UInt16), Ok(RawComponent::Number(0x1234)));
    assert_eq!(read_component(&data, "a", 4, 4, ValueType::Int32), Ok(RawComponent::Number(i32::MIN as i64)));
    assert_eq!(read_component(&data, "a", 4, 4, ValueType::UInt32), Ok(RawComponent::Number(0x8000_0000)));
    assert_eq!(read_component(&data, "a", 0, 4, ValueType::Float32), Ok(RawComponent::Float32Bits(0x1234FFFE)));
    assert_eq!(read_component(&data, "a", 2, 1, ValueType::Bool), Ok(RawComponent::Flag(true)));
    assert_eq!(read_component(&data, "a", 4, 1, ValueType::Bool), Ok(RawComponent::Flag(false)));
}

#[test]
fn raw_hex_component_reads_big_endian() {
    let data = [0x01, 0x02, 0x03, 0x04, 0x05, 0x06, 0x07, 0x08, 0x09];
    assert_eq!(read_component(&data, "h", 0, 2, ValueType::Hex), Ok(RawComponent::Hex(0x0102)));
    assert_eq!(read_component(&data, "h", 0, 9, ValueType::Hex), Ok(RawComponent::Hex(0x0203040506070809)));
    assert_eq!(read_component(&data, "h", 3, 0, ValueType::Hex), Ok(RawComponent::Hex(0)));
}

#[test]
fn float32_bits_match_std() {
    let data = 1.5f32.to_le_bytes();
    assert_eq!(read_component(&data, "f", 0, 4, ValueType::Float32), Ok(RawComponent::Float32Bits(1.5f32.to_bits())));
}

#[test]
fn component_too_short_text() {
    let data = [0u8; 3];
    assert_eq!(
        read_component(&data, "Speed", 2, 2, ValueType::UInt16),
        Err("Component 'Speed': data too short (need 2 bytes at offset 2, have 3)".to_string())
    );
}

#[test]
fn type_widths() {
    assert_eq!(ValueType::Int8.width(), 1);
    assert_eq!(ValueType::UInt16.width(), 2);
    assert_eq!(ValueType::Float32.width(), 4);
    assert_eq!(ValueType::Hex.width(), 0);
    assert_eq!(ValueType::Bool.width(), 1);
}

#[test]
fn decoder_texts() {
    assert_eq!(
        text_of(&unrecognized_field(0xEA00, 0x5, 3)),
        (Severity::Info, "Unrecognized PGN=0xEA00 source=0x05: 3 bytes".to_string())
    );
    assert_eq!(
        text_of(&unrecognized_field(0x1FEF1, 0xFE, 0)),
        (Severity::Info, "Unrecognized PGN=0x1FEF1 source=0xFE: 0 bytes".to_string())
    );
    assert_eq!(
        text_of(&insufficient_field("Engine Speed", 0xF004, 2)),
        (Severity::Warning, "Engine Speed PGN=0xF004: insufficient data for 2 components".to_string())
    );
    let partial = PartialAssembly {
        source_address: 0x10,
        destination_address: 0xFF,
        pgn: 0x0100,
        data: vec![1, 2, 3],
        total_expected: 20,
        timestamp: 0,
    };
    assert_eq!(
        text_of(&timeout_field(&partial)),
        (Severity::Warning, "TP timeout for PGN=0x0100 source=0x10: received 3 of 20 bytes".to_string())
    );
}

#[test]
fn address_claim_records_name() {
    let mut dm = DeviceManager::new(60);
    let claim = RawFrame::new(0x18EC0021, vec![1, 2, 3, 4, 5, 6, 7, 8, 9], 0);
    record_address_claim(&mut dm, &claim);
    assert_eq!(dm.get_name_u64(0x21), Some(0x0807060504030201));
    let short = RawFrame::new(0x18EC0022, vec![1, 2, 3], 0);
    record_address_claim(&mut dm, &short);
    assert_eq!(dm.get_name_u64(0x22), None);
    let other = RawFrame::new(0x18EE0023, vec![1, 2, 3, 4, 5, 6, 7, 8], 0);
    record_address_claim(&mut dm, &other);
    assert_eq!(dm.get_name_u64(0x23), None);
}

#[test]
fn device_names_added_first_and_last() {
    let mut outputs = vec![DecodedField::text(Severity::Info, "mid".to_string())];
    let mut msg = AssembledMessage::with_pgn(0x18EF2021, 0xEF00, vec![], 0);
    msg.source_name = Some(0xAA);
    msg.dest_name = Some(0xBB);
    add_device_names(&mut outputs, &msg);
    assert_eq!(outputs.len(), 3);
    assert_eq!(outputs[0], name_field("Source Device", 0xAA));
    assert_eq!(outputs[2], name_field("Dest Device", 0xBB));
    match &outputs[0] {
        DecodedField::Value { title, value, unit, decimal_places } => {
            assert_eq!(title, "Source Device");
            assert_eq!(*value, Numeric::Hex(0xAA));
            assert_eq!(unit.as_deref(), Some("NAME"));
            assert_eq!(*decimal_places, None);
        }
        other => panic!("unexpected {:?}", other),
    }
    let mut none = vec![];
    add_device_names(&mut none, &AssembledMessage::with_pgn(1, 0, vec![], 0));
    assert!(none.is_empty());
}

#[test]
fn frame_message_names_and_title() {
    let mut dm = DeviceManager::new(60);
    dm.set_name_u64(0x21, 111);
    dm.set_name_u64(0x40, 222);
    let frame = RawFrame::new(0x18EF4021, vec![9], 77);
    let m: DecodedMessage = frame_message(frame.clone(), vec![], vec![], Some(&dm));
    assert_eq!(m.title, "PGN EF00 from 21");
    assert_eq!(m.assembled_message.source_name, Some(111));
    assert_eq!(m.assembled_message.dest_name, Some(222));
    assert_eq!(m.assembled_message.timestamp, 77);
    let broadcast = RawFrame::new(0x18FEF121, vec![], 0);
    let b = frame_message(broadcast, vec![], vec![], Some(&dm));
    assert_eq!(b.title, "PGN FEF1 from 21");
    assert_eq!(b.assembled_message.dest_name, None);
    let plain = frame_message(frame, vec![], vec![], None);
    assert_eq!(plain.assembled_message.source_name, None);
}

#[test]
fn null_decoder_reports_raw_frame() {
    let d = NullDecoder { debug: false };
    assert_eq!(d.name(), "null");
    let m = d.decode_frame(RawFrame::new(0x0CF00400, vec![0x01, 0xAB], 5));
    assert_eq!(m.title, "Raw Frame 0CF00400");
    assert_eq!(m.outputs.len(), 1);
    assert_eq!(text_of(&m.outputs[0]), (Severity::Info, "CAN 0CF00400 len=2 data=01 AB".to_string()));
    assert_eq!(m.assembled_message.pgn, 0xF004);
    assert_eq!(m.assembled_message.timestamp, 5);
    assert_eq!(m.assembled_message.data, vec![0x01, 0xAB]);
    let empty = d.decode_frame(RawFrame::new(0x123, vec![], 0));
    assert_eq!(text_of(&empty.outputs[0]).1, "CAN 00000123 len=0 data=");
}

#[test]
fn pass_through_filter_accepts_everything() {
    let f = PassThroughFilter;
    assert_eq!(f.name(), "passthrough");
    let m = NullDecoder { debug: true }.decode_frame(RawFrame::new(1, vec![], 0));
    assert!(f.matches_sync(&m));
}

#[test]
fn float_reading_of_integers() {
    for n in [0i32, 1, -1, 2, 3, 1000, -12345, i32::MAX, i32::MIN, 1 << 30] {
        let f = FloatValue::from_i32(n);
        assert_eq!(f.bits, (n as f64).to_bits(), "bits of {}", n);
        assert_eq!(f.shortest, format!("{}", n as f64));
        assert_eq!(f.fixed4, format!("{:.4}", n as f64));
    }
}

#[test]
fn component_fields_fall_back_to_insufficient_data() {
    let none = component_fields(vec![], 3, "Engine Speed", 0xF004, 2);
    assert_eq!(none.len(), 1);
    assert_eq!(
        text_of(&none[0]),
        (Severity::Warning, "Engine Speed PGN=0xF004: insufficient data for 2 components".to_string())
    );
    assert!(component_fields(vec![], 0, "Engine Speed", 0xF004, 2).is_empty());
    let read = vec![name_field("Source", 7)];
    let kept = component_fields(read.clone(), 3, "Engine Speed", 0xF004, 2);
    assert_eq!(kept, read);
}

#[test]
fn assembled_fields_prefer_complex_then_definition() {
    let complex = vec![name_field("Complex", 1)];
    let by_def = vec![name_field("Definition", 2)];
    assert_eq!(assembled_fields(Some(complex.clone()), Some(by_def.clone()), 0xEF00, 5, 8), complex);
    assert_eq!(assembled_fields(None, Some(by_def.clone()), 0xEF00, 5, 8), by_def);
    let unknown = assembled_fields(None, None, 0xEA00, 0x5, 3);
    assert_eq!(unknown.len(), 1);
    assert_eq!(
        text_of(&unknown[0]),
        (Severity::Info, "Unrecognized PGN=0xEA00 source=0x05: 3 bytes".to_string())
    );
}
