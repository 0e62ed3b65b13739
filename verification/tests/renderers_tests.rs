//! Output renderers: CSV rows, one-line summaries and ANSI code removal.
use can_decoder::renderers::{strip_ansi_codes, CondensedRenderer, CsvRenderer, FullCondensedRenderer};
use can_decoder::types::{
    AssembledMessage, DecodedField, DecodedMessage, FlagValue, FloatValue, Numeric, Severity,
};

fn message(title: &str, outputs: Vec<DecodedField>, assembled: AssembledMessage) -> DecodedMessage {
    DecodedMessage { title: title.to_string(), topic_id: 0, outputs, updates: vec![], assembled_message: assembled }
}

fn value(title: &str, v: Numeric, unit: Option<&str>) -> DecodedField {
    DecodedField::Value { title: title.to_string(), value: v, unit: unit.map(|u| u.to_string()), decimal_places: None }
}

fn text(severity: Severity, t: &str) -> DecodedField {
    DecodedField::StringMessage { severity, text: t.to_string() }
}

fn float(v: f64) -> Numeric {
    Numeric::Float(FloatValue { bits: v.to_bits(), shortest: format!("{}", v), fixed4: format!("{:.4}", v) })
}

fn make_test_message() -> DecodedMessage {
    let assembled = AssembledMessage::with_pgn(0x18EF4000, 0xEF00, vec![0x01, 0x02], 0);
    message(
        "Engine Speed",
        vec![value("RPM", Numeric::Int(1500), Some("rpm")), text(Severity::Info, "Engine running")],
        assembled,
    )
}

fn empty_assembled() -> AssembledMessage {
    AssembledMessage::with_pgn(0x18EF4000, 0xEF00, vec![], 0)
}

// ─── ANSI code removal ───────────────────────────────────────────────────────

#[test]
fn test_strip_ansi_codes_basic() {
    let s = "\x1b[36m\x1b[1mRPM\x1b[0m\x1b[39m=1500 rpm";
    let stripped = strip_ansi_codes(s);
    assert_eq!(stripped, "RPM=1500 rpm");
}

#[test]
fn test_strip_ansi_codes_no_ansi() {
    let s = "No ANSI codes here";
    let stripped = strip_ansi_codes(s);
    assert_eq!(stripped, "No ANSI codes here");
}

#[test]
fn test_strip_ansi_codes_multiple_sequences() {
    let s = "\x1b[32mGreen\x1b[0m and \x1b[31mRed\x1b[0m";
    let stripped = strip_ansi_codes(s);
    assert_eq!(stripped, "Green and Red");
}

#[test]
fn strip_keeps_escape_without_final_m() {
    assert_eq!(strip_ansi_codes("a\x1b[12;3b"), "a\x1b[12;3b");
    assert_eq!(strip_ansi_codes("\x1b[m"), "");
    assert_eq!(strip_ansi_codes("x\x1b[1;31mY\x1b["), "xY\x1b[");
}

// ─── CSV renderer ────────────────────────────────────────────────────────────

#[test]
fn test_csv_renderer_name() {
    let renderer = CsvRenderer::default();
    assert_eq!(renderer.name(), "csv");
}

#[test]
fn test_csv_renderer_fixed_columns_present() {
    let mut renderer = CsvRenderer::default();
    let result = renderer.render(&make_test_message(), None);
    let header_line = result.lines().next().unwrap();
    assert!(header_line.contains("\"Timestamp\""));
    assert!(header_line.contains("\"CAN ID\""));
    assert!(header_line.contains("\"Priority\""));
    assert!(header_line.contains("\"PGN\""));
    assert!(header_line.contains("\"Source address\""));
    assert!(header_line.contains("\"Destination address\""));
    assert!(header_line.contains("\"Source NAME\""));
    assert!(header_line.contains("\"Destination NAME\""));
    assert!(header_line.contains("\"Data bytes\""));
    assert!(header_line.contains("\"StringMessage\""));
}

#[test]
fn test_csv_renderer_dynamic_columns() {
    let mut renderer = CsvRenderer::default();
    let result = renderer.render(&make_test_message(), None);
    let header_line = result.lines().next().unwrap();
    assert!(header_line.contains("\"RPM\""));
}

#[test]
fn test_csv_renderer_data_row_values() {
    let mut renderer = CsvRenderer::default();
    let result = renderer.render(&make_test_message(), None);
    let lines: Vec<&str> = result.lines().collect();
    assert!(lines.len() >= 2);
    assert!(lines[1].contains("1500"));
}

#[test]
fn test_csv_renderer_column_tracking_per_pgn_title() {
    let mut renderer = CsvRenderer::default();
    let msg1 = message("Engine Speed", vec![value("RPM", Numeric::Int(1500), Some("rpm"))], empty_assembled());
    renderer.render(&msg1, None);
    let msg2 = message("Engine Load", vec![value("Load", Numeric::Int(50), Some("%"))], empty_assembled());
    renderer.render(&msg2, None);
    let msg3 = message("Engine Speed", vec![value("RPM", Numeric::Int(2000), Some("rpm"))], empty_assembled());
    let result = renderer.render(&msg3, None);
    assert!(result.contains("\"RPM\""));
    assert!(result.contains("\"Load\""));
}

#[test]
fn test_csv_renderer_string_escaping() {
    let mut renderer = CsvRenderer::default();
    let msg = message("Test", vec![text(Severity::Warning, r#"Value is "high""#)], empty_assembled());
    let result = renderer.render(&msg, None);
    assert!(result.contains("\"\""));
}

#[test]
fn test_csv_renderer_empty_outputs() {
    let mut renderer = CsvRenderer::default();
    let msg = message("Empty", vec![], empty_assembled());
    let result = renderer.render(&msg, None);
    assert!(result.contains("\"Timestamp\""));
}

#[test]
fn test_csv_renderer_hex_value() {
    let mut renderer = CsvRenderer::default();
    let msg = message("VIN", vec![value("Data", Numeric::Hex(0x1234), None)], empty_assembled());
    let result = renderer.render(&msg, None);
    assert!(result.contains("0x"));
}

#[test]
fn test_csv_renderer_bool_value() {
    let mut renderer = CsvRenderer::default();
    let msg = message("Flag", vec![value("Active", Numeric::Bool(true), None)], empty_assembled());
    let result = renderer.render(&msg, None);
    assert!(result.contains("true"));
}

#[test]
fn test_csv_renderer_float_value() {
    let mut renderer = CsvRenderer::default();
    let msg = message("Temperature", vec![value("Coolant", float(92.5), Some("C"))], empty_assembled());
    let result = renderer.render(&msg, None);
    assert!(result.contains("92.5"));
}

#[test]
fn test_csv_renderer_all_flag_values() {
    let mut renderer = CsvRenderer::default();
    for (flag_val, expected) in [
        (FlagValue::Off, "OFF"),
        (FlagValue::On, "ON"),
        (FlagValue::Error, "ERR"),
        (FlagValue::Unavailable, "N/A"),
    ] {
        let msg = message("Test", vec![value("Status", Numeric::Flag(flag_val), None)], empty_assembled());
        let result = renderer.render(&msg, None);
        assert!(result.contains(expected), "Failed for {:?}", flag_val);
    }
}

#[test]
fn csv_exact_text() {
    let mut renderer = CsvRenderer::default();
    let assembled = AssembledMessage {
        id: 0x18EF4021,
        pgn: 0xEF00,
        data: vec![0x0A, 0xFF],
        timestamp: 1234,
        source_name: Some(0xABC),
        dest_name: None,
    };
    let msg = message(
        "Mixed",
        vec![
            value("Speed", Numeric::Int(-5), Some("km/h")),
            text(Severity::Info, "a\"b"),
            value("Cruise", Numeric::Flag(FlagValue::On), None),
        ],
        assembled,
    );
    let result = renderer.render(&msg, Some("Proprietary A"));
    let expected_header = "\"Timestamp\",\"CAN ID\",\"Priority\",\"PGN\",\"PGN Title\",\"Source address\",\
\"Destination address\",\"Source NAME\",\"Destination NAME\",\"Data bytes\",\"StringMessage\",\"Speed\",\"Cruise\"";
    let expected_row = "1234,18EF4021,6,EF00,\"Proprietary A\",21,40,\"ABC\",\"\",0AFF,\"a\"\"b\",\
\"-5 km/h\",\"Cruise: ON\"";
    assert_eq!(result, format!("{}\n{}", expected_header, expected_row));
}

#[test]
fn csv_columns_persist_per_pgn_without_repeats() {
    let mut renderer = CsvRenderer::default();
    let two = message(
        "Two",
        vec![value("A", Numeric::Int(1), None), value("B", Numeric::Int(2), None), value("A", Numeric::Int(3), None)],
        empty_assembled(),
    );
    let first = renderer.render(&two, None);
    let header = first.lines().next().unwrap();
    assert!(header.ends_with(",\"A\",\"B\""));
    let one = message("One", vec![value("C", Numeric::Int(4), None)], empty_assembled());
    let second = renderer.render(&one, None);
    let header2 = second.lines().next().unwrap();
    assert!(header2.ends_with(",\"A\",\"B\",\"C\""));
    let other_pgn = message("Other", vec![value("Z", Numeric::Int(4), None)], AssembledMessage::with_pgn(0x18FEF100, 0xFEF1, vec![], 0));
    let third = renderer.render(&other_pgn, None);
    assert!(third.lines().next().unwrap().ends_with(",\"StringMessage\",\"Z\""));
}

// ─── Condensed renderer ──────────────────────────────────────────────────────

#[test]
fn test_condensed_renderer_name() {
    assert_eq!(CondensedRenderer.name(), "condensed");
}

#[test]
fn test_condensed_renderer_single_line() {
    let result = CondensedRenderer.render(&make_test_message());
    assert!(!result.contains('\n'));
}

#[test]
fn test_condensed_renderer_can_id_no_prefix() {
    let result = CondensedRenderer.render(&make_test_message());
    assert!(result.contains("EF00"));
}

#[test]
fn test_condensed_renderer_source_dest_format() {
    let result = CondensedRenderer.render(&make_test_message());
    assert!(result.contains("->"));
}

#[test]
fn test_condensed_renderer_flag_colors() {
    for (flag_val, expected_text) in [
        (FlagValue::Off, "OFF"),
        (FlagValue::On, "ON"),
        (FlagValue::Error, "ERR"),
        (FlagValue::Unavailable, "N/A"),
    ] {
        let msg = message("Test", vec![value("Status", Numeric::Flag(flag_val), None)], empty_assembled());
        let result = CondensedRenderer.render(&msg);
        assert!(result.contains(expected_text), "Failed for {:?}", flag_val);
    }
}

#[test]
fn test_condensed_renderer_severity_codes() {
    for (severity, code) in [(Severity::Info, "I"), (Severity::Warning, "W"), (Severity::Error, "E")] {
        let msg = message("Test", vec![text(severity, "test")], empty_assembled());
        let stripped = strip_ansi_codes(&CondensedRenderer.render(&msg));
        assert!(stripped.contains(&format!("[{}] test", code)), "Failed for {:?}", severity);
    }
}

#[test]
fn test_condensed_renderer_multiple_outputs() {
    let msg = message(
        "Multi",
        vec![value("Speed", Numeric::Int(60), Some("km/h")), value("Cruise", Numeric::Flag(FlagValue::On), None)],
        empty_assembled(),
    );
    let result = CondensedRenderer.render(&msg);
    let stripped = strip_ansi_codes(&result);
    assert!(stripped.contains("Speed=60 km/h"));
    assert!(stripped.contains("Cruise=ON"));
    assert!(result.contains(" | "));
}

#[test]
fn test_condensed_renderer_data_bytes_hex() {
    let msg = message("Test", vec![], AssembledMessage::with_pgn(0x18EF4000, 0xEF00, vec![0xAA, 0xBB], 0));
    assert!(CondensedRenderer.render(&msg).contains("AABB"));
}

#[test]
fn test_condensed_renderer_string_messages_concatenated() {
    let msg = message("Test", vec![text(Severity::Info, "msg1"), text(Severity::Warning, "msg2")], empty_assembled());
    assert!(CondensedRenderer.render(&msg).contains("msg1; msg2"));
}

#[test]
fn test_condensed_renderer_value_with_title() {
    let msg = message("Test", vec![value("RPM", Numeric::Int(1500), Some("rpm"))], empty_assembled());
    assert!(strip_ansi_codes(&CondensedRenderer.render(&msg)).contains("RPM=1500 rpm"));
}

#[test]
fn test_condensed_renderer_hex_value() {
    let msg = message("VIN", vec![value("Data", Numeric::Hex(0x1234), None)], empty_assembled());
    assert!(strip_ansi_codes(&CondensedRenderer.render(&msg)).contains("Data=0x"));
}

#[test]
fn test_condensed_renderer_float_value() {
    let msg = message("Temperature", vec![value("Coolant", float(92.5), Some("C"))], empty_assembled());
    assert!(strip_ansi_codes(&CondensedRenderer.render(&msg)).contains("Coolant=92.5 C"));
}

#[test]
fn condensed_exact_line() {
    let msg = message(
        "T",
        vec![text(Severity::Error, ""), value("RPM", Numeric::Int(7), None), text(Severity::Warning, "hot")],
        AssembledMessage::with_pgn(0x18EF4021, 0xEF00, vec![0x01], 0),
    );
    let expected = "EF00 | 21->40 | 01 | hot | \x1b[36m\x1b[1mRPM\x1b[0m\x1b[39m=7 | [\x1b[33mW\x1b[39m] hot";
    assert_eq!(CondensedRenderer.render(&msg), expected);
}

// ─── Full condensed renderer ─────────────────────────────────────────────────

#[test]
fn test_full_condensed_renderer_name() {
    assert_eq!(FullCondensedRenderer.name(), "full-condensed");
}

#[test]
fn test_full_condensed_renderer_single_line() {
    assert!(!FullCondensedRenderer.render(&make_test_message(), None).contains('\n'));
}

#[test]
fn test_full_condensed_renderer_can_id_no_prefix() {
    assert!(FullCondensedRenderer.render(&make_test_message(), None).contains("EF00"));
}

#[test]
fn full_condensed_exact_line() {
    let assembled = AssembledMessage {
        id: 0x18FEF100,
        pgn: 0xFEF1,
        data: vec![0xAA, 0x05],
        timestamp: 99,
        source_name: None,
        dest_name: Some(0x1F),
    };
    let msg = message("Cruise", vec![text(Severity::Info, ""), value("Flag", Numeric::Flag(FlagValue::Error), None)], assembled);
    let expected = "99 | 18FEF100 | 6 | 65265 | FEF1 | \x1b[35m\x1b[1mCCVS\x1b[0m\x1b[39m | 0->FF | (N/A -> 1F) | AA 05  | Cruise |  | \
[\x1b[32mI\x1b[39m]  | \x1b[36m\x1b[1mFlag\x1b[0m\x1b[39m=\x1b[31mERR\x1b[39m";
    assert_eq!(FullCondensedRenderer.render(&msg, Some("CCVS")), expected);
}

#[test]
fn csv_row_has_one_field_per_header_column() {
    let mut renderer = CsvRenderer::default();
    let result = renderer.render(&make_test_message(), None);
    let lines: Vec<&str> = result.lines().collect();
    assert_eq!(lines.len(), 2);
    assert_eq!(lines[0].split(',').count(), 12);
    assert_eq!(lines[1].split(',').count(), 12);
    assert!(lines[1].ends_with(",\"1500 rpm\""));
}

#[test]
fn condensed_flag_colours() {
    let line = |f: FlagValue| {
        CondensedRenderer.render(&message("T", vec![value("Status", Numeric::Flag(f), None)], empty_assembled()))
    };
    assert!(line(FlagValue::Error).contains("\x1b[31mERR\x1b[39m"));
    assert!(line(FlagValue::Off).contains("\x1b[37mOFF\x1b[39m"));
    assert!(line(FlagValue::On).contains("\x1b[32mON\x1b[39m"));
}
