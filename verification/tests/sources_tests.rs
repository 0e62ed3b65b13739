//! The candump line format and the names of the frame sources.
use can_decoder::sources::{classify_line, CandumpFileSource, LineOutcome, SocketCanSource};

fn parsed(line: &str) -> (u64, u32, Vec<u8>) {
    match classify_line(line) {
        LineOutcome::Parsed(f) => (f.timestamp, f.can_id, f.data),
        other => panic!("expected a frame from {:?}, got {:?}", line, other),
    }
}

#[test]
fn candump_line_continuous_hex() {
    assert_eq!(
        parsed("(1234567890.123456) can0 18FEF100#DEADBEEF"),
        (1234567890123456, 0x18FEF100, vec![0xDE, 0xAD, 0xBE, 0xEF])
    );
}

#[test]
fn candump_line_standard_id_and_spaced_bytes() {
    assert_eq!(parsed("  (1.5) vcan0 7E8#01 02 zz 0A  "), (1000005, 0x7E8, vec![0x01, 0x02, 0x0A]));
}

#[test]
fn candump_line_odd_trailing_digit_is_dropped() {
    assert_eq!(parsed("(0.000001) can1 0CF00400#ABC"), (1, 0x0CF00400, vec![0xAB]));
}

#[test]
fn candump_line_microseconds_wrap_at_one_second() {
    assert_eq!(parsed("(2.1000005) can0 100#"), (2000005, 0x100, vec![]));
}

#[test]
fn candump_line_bad_pair_is_skipped() {
    assert_eq!(parsed("(3.0) can0 1#GG11"), (3000000, 1, vec![0x11]));
}

#[test]
fn candump_blank_and_comment_lines_are_skipped() {
    assert_eq!(classify_line(""), LineOutcome::Skipped);
    assert_eq!(classify_line("   \t "), LineOutcome::Skipped);
    assert_eq!(classify_line("# a comment (1.0) can0 1#00"), LineOutcome::Skipped);
}

#[test]
fn candump_malformed_lines_are_skipped() {
    assert_eq!(classify_line("(1.0) can0"), LineOutcome::Skipped);
    assert_eq!(classify_line("(1.0) can0 18FEF100"), LineOutcome::Skipped);
    assert_eq!(classify_line("1.0 can0 1#00"), LineOutcome::Skipped);
    assert_eq!(classify_line("(1.0.2) can0 1#00"), LineOutcome::Skipped);
    assert_eq!(classify_line("(1) can0 1#00"), LineOutcome::Skipped);
    assert_eq!(classify_line("(x.1) can0 1#00"), LineOutcome::Skipped);
    assert_eq!(classify_line("(1.1) can0 XYZ#00"), LineOutcome::Skipped);
    assert_eq!(classify_line("(1.1) can0 1FFFFFFFF#00"), LineOutcome::Skipped);
}

#[test]
fn candump_lines_that_cannot_be_cut() {
    assert_eq!(classify_line(")(1.0) can0 1#00"), LineOutcome::Fault);
    assert_eq!(classify_line("(1.0)"), LineOutcome::Fault);
    assert_eq!(classify_line("(1.0)é can0 1#00"), LineOutcome::Fault);
    assert_eq!(classify_line("(99999999999999999.0) can0 1#00"), LineOutcome::Fault);
    assert_eq!(classify_line("(1.0) can0 1#Aé"), LineOutcome::Fault);
}

#[test]
fn candump_two_byte_character_is_one_dropped_pair() {
    assert_eq!(parsed("(1.0) can0 1#é12"), (1000000, 1, vec![0x12]));
}

#[test]
fn candump_parse_line_matches_classification() {
    let f = CandumpFileSource::parse_line("(5.000007) can0 18EA00FE#00EE00").unwrap();
    assert_eq!((f.timestamp, f.can_id, f.data), (5000007, 0x18EA00FE, vec![0x00, 0xEE, 0x00]));
    assert!(CandumpFileSource::parse_line("# comment").is_none());
}

#[test]
fn source_names() {
    let file = CandumpFileSource::new("/tmp/capture.log");
    assert_eq!(file.get_name(), "candump:/tmp/capture.log");
    assert_eq!(file.get_input_file(), "/tmp/capture.log");
    let live = SocketCanSource::new("can0");
    assert_eq!(live.get_name(), "socketcan:can0");
    assert_eq!(live.get_iface(), "can0");
}

#[test]
fn request_all_address_claims_identifier() {
    assert_eq!(SocketCanSource::request_all_address_claims_id(), 0x1800EA00);
}

#[test]
fn parse_line_gives_none_for_malformed_lines() {
    let f = CandumpFileSource::parse_line("(1234567890.123456) can0 7E8#DEADBEEF").unwrap();
    assert_eq!(f.timestamp, 1234567890123456);
    assert_eq!(f.can_id, 0x7E8);
    assert_eq!(f.data, vec![0xDE, 0xAD, 0xBE, 0xEF]);
    assert!(CandumpFileSource::parse_line("").is_none());
    assert!(CandumpFileSource::parse_line("# comment").is_none());
    assert!(CandumpFileSource::parse_line("(1.000000)").is_none());
}
