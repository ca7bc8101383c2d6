use pc_monitoring::config::{parse_control_points, parse_hex, HexParseError};

#[test]
fn hex_identifiers_parse() {
    assert_eq!(parse_hex("1a2b"), Ok(0x1A2B));
    assert_eq!(parse_hex("1A2B"), Ok(0x1A2B));
    assert_eq!(parse_hex("ffff"), Ok(0xFFFF));
    assert_eq!(parse_hex("0000ffff"), Ok(0xFFFF));
    assert_eq!(parse_hex("+10"), Ok(0x10));
    assert_eq!(parse_hex("0"), Ok(0));
}

#[test]
fn hex_errors_name_their_cause() {
    assert_eq!(parse_hex(""), Err(HexParseError::Empty));
    assert_eq!(parse_hex("+"), Err(HexParseError::InvalidDigit));
    assert_eq!(parse_hex("12g4"), Err(HexParseError::InvalidDigit));
    assert_eq!(parse_hex("-10"), Err(HexParseError::InvalidDigit));
    assert_eq!(parse_hex("10000"), Err(HexParseError::Overflow));
    assert_eq!(parse_hex("123456789"), Err(HexParseError::Overflow));
}

#[test]
fn breakpoint_lists_parse_in_order() {
    assert_eq!(
        parse_control_points(b"0:100,20:150,50:200,100:200"),
        Some(vec![(0, 100), (20, 150), (50, 200), (100, 200)])
    );
    assert_eq!(parse_control_points(b"20:100"), Some(vec![(20, 100)]));
    assert_eq!(parse_control_points(b"255:255"), Some(vec![(255, 255)]));
}

#[test]
fn malformed_breakpoint_lists_are_rejected() {
    assert_eq!(parse_control_points(b""), None);
    assert_eq!(parse_control_points(b"20"), None);
    assert_eq!(parse_control_points(b"20:"), None);
    assert_eq!(parse_control_points(b":100"), None);
    assert_eq!(parse_control_points(b"20:100,"), None);
    assert_eq!(parse_control_points(b"20:256"), None);
    assert_eq!(parse_control_points(b"20:100, 30:150"), None);
    assert_eq!(parse_control_points(b"20:100:5"), None);
}
