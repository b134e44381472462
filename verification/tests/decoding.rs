use hexcore::do_flush_input;
use hexcore::element_display_size;
use hexcore::element_mode_base;
use hexcore::element_mode_size;
use hexcore::parse_uint;
use hexcore::to_le_bytes;
use hexcore::ElementDisplay;
use hexcore::ElementMode;

fn slots(s: &str) -> [u8; 64] {
    let mut a = [0u8; 64];
    for (i, b) in s.bytes().enumerate() {
        a[i] = b;
    }
    a
}

#[test]
fn mode_tables() {
    assert_eq!(element_display_size(ElementDisplay::Byte), 1);
    assert_eq!(element_display_size(ElementDisplay::Word), 2);
    assert_eq!(element_display_size(ElementDisplay::DWord), 4);
    assert_eq!(element_display_size(ElementDisplay::QWord), 8);
    assert_eq!(element_mode_size(ElementMode::Hex), 2);
    assert_eq!(element_mode_size(ElementMode::Dec), 3);
    assert_eq!(element_mode_size(ElementMode::Oct), 3);
    assert_eq!(element_mode_size(ElementMode::Bin), 8);
    assert_eq!(element_mode_base(ElementMode::Hex), 16);
    assert_eq!(element_mode_base(ElementMode::Dec), 10);
    assert_eq!(element_mode_base(ElementMode::Oct), 8);
    assert_eq!(element_mode_base(ElementMode::Bin), 2);
}

#[test]
fn hex_byte_decodes() {
    let mut vv: Vec<u8> = Vec::new();
    let got = do_flush_input(slots("41"), 2, 1, 16, &mut vv);
    assert!(got);
    assert_eq!(vv, vec![0x41]);
}

#[test]
fn unfilled_slots_do_not_decode() {
    let mut vv: Vec<u8> = vec![7];
    let got = do_flush_input(slots("4"), 2, 1, 16, &mut vv);
    assert!(!got);
    assert_eq!(vv, vec![7]);
}

#[test]
fn skip_marker_does_not_decode() {
    let mut vv: Vec<u8> = Vec::new();
    let got = do_flush_input(slots("4."), 2, 1, 16, &mut vv);
    assert!(!got);
}

#[test]
fn decimal_overflow_fails() {
    let mut vv: Vec<u8> = Vec::new();
    assert!(!do_flush_input(slots("999"), 3, 1, 10, &mut vv));
    assert!(do_flush_input(slots("255"), 3, 1, 10, &mut vv));
    assert_eq!(vv, vec![255]);
}

#[test]
fn octal_and_binary_bytes() {
    let mut vv: Vec<u8> = Vec::new();
    assert!(do_flush_input(slots("377"), 3, 1, 8, &mut vv));
    assert_eq!(vv, vec![0o377]);
    assert!(do_flush_input(slots("00000101"), 8, 1, 2, &mut vv));
    assert_eq!(vv, vec![5]);
    assert!(!do_flush_input(slots("00000102"), 8, 1, 2, &mut vv));
}

#[test]
fn word_is_little_endian() {
    let mut vv: Vec<u8> = Vec::new();
    let got = do_flush_input(slots("4142"), 4, 2, 16, &mut vv);
    assert!(got);
    assert_eq!(vv, vec![0x42, 0x41]);
}

#[test]
fn qword_hex_decodes() {
    let mut vv: Vec<u8> = Vec::new();
    let got = do_flush_input(slots("ffffffffffffffff"), 16, 8, 16, &mut vv);
    assert!(got);
    assert_eq!(vv, vec![0xFF; 8]);
}

#[test]
fn unsupported_width_fails() {
    let mut vv: Vec<u8> = vec![1, 2];
    assert!(!do_flush_input(slots("41"), 2, 3, 16, &mut vv));
    assert_eq!(vv, vec![1, 2]);
}

#[test]
fn parse_uint_bounds() {
    assert_eq!(parse_uint(&b"100".to_vec(), 10, 255), Some(100));
    assert_eq!(parse_uint(&b"256".to_vec(), 10, 255), None);
    assert_eq!(parse_uint(&b"ff".to_vec(), 16, 255), Some(255));
    assert_eq!(parse_uint(&b"fg".to_vec(), 16, 255), None);
    assert_eq!(parse_uint(&b"a".to_vec(), 10, 255), None);
    assert_eq!(
        parse_uint(&b"ffffffffffffffff".to_vec(), 16, u64::MAX),
        Some(u64::MAX)
    );
    assert_eq!(parse_uint(&b"18446744073709551616".to_vec(), 10, u64::MAX), None);
}

#[test]
fn le_bytes_exact() {
    assert_eq!(
        to_le_bytes(0x0102030405060708, 8),
        vec![8, 7, 6, 5, 4, 3, 2, 1]
    );
    assert_eq!(to_le_bytes(0x41, 1), vec![0x41]);
    assert_eq!(to_le_bytes(0x4142, 2), vec![0x42, 0x41]);
}

#[test]
fn empty_digit_window_never_decodes() {
    let mut vv: Vec<u8> = vec![3];
    assert!(!do_flush_input(slots(""), 0, 1, 16, &mut vv));
    assert_eq!(vv, vec![3]);
}
