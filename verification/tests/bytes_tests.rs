use single_threaded_server::body::parse_hex;
use single_threaded_server::bytes::{bytes_eq, dec_bytes, hex_bytes_upper, to_lower, trim_bytes};
use single_threaded_server::message::parse_dec;
use single_threaded_server::scan::{find_byte, find_field_line_index, find_payload_index,
    is_valid_field_name};

#[test]
fn line_scans_find_the_first_boundary() {
    assert_eq!(find_field_line_index(b"ab\r\ncd\r\n"), Some(4));
    assert_eq!(find_field_line_index(b"no line end"), None);
    assert_eq!(find_payload_index(b"a\r\n\r\nbody"), Some(5));
    assert_eq!(find_payload_index(b"a\r\nb\r\n"), None);
    assert_eq!(find_byte(b"key: value", 58), Some(3));
    assert_eq!(find_byte(b"plain", 58), None);
}

#[test]
fn field_names_follow_the_tchar_set() {
    assert!(is_valid_field_name(b"Content-Length"));
    assert!(is_valid_field_name(b"x^y|z~9"));
    assert!(!is_valid_field_name(b"bad key"));
    assert!(!is_valid_field_name(b"semi;colon"));
    assert!(!is_valid_field_name(b""));
}

#[test]
fn byte_helpers_behave() {
    assert!(bytes_eq(b"abc", b"abc"));
    assert!(!bytes_eq(b"abc", b"abd"));
    assert!(!bytes_eq(b"abc", b"ab"));
    assert_eq!(to_lower(b"MiXeD-42"), b"mixed-42".to_vec());
    assert_eq!(trim_bytes(b"  padded\t "), b"padded".to_vec());
    assert_eq!(trim_bytes(b"\r\n"), Vec::<u8>::new());
}

#[test]
fn numbers_render_exactly() {
    assert_eq!(dec_bytes(0), b"0".to_vec());
    assert_eq!(dec_bytes(7), b"7".to_vec());
    assert_eq!(dec_bytes(1234), b"1234".to_vec());
    assert_eq!(hex_bytes_upper(0), b"0".to_vec());
    assert_eq!(hex_bytes_upper(255), b"FF".to_vec());
    assert_eq!(hex_bytes_upper(4096), b"1000".to_vec());
}

#[test]
fn numbers_parse_exactly() {
    assert_eq!(parse_dec(b"0"), Some(0));
    assert_eq!(parse_dec(b"48213"), Some(48213));
    assert_eq!(parse_dec(b""), None);
    assert_eq!(parse_dec(b"12a"), None);
    assert_eq!(parse_hex(b"0"), Some(0));
    assert_eq!(parse_hex(b"ff"), Some(255));
    assert_eq!(parse_hex(b"FF"), Some(255));
    assert_eq!(parse_hex(b"1000"), Some(4096));
    assert_eq!(parse_hex(b"zz"), None);
    assert_eq!(parse_hex(b""), None);
}

#[test]
fn hex_round_trips_through_render_and_parse() {
    for n in [0usize, 1, 15, 16, 255, 256, 65535, 1048575] {
        assert_eq!(parse_hex(&hex_bytes_upper(n)), Some(n));
        assert_eq!(parse_dec(&dec_bytes(n)), Some(n));
    }
}
