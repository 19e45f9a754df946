use indev::bytes::bytes_eq;
use indev::bytes::contains_bytes;
use indev::bytes::find_byte;
use indev::bytes::join_bytes;
use indev::bytes::split_blank_bytes;
use indev::bytes::split_bytes;
use indev::bytes::starts_with;
use indev::numbers::dec_i32_bytes;
use indev::numbers::dec_u32_bytes;
use indev::numbers::dec_u8_bytes;
use indev::numbers::hex_u16_bytes;
use indev::numbers::hex_u64_bytes;
use indev::numbers::parse_dec_u8;
use indev::numbers::parse_hex_u16;
use indev::numbers::parse_hex_u64;
use indev::numbers::read_le_i32;
use indev::numbers::read_le_u16;
use indev::numbers::read_le_u32;

#[test]
fn hex_parses_exact_values() {
    assert_eq!(parse_hex_u16(b"045e"), Some(0x045e));
    assert_eq!(parse_hex_u16(b"FFFF"), Some(0xffff));
    assert_eq!(parse_hex_u16(b"0"), Some(0));
    assert_eq!(parse_hex_u16(b"12345"), None);
    assert_eq!(parse_hex_u16(b""), None);
    assert_eq!(parse_hex_u64(b"20001b"), Some(0x20001b));
    assert_eq!(parse_hex_u64(b"g"), None);
}

#[test]
fn hex_formats_round_trip() {
    assert_eq!(hex_u16_bytes(0x045e), b"045e".to_vec());
    assert_eq!(hex_u16_bytes(0), b"0000".to_vec());
    assert_eq!(hex_u64_bytes(0x20001b), b"20001b".to_vec());
    assert_eq!(hex_u64_bytes(0), b"0".to_vec());
    assert_eq!(parse_hex_u64(&hex_u64_bytes(u64::MAX)), Some(u64::MAX));
    assert_eq!(parse_hex_u16(&hex_u16_bytes(0xbeef)), Some(0xbeef));
}

#[test]
fn decimal_parses_small_values() {
    assert_eq!(parse_dec_u8(b"0"), Some(0));
    assert_eq!(parse_dec_u8(b"255"), Some(255));
    assert_eq!(parse_dec_u8(b"256"), None);
    assert_eq!(parse_dec_u8(b""), None);
    assert_eq!(parse_dec_u8(b"1234"), None);
    assert_eq!(parse_dec_u8(b"12"), Some(12));
}

#[test]
fn decimal_formats_exact_text() {
    assert_eq!(dec_u8_bytes(0), b"0".to_vec());
    assert_eq!(dec_u8_bytes(42), b"42".to_vec());
    assert_eq!(dec_u8_bytes(232), b"232".to_vec());
    assert_eq!(dec_u32_bytes(1000), b"1000".to_vec());
    assert_eq!(dec_i32_bytes(-1), b"-1".to_vec());
    assert_eq!(dec_i32_bytes(i32::MIN), b"-2147483648".to_vec());
    assert_eq!(dec_i32_bytes(i32::MAX), b"2147483647".to_vec());
}

#[test]
fn little_endian_reads_exact_values() {
    assert_eq!(read_le_u16(0xe8, 0x03), 1000);
    assert_eq!(read_le_u32(0x01, 0x02, 0x03, 0x04), 0x04030201);
    assert_eq!(read_le_i32(0xff, 0xff, 0xff, 0xff), -1);
    assert_eq!(read_le_i32(0x00, 0x00, 0x00, 0x80), i32::MIN);
    assert_eq!(read_le_i32(0xff, 0xff, 0xff, 0x7f), i32::MAX);
}

#[test]
fn byte_helpers_behave_like_std() {
    assert!(bytes_eq(b"abc", b"abc"));
    assert!(!bytes_eq(b"abc", b"abd"));
    assert!(starts_with(b"H: Handlers=kbd", b"H: Handlers="));
    assert!(!starts_with(b"H:", b"H: Handlers="));
    assert!(contains_bytes(b"event17", b"event"));
    assert!(!contains_bytes(b"js0", b"event"));
    assert!(contains_bytes(b"abc", b""));
    assert_eq!(find_byte(b"PROP=12", 61), Some(4));
    assert_eq!(find_byte(b"KEY", 61), None);
}

#[test]
fn splitting_mirrors_std_split() {
    let parts = split_bytes(b"a b  c", 32);
    let expect: Vec<Vec<u8>> = vec![
        b"a".to_vec(),
        b"b".to_vec(),
        b"".to_vec(),
        b"c".to_vec(),
    ];
    assert_eq!(parts, expect);
    let blocks = split_blank_bytes(b"x\n\ny\n\n");
    let expect2: Vec<Vec<u8>> = vec![b"x".to_vec(), b"y".to_vec(), b"".to_vec()];
    assert_eq!(blocks, expect2);
    let joined = join_bytes(&parts, 32);
    assert_eq!(joined, b"a b  c".to_vec());
}
