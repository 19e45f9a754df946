use indev::codes::code;
use indev::codes::code_name;
use indev::event::input_event;
use indev::event::timeval;
use indev::render::parse_event;
use indev::render::DecodeError;
use indev::types::lookup_type;
use indev::types::type_;

fn key_press_record() -> [u8; 24] {
    // seconds = 1000, microseconds = 0, value = 1, type = 0x01, code = 0x1e
    [
        0xe8, 0x03, 0x00, 0x00, // tv_sec, little-endian
        0x00, 0x00, 0x00, 0x00, // tv_usec
        0x00, 0x00, 0x00, 0x00, // padding
        0x01, 0x00, 0x00, 0x00, // value
        0x01, 0x00, // type
        0x1e, 0x00, // code
        0x00, 0x00, 0x00, 0x00, // padding
    ]
}

#[test]
fn decodes_a_key_press() {
    let e = input_event::from_bytes(&key_press_record());
    assert_eq!(e.time.tv_sec, 1000);
    assert_eq!(e.time.tv_usec, 0);
    assert_eq!(e.type_, 0x01);
    assert_eq!(e.code, 0x1e);
    assert_eq!(e.value, 1);
    assert_eq!(type_(e.type_), "EV_KEY");
    assert_eq!(code(e.code), "KEY_A");
}

#[test]
fn renders_a_key_press() {
    let line = parse_event(&key_press_record(), b"TS").unwrap();
    assert_eq!(
        String::from_utf8(line).unwrap(),
        "[TS] {input_event { time: timeval { tv_sec: 1000, tv_usec: 0 }, \
type: EV_KEY, code: KEY_A, value: 1 }}\r\n"
    );
}

#[test]
fn decodes_negative_values() {
    let mut b = key_press_record();
    b[12] = 0xff;
    b[13] = 0xff;
    b[14] = 0xff;
    b[15] = 0xff;
    let e = input_event::from_bytes(&b);
    assert_eq!(e.value, -1);
    b[0] = 0x00;
    b[1] = 0x00;
    b[2] = 0x00;
    b[3] = 0x80;
    let e2 = input_event::from_bytes(&b);
    assert_eq!(e2.time.tv_sec, i32::MIN);
}

#[test]
fn decodes_the_timestamp_half() {
    let t = timeval::from_bytes([0x01, 0x02, 0x00, 0x00, 0x40, 0x42, 0x0f, 0x00]);
    assert_eq!(t.tv_sec, 0x0201);
    assert_eq!(t.tv_usec, 999_999 + 1);
}

#[test]
fn the_type_table_is_closed() {
    assert_eq!(type_(0x00), "EV_SYN");
    assert_eq!(type_(0x05), "EV_SW");
    assert_eq!(type_(0x17), "EV_FF_STATUS");
    assert_eq!(type_(0x20), "EV_CNT");
    assert_eq!(lookup_type(0x06), None);
    assert_eq!(lookup_type(0x13), None);
    assert_eq!(lookup_type(0x01), Some("EV_KEY"));
}

#[test]
fn the_code_table_is_closed() {
    assert_eq!(code(0), "KEY_RESERVED");
    assert_eq!(code(1), "KEY_ESC");
    assert_eq!(code(57), "KEY_SPACE");
    assert_eq!(code(119), "KEY_PAUSE");
    assert_eq!(code_name(84), None);
    assert_eq!(code_name(120), None);
    assert_eq!(code_name(30), Some("KEY_A"));
}

#[test]
fn unknown_type_is_a_decode_error() {
    let mut b = key_press_record();
    b[16] = 0x06;
    assert_eq!(parse_event(&b, b"TS"), Err(DecodeError::UnknownType));
}

#[test]
fn unknown_code_is_a_decode_error() {
    let mut b = key_press_record();
    b[18] = 0x54; // 84: the one hole in the keyboard block
    assert_eq!(parse_event(&b, b"TS"), Err(DecodeError::UnknownCode));
}
