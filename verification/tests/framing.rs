use bunker::exception::BunkerError;
use bunker::frame::{dec_string, decode, digit_count, encode};

#[test]
fn digit_count_exact_values() {
    assert_eq!(digit_count(0), 1);
    assert_eq!(digit_count(9), 1);
    assert_eq!(digit_count(10), 2);
    assert_eq!(digit_count(9999), 4);
    assert_eq!(digit_count(10000), 5);
}

#[test]
fn dec_string_exact_values() {
    assert_eq!(dec_string(0), "0");
    assert_eq!(dec_string(7), "7");
    assert_eq!(dec_string(12345), "12345");
}

#[test]
fn encode_prefixes_zero_padded_length() {
    assert_eq!(encode("HELLO", 9999).unwrap(), "0005HELLO");
}

#[test]
fn encode_header_width_depends_on_maximum_alone() {
    assert_eq!(encode("", 9999).unwrap(), "0000");
    assert_eq!(encode("ok", 9999).unwrap(), "0002ok");
    assert_eq!(encode("ok", 99).unwrap(), "02ok");
}

#[test]
fn encode_rejects_overlong_message_without_truncating() {
    let r = encode("toolong", 5);
    assert!(matches!(r, Err(BunkerError::FrameTooLarge(7))));
}

#[test]
fn encode_accepts_message_of_exactly_maximum_length() {
    assert_eq!(encode("12345", 5).unwrap(), "512345");
}

#[test]
fn decode_returns_announced_body() {
    assert_eq!(decode("0005HELLO", 4).unwrap(), "HELLO");
    assert_eq!(decode("02ok", 2).unwrap(), "ok");
}

#[test]
fn decode_ignores_trailing_bytes_beyond_announced_length() {
    assert_eq!(decode("0002okextra", 4).unwrap(), "ok");
}

#[test]
fn decode_round_trips_every_encoded_message() {
    for msg in ["", "a", "hello world", "1234567890"] {
        let max_len = 9999;
        let framed = encode(msg, max_len).unwrap();
        let width = digit_count(max_len);
        assert_eq!(decode(framed.as_str(), width).unwrap(), msg);
    }
}

#[test]
fn decode_fails_on_frame_shorter_than_header() {
    assert!(matches!(decode("12", 4), Err(BunkerError::BadRequest(_))));
}

#[test]
fn decode_fails_on_non_decimal_header() {
    assert!(matches!(decode("0a42", 2), Err(BunkerError::BadRequest(_))));
}

#[test]
fn decode_fails_when_fewer_bytes_follow_than_announced() {
    assert!(matches!(decode("05hi", 2), Err(BunkerError::BadRequest(_))));
}
