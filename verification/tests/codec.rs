use redis_core::message::{DecodeError, Message};

fn enc(m: &Message) -> Vec<u8> {
    m.encode()
}

#[test]
fn simple_string_encodes() {
    assert_eq!(enc(&Message::Simple(b"PONG".to_vec())), b"+PONG\r\n");
}

#[test]
fn error_encodes() {
    assert_eq!(enc(&Message::Error(b"ERR boom".to_vec())), b"-ERR boom\r\n");
}

#[test]
fn integer_encodes() {
    assert_eq!(enc(&Message::Int(42)), b":42\r\n");
    assert_eq!(enc(&Message::Int(-7)), b":-7\r\n");
    assert_eq!(enc(&Message::Int(0)), b":0\r\n");
    assert_eq!(enc(&Message::Int(i64::MIN)), b":-9223372036854775808\r\n");
}

#[test]
fn bulk_encodes() {
    assert_eq!(enc(&Message::Bulk(b"hello".to_vec())), b"$5\r\nhello\r\n");
    assert_eq!(enc(&Message::Bulk(Vec::new())), b"$0\r\n\r\n");
    assert_eq!(enc(&Message::Null), b"$-1\r\n");
}

#[test]
fn array_encodes() {
    let m = Message::Array(vec![
        Message::Bulk(b"ECHO".to_vec()),
        Message::Bulk(b"hello".to_vec()),
    ]);
    assert_eq!(enc(&m), b"*2\r\n$4\r\nECHO\r\n$5\r\nhello\r\n");
    assert_eq!(enc(&Message::NullArray), b"*-1\r\n");
}

fn assert_round_trip(m: Message) {
    let bytes = m.encode();
    let (decoded, used) = Message::decode(&bytes).expect("decode of an encoding");
    assert_eq!(used, bytes.len());
    assert_eq!(decoded.encode(), bytes);
}

#[test]
fn round_trips() {
    assert_round_trip(Message::Simple(b"OK".to_vec()));
    assert_round_trip(Message::Error(b"ERR x".to_vec()));
    assert_round_trip(Message::Int(-123456));
    assert_round_trip(Message::Bulk(b"\x00\xff binary \r\n ok".to_vec()));
    assert_round_trip(Message::Null);
    assert_round_trip(Message::NullArray);
    assert_round_trip(Message::Array(vec![
        Message::Bulk(b"SET".to_vec()),
        Message::Bulk(b"k".to_vec()),
        Message::Array(vec![Message::Int(1), Message::Null]),
    ]));
    assert_round_trip(Message::Array(Vec::new()));
}

#[test]
fn decode_reports_incomplete() {
    assert_eq!(Message::decode(b"").unwrap_err(), DecodeError::Incomplete);
    assert_eq!(Message::decode(b"+PON").unwrap_err(), DecodeError::Incomplete);
    assert_eq!(Message::decode(b"$5\r\nhel").unwrap_err(), DecodeError::Incomplete);
    assert_eq!(
        Message::decode(b"*2\r\n$4\r\nECHO\r\n").unwrap_err(),
        DecodeError::Incomplete
    );
}

#[test]
fn decode_reports_malformed() {
    assert_eq!(Message::decode(b"!x\r\n").unwrap_err(), DecodeError::Malformed);
    assert_eq!(Message::decode(b"$abc\r\n").unwrap_err(), DecodeError::Malformed);
    assert_eq!(Message::decode(b":12x\r\n").unwrap_err(), DecodeError::Malformed);
    assert_eq!(Message::decode(b"$3\r\nabcXY").unwrap_err(), DecodeError::Malformed);
}

#[test]
fn decode_handles_multiple_frames_per_buffer() {
    let mut buffer = Vec::new();
    buffer.extend_from_slice(b"+OK\r\n");
    buffer.extend_from_slice(b":5\r\n");
    let (first, used) = Message::decode(&buffer).unwrap();
    assert_eq!(first.encode(), b"+OK\r\n");
    let (second, used2) = Message::decode(&buffer[used..]).unwrap();
    assert_eq!(second.encode(), b":5\r\n");
    assert_eq!(used + used2, buffer.len());
}

#[test]
fn decode_null_forms() {
    let (m, used) = Message::decode(b"$-1\r\nrest").unwrap();
    assert_eq!(used, 5);
    assert_eq!(m.encode(), b"$-1\r\n");
    let (m, used) = Message::decode(b"*-1\r\n").unwrap();
    assert_eq!(used, 5);
    assert_eq!(m.encode(), b"*-1\r\n");
}

#[test]
fn parser_helpers_read_lines_and_numbers() {
    let (line, used) = redis_core::parser::read_until_crlf(b"abc\r\ndef").unwrap();
    assert_eq!(line, b"abc");
    assert_eq!(used, 5);
    assert!(redis_core::parser::read_until_crlf(b"abc").is_none());
    assert_eq!(redis_core::parser::parse_int(b"123"), Some(123));
    assert_eq!(redis_core::parser::parse_int(b""), None);
    assert_eq!(redis_core::parser::parse_int(b"12a"), None);
    assert_eq!(redis_core::parser::parse_int(b"18446744073709551615"), Some(u64::MAX));
    assert_eq!(redis_core::parser::parse_int(b"18446744073709551616"), None);
    assert_eq!(redis_core::parser::u64_to_dec(0), b"0");
    assert_eq!(redis_core::parser::u64_to_dec(90210), b"90210");
    assert_eq!(redis_core::parser::i64_to_dec(-45), b"-45");
}

#[test]
fn encode_array_str_builds_commands() {
    let wire = Message::encode_array_str(vec![b"PING".to_vec()]);
    assert_eq!(wire, b"*1\r\n$4\r\nPING\r\n");
}

#[test]
fn integer_frames_at_the_edges() {
    let (m, _) = Message::decode(b":9223372036854775807\r\n").unwrap();
    assert_eq!(m.encode(), b":9223372036854775807\r\n");
    let (m, _) = Message::decode(b":-9223372036854775808\r\n").unwrap();
    assert_eq!(m.encode(), b":-9223372036854775808\r\n");
    assert_eq!(
        Message::decode(b":9223372036854775808\r\n").unwrap_err(),
        DecodeError::Malformed
    );
}

#[test]
fn oversized_length_lines_are_malformed() {
    assert_eq!(
        Message::decode(b"$99999999999999999999\r\nx\r\n").unwrap_err(),
        DecodeError::Malformed
    );
    assert_eq!(
        Message::decode(b"*99999999999999999999\r\n").unwrap_err(),
        DecodeError::Malformed
    );
}
