use kvforge::{decode, ProtocolError, Value};

fn roundtrip(value: Value) {
    let encoded = value.encode();
    let (decoded, consumed) = decode(&encoded).expect("should decode");
    assert_eq!(decoded, value);
    assert_eq!(consumed, encoded.len());
}

#[test]
fn roundtrips_simple_string() {
    roundtrip(Value::Simple("OK".to_string()));
}

#[test]
fn roundtrips_error() {
    roundtrip(Value::Error("ERR no such key".to_string()));
}

#[test]
fn roundtrips_integer() {
    roundtrip(Value::Integer(-42));
}

#[test]
fn roundtrips_bulk_string() {
    roundtrip(Value::bulk(b"hello world".to_vec()));
}

#[test]
fn roundtrips_empty_bulk_string() {
    roundtrip(Value::bulk(Vec::new()));
}

#[test]
fn roundtrips_nil_bulk_string() {
    roundtrip(Value::nil());
}

#[test]
fn roundtrips_nil_array() {
    roundtrip(Value::Array(None));
}

#[test]
fn roundtrips_nested_array() {
    roundtrip(Value::array(vec![
        Value::bulk(b"SET".to_vec()),
        Value::bulk(b"key".to_vec()),
        Value::bulk(b"value".to_vec()),
    ]));
}

#[test]
fn bulk_string_survives_embedded_crlf() {
    roundtrip(Value::bulk(b"line one\r\nline two".to_vec()));
}

#[test]
fn decode_reports_bytes_consumed_and_leaves_the_rest() {
    let mut buf = Value::Simple("OK".to_string()).encode();
    buf.extend_from_slice(&Value::Integer(7).encode());
    let (first, consumed) = decode(&buf).unwrap();
    assert_eq!(first, Value::Simple("OK".to_string()));
    let (second, _) = decode(&buf[consumed..]).unwrap();
    assert_eq!(second, Value::Integer(7));
}

#[test]
fn incomplete_simple_string_reports_incomplete() {
    assert_eq!(decode(b"+OK"), Err(ProtocolError::Incomplete));
}

#[test]
fn incomplete_bulk_body_reports_incomplete() {
    assert_eq!(decode(b"$5\r\nhel"), Err(ProtocolError::Incomplete));
}

#[test]
fn empty_buffer_reports_incomplete() {
    assert_eq!(decode(b""), Err(ProtocolError::Incomplete));
}

#[test]
fn unknown_tag_is_malformed() {
    assert!(matches!(
        decode(b"?xyz\r\n"),
        Err(ProtocolError::Malformed(_))
    ));
}

#[test]
fn bulk_missing_trailing_crlf_is_malformed() {
    assert!(matches!(
        decode(b"$3\r\nabcXX"),
        Err(ProtocolError::Malformed(_))
    ));
}

#[test]
fn non_utf8_simple_string_is_malformed() {
    let mut buf = vec![b'+'];
    buf.extend_from_slice(&[0xff, 0xfe]);
    buf.extend_from_slice(b"\r\n");
    assert!(matches!(decode(&buf), Err(ProtocolError::Malformed(_))));
}

fn malformed(msg: &str) -> Result<(Value, usize), ProtocolError> {
    Err(ProtocolError::Malformed(msg.to_string()))
}

#[test]
fn values_are_written_byte_for_byte() {
    assert_eq!(Value::ok().encode(), b"+OK\r\n");
    assert_eq!(Value::error("ERR no".to_string()).encode(), b"-ERR no\r\n");
    assert_eq!(Value::Integer(i64::MIN).encode(), b":-9223372036854775808\r\n");
    assert_eq!(Value::Integer(0).encode(), b":0\r\n");
    assert_eq!(Value::nil().encode(), b"$-1\r\n");
    assert_eq!(Value::bulk(b"foobar".to_vec()).encode(), b"$6\r\nfoobar\r\n");
    assert_eq!(Value::Array(None).encode(), b"*-1\r\n");
    assert_eq!(Value::array(vec![]).encode(), b"*0\r\n");
    assert_eq!(
        Value::array(vec![Value::Integer(1), Value::array(vec![Value::nil()])]).encode(),
        b"*2\r\n:1\r\n*1\r\n$-1\r\n"
    );
}

#[test]
fn values_are_written_at_the_end() {
    let mut out = b"x".to_vec();
    Value::Integer(10).encode_into(&mut out);
    assert_eq!(out, b"x:10\r\n");
}

#[test]
fn a_cut_frame_is_incomplete_wherever_it_is_cut() {
    let value = Value::array(vec![
        Value::bulk(b"a\r\nb".to_vec()),
        Value::Integer(-7),
        Value::Simple("\u{e9}".to_string()),
    ]);
    let bytes = value.encode();
    for n in 0..bytes.len() {
        assert_eq!(decode(&bytes[..n]), Err(ProtocolError::Incomplete));
    }
    assert_eq!(decode(&bytes), Ok((value, bytes.len())));
}

#[test]
fn what_follows_a_frame_does_not_matter() {
    assert_eq!(decode(b":5\r\n?"), Ok((Value::Integer(5), 4)));
    assert_eq!(decode(b":x\r\n"), malformed("invalid integer"));
    assert_eq!(decode(b":x\r\n:5\r\n"), malformed("invalid integer"));
}

#[test]
fn a_simple_string_that_breaks_the_line_is_cut() {
    let bytes = Value::Simple("a\r\nb".to_string()).encode();
    assert_eq!(decode(&bytes), Ok((Value::Simple("a".to_string()), 4)));
}

#[test]
fn each_fault_has_its_message() {
    assert_eq!(decode(b"+\xff\r\n"), malformed("not valid UTF-8"));
    assert_eq!(decode(b"-\xc3\r\n"), malformed("not valid UTF-8"));
    assert_eq!(decode(b":1.5\r\n"), malformed("invalid integer"));
    assert_eq!(decode(b":\r\n"), malformed("invalid integer"));
    assert_eq!(decode(b":9223372036854775808\r\n"), malformed("invalid integer"));
    assert_eq!(decode(b"$x\r\n"), malformed("invalid bulk length"));
    assert_eq!(decode(b"$1\r\naXX"), malformed("bulk string not CRLF-terminated"));
    assert_eq!(decode(b"*x\r\n"), malformed("invalid array length"));
    assert_eq!(decode(b"*1\r\n?"), malformed("unknown type tag '?'"));
    assert_eq!(decode(b"\xe9"), malformed("unknown type tag '\u{e9}'"));
}

#[test]
fn numbers_may_have_a_sign() {
    assert_eq!(decode(b":+7\r\n"), Ok((Value::Integer(7), 5)));
    assert_eq!(decode(b":-0\r\n"), Ok((Value::Integer(0), 5)));
    assert_eq!(decode(b":007\r\n"), Ok((Value::Integer(7), 6)));
    assert_eq!(decode(b":+-7\r\n"), malformed("invalid integer"));
    assert_eq!(decode(b":-\r\n"), malformed("invalid integer"));
}

#[test]
fn any_negative_length_is_null() {
    assert_eq!(decode(b"$-7\r\n"), Ok((Value::Bulk(None), 5)));
    assert_eq!(decode(b"*-7\r\n"), Ok((Value::Array(None), 5)));
}

#[test]
fn a_length_beyond_memory_waits_for_more() {
    assert_eq!(decode(b"$9223372036854775807\r\na"), Err(ProtocolError::Incomplete));
    assert_eq!(decode(b"*9223372036854775807\r\n"), Err(ProtocolError::Incomplete));
}

#[test]
fn errors_have_messages() {
    assert_eq!(ProtocolError::Incomplete.message(), "incomplete frame");
    let error = ProtocolError::Malformed("invalid integer".to_string());
    assert_eq!(error.message(), "malformed frame: invalid integer");
    assert_eq!(error.clone(), error);
}

#[test]
fn a_clone_is_the_same_value() {
    let value = Value::array(vec![
        Value::Simple("s".to_string()),
        Value::Error("e".to_string()),
        Value::Integer(3),
        Value::nil(),
        Value::bulk(b"b".to_vec()),
        Value::Array(None),
        Value::array(vec![]),
    ]);
    assert_eq!(value.clone(), value);
}

#[test]
fn a_frame_depends_on_its_own_bytes() {
    let buf = b"*2\r\n:+7\r\n$-3\r\nrest";
    let (value, n) = decode(buf).unwrap();
    assert_eq!(value, Value::array(vec![Value::Integer(7), Value::nil()]));
    assert_eq!(decode(&buf[..n]), Ok((value, n)));
}
