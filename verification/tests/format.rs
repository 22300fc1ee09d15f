use kvforge::format::{format_at, format_value, number_lines};
use kvforge::Value;

#[test]
fn formats_simple_string_as_is() {
    assert_eq!(format_value(&Value::Simple("OK".to_string())), "OK");
}

#[test]
fn formats_error_with_prefix() {
    assert_eq!(
        format_value(&Value::Error("ERR boom".to_string())),
        "(error) ERR boom"
    );
}

#[test]
fn formats_integer_with_prefix() {
    assert_eq!(format_value(&Value::Integer(42)), "(integer) 42");
}

#[test]
fn formats_nil_bulk_string() {
    assert_eq!(format_value(&Value::Bulk(None)), "(nil)");
}

#[test]
fn formats_bulk_string_quoted() {
    assert_eq!(format_value(&Value::bulk(b"hello".to_vec())), "\"hello\"");
}

#[test]
fn formats_empty_array() {
    assert_eq!(format_value(&Value::array(vec![])), "(empty array)");
}

#[test]
fn formats_array_with_numbered_lines() {
    let value = Value::array(vec![Value::bulk(b"a".to_vec()), Value::Integer(2)]);
    assert_eq!(format_value(&value), "1) \"a\"\n2) (integer) 2");
}

#[test]
fn formats_text_with_escapes() {
    assert_eq!(format_value(&Value::bulk(b"a\"b\n".to_vec())), "\"a\\\"b\\n\"");
    assert_eq!(format_value(&Value::bulk(b"\xff".to_vec())), "\"\u{fffd}\"");
    assert_eq!(format_value(&Value::bulk(vec![])), "\"\"");
}

#[test]
fn formats_nil_array() {
    assert_eq!(format_value(&Value::Array(None)), "(nil)");
}

#[test]
fn formats_negative_integer() {
    assert_eq!(format_value(&Value::Integer(i64::MIN)), "(integer) -9223372036854775808");
}

#[test]
fn formats_array_in_array_with_a_margin() {
    let inner = Value::array(vec![Value::Integer(1), Value::nil()]);
    let value = Value::array(vec![Value::ok(), inner, Value::array(vec![])]);
    assert_eq!(
        format_value(&value),
        "1) OK\n2) 1) (integer) 1\n   2) (nil)\n3) (empty array)"
    );
}

#[test]
fn formats_array_behind_the_number_of_its_parent() {
    let inner = Value::array(vec![Value::bulk(b"a".to_vec()), Value::bulk(b"b".to_vec())]);
    let value = Value::array(vec![inner.clone()]);
    assert_eq!(format_value(&value), "1) 1) \"a\"\n   2) \"b\"");
    assert_eq!(format_at(&inner, "  "), "1) \"a\"\n  2) \"b\"");
    let value = Value::array(vec![value, inner]);
    assert_eq!(
        format_value(&value),
        "1) 1) 1) \"a\"\n      2) \"b\"\n2) 1) \"a\"\n   2) \"b\""
    );
}

#[test]
fn formats_ten_lines_with_their_numbers_aligned() {
    let value = Value::array(vec![Value::ok(); 10]);
    let text = format_value(&value);
    assert!(text.starts_with(" 1) OK\n 2) OK\n"));
    assert!(text.ends_with("\n 9) OK\n10) OK"));
    let mut items = vec![Value::ok(); 9];
    items.push(Value::array(vec![Value::nil(), Value::nil()]));
    let text = format_value(&Value::array(items));
    assert!(text.ends_with("\n 9) OK\n10) 1) (nil)\n    2) (nil)"));
}

#[test]
fn formats_a_hundred_lines_with_their_numbers_aligned() {
    let text = format_value(&Value::array(vec![Value::ok(); 100]));
    assert!(text.starts_with("  1) OK\n"));
    assert!(text.ends_with("\n 99) OK\n100) OK"));
}

#[test]
fn numbers_lines_with_a_margin() {
    let lines = vec!["x".to_string(), "y".to_string()];
    assert_eq!(number_lines("--", &lines), "1) x\n--2) y");
    assert_eq!(number_lines("--", &vec![]), "");
}
