use kvforge::session::{serve_one, serve_one_at, take_reply, try_decode_one};
use kvforge::{Command, Duration, Store, Value};

#[test]
fn incomplete_frame_yields_no_response_and_keeps_buffer() {
    let mut store = Store::new();
    let mut buf = b"*1\r\n$4\r\nPI".to_vec();
    let result = try_decode_one(&mut buf, &mut store);
    assert!(result.is_none());
    assert_eq!(buf, b"*1\r\n$4\r\nPI");
}

#[test]
fn complete_ping_frame_yields_pong_and_drains_buffer() {
    let mut store = Store::new();
    let mut buf = Command::Ping.to_request().encode();
    let result = try_decode_one(&mut buf, &mut store);
    assert_eq!(result, Some(Value::Simple("PONG".to_string())));
    assert!(buf.is_empty());
}

#[test]
fn malformed_frame_yields_error_and_clears_buffer() {
    let mut store = Store::new();
    let mut buf = b"?nope\r\n".to_vec();
    let result = try_decode_one(&mut buf, &mut store);
    assert!(matches!(result, Some(Value::Error(_))));
    assert!(buf.is_empty());
}

#[test]
fn non_command_array_yields_error_response() {
    let mut store = Store::new();
    let mut buf = Value::Integer(1).encode();
    let result = try_decode_one(&mut buf, &mut store);
    assert!(matches!(result, Some(Value::Error(_))));
}

fn put(key: &[u8], value: &[u8]) -> Command {
    Command::Put {
        key: key.to_vec(),
        value: value.to_vec(),
        ttl: None,
    }
}

fn get(key: &[u8]) -> Command {
    Command::Get { key: key.to_vec() }
}

#[test]
fn requests_are_served_in_the_order_in_which_they_were_sent() {
    let mut store = Store::new();
    let mut buf = Vec::new();
    let mut expected = Vec::new();
    for n in 0..5u8 {
        buf.extend(put(&[n], &[n, n]).to_request().encode());
        buf.extend(get(&[n]).to_request().encode());
        expected.push(Value::ok());
        expected.push(Value::bulk(vec![n, n]));
    }
    let mut responses = Vec::new();
    while let Some(response) = try_decode_one(&mut buf, &mut store) {
        responses.push(response);
    }
    assert_eq!(responses, expected);
    assert!(buf.is_empty());
}

#[test]
fn how_the_bytes_arrive_does_not_matter() {
    let mut store = Store::new();
    let mut buf = Vec::new();
    let mut responses = Vec::new();
    let mut sent = put(b"a", b"1").to_request().encode();
    sent.extend(get(b"a").to_request().encode());
    for byte in sent {
        buf.push(byte);
        while let Some(response) = try_decode_one(&mut buf, &mut store) {
            responses.push(response);
        }
    }
    assert_eq!(responses, vec![Value::ok(), Value::bulk(b"1".to_vec())]);
}

#[test]
fn writes_are_logged_and_reads_are_not() {
    let mut store = Store::new();
    let mut buf = put(b"a", b"1").to_request().encode();
    let served = serve_one(&mut buf, &mut store).unwrap();
    assert_eq!(served.response, Value::ok());
    assert_eq!(served.logged, Some(put(b"a", b"1")));
    assert!(!served.close);
    let mut buf = get(b"a").to_request().encode();
    let served = serve_one(&mut buf, &mut store).unwrap();
    assert_eq!(served.response, Value::bulk(b"1".to_vec()));
    assert_eq!(served.logged, None);
    assert!(!served.close);
}

#[test]
fn a_request_that_is_no_command_is_refused_and_the_next_is_served() {
    let mut store = Store::new();
    let mut buf = b"*1\r\n$4\r\nnope\r\n".to_vec();
    buf.extend(Command::Ping.to_request().encode());
    let served = serve_one(&mut buf, &mut store).unwrap();
    assert_eq!(
        served.response,
        Value::Error("ERR unknown command 'NOPE'".to_string())
    );
    assert_eq!(served.logged, None);
    assert!(!served.close);
    let served = serve_one(&mut buf, &mut store).unwrap();
    assert_eq!(served.response, Value::Simple("PONG".to_string()));
    assert!(serve_one(&mut buf, &mut store).is_none());
}

#[test]
fn bytes_that_are_no_frame_end_the_connection() {
    let mut store = Store::new();
    let mut buf = b"?nope\r\n".to_vec();
    buf.extend(Command::Ping.to_request().encode());
    let served = serve_one(&mut buf, &mut store).unwrap();
    assert_eq!(
        served.response,
        Value::Error("ERR unknown type tag '?'".to_string())
    );
    assert!(served.close);
    assert!(buf.is_empty());
}

#[test]
fn requests_are_served_as_of_a_time() {
    let mut store = Store::new();
    let mut buf = b"*5\r\n$3\r\nSET\r\n$1\r\na\r\n$1\r\n1\r\n$2\r\nEX\r\n$1\r\n5\r\n".to_vec();
    serve_one_at(&mut buf, &mut store, Duration::from_secs(1)).unwrap();
    for (now, left) in [(1, 5), (5, 1), (6, -2)] {
        let mut buf = b"*2\r\n$3\r\nTTL\r\n$1\r\na\r\n".to_vec();
        let served = serve_one_at(&mut buf, &mut store, Duration::from_secs(now)).unwrap();
        assert_eq!(served.response, Value::Integer(left));
    }
}

#[test]
fn a_client_takes_replies_one_by_one() {
    let mut buf = Value::ok().encode();
    buf.extend(Value::Integer(3).encode());
    buf.extend_from_slice(b"$5\r\nhel");
    assert_eq!(take_reply(&mut buf), Ok(Some(Value::ok())));
    assert_eq!(take_reply(&mut buf), Ok(Some(Value::Integer(3))));
    assert_eq!(take_reply(&mut buf), Ok(None));
    buf.extend_from_slice(b"lo\r\n?");
    assert_eq!(take_reply(&mut buf), Ok(Some(Value::bulk(b"hello".to_vec()))));
    assert_eq!(take_reply(&mut buf), Err("unknown type tag '?'".to_string()));
    assert_eq!(buf, b"?");
}
