use kvforge::{Command, Duration, Value};

fn bulk_array(strs: &[&str]) -> Value {
    Value::array(
        strs.iter()
            .map(|s| Value::bulk(s.as_bytes().to_vec()))
            .collect(),
    )
}

#[test]
fn parses_ping() {
    assert_eq!(
        Command::from_request(&bulk_array(&["PING"])).unwrap(),
        Command::Ping
    );
}

#[test]
fn parses_ping_case_insensitively() {
    assert_eq!(
        Command::from_request(&bulk_array(&["ping"])).unwrap(),
        Command::Ping
    );
}

#[test]
fn parses_get() {
    assert_eq!(
        Command::from_request(&bulk_array(&["GET", "a"])).unwrap(),
        Command::Get { key: b"a".to_vec() }
    );
}

#[test]
fn parses_set_without_ttl() {
    assert_eq!(
        Command::from_request(&bulk_array(&["SET", "a", "1"])).unwrap(),
        Command::Put {
            key: b"a".to_vec(),
            value: b"1".to_vec(),
            ttl: None,
        }
    );
}

#[test]
fn parses_set_with_px() {
    assert_eq!(
        Command::from_request(&bulk_array(&["SET", "a", "1", "PX", "500"])).unwrap(),
        Command::Put {
            key: b"a".to_vec(),
            value: b"1".to_vec(),
            ttl: Some(Duration::from_millis(500)),
        }
    );
}

#[test]
fn parses_set_with_ex() {
    assert_eq!(
        Command::from_request(&bulk_array(&["SET", "a", "1", "EX", "5"])).unwrap(),
        Command::Put {
            key: b"a".to_vec(),
            value: b"1".to_vec(),
            ttl: Some(Duration::from_secs(5)),
        }
    );
}

#[test]
fn rejects_set_with_bad_ttl_option() {
    assert!(Command::from_request(&bulk_array(&["SET", "a", "1", "ZZ", "5"])).is_err());
}

#[test]
fn rejects_get_missing_key() {
    assert!(Command::from_request(&bulk_array(&["GET"])).is_err());
}

#[test]
fn rejects_unknown_command() {
    assert!(Command::from_request(&bulk_array(&["NOPE"])).is_err());
}

#[test]
fn rejects_empty_array() {
    assert!(Command::from_request(&Value::array(vec![])).is_err());
}

#[test]
fn rejects_non_array_request() {
    assert!(Command::from_request(&Value::Integer(1)).is_err());
}

#[test]
fn rejects_expire_with_non_numeric_seconds() {
    assert!(Command::from_request(&bulk_array(&["EXPIRE", "a", "soon"])).is_err());
}

#[test]
fn to_request_round_trips_through_from_request() {
    let cmd = Command::Put {
        key: b"a".to_vec(),
        value: b"1".to_vec(),
        ttl: Some(Duration::from_millis(500)),
    };
    let parsed = Command::from_request(&cmd.to_request()).unwrap();
    assert_eq!(parsed, cmd);
}

#[test]
fn expire_to_request_round_trips() {
    let cmd = Command::Expire {
        key: b"a".to_vec(),
        ttl: Duration::from_secs(30),
    };
    assert_eq!(Command::from_request(&cmd.to_request()).unwrap(), cmd);
}

fn complaint(strs: &[&str]) -> String {
    Command::from_request(&bulk_array(strs)).unwrap_err().message()
}

#[test]
fn each_error_has_its_message() {
    let not_bulk = Value::array(vec![Value::bulk(b"GET".to_vec()), Value::Integer(1)]);
    let error = Command::from_request(&not_bulk).unwrap_err();
    assert_eq!(error.message(), "expected bulk string array elements");
    assert_eq!(error.clone(), error);
    let nil = Value::array(vec![Value::nil()]);
    assert_eq!(
        Command::from_request(&nil).unwrap_err().message(),
        "expected bulk string array elements"
    );
    for value in [Value::Integer(1), Value::Array(None), Value::ok()] {
        assert_eq!(
            Command::from_request(&value).unwrap_err().message(),
            "expected an array request"
        );
    }
    assert_eq!(complaint(&[]), "empty command");
    assert_eq!(complaint(&["GET"]), "GET requires a key");
    assert_eq!(complaint(&["DEL"]), "DEL requires a key");
    assert_eq!(complaint(&["EXISTS"]), "EXISTS requires a key");
    assert_eq!(complaint(&["TTL"]), "TTL requires a key");
    assert_eq!(complaint(&["EXPIRE"]), "EXPIRE requires a key");
    assert_eq!(
        complaint(&["EXPIRE", "a"]),
        "EXPIRE requires a numeric seconds argument"
    );
    assert_eq!(
        complaint(&["EXPIRE", "a", "-1"]),
        "EXPIRE requires a numeric seconds argument"
    );
    assert_eq!(complaint(&["SET"]), "SET requires a key");
    assert_eq!(complaint(&["SET", "a"]), "SET requires a value");
    assert_eq!(
        complaint(&["SET", "a", "1", "PX"]),
        "PX requires a numeric millisecond argument"
    );
    assert_eq!(
        complaint(&["SET", "a", "1", "ex", "18446744073709551616"]),
        "EX requires a numeric seconds argument"
    );
    assert_eq!(complaint(&["SET", "a", "1", "NX"]), "unsupported SET option");
    assert_eq!(complaint(&["nope", "a"]), "unknown command 'NOPE'");
    assert_eq!(complaint(&[""]), "unknown command ''");
}

#[test]
fn a_name_that_is_not_text_is_shown_with_replacements() {
    let request = Value::array(vec![Value::bulk(b"ge\xfft".to_vec())]);
    assert_eq!(
        Command::from_request(&request).unwrap_err().message(),
        "unknown command 'GE\u{fffd}T'"
    );
    assert_eq!(complaint(&["\u{e9}a"]), "unknown command '\u{e9}A'");
}

#[test]
fn names_and_options_are_read_in_either_case() {
    for name in ["SET", "set", "SeT"] {
        for option in ["PX", "px", "pX"] {
            assert_eq!(
                Command::from_request(&bulk_array(&[name, "Key", "Value", option, "+9"])).unwrap(),
                Command::Put {
                    key: b"Key".to_vec(),
                    value: b"Value".to_vec(),
                    ttl: Some(Duration::from_millis(9)),
                }
            );
        }
    }
}

#[test]
fn arguments_beyond_those_asked_for_are_passed_over() {
    assert_eq!(
        Command::from_request(&bulk_array(&["GET", "a", "b"])).unwrap(),
        Command::Get { key: b"a".to_vec() }
    );
    assert_eq!(
        Command::from_request(&bulk_array(&["PING", "a"])).unwrap(),
        Command::Ping
    );
}

#[test]
fn every_command_is_read_back_from_its_request() {
    let key = b"k".to_vec();
    let commands = [
        Command::Ping,
        Command::Put { key: key.clone(), value: vec![0, 255], ttl: None },
        Command::Get { key: key.clone() },
        Command::Del { key: key.clone() },
        Command::Exists { key: key.clone() },
        Command::Expire { key: key.clone(), ttl: Duration::from_secs(u64::MAX) },
        Command::Ttl { key },
        Command::FlushAll,
    ];
    for command in commands {
        let request = command.to_request();
        assert_eq!(Command::from_request(&request).unwrap(), command);
        assert_eq!(command.clone(), command);
    }
}

#[test]
fn a_request_cuts_off_what_its_unit_cannot_give() {
    let ttl = Duration::from_nanos_saturating(1_999_999_999);
    let put = Command::Put { key: vec![], value: vec![], ttl: Some(ttl) };
    assert_eq!(
        put.to_request(),
        bulk_array(&["SET", "", "", "PX", "1999"])
    );
    let expire = Command::Expire { key: vec![], ttl };
    assert_eq!(expire.to_request(), bulk_array(&["EXPIRE", "", "1"]));
}

#[test]
fn a_time_to_live_that_is_long_in_milliseconds_is_given_in_seconds() {
    let key = b"a".to_vec();
    let put = |ttl: Duration| Command::Put { key: key.clone(), value: vec![], ttl: Some(ttl) };
    let request = put(Duration::from_millis(u64::MAX)).to_request();
    assert_eq!(request, bulk_array(&["SET", "a", "", "PX", "18446744073709551615"]));
    let request = put(Duration::from_secs(u64::MAX / 1000 + 1)).to_request();
    assert_eq!(request, bulk_array(&["SET", "a", "", "EX", "18446744073709552"]));
    for secs in ["20000000000000000", "18446744073709551615"] {
        let request = bulk_array(&["SET", "a", "", "EX", secs]);
        let command = Command::from_request(&request).unwrap();
        assert_eq!(command.to_request(), request);
        assert_eq!(Command::from_request(&command.to_request()).unwrap(), command);
    }
    let longest = put(Duration::from_nanos_saturating(u128::MAX));
    assert_eq!(
        longest.to_request(),
        bulk_array(&["SET", "a", "", "EX", "18446744073709551615"])
    );
}

#[test]
fn an_unknown_name_is_reported_alike_in_either_case() {
    for (name, other) in [("nope", "NOPE"), ("n\u{e9}Pe", "N\u{e9}pE"), ("", "")] {
        assert_eq!(complaint(&[name, "a"]), complaint(&[other, "a"]));
    }
    let refuse = |name: &[u8]| {
        let request = Value::array(vec![Value::bulk(name.to_vec())]);
        Command::from_request(&request).unwrap_err().message()
    };
    assert_eq!(refuse(b"\xc3a\xffz"), refuse(b"\xc3A\xffZ"));
}

#[test]
fn an_unknown_name_is_shown_as_text_in_upper_case() {
    for first in 0..=255u8 {
        for second in 0..=255u8 {
            for mut name in [vec![], vec![0xe2], vec![0xf0, 0x9f]] {
                name.push(first);
                name.push(second);
                let text = String::from_utf8_lossy(&name).to_ascii_uppercase();
                let request = Value::array(vec![Value::bulk(name)]);
                assert_eq!(
                    Command::from_request(&request).unwrap_err().message(),
                    format!("unknown command '{text}'")
                );
            }
        }
    }
}
