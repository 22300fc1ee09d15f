use kvforge::exec::execute_at;
use kvforge::{execute, is_write, Command, Duration, Store, Value};

#[test]
fn exec_ping_replies_pong() {
    let mut store = Store::new();
    assert_eq!(
        execute(&mut store, &Command::Ping),
        Value::Simple("PONG".to_string())
    );
}

#[test]
fn set_then_get_round_trips() {
    let mut store = Store::new();
    execute(
        &mut store,
        &Command::Put {
            key: b"a".to_vec(),
            value: b"1".to_vec(),
            ttl: None,
        },
    );
    assert_eq!(
        execute(&mut store, &Command::Get { key: b"a".to_vec() }),
        Value::bulk(b"1".to_vec())
    );
}

#[test]
fn get_missing_key_is_nil() {
    let mut store = Store::new();
    assert_eq!(
        execute(&mut store, &Command::Get { key: b"a".to_vec() }),
        Value::nil()
    );
}

#[test]
fn del_reports_one_when_removed_zero_when_absent() {
    let mut store = Store::new();
    execute(
        &mut store,
        &Command::Put {
            key: b"a".to_vec(),
            value: b"1".to_vec(),
            ttl: None,
        },
    );
    assert_eq!(
        execute(&mut store, &Command::Del { key: b"a".to_vec() }),
        Value::Integer(1)
    );
    assert_eq!(
        execute(&mut store, &Command::Del { key: b"a".to_vec() }),
        Value::Integer(0)
    );
}

#[test]
fn exists_reports_zero_or_one() {
    let mut store = Store::new();
    assert_eq!(
        execute(&mut store, &Command::Exists { key: b"a".to_vec() }),
        Value::Integer(0)
    );
    execute(
        &mut store,
        &Command::Put {
            key: b"a".to_vec(),
            value: b"1".to_vec(),
            ttl: None,
        },
    );
    assert_eq!(
        execute(&mut store, &Command::Exists { key: b"a".to_vec() }),
        Value::Integer(1)
    );
}

#[test]
fn ttl_reports_minus_two_for_missing_key() {
    let mut store = Store::new();
    assert_eq!(
        execute(&mut store, &Command::Ttl { key: b"a".to_vec() }),
        Value::Integer(-2)
    );
}

#[test]
fn ttl_reports_minus_one_for_key_without_expiry() {
    let mut store = Store::new();
    execute(
        &mut store,
        &Command::Put {
            key: b"a".to_vec(),
            value: b"1".to_vec(),
            ttl: None,
        },
    );
    assert_eq!(
        execute(&mut store, &Command::Ttl { key: b"a".to_vec() }),
        Value::Integer(-1)
    );
}

#[test]
fn set_with_ttl_then_ttl_reports_remaining_seconds() {
    let mut store = Store::new();
    execute(
        &mut store,
        &Command::Put {
            key: b"a".to_vec(),
            value: b"1".to_vec(),
            ttl: Some(Duration::from_secs(10)),
        },
    );
    assert_eq!(
        execute(&mut store, &Command::Ttl { key: b"a".to_vec() }),
        Value::Integer(10)
    );
}

#[test]
fn expire_on_existing_key_reports_one() {
    let mut store = Store::new();
    execute(
        &mut store,
        &Command::Put {
            key: b"a".to_vec(),
            value: b"1".to_vec(),
            ttl: None,
        },
    );
    assert_eq!(
        execute(
            &mut store,
            &Command::Expire {
                key: b"a".to_vec(),
                ttl: Duration::from_secs(5),
            }
        ),
        Value::Integer(1)
    );
}

#[test]
fn expire_on_missing_key_reports_zero() {
    let mut store = Store::new();
    assert_eq!(
        execute(
            &mut store,
            &Command::Expire {
                key: b"a".to_vec(),
                ttl: Duration::from_secs(5),
            }
        ),
        Value::Integer(0)
    );
}

#[test]
fn flushall_clears_the_store_and_replies_ok() {
    let mut store = Store::new();
    execute(
        &mut store,
        &Command::Put {
            key: b"a".to_vec(),
            value: b"1".to_vec(),
            ttl: None,
        },
    );
    assert_eq!(execute(&mut store, &Command::FlushAll), Value::ok());
    assert!(store.is_empty());
}

#[test]
fn is_write_classifies_commands_correctly() {
    assert!(!is_write(&Command::Ping));
    assert!(!is_write(&Command::Get { key: b"a".to_vec() }));
    assert!(!is_write(&Command::Exists { key: b"a".to_vec() }));
    assert!(!is_write(&Command::Ttl { key: b"a".to_vec() }));
    assert!(is_write(&Command::Put {
        key: b"a".to_vec(),
        value: b"1".to_vec(),
        ttl: None,
    }));
    assert!(is_write(&Command::Del { key: b"a".to_vec() }));
    assert!(is_write(&Command::Expire {
        key: b"a".to_vec(),
        ttl: Duration::from_secs(1),
    }));
    assert!(is_write(&Command::FlushAll));
}

fn put(ttl: Option<Duration>) -> Command {
    Command::Put {
        key: b"a".to_vec(),
        value: b"1".to_vec(),
        ttl,
    }
}

#[test]
fn ttl_is_rounded_up_to_whole_seconds() {
    let ttl = Command::Ttl { key: b"a".to_vec() };
    let mut store = Store::new();
    execute_at(&mut store, &put(Some(Duration::from_secs(10))), Duration::from_secs(0));
    let expected = [(0, 10), (999, 10), (1000, 9), (8_999, 2), (9_000, 1), (10_000, -2)];
    for (now, left) in expected {
        assert_eq!(
            execute_at(&mut store, &ttl, Duration::from_millis(now)),
            Value::Integer(left)
        );
    }
}

#[test]
fn the_last_part_of_a_millisecond_counts_for_nothing() {
    let ttl = Command::Ttl { key: b"a".to_vec() };
    let mut store = Store::new();
    execute_at(&mut store, &put(Some(Duration::from_secs(1))), Duration::from_secs(0));
    let now = Duration::from_nanos_saturating(999_999_999);
    assert_eq!(execute_at(&mut store, &ttl, now), Value::Integer(0));
    assert_eq!(
        execute_at(&mut store, &Command::Exists { key: b"a".to_vec() }, now),
        Value::Integer(1)
    );
}

#[test]
fn a_key_is_gone_once_it_has_expired() {
    let mut store = Store::new();
    let (key, later) = (b"a".to_vec(), Duration::from_secs(2));
    execute_at(&mut store, &put(Some(Duration::from_secs(1))), Duration::from_secs(1));
    let expire = Command::Expire { key: key.clone(), ttl: later };
    assert_eq!(execute_at(&mut store, &expire, later), Value::Integer(0));
    assert_eq!(
        execute_at(&mut store, &Command::Ttl { key: key.clone() }, later),
        Value::Integer(-2)
    );
    assert_eq!(
        execute_at(&mut store, &Command::Get { key: key.clone() }, later),
        Value::nil()
    );
    assert_eq!(
        execute_at(&mut store, &Command::Exists { key }, later),
        Value::Integer(0)
    );
}

#[test]
fn reads_leave_the_rest_as_it_is() {
    let mut store = Store::new();
    execute(&mut store, &put(None));
    for command in [
        Command::Ping,
        Command::Get { key: b"b".to_vec() },
        Command::Exists { key: b"b".to_vec() },
        Command::Ttl { key: b"b".to_vec() },
    ] {
        assert!(!is_write(&command));
        execute(&mut store, &command);
        assert_eq!(store.len(), 1);
        assert_eq!(store.get(b"a"), Some(b"1".to_vec()));
    }
}

#[test]
fn ttl_never_exceeds_the_greatest_number() {
    let ttl = Command::Ttl { key: b"a".to_vec() };
    for (secs, left) in [
        (i64::MAX as u64, i64::MAX),
        (i64::MAX as u64 + 1, i64::MAX),
        (u64::MAX, i64::MAX),
    ] {
        let mut store = Store::new();
        let now = Duration::from_secs(0);
        execute_at(&mut store, &put(Some(Duration::from_secs(secs))), now);
        assert_eq!(execute_at(&mut store, &ttl, now), Value::Integer(left));
    }
}

#[test]
fn setting_a_key_leaves_the_expiry_of_the_others() {
    let mut store = Store::new();
    store.set_with_ttl(b"b".to_vec(), b"2".to_vec(), Duration::from_secs(100));
    let before = store.ttl(b"b").unwrap().unwrap().as_nanos();
    execute(&mut store, &put(None));
    let start = std::time::Instant::now();
    while start.elapsed().as_millis() < 20 {}
    execute(&mut store, &Command::Get { key: b"a".to_vec() });
    let after = store.ttl(b"b").unwrap().unwrap().as_nanos();
    assert!(after + 20_000_000 <= before);
}
