use kvforge::aof::{encode, replay_bytes};
use kvforge::{decode, execute, is_write, Command, Duration, Store};

#[test]
fn replay_bytes_applies_logged_writes_in_order() {
    let mut store = Store::new();
    let mut log = Vec::new();
    log.extend(encode(&Command::Put {
        key: b"a".to_vec(),
        value: b"1".to_vec(),
        ttl: None,
    }));
    log.extend(encode(&Command::Put {
        key: b"a".to_vec(),
        value: b"2".to_vec(),
        ttl: None,
    }));
    log.extend(encode(&Command::Del { key: b"a".to_vec() }));
    log.extend(encode(&Command::Put {
        key: b"b".to_vec(),
        value: b"3".to_vec(),
        ttl: None,
    }));

    let replayed = replay_bytes(&log, &mut store);

    assert_eq!(replayed, 4);
    assert_eq!(store.get(b"a"), None);
    assert_eq!(store.get(b"b"), Some(b"3".to_vec()));
}

#[test]
fn replay_bytes_preserves_ttl() {
    let mut store = Store::new();
    let log = encode(&Command::Put {
        key: b"a".to_vec(),
        value: b"1".to_vec(),
        ttl: Some(Duration::from_secs(30)),
    });

    replay_bytes(&log, &mut store);

    assert!(store.ttl(b"a").unwrap().is_some());
}

#[test]
fn replay_bytes_stops_at_a_truncated_trailing_command() {
    let mut store = Store::new();
    let mut log = encode(&Command::Put {
        key: b"a".to_vec(),
        value: b"1".to_vec(),
        ttl: None,
    });
    let full_second = encode(&Command::Put {
        key: b"b".to_vec(),
        value: b"2".to_vec(),
        ttl: None,
    });
    // Simulate a crash mid-write: only half of the second command made
    // it to disk.
    log.extend_from_slice(&full_second[..full_second.len() / 2]);

    let replayed = replay_bytes(&log, &mut store);

    assert_eq!(replayed, 1);
    assert_eq!(store.get(b"a"), Some(b"1".to_vec()));
    assert_eq!(store.get(b"b"), None);
}

#[test]
fn replay_bytes_of_empty_log_replays_nothing() {
    let mut store = Store::new();
    assert_eq!(replay_bytes(&[], &mut store), 0);
}

fn put(key: &[u8], value: &[u8]) -> Command {
    Command::Put {
        key: key.to_vec(),
        value: value.to_vec(),
        ttl: None,
    }
}

#[test]
fn an_entry_is_the_request_of_its_command() {
    assert_eq!(encode(&put(b"a", b"1")), b"*3\r\n$3\r\nSET\r\n$1\r\na\r\n$1\r\n1\r\n");
    let expire = Command::Expire {
        key: b"a".to_vec(),
        ttl: Duration::from_secs(30),
    };
    assert_eq!(encode(&expire), b"*3\r\n$6\r\nEXPIRE\r\n$1\r\na\r\n$2\r\n30\r\n");
}

#[test]
fn the_last_entry_is_dropped_wherever_it_is_cut() {
    let first = encode(&put(b"a", b"1"));
    let last = encode(&put(b"b", b"2"));
    for n in 0..last.len() {
        let mut log = first.clone();
        log.extend_from_slice(&last[..n]);
        let mut store = Store::new();
        assert_eq!(replay_bytes(&log, &mut store), 1);
        assert_eq!(store.get(b"a"), Some(b"1".to_vec()));
        assert_eq!(store.len(), 1);
    }
}

#[test]
fn replay_stops_at_bytes_that_are_no_frame() {
    let mut log = encode(&put(b"a", b"1"));
    log.extend_from_slice(b"?\r\n");
    log.extend(encode(&put(b"b", b"2")));
    let mut store = Store::new();
    assert_eq!(replay_bytes(&log, &mut store), 1);
    assert_eq!(store.get(b"b"), None);
}

#[test]
fn replay_passes_over_frames_that_are_no_command() {
    let mut log = b":1\r\n*1\r\n$4\r\nNOPE\r\n".to_vec();
    log.extend(encode(&put(b"b", b"2")));
    let mut store = Store::new();
    assert_eq!(replay_bytes(&log, &mut store), 1);
    assert_eq!(store.get(b"b"), Some(b"2".to_vec()));
}

#[test]
fn replay_adds_to_what_is_there() {
    let mut store = Store::new();
    store.set(b"x".to_vec(), b"0".to_vec());
    assert_eq!(replay_bytes(&encode(&put(b"a", b"1")), &mut store), 1);
    assert_eq!(store.len(), 2);
}

#[test]
fn the_writes_rebuild_the_store() {
    let commands = [
        put(b"a", b"1"),
        Command::Get { key: b"a".to_vec() },
        put(b"b", b"2"),
        Command::Del { key: b"a".to_vec() },
        Command::FlushAll,
        put(b"c", b"3"),
        Command::Exists { key: b"z".to_vec() },
        put(b"c", b"4"),
    ];
    let mut store = Store::new();
    let mut log = Vec::new();
    let mut writes = 0;
    for command in &commands {
        execute(&mut store, command);
        if is_write(command) {
            log.extend(encode(command));
            writes += 1;
        }
    }
    let mut rebuilt = Store::new();
    assert_eq!(replay_bytes(&log, &mut rebuilt), writes);
    assert_eq!(rebuilt.len(), store.len());
    for key in [b"a", b"b", b"c"] {
        assert_eq!(rebuilt.get(key), store.get(key));
        assert_eq!(rebuilt.ttl(key), store.ttl(key));
    }
}

#[test]
fn an_entry_with_a_long_time_to_live_is_replayed() {
    let command = Command::Put {
        key: b"a".to_vec(),
        value: b"1".to_vec(),
        ttl: Some(Duration::from_secs(20_000_000_000_000_000)),
    };
    let mut store = Store::new();
    assert_eq!(replay_bytes(&encode(&command), &mut store), 1);
    assert_eq!(store.get(b"a"), Some(b"1".to_vec()));
    assert!(store.ttl(b"a").unwrap().is_some());
}

#[test]
fn an_entry_is_one_whole_frame() {
    let command = Command::Del { key: b"a".to_vec() };
    let mut bytes = encode(&command);
    assert_eq!(bytes, b"*2\r\n$3\r\nDEL\r\n$1\r\na\r\n");
    let len = bytes.len();
    bytes.extend_from_slice(b"rest");
    assert_eq!(decode(&bytes), Ok((command.to_request(), len)));
}
