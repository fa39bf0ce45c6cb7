use myco_kv::errors::TransactionError;
use myco_kv::kvmap::map_error::MapError;
use myco_kv::kvmap::KVMap;
use myco_kv::operation::expiration::Expiration;
use myco_kv::operation::value::Value;
use myco_kv::operation::Operation;
use myco_kv::wal::WriteAheadLog;

const NOW: i64 = 1_700_000_000_000;

fn json(text: &str) -> serde_json::Value {
    serde_json::from_str::<serde_json::Value>(text).unwrap()
}

fn lines(map: &KVMap) -> Vec<String> {
    map.wal().read_all_lines().unwrap()
}

fn reopened(map: &KVMap) -> KVMap {
    let mut again = KVMap::new(WriteAheadLog::from_lines(lines(map)));
    again.restore_at(NOW).unwrap();
    again
}

#[test]
fn test_put_and_get() {
    let mut map = KVMap::new(WriteAheadLog::new());
    map.put("key".to_string(), Value::String("value".to_string()))
        .unwrap();

    assert_eq!(map.get("key"), Ok("\"value\"".to_string()));
}

#[test]
fn test_delete() {
    let mut map = KVMap::new(WriteAheadLog::new());
    map.put("key".to_string(), Value::String("value".to_string()))
        .unwrap();

    assert_eq!(map.delete("key"), Ok("\"value\"".to_string()));
    assert_eq!(
        map.get("key"),
        Err(TransactionError::KeyNotFound("key".to_string()))
    );
}

#[test]
fn test_process_operation_get() {
    let mut map = KVMap::new(WriteAheadLog::new());
    map.put("key".to_string(), Value::String("value".to_string()))
        .unwrap();

    let operation = Operation::Get("key".to_string());

    assert_eq!(
        map.process_operation(operation),
        Ok("\"value\"".to_string())
    );
}

#[test]
fn test_process_operation_put() {
    let mut map = KVMap::new(WriteAheadLog::new());

    let operation = Operation::Put("key".to_string(), Value::String("value".to_string()));
    assert_eq!(
        map.process_operation(operation),
        Ok("\"value\"".to_string())
    );

    assert_eq!(map.get("key"), Ok("\"value\"".to_string()));
}

#[test]
fn test_process_operation_delete() {
    let mut map = KVMap::new(WriteAheadLog::new());
    map.put("key".to_string(), Value::String("value".to_string()))
        .unwrap();

    let operation = Operation::Delete("key".to_string());
    assert_eq!(
        map.process_operation(operation),
        Ok("\"value\"".to_string())
    );
    assert_eq!(
        map.get("key"),
        Err(TransactionError::KeyNotFound("key".to_string()))
    );
}

#[test]
fn test_process_operation_get_key_not_found() {
    let mut map = KVMap::new(WriteAheadLog::new());

    let operation = Operation::Get("key".to_string());
    assert_eq!(
        map.process_operation(operation),
        Err(TransactionError::KeyNotFound("key".to_string()))
    );
}

#[test]
fn test_process_operation_delete_key_not_found() {
    let mut map = KVMap::new(WriteAheadLog::new());

    let operation = Operation::Delete("key".to_string());
    assert_eq!(
        map.process_operation(operation),
        Err(TransactionError::KeyNotFound("key".to_string()))
    );
}

#[test]
fn test_process_operation_get_multiple() {
    let mut map = KVMap::new(WriteAheadLog::new());

    map.put("key.abc".to_string(), Value::String("value1".to_string()))
        .unwrap();
    map.put("key.def".to_string(), Value::String("value2".to_string()))
        .unwrap();

    let operation = Operation::Get("key.*".to_string());

    let expected = json(r#"{"abc": "value1", "def": "value2"}"#);
    let actual = map.process_operation(operation).unwrap();
    let actual: serde_json::Value = serde_json::from_str(&actual).unwrap();

    assert_eq!(expected, actual);
}

#[test]
fn test_process_multiple_value_types() {
    let mut map = KVMap::new(WriteAheadLog::new());

    map.put("key.abc".to_string(), Value::String("value1".to_string()))
        .unwrap();
    map.put("key.def".to_string(), Value::Integer(123)).unwrap();
    map.put("key.ghi".to_string(), Value::Boolean(true))
        .unwrap();
    map.put("key.jkl".to_string(), Value::Null).unwrap();
    map.put("key.mno".to_string(), Value::Float(1.23f64.to_string()))
        .unwrap();

    let operation = Operation::Get("key.*".to_string());
    let expected = json(
        r#"{"abc": "value1", "def": 123, "ghi": true, "jkl": null, "mno": 1.23}"#,
    );

    let actual = map.process_operation(operation).unwrap();
    let actual: serde_json::Value = serde_json::from_str(&actual).unwrap();

    assert_eq!(expected, actual);
}

#[test]
fn put_then_get_over_the_line_protocol() {
    let mut map = KVMap::new(WriteAheadLog::new());
    assert_eq!(map.respond_at("PUT user.name \"alice\"", NOW), "\"alice\"");
    assert_eq!(map.respond_at("GET user.name", NOW), "\"alice\"");
}

#[test]
fn full_subtree_over_the_line_protocol() {
    let mut map = KVMap::new(WriteAheadLog::new());
    map.respond_at("PUT a.b 1", NOW);
    map.respond_at("PUT a.c 2", NOW);
    map.respond_at("PUT a.b.x 3", NOW);
    assert_eq!(
        json(&map.respond_at("GET a.*", NOW)),
        json(r#"{"b": {"_": 1, "x": 3}, "c": 2}"#)
    );
}

#[test]
fn limited_subtree_over_the_line_protocol() {
    let mut map = KVMap::new(WriteAheadLog::new());
    map.respond_at("PUT a.x 1", NOW);
    map.respond_at("PUT a.y 2", NOW);
    map.respond_at("PUT a.y.z 3", NOW);
    assert_eq!(
        json(&map.respond_at("GET a.*1", NOW)),
        json(r#"{"x": 1, "y": 2}"#)
    );
}

#[test]
fn expired_key_is_gone_after_a_sweep() {
    let mut map = KVMap::new(WriteAheadLog::new());
    assert_eq!(map.respond_at("PUT k 1", NOW), "1");
    let line = format!("EXPIREAT k {}", NOW + 50);
    assert_eq!(map.respond_at(&line, NOW), "OK");
    assert_eq!(map.respond_at("GET k", NOW + 49), "1");
    assert_eq!(map.process_expirations_at(NOW + 100), Ok(()));
    assert_eq!(map.respond_at("GET k", NOW + 100), "E09: Key k not found");
}

#[test]
fn expired_key_is_gone_with_the_system_clock() {
    let mut map = KVMap::new(WriteAheadLog::new());
    assert_eq!(map.respond("PUT k 1"), "1");
    // a time that is past for the clock in milliseconds and ahead of the
    // clock in seconds
    let line = format!("EXPIREAT k {}", NOW);
    assert_eq!(map.respond(&line), "OK");
    assert_eq!(map.process_expirations(), Ok(()));
    assert_eq!(map.respond("GET k"), "E09: Key k not found");
}

#[test]
fn deleted_key_stays_gone_after_reopening() {
    let mut map = KVMap::new(WriteAheadLog::new());
    assert_eq!(map.respond_at("PUT k 1", NOW), "1");
    assert_eq!(map.respond_at("DELETE k", NOW), "1");
    assert_eq!(map.respond_at("GET k", NOW), "E09: Key k not found");
    let mut again = reopened(&map);
    assert_eq!(again.respond_at("GET k", NOW), "E09: Key k not found");
}

#[test]
fn purged_store_is_empty_and_so_is_the_log() {
    let mut map = KVMap::new(WriteAheadLog::new());
    map.respond_at("PUT a.b 1", NOW);
    map.respond_at("PUT c \"d\"", NOW);
    assert_eq!(lines(&map).len(), 2);
    assert_eq!(map.respond_at("PURGE", NOW), "OK");
    assert_eq!(map.respond_at("GET a.b", NOW), "E09: Key a.b not found");
    assert_eq!(map.respond_at("GET c", NOW), "E09: Key c not found");
    assert_eq!(map.respond_at("GET a.*", NOW), "E09: Key a.* not found");
    assert_eq!(lines(&map).len(), 0);
    assert_eq!(map.respond_at("PURGE", NOW), "OK");
    assert_eq!(map.respond_at("GET c", NOW), "E09: Key c not found");
    assert_eq!(lines(&map).len(), 0);
}

#[test]
fn later_put_wins() {
    let mut map = KVMap::new(WriteAheadLog::new());
    assert_eq!(map.respond_at("PUT k \"v1\"", NOW), "\"v1\"");
    assert_eq!(map.respond_at("PUT k 2", NOW), "2");
    assert_eq!(map.respond_at("GET k", NOW), "2");
}

#[test]
fn later_expiration_wins() {
    let mut map = KVMap::new(WriteAheadLog::new());
    map.respond_at("PUT k 1", NOW);
    assert_eq!(map.respond_at(&format!("EXPIREAT k {}", NOW + 10), NOW), "OK");
    assert_eq!(map.respond_at(&format!("EXPIREAT k {}", NOW + 1000), NOW), "OK");
    map.process_expirations_at(NOW + 500).unwrap();
    assert_eq!(map.respond_at("GET k", NOW + 500), "1");
    assert_eq!(map.respond_at("GET k", NOW + 1000), "E09: Key k not found");
}

#[test]
fn sweep_leaves_other_expirations_pending() {
    let mut map = KVMap::new(WriteAheadLog::new());
    map.respond_at("PUT a 1", NOW);
    map.respond_at("PUT b 2", NOW);
    map.respond_at(&format!("EXPIREAT a {}", NOW + 10), NOW);
    map.respond_at(&format!("EXPIREAT b {}", NOW + 1000), NOW);
    map.process_expirations_at(NOW + 20).unwrap();
    assert_eq!(map.respond_at("GET a", NOW + 20), "E09: Key a not found");
    assert_eq!(map.respond_at("GET b", NOW + 20), "2");
    assert_eq!(map.respond_at("GET b", NOW + 1000), "E09: Key b not found");
}

#[test]
fn sweep_of_an_empty_engine_does_nothing() {
    let mut map = KVMap::new(WriteAheadLog::new());
    assert_eq!(map.process_expirations_at(NOW), Ok(()));
    assert_eq!(map.process_expirations_at(NOW), Ok(()));
    assert_eq!(map.process_expirations(), Ok(()));
}

#[test]
fn delete_drops_the_expiration() {
    let mut map = KVMap::new(WriteAheadLog::new());
    map.respond_at("PUT k 1", NOW);
    map.respond_at(&format!("EXPIREAT k {}", NOW + 10), NOW);
    map.respond_at("DELETE k", NOW);
    map.respond_at("PUT k 2", NOW);
    assert_eq!(map.respond_at("GET k", NOW + 100), "2");
}

#[test]
fn state_is_recovered_from_the_log() {
    let mut map = KVMap::new(WriteAheadLog::new());
    map.respond_at("PUT a.b \"x  y\"", NOW);
    map.respond_at("PUT a.c -5", NOW);
    map.respond_at("PUT a.d true", NOW);
    map.respond_at("PUT a.e null", NOW);
    map.respond_at("PUT a.f 2.50", NOW);
    map.respond_at("PUT gone 1", NOW);
    map.respond_at("DELETE gone", NOW);
    map.respond_at(&format!("EXPIRE a.c {}", 5000), NOW);
    assert_eq!(
        lines(&map),
        vec![
            "PUT a.b \"x y\"".to_string(),
            "PUT a.c -5".to_string(),
            "PUT a.d true".to_string(),
            "PUT a.e null".to_string(),
            "PUT a.f 2.5".to_string(),
            "PUT gone 1".to_string(),
            "DELETE gone".to_string(),
            format!("EXPIREAT a.c {}", NOW + 5000),
        ]
    );
    let mut again = reopened(&map);
    for key in ["a.b", "a.c", "a.d", "a.e", "a.f", "gone", "a.*", "a.*1"] {
        let line = format!("GET {}", key);
        assert_eq!(again.respond_at(&line, NOW), map.respond_at(&line, NOW));
    }
    assert_eq!(again.respond_at("GET a.c", NOW + 5000), "E09: Key a.c not found");
    assert_eq!(lines(&again), lines(&map));
}

#[test]
fn restore_stops_at_an_unfit_record() {
    let log = WriteAheadLog::from_lines(vec![
        "PUT a 1".to_string(),
        "DELETE b".to_string(),
        "PUT c 3".to_string(),
    ]);
    let mut map = KVMap::new(log);
    assert_eq!(
        map.restore_at(NOW),
        Err(TransactionError::RestoreError("E09: Key b not found".to_string()))
    );
    assert_eq!(map.get("a"), Ok("1".to_string()));
    assert_eq!(map.get("c"), Err(TransactionError::KeyNotFound("c".to_string())));

    let mut unreadable = KVMap::new(WriteAheadLog::from_lines(vec!["FROB x".to_string()]));
    assert_eq!(
        unreadable.restore(),
        Err(TransactionError::RestoreError("E01: Command FROB not recognized".to_string()))
    );
    let mut orphan =
        KVMap::new(WriteAheadLog::from_lines(vec!["EXPIREAT x 99".to_string()]));
    assert_eq!(
        orphan.restore_at(NOW),
        Err(TransactionError::RestoreError("E09: Key x not found".to_string()))
    );
    let mut starred = KVMap::new(WriteAheadLog::from_lines(vec!["PUT a.*b 1".to_string()]));
    assert_eq!(
        starred.restore_at(NOW),
        Err(TransactionError::RestoreError("E03: Invalid key \"a.*b\"".to_string()))
    );
}

#[test]
fn restore_passes_over_reads_and_purges() {
    let log = WriteAheadLog::from_lines(vec![
        "PUT a 1".to_string(),
        "GET nothing".to_string(),
        "PURGE".to_string(),
        "TIME".to_string(),
    ]);
    let mut map = KVMap::new(log);
    assert_eq!(map.restore(), Ok(()));
    assert_eq!(map.get("a"), Ok("1".to_string()));
    assert_eq!(lines(&map).len(), 4);
}

#[test]
fn validation_of_each_operation() {
    let mut map = KVMap::new(WriteAheadLog::new());
    map.put("a.b".to_string(), Value::Integer(1)).unwrap();
    let secs = NOW / 1000;
    assert_eq!(map.validate_at(&Operation::Get("a.b".to_string()), secs), Ok(()));
    assert_eq!(map.validate_at(&Operation::Get("a.*".to_string()), secs), Ok(()));
    assert_eq!(
        map.validate_at(&Operation::Get("x.*".to_string()), secs),
        Err(TransactionError::KeyNotFound("x.*".to_string()))
    );
    assert_eq!(
        map.validate_at(&Operation::Put("a.*".to_string(), Value::Null), secs),
        Err(TransactionError::InvalidKey("a.*".to_string()))
    );
    assert_eq!(
        map.validate_at(&Operation::Put("_.a".to_string(), Value::Null), secs),
        Err(TransactionError::InvalidKey("_.a".to_string()))
    );
    assert_eq!(map.validate_at(&Operation::Put("a_.b*".to_string(), Value::Null), secs), Ok(()));
    assert_eq!(map.validate_at(&Operation::Delete("a.b".to_string()), secs), Ok(()));
    assert_eq!(
        map.validate_at(&Operation::Delete("a".to_string()), secs),
        Err(TransactionError::KeyNotFound("a".to_string()))
    );
    assert_eq!(
        map.validate_at(
            &Operation::ExpireAt(Expiration::new("a.b".to_string(), secs)),
            secs
        ),
        Err(TransactionError::InvalidExpiration(secs))
    );
    assert_eq!(
        map.validate_at(
            &Operation::ExpireAt(Expiration::new("a.b".to_string(), secs + 1)),
            secs
        ),
        Ok(())
    );
    assert_eq!(map.validate_at(&Operation::Time, secs), Ok(()));
    assert_eq!(map.validate_at(&Operation::Purge, secs), Ok(()));
    assert_eq!(map.validate(&Operation::Purge), Ok(()));
    assert_eq!(
        map.validate(&Operation::ExpireAt(Expiration::new("a.b".to_string(), 5))),
        Err(TransactionError::InvalidExpiration(5))
    );
}

#[test]
fn refused_operations_are_not_recorded() {
    let mut map = KVMap::new(WriteAheadLog::new());
    assert_eq!(map.respond_at("DELETE k", NOW), "E09: Key k not found");
    assert_eq!(map.respond_at("PUT a._ 1", NOW), "E03: Invalid key \"a._\"");
    assert_eq!(map.respond_at("EXPIREAT k 5", NOW), "E15: Invalid expiration 5");
    assert_eq!(map.respond_at("PUT", NOW), "E02: Missing key");
    assert_eq!(map.respond_at("PUT k", NOW), "E04: Missing value");
    assert_eq!(map.respond_at("PUT k v", NOW), "E05: Invalid value v");
    assert_eq!(map.respond_at("FROB", NOW), "E01: Command FROB not recognized");
    assert_eq!(map.respond_at("", NOW), "E14: Invalid command");
    assert_eq!(lines(&map).len(), 0);
}

#[test]
fn time_replies_with_the_clock() {
    let mut map = KVMap::new(WriteAheadLog::new());
    assert_eq!(map.respond_at("TIME", NOW), "1700000000000");
    assert_eq!(map.process_operation_at(Operation::Time, 42), Ok("42".to_string()));
    let told: i64 = map.respond("TIME").parse().unwrap();
    assert!(told > NOW);
    assert_eq!(lines(&map).len(), 0);
}

#[test]
fn processing_in_two_halves() {
    let mut map = KVMap::new(WriteAheadLog::new());
    let put = Operation::Put("k".to_string(), Value::Integer(1));
    assert_eq!(map.begin_at(&put, NOW), Ok(()));
    assert_eq!(WriteAheadLog::format(&put), Some("PUT k 1".to_string()));
    assert_eq!(map.finish_at(put, NOW), Ok("1".to_string()));
    assert_eq!(lines(&map), vec!["PUT k 1".to_string()]);
    let delete = Operation::Delete("nothing".to_string());
    assert_eq!(
        map.begin_at(&delete, NOW),
        Err(TransactionError::KeyNotFound("nothing".to_string()))
    );
}

#[test]
fn expire_at_needs_something_to_expire() {
    let mut map = KVMap::new(WriteAheadLog::new());
    assert_eq!(
        map.expire_at(Expiration::new("k".to_string(), NOW)),
        Err(TransactionError::KeyNotFound("k".to_string()))
    );
    map.put("k".to_string(), Value::Null).unwrap();
    assert_eq!(map.expire_at(Expiration::new("k".to_string(), NOW)), Ok("OK".to_string()));
    assert_eq!(map.purge(), Ok("OK".to_string()));
    assert_eq!(map.process_expirations_at(NOW), Ok(()));
}

#[test]
fn map_error_messages() {
    assert_eq!(MapError::KeyNotFound("k".to_string()).message(), "Key not found: k");
    assert_eq!(MapError::InvalidKey("k".to_string()).message(), "Invalid key: k");
    assert_eq!(MapError::EmptyValue("k".to_string()).message(), "No value found at: k");
    assert_eq!(
        MapError::RestoreError("e".to_string()).message(),
        "Failed to restore db from file: e"
    );
}
