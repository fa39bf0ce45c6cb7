use myco_kv::operation::expiration::Expiration;
use myco_kv::operation::value::Value;
use myco_kv::operation::Operation;
use myco_kv::wal::wal_error::WALError;
use myco_kv::wal::WriteAheadLog;

#[test]
fn records_only_what_changes_data() {
    let mut log = WriteAheadLog::new();
    log.write(&Operation::Get("a".to_string())).unwrap();
    log.write(&Operation::Time).unwrap();
    log.write(&Operation::Put("a".to_string(), Value::String("x y".to_string()))).unwrap();
    log.write(&Operation::Put("b".to_string(), Value::Integer(-3))).unwrap();
    log.write(&Operation::Delete("a".to_string())).unwrap();
    log.write(&Operation::ExpireAt(Expiration::new("b".to_string(), 1234))).unwrap();
    assert_eq!(
        log.read_all_lines().unwrap(),
        vec![
            "PUT a \"x y\"".to_string(),
            "PUT b -3".to_string(),
            "DELETE a".to_string(),
            "EXPIREAT b 1234".to_string(),
        ]
    );
    assert_eq!(
        log.read_from(2).unwrap(),
        vec!["DELETE a".to_string(), "EXPIREAT b 1234".to_string()]
    );
    assert_eq!(log.read_from(4).unwrap(), Vec::<String>::new());
    assert_eq!(log.read_from(9).unwrap(), Vec::<String>::new());
}

#[test]
fn purge_and_clear_empty_the_log() {
    let mut log = WriteAheadLog::from_lines(vec!["PUT a 1".to_string()]);
    assert_eq!(log.read_all_lines().unwrap().len(), 1);
    log.write(&Operation::Purge).unwrap();
    assert_eq!(log.read_all_lines().unwrap().len(), 0);
    log.write(&Operation::Put("a".to_string(), Value::Null)).unwrap();
    assert_eq!(log.clear(), Ok(()));
    assert_eq!(log.read_all_lines().unwrap().len(), 0);
}

#[test]
fn records_read_back_as_the_operation() {
    let operations = vec![
        Operation::Put("a.b".to_string(), Value::String("x y".to_string())),
        Operation::Put("a".to_string(), Value::Integer(i64::MIN)),
        Operation::Put("a".to_string(), Value::Boolean(false)),
        Operation::Put("a".to_string(), Value::Null),
        Operation::Delete("a.b".to_string()),
        Operation::ExpireAt(Expiration::new("a".to_string(), -17)),
    ];
    for operation in operations {
        let line = WriteAheadLog::format(&operation).unwrap();
        assert_eq!(Operation::parse_at(&line, 0), Ok(operation));
    }
    assert_eq!(WriteAheadLog::format(&Operation::Get("a".to_string())), None);
    assert_eq!(WriteAheadLog::format(&Operation::Purge), None);
    assert_eq!(WriteAheadLog::format(&Operation::Time), None);
}

#[test]
fn wal_error_messages() {
    assert_eq!(
        WALError::ReadError("gone".to_string()).message(),
        "Cannot read from log file: gone"
    );
    assert_eq!(
        WALError::WriteError("full".to_string()).message(),
        "Cannot write to log file: full"
    );
    assert_eq!(
        WALError::OpenError("denied".to_string()).message(),
        "Cannot open log file: denied"
    );
}
