use myco_kv::errors::TransactionError;
use myco_kv::operation::expiration::Expiration;
use myco_kv::operation::value::Value;
use myco_kv::operation::Operation;
use std::time::SystemTime;

#[test]
fn parse_get_operation() {
    let test_statement = "GET key";
    let operation = Operation::parse(test_statement.to_string()).unwrap();

    assert_eq!(operation, Operation::Get("key".to_string()));
}

#[test]
fn parse_put_operation() {
    let test_statement = "PUT key \"value\"";
    let operation = Operation::parse(test_statement.to_string()).unwrap();

    assert_eq!(
        operation,
        Operation::Put("key".to_string(), Value::String("value".to_string()))
    );
}

#[test]
fn parse_put_float() {
    let test_statement = "PUT key 123.45";
    let operation = Operation::parse(test_statement.to_string()).unwrap();

    assert_eq!(
        operation,
        Operation::Put("key".to_string(), Value::Float(123.45f64.to_string()))
    );
}

#[test]
fn parse_put_integer() {
    let test_statement = "PUT key -123";
    let operation = Operation::parse(test_statement.to_string()).unwrap();

    assert_eq!(
        operation,
        Operation::Put("key".to_string(), Value::Integer(-123))
    );
}

#[test]
fn parse_put_boolean() {
    let test_statement = "PUT key true";
    let operation = Operation::parse(test_statement.to_string()).unwrap();

    assert_eq!(
        operation,
        Operation::Put("key".to_string(), Value::Boolean(true))
    );
}

#[test]
fn parse_put_null() {
    let test_statement = "PUT key null";
    let operation = Operation::parse(test_statement.to_string()).unwrap();

    assert_eq!(operation, Operation::Put("key".to_string(), Value::Null));
}

#[test]
fn parse_put_long_value() {
    let test_statement = "PUT key \"long value with many spaces\"";
    let operation = Operation::parse(test_statement.to_string()).unwrap();

    assert_eq!(
        operation,
        Operation::Put(
            "key".to_string(),
            Value::String("long value with many spaces".to_string())
        )
    );
}

#[test]
fn parse_delete_operation() {
    let test_statement = "DELETE key";
    let operation = Operation::parse(test_statement.to_string()).unwrap();

    assert_eq!(operation, Operation::Delete("key".to_string()));
}

#[test]
fn parse_invalid_operation() {
    let test_statement = "INVALID key";
    let operation = Operation::parse(test_statement.to_string());

    assert_eq!(
        operation,
        Err(TransactionError::UnknownCommand("INVALID".to_string()))
    );
}

#[test]
fn parse_missing_key() {
    let test_statement = "PUT";
    let operation = Operation::parse(test_statement.to_string());

    assert_eq!(operation, Err(TransactionError::MissingKey));
}

#[test]
fn parse_missing_value() {
    let test_statement = "PUT key";
    let operation = Operation::parse(test_statement.to_string());

    assert_eq!(operation, Err(TransactionError::MissingValue));
}

#[test]
fn parse_invalid_value() {
    let test_statement = "PUT key value";
    let operation = Operation::parse(test_statement.to_string());

    assert_eq!(
        operation,
        Err(TransactionError::InvalidValue("value".to_string()))
    );
}

#[test]
fn parse_purge() {
    let test_statement = "PURGE";
    let operation = Operation::parse(test_statement.to_string());
    assert_eq!(operation, Ok(Operation::Purge));
}

#[test]
fn parse_expireat() {
    let test_statement = "EXPIREAT key 1234567890";
    let operation = Operation::parse(test_statement.to_string());
    assert_eq!(
        operation,
        Ok(Operation::ExpireAt(Expiration::new(
            "key".to_string(),
            1234567890
        ))),
    );
}

fn millis_now() -> i64 {
    SystemTime::now()
        .duration_since(SystemTime::UNIX_EPOCH)
        .unwrap()
        .as_millis() as i64
}

#[test]
fn parse_expire() {
    let test_statement = "EXPIRE key 100";
    let before = millis_now();
    let operation = Operation::parse(test_statement.to_string());
    let after = millis_now();
    match operation {
        Ok(Operation::ExpireAt(expiration)) => {
            assert_eq!(expiration.key, "key".to_string());
            assert!(before + 100 <= expiration.timestamp);
            assert!(expiration.timestamp <= after + 100);
        }
        other => panic!("not an expiration: {:?}", other),
    }
    assert_eq!(
        Operation::parse_at(test_statement, 1_700_000_000_000),
        Ok(Operation::ExpireAt(Expiration::new(
            "key".to_string(),
            1_700_000_000_000 + 100
        ))),
    );
}

#[test]
fn orders_in_reverse() {
    let a = Expiration::new("a".to_string(), 1);
    let b = Expiration::new("b".to_string(), 2);
    assert!(b < a);
}

#[test]
fn parse_time() {
    assert_eq!(Operation::parse_at("TIME", 5), Ok(Operation::Time));
}

#[test]
fn parse_empty_line_is_missing_command() {
    assert_eq!(Operation::parse_at("", 0), Err(TransactionError::MissingCommand));
    assert_eq!(Operation::parse_at("  \t \n", 0), Err(TransactionError::MissingCommand));
}

#[test]
fn parse_commands_are_case_sensitive() {
    assert_eq!(
        Operation::parse_at("get key", 0),
        Err(TransactionError::UnknownCommand("get".to_string()))
    );
}

#[test]
fn parse_missing_key_for_each_command() {
    assert_eq!(Operation::parse_at("GET", 0), Err(TransactionError::MissingKey));
    assert_eq!(Operation::parse_at("DELETE", 0), Err(TransactionError::MissingKey));
    assert_eq!(Operation::parse_at("EXPIREAT", 0), Err(TransactionError::MissingKey));
    assert_eq!(Operation::parse_at("EXPIRE", 0), Err(TransactionError::MissingKey));
}

#[test]
fn parse_expiry_without_number() {
    assert_eq!(Operation::parse_at("EXPIREAT key", 0), Err(TransactionError::MissingValue));
    assert_eq!(Operation::parse_at("EXPIRE key", 0), Err(TransactionError::MissingValue));
    assert_eq!(
        Operation::parse_at("EXPIREAT key soon", 0),
        Err(TransactionError::InvalidValue("timestamp".to_string()))
    );
    assert_eq!(
        Operation::parse_at("EXPIRE key soon", 0),
        Err(TransactionError::InvalidValue("duration".to_string()))
    );
}

#[test]
fn parse_expire_beyond_range_is_refused() {
    assert_eq!(
        Operation::parse_at("EXPIRE key 9223372036854775807", 1),
        Err(TransactionError::InvalidValue("duration".to_string()))
    );
    assert_eq!(
        Operation::parse_at("EXPIRE key 9223372036854775806", 1),
        Ok(Operation::ExpireAt(Expiration::new("key".to_string(), i64::MAX)))
    );
}

#[test]
fn parse_value_words_are_joined_by_single_spaces() {
    assert_eq!(
        Operation::parse_at("PUT  key   \"a \t  b\"  ", 0),
        Ok(Operation::Put("key".to_string(), Value::String("a b".to_string())))
    );
}

#[test]
fn parse_extreme_integers() {
    assert_eq!(
        Operation::parse_at("PUT k -9223372036854775808", 0),
        Ok(Operation::Put("k".to_string(), Value::Integer(i64::MIN)))
    );
    assert_eq!(
        Operation::parse_at("PUT k +9223372036854775807", 0),
        Ok(Operation::Put("k".to_string(), Value::Integer(i64::MAX)))
    );
    assert_eq!(
        Operation::parse_at("EXPIREAT k -0", 0),
        Ok(Operation::ExpireAt(Expiration::new("k".to_string(), 0)))
    );
}
