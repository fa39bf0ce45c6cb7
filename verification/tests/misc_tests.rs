use myco_kv::clock::{millis_of, now_millis};
use myco_kv::errors::TransactionError;
use myco_kv::eventbroker::event::Event;
use myco_kv::eventbroker::subscriber::{Recorder, Subscriber};
use myco_kv::eventbroker::EventBroker;
use myco_kv::num::{i64_chars, parse_i64, parse_usize};
use myco_kv::operation::parse_error::ParseError;
use myco_kv::operation::value::Value;
use myco_kv::operation::Operation;
use myco_kv::parser::parse_operation;
use myco_kv::text::{from_chars, join_strs, same_text, split_str, split_words, to_chars};
use myco_kv::worker::Worker;

#[test]
fn test_can_subscribe_and_be_notified() {
    let event = Event::Get {
        key: "test".to_string(),
        result: "test".to_string(),
    };
    let mut event_broker = EventBroker::new();
    event_broker.subscribe(Recorder::new());
    event_broker.publish(&event);
    assert_eq!(event_broker.subscriber(0).len(), 1);
    assert_eq!(event_broker.subscriber(0).event(0), &event);
}

#[test]
fn test_can_notify_multiple_subscribers() {
    let event = Event::Get {
        key: "test".to_string(),
        result: "test".to_string(),
    };
    let mut event_broker = EventBroker::new();
    event_broker.subscribe(Recorder::new());
    event_broker.subscribe(Recorder::new());
    event_broker.publish(&event);
    assert_eq!(event_broker.subscriber(0).len(), 1);
    assert_eq!(event_broker.subscriber(0).event(0), &event);
    assert_eq!(event_broker.subscriber(1).len(), 1);
    assert_eq!(event_broker.subscriber(1).event(0), &event);
}

#[test]
fn events_arrive_in_order() {
    let mut recorder = Recorder::new();
    let put = Event::Put { key: "k".to_string(), value: "v".to_string() };
    let delete = Event::Delete { key: "k".to_string() };
    recorder.notify(&put);
    recorder.notify(&delete);
    assert_eq!(recorder.len(), 2);
    assert_eq!(recorder.event(0), &put);
    assert_eq!(recorder.event(1), &delete);
    assert_eq!(put.clone(), put);
}

#[test]
fn worker_holds_its_task_and_interval() {
    let worker = Worker::new(100, || {});
    assert_eq!(worker.interval(), 100);
    (worker.task())();
}

#[test]
fn every_failure_has_its_code_and_message() {
    let cases = vec![
        (TransactionError::UnknownCommand("X".to_string()), "E01", "E01: Command X not recognized"),
        (TransactionError::MissingKey, "E02", "E02: Missing key"),
        (TransactionError::InvalidKey("a.*".to_string()), "E03", "E03: Invalid key \"a.*\""),
        (TransactionError::MissingValue, "E04", "E04: Missing value"),
        (TransactionError::InvalidValue("v".to_string()), "E05", "E05: Invalid value v"),
        (
            TransactionError::LogWriteFail("s".to_string()),
            "E06",
            "E06: Failed to write statement to log - s",
        ),
        (
            TransactionError::LogReadFail("7".to_string()),
            "E07",
            "E07: Failed to read line 7 from log",
        ),
        (TransactionError::LogLoadFail, "E08", "E08: Failed to load logfile"),
        (TransactionError::KeyNotFound("k".to_string()), "E09", "E09: Key k not found"),
        (
            TransactionError::RestoreError("m".to_string()),
            "E10",
            "E10: Unable to restore database from logs - m",
        ),
        (
            TransactionError::OperationFailure("m".to_string()),
            "E11",
            "E11: Unable to complete operation - m",
        ),
        (TransactionError::InternalError, "E12", "E12: An internal server error occurred"),
        (
            TransactionError::SerializationFailure,
            "E13",
            "E13: Unable to serialize request into JSON",
        ),
        (TransactionError::MissingCommand, "E14", "E14: Invalid command"),
        (TransactionError::InvalidExpiration(-12), "E15", "E15: Invalid expiration -12"),
    ];
    for (error, code, message) in cases {
        assert_eq!(error.get_code(), code);
        assert_eq!(error.message(), message);
    }
}

#[test]
fn first_form_of_the_protocol() {
    assert_eq!(parse_operation("GET key"), Ok(Operation::Get("key".to_string())));
    assert_eq!(parse_operation("GET"), Err(ParseError::MissingKey));
    assert_eq!(
        parse_operation("PUT key \"a  b\""),
        Ok(Operation::Put("key".to_string(), Value::String("a b".to_string())))
    );
    assert_eq!(
        parse_operation("PUT key \"\"a\"\""),
        Ok(Operation::Put("key".to_string(), Value::String("a".to_string())))
    );
    assert_eq!(
        parse_operation("PUT key \""),
        Ok(Operation::Put("key".to_string(), Value::String("".to_string())))
    );
    assert_eq!(parse_operation("PUT key 12"), Err(ParseError::InvalidValue("12".to_string())));
    assert_eq!(parse_operation("PUT key"), Err(ParseError::InvalidValue("".to_string())));
    assert_eq!(parse_operation("PUT"), Err(ParseError::MissingKey));
    assert_eq!(parse_operation("DELETE key"), Ok(Operation::Delete("key".to_string())));
    assert_eq!(parse_operation("DELETE"), Err(ParseError::MissingKey));
    assert_eq!(
        parse_operation("PURGE now"),
        Err(ParseError::InvalidCommand("PURGE now".to_string()))
    );
    assert_eq!(parse_operation(""), Err(ParseError::InvalidCommand("".to_string())));
    assert_eq!(
        myco_kv::parser::parse_error::ParseError::InvalidCommand("x".to_string()).message(),
        "Invalid command: x"
    );
    assert_eq!(myco_kv::parser::parse_error::ParseError::MissingKey.message(), "Missing key");
    assert_eq!(
        myco_kv::parser::parse_error::ParseError::MissingValue.message(),
        "Missing value"
    );
}

#[test]
fn texts_are_cut_and_joined() {
    assert_eq!(split_str("a.b.c", '.'), vec!["a", "b", "c"]);
    assert_eq!(split_str("", '.'), vec![""]);
    assert_eq!(split_str(".a..", '.'), vec!["", "a", "", ""]);
    assert_eq!(split_words("  a\tb \n c  "), vec!["a", "b", "c"]);
    assert_eq!(split_words(" \r\n"), Vec::<String>::new());
    let parts = vec!["a".to_string(), "b".to_string(), "c".to_string()];
    assert_eq!(join_strs(&parts, 0, 3, '.'), "a.b.c");
    assert_eq!(join_strs(&parts, 1, 2, '.'), "b");
    assert_eq!(join_strs(&parts, 2, 2, '.'), "");
    assert_eq!(from_chars(&to_chars("héllo")), "héllo");
    assert_eq!(to_chars("ab"), vec!['a', 'b']);
    assert!(same_text("a", "a"));
    assert!(!same_text("a", "b"));
}

#[test]
fn decimal_numbers_as_text() {
    assert_eq!(parse_i64(&to_chars("0")), Some(0));
    assert_eq!(parse_i64(&to_chars("-9223372036854775808")), Some(i64::MIN));
    assert_eq!(parse_i64(&to_chars("9223372036854775807")), Some(i64::MAX));
    assert_eq!(parse_i64(&to_chars("9223372036854775808")), None);
    assert_eq!(parse_i64(&to_chars("-9223372036854775809")), None);
    assert_eq!(parse_i64(&to_chars("99999999999999999999999999")), None);
    assert_eq!(parse_i64(&to_chars("")), None);
    assert_eq!(parse_i64(&to_chars("-")), None);
    assert_eq!(parse_i64(&to_chars("1 ")), None);
    assert_eq!(parse_i64(&to_chars("1_0")), None);
    assert_eq!(parse_usize(&to_chars("+12")), Some(12));
    assert_eq!(parse_usize(&to_chars("-0")), None);
    assert_eq!(parse_usize(&to_chars("18446744073709551616")), None);
    assert_eq!(from_chars(&i64_chars(i64::MIN)), "-9223372036854775808");
    assert_eq!(from_chars(&i64_chars(i64::MAX)), "9223372036854775807");
    assert_eq!(from_chars(&i64_chars(-10)), "-10");
    assert_eq!(from_chars(&i64_chars(1000)), "1000");
}

#[test]
fn the_clock_runs_forward_from_the_epoch() {
    let first = now_millis();
    let second = now_millis();
    assert!(first > 1_600_000_000_000);
    assert!(second >= first);
}

#[test]
fn clock_readings_are_clamped() {
    assert_eq!(millis_of(None), 0);
    assert_eq!(millis_of(Some(0)), 0);
    assert_eq!(millis_of(Some(1_700_000_000_000)), 1_700_000_000_000);
    assert_eq!(millis_of(Some(i64::MAX as u128)), i64::MAX);
    assert_eq!(millis_of(Some(i64::MAX as u128 + 1)), i64::MAX);
    assert_eq!(millis_of(Some(u128::MAX)), i64::MAX);
}
