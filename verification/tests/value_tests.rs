use myco_kv::operation::parse_error::ParseError;
use myco_kv::operation::value::Value;

#[test]
fn parses_string() {
    assert_eq!(Value::parse(r#""hello""#), Ok(Value::String("hello".to_string())));
}

#[test]
fn parses_integer() {
    assert_eq!(Value::parse("123"), Ok(Value::Integer(123)));
}

#[test]
fn parses_float() {
    assert_eq!(Value::parse("123.456"), Ok(Value::Float(123.456f64.to_string())));
}

#[test]
fn parses_boolean() {
    assert_eq!(Value::parse("true"), Ok(Value::Boolean(true)));
    assert_eq!(Value::parse("false"), Ok(Value::Boolean(false)));
}

#[test]
fn parses_null() {
    assert_eq!(Value::parse("null"), Ok(Value::Null));
}

#[test]
fn parses_invalid_value() {
    assert_eq!(Value::parse("hello"), Err(ParseError::InvalidValue("hello".to_string())));
}

#[test]
fn converts_string_to_string() {
    assert_eq!("hello".to_string(), Value::String("hello".to_string()).to_string());
}

#[test]
fn converts_float_to_string() {
    assert_eq!("123.45", Value::Float(123.45f64.to_string()).to_string());
}

#[test]
fn converts_null_to_string() {
    assert_eq!("null", Value::Null.to_string());
}

#[test]
fn a_lone_quote_is_no_value() {
    assert_eq!(Value::parse("\""), Err(ParseError::InvalidValue("\"".to_string())));
    assert_eq!(Value::parse("\"\""), Ok(Value::String("".to_string())));
}

#[test]
fn integers_come_before_floats() {
    assert_eq!(Value::parse("-0"), Ok(Value::Integer(0)));
    assert_eq!(Value::parse("+17"), Ok(Value::Integer(17)));
    assert_eq!(Value::parse("007"), Ok(Value::Integer(7)));
}

#[test]
fn an_integer_beyond_range_is_a_float() {
    assert_eq!(
        Value::parse("9223372036854775808"),
        Ok(Value::Float("9.223372036854776e+18".to_string()))
    );
}

#[test]
fn float_literals_in_every_shape() {
    assert_eq!(Value::parse(".5"), Ok(Value::Float("0.5".to_string())));
    assert_eq!(Value::parse("5."), Ok(Value::Float("5.0".to_string())));
    assert_eq!(Value::parse("+1.50"), Ok(Value::Float("1.5".to_string())));
    assert_eq!(Value::parse("-00.25"), Ok(Value::Float("-0.25".to_string())));
    assert_eq!(Value::parse("1e2"), Ok(Value::Float("100.0".to_string())));
    assert_eq!(Value::parse("1E-2"), Ok(Value::Float("0.01".to_string())));
    assert_eq!(Value::parse("2.5e+3"), Ok(Value::Float("2500.0".to_string())));
}

#[test]
fn float_names_and_overflow() {
    assert_eq!(Value::parse("inf"), Ok(Value::Float("inf".to_string())));
    assert_eq!(Value::parse("-Infinity"), Ok(Value::Float("-inf".to_string())));
    assert_eq!(Value::parse("+INF"), Ok(Value::Float("inf".to_string())));
    assert_eq!(Value::parse("NaN"), Ok(Value::Float("NaN".to_string())));
    assert_eq!(Value::parse("-nan"), Ok(Value::Float("NaN".to_string())));
    assert_eq!(Value::parse("1e999"), Ok(Value::Float("inf".to_string())));
    assert_eq!(Value::parse("-1e999"), Ok(Value::Float("-inf".to_string())));
}

#[test]
fn texts_that_are_no_floats() {
    assert_eq!(Value::parse("."), Err(ParseError::InvalidValue(".".to_string())));
    assert_eq!(Value::parse("1e"), Err(ParseError::InvalidValue("1e".to_string())));
    assert_eq!(Value::parse("1.2.3"), Err(ParseError::InvalidValue("1.2.3".to_string())));
    assert_eq!(Value::parse("e5"), Err(ParseError::InvalidValue("e5".to_string())));
    assert_eq!(Value::parse("1_000"), Err(ParseError::InvalidValue("1_000".to_string())));
    assert_eq!(Value::parse(""), Err(ParseError::InvalidValue("".to_string())));
}

#[test]
fn renders_each_kind() {
    assert_eq!(Value::Integer(-42).to_string(), "-42");
    assert_eq!(Value::Integer(i64::MIN).to_string(), "-9223372036854775808");
    assert_eq!(Value::Integer(0).to_string(), "0");
    assert_eq!(Value::Boolean(true).to_string(), "true");
    assert_eq!(Value::Boolean(false).to_string(), "false");
    assert_eq!(Value::String("a b".to_string()).to_literal(), "\"a b\"");
    assert_eq!(Value::Integer(5).to_literal(), "5");
}

#[test]
fn json_of_each_kind() {
    assert_eq!(Value::Integer(-42).to_json().unwrap(), "-42");
    assert_eq!(Value::Boolean(true).to_json().unwrap(), "true");
    assert_eq!(Value::Null.to_json().unwrap(), "null");
    assert_eq!(Value::Float("1.23".to_string()).to_json().unwrap(), "1.23");
    assert_eq!(Value::Float("inf".to_string()).to_json().unwrap(), "null");
    assert_eq!(Value::Float("NaN".to_string()).to_json().unwrap(), "null");
    assert_eq!(Value::String("plain".to_string()).to_json().unwrap(), "\"plain\"");
}

#[test]
fn json_strings_are_escaped() {
    assert_eq!(
        Value::String("say \"hi\"\n".to_string()).to_json().unwrap(),
        "\"say \\\"hi\\\"\\n\""
    );
}

#[test]
fn literal_reads_back() {
    let values = vec![
        Value::String("a b c".to_string()),
        Value::Integer(-7),
        Value::Boolean(false),
        Value::Null,
        Value::Float("2.5".to_string()),
    ];
    for value in values {
        assert_eq!(Value::parse(&value.to_literal()), Ok(value));
    }
}

#[test]
fn parse_error_messages() {
    assert_eq!(ParseError::InvalidCommand("x".to_string()).message(), "Invalid command: x");
    assert_eq!(ParseError::MissingKey.message(), "Missing key");
    assert_eq!(ParseError::MissingValue.message(), "Missing value");
    assert_eq!(ParseError::InvalidValue("v".to_string()).message(), "Invalid value: v");
}
