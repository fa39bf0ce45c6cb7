//! The values a key can hold, how they are read from text and how they are
//! written back.

use super::float::{float_text, is_float_literal, is_non_finite, is_non_finite_text, read_float};
use super::parse_error::{ParseError, ParseErrorModel};
use crate::num::{i64_chars, int_text, parse_i64, parse_i64_spec};
use crate::text::{from_chars, push_range, same_text, to_chars};
use vstd::prelude::*;
use vstd::string::StringExecFns;

verus! {

/// `serde_json::Error`, the error of the JSON encoder. It is passed on
/// unread.
#[verifier::external_type_specification]
#[verifier::external_body]
pub struct ExJsonError(serde_json::Error);

/// The JSON string literal for the text `s`, quotes and escapes included, or
/// `None` where the encoder reports an error.
pub uninterp spec fn json_string_text(s: Seq<char>) -> Option<Seq<char>>;

/// The JSON string literal for `s`. Calls `serde_json::to_string` on a
/// `&str`. The contract only gives the outcome its name: the same text
/// always has the same outcome.
#[verifier::external_body]
pub(crate) fn json_string(s: &str) -> (out: Result<String, serde_json::Error>)
    ensures
        match out {
            Ok(t) => json_string_text(s@) == Some(t@),
            Err(_) => json_string_text(s@) is None,
        },
{
    serde_json::to_string(s)
}

/// A tagged scalar. A `Float` holds the canonical decimal text of its
/// number, or `NaN`, `inf` or `-inf`.
#[derive(Debug, PartialEq)]
pub enum Value {
    String(String),
    Integer(i64),
    Float(String),
    Boolean(bool),
    Null,
}

/// A `Value` with its texts as character sequences.
pub enum ValueModel {
    String(Seq<char>),
    Integer(i64),
    Float(Seq<char>),
    Boolean(bool),
    Null,
}

impl View for Value {
    type V = ValueModel;

    open spec fn view(&self) -> ValueModel {
        match self {
            Value::String(s) => ValueModel::String(s@),
            Value::Integer(i) => ValueModel::Integer(*i),
            Value::Float(t) => ValueModel::Float(t@),
            Value::Boolean(b) => ValueModel::Boolean(*b),
            Value::Null => ValueModel::Null,
        }
    }
}

impl Clone for Value {
    fn clone(&self) -> (copy: Self)
        ensures
            copy@ == self@,
    {
        match self {
            Value::String(s) => Value::String(s.clone()),
            Value::Integer(i) => Value::Integer(*i),
            Value::Float(t) => Value::Float(t.clone()),
            Value::Boolean(b) => Value::Boolean(*b),
            Value::Null => Value::Null,
        }
    }
}

impl ValueModel {
    /// The value as plain text: a string as it is, without quotes.
    pub open spec fn render(self) -> Seq<char> {
        match self {
            ValueModel::String(s) => s,
            ValueModel::Integer(i) => int_text(i as int),
            ValueModel::Float(t) => t,
            ValueModel::Boolean(b) => if b {
                "true"@
            } else {
                "false"@
            },
            ValueModel::Null => "null"@,
        }
    }

    /// The value as it is written in a command: a string between double
    /// quotes, anything else as plain text.
    pub open spec fn literal(self) -> Seq<char> {
        match self {
            ValueModel::String(s) => seq!['"'] + s + seq!['"'],
            _ => self.render(),
        }
    }

    /// The value as JSON text, or `None` where the encoder of strings
    /// reports an error. A float that is no finite number is `null`.
    pub open spec fn json(self) -> Option<Seq<char>> {
        match self {
            ValueModel::String(s) => json_string_text(s),
            ValueModel::Float(t) => if is_non_finite_text(t) {
                Some("null"@)
            } else {
                Some(t)
            },
            _ => Some(self.render()),
        }
    }
}

/// What `text` is read as. The rules apply in this order: the words `null`,
/// `true` and `false`; a signed 64-bit integer; a floating-point literal;
/// a text of at least two characters that begins and ends with a double
/// quote, which is the string between the two; anything else is no value.
pub open spec fn parse_value(text: Seq<char>) -> Result<ValueModel, ParseErrorModel> {
    if text == "null"@ {
        Ok(ValueModel::Null)
    } else if text == "true"@ {
        Ok(ValueModel::Boolean(true))
    } else if text == "false"@ {
        Ok(ValueModel::Boolean(false))
    } else if parse_i64_spec(text) is Some {
        Ok(ValueModel::Integer(parse_i64_spec(text)->0))
    } else if is_float_literal(text) {
        Ok(ValueModel::Float(float_text(text)))
    } else if text.len() >= 2 && text[0] == '"' && text.last() == '"' {
        Ok(ValueModel::String(text.subrange(1, text.len() - 1)))
    } else {
        Err(ParseErrorModel::InvalidValue(text))
    }
}

impl Value {
    /// Reads a value from text.
    pub fn parse(value: &str) -> (out: Result<Self, ParseError>)
        ensures
            match out {
                Ok(v) => parse_value(value@) == Ok::<ValueModel, ParseErrorModel>(v@),
                Err(e) => parse_value(value@) == Err::<ValueModel, ParseErrorModel>(e@),
            },
    {
        if same_text(value, "null") {
            return Ok(Value::Null);
        }
        if same_text(value, "true") {
            return Ok(Value::Boolean(true));
        }
        if same_text(value, "false") {
            return Ok(Value::Boolean(false));
        }
        let chars = to_chars(value);
        if let Some(number) = parse_i64(&chars) {
            return Ok(Value::Integer(number));
        }
        if let Some(kept) = read_float(&chars) {
            return Ok(Value::Float(kept));
        }
        let n = chars.len();
        if n >= 2 && chars[0] == '"' && chars[n - 1] == '"' {
            let mut inner = String::new();
            push_range(&mut inner, &chars, 1, n - 1);
            assert(inner@ =~= value@.subrange(1, value@.len() - 1));
            return Ok(Value::String(inner));
        }
        Err(ParseError::InvalidValue(String::from_str(value)))
    }

    /// The value as plain text: a string as it is, without quotes.
    pub fn to_string(&self) -> (text: String)
        ensures
            text@ == self@.render(),
    {
        match self {
            Value::String(s) => s.clone(),
            Value::Integer(i) => from_chars(&i64_chars(*i)),
            Value::Float(t) => t.clone(),
            Value::Boolean(b) => if *b {
                String::from_str("true")
            } else {
                String::from_str("false")
            },
            Value::Null => String::from_str("null"),
        }
    }

    /// The value as it is written in a command: a string between double
    /// quotes, anything else as plain text.
    pub fn to_literal(&self) -> (text: String)
        ensures
            text@ == self@.literal(),
    {
        match self {
            Value::String(s) => {
                let mut text = String::from_str("\"");
                text.append(s.as_str());
                text.append("\"");
                proof {
                    reveal_strlit("\"");
                    assert(text@ =~= seq!['"'] + s@ + seq!['"']);
                }
                text
            },
            _ => self.to_string(),
        }
    }

    /// The value as JSON text.
    pub fn to_json(&self) -> (out: Result<String, serde_json::Error>)
        ensures
            match out {
                Ok(t) => self@.json() == Some(t@),
                Err(_) => self@.json() is None,
            },
    {
        match self {
            Value::String(s) => json_string(s.as_str()),
            Value::Float(t) => if is_non_finite(t) {
                Ok(String::from_str("null"))
            } else {
                Ok(t.clone())
            },
            _ => Ok(self.to_string()),
        }
    }
}

} // verus!
