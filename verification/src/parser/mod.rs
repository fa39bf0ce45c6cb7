//! The first form of the protocol: three commands, and values that are
//! always strings between double quotes.

pub mod parse_error;

use crate::operation::parse_error::{ParseError, ParseErrorModel};
use crate::operation::value::{Value, ValueModel};
use crate::operation::{Operation, OperationModel};
use crate::text::{join, join_strs, push_range, same_text, split_words, texts, to_chars, words};
use vstd::prelude::*;
use vstd::string::StringExecFns;

verus! {

/// How many double quotes `s` begins with.
pub open spec fn leading_quotes(s: Seq<char>) -> int
    decreases s.len(),
{
    if s.len() > 0 && s[0] == '"' {
        1 + leading_quotes(s.skip(1))
    } else {
        0
    }
}

/// How many double quotes `s` ends with.
pub open spec fn trailing_quotes(s: Seq<char>) -> int
    decreases s.len(),
{
    if s.len() > 0 && s.last() == '"' {
        1 + trailing_quotes(s.drop_last())
    } else {
        0
    }
}

/// `s` without the double quotes at its two ends, however many there
/// are; nothing where `s` is made of double quotes alone.
pub open spec fn unquoted(s: Seq<char>) -> Seq<char> {
    if leading_quotes(s) + trailing_quotes(s) >= s.len() {
        Seq::empty()
    } else {
        s.subrange(leading_quotes(s), s.len() - trailing_quotes(s))
    }
}

/// What a line is read as in the first form of the protocol. The value of
/// a `PUT` is the words after the key joined by single spaces; it has to
/// begin and end with a double quote.
pub open spec fn parse_first_form(line: Seq<char>) -> Result<OperationModel, ParseErrorModel> {
    let w = words(line);
    if w.len() > 0 && w[0] == "GET"@ {
        if w.len() < 2 {
            Err(ParseErrorModel::MissingKey)
        } else {
            Ok(OperationModel::Get(w[1]))
        }
    } else if w.len() > 0 && w[0] == "PUT"@ {
        if w.len() < 2 {
            Err(ParseErrorModel::MissingKey)
        } else {
            let value = join(w.skip(2), ' ');
            if value.len() > 0 && value[0] == '"' && value.last() == '"' {
                Ok(OperationModel::Put(w[1], ValueModel::String(unquoted(value))))
            } else {
                Err(ParseErrorModel::InvalidValue(value))
            }
        }
    } else if w.len() > 0 && w[0] == "DELETE"@ {
        if w.len() < 2 {
            Err(ParseErrorModel::MissingKey)
        } else {
            Ok(OperationModel::Delete(w[1]))
        }
    } else {
        Err(ParseErrorModel::InvalidCommand(line))
    }
}

fn strip_quotes(value: &Vec<char>) -> (inner: String)
    ensures
        inner@ == unquoted(value@),
{
    let n = value.len();
    let mut a: usize = 0;
    assert(value@.skip(0) == value@);
    while a < n && value[a] == '"'
        invariant
            a <= n,
            n == value.len(),
            leading_quotes(value@) == a + leading_quotes(value@.skip(a as int)),
        decreases n - a,
    {
        assert(value@.skip(a as int).skip(1) == value@.skip(a + 1));
        a += 1;
    }
    let mut b: usize = n;
    assert(value@.take(n as int) == value@);
    while b > 0 && value[b - 1] == '"'
        invariant
            b <= n,
            n == value.len(),
            trailing_quotes(value@) == (n - b) + trailing_quotes(value@.take(b as int)),
        decreases b,
    {
        assert(value@.take(b as int).drop_last() == value@.take(b - 1));
        b -= 1;
    }
    let mut inner = String::new();
    if a < b {
        push_range(&mut inner, value, a, b);
        assert(inner@ =~= value@.subrange(a as int, b as int));
    }
    inner
}

/// Reads one command line in the first form of the protocol.
pub fn parse_operation(command: &str) -> (out: Result<Operation, ParseError>)
    ensures
        match out {
            Ok(op) => parse_first_form(command@) == Ok::<OperationModel, ParseErrorModel>(op@),
            Err(e) => parse_first_form(command@) == Err::<OperationModel, ParseErrorModel>(e@),
        },
{
    let parts = split_words(command);
    if parts.len() == 0 {
        return Err(ParseError::InvalidCommand(String::from_str(command)));
    }
    let verb = parts[0].as_str();
    assert(texts(parts@)[0] == verb@);
    if same_text(verb, "GET") {
        if parts.len() < 2 {
            return Err(ParseError::MissingKey);
        }
        assert(texts(parts@)[1] == parts@[1]@);
        Ok(Operation::Get(parts[1].clone()))
    } else if same_text(verb, "PUT") {
        if parts.len() < 2 {
            return Err(ParseError::MissingKey);
        }
        assert(texts(parts@)[1] == parts@[1]@);
        let text = join_strs(&parts, 2, parts.len(), ' ');
        assert(texts(parts@).subrange(2, parts.len() as int) == texts(parts@).skip(2));
        let chars = to_chars(text.as_str());
        let n = chars.len();
        if n > 0 && chars[0] == '"' && chars[n - 1] == '"' {
            Ok(Operation::Put(parts[1].clone(), Value::String(strip_quotes(&chars))))
        } else {
            Err(ParseError::InvalidValue(text))
        }
    } else if same_text(verb, "DELETE") {
        if parts.len() < 2 {
            return Err(ParseError::MissingKey);
        }
        assert(texts(parts@)[1] == parts@[1]@);
        Ok(Operation::Delete(parts[1].clone()))
    } else {
        Err(ParseError::InvalidCommand(String::from_str(command)))
    }
}

} // verus!
