//! Commands: one line of text in, one structured operation out.

pub mod expiration;
pub mod float;
pub mod parse_error;
pub mod value;

use self::expiration::Expiration;
use self::value::{parse_value, Value, ValueModel};
use crate::clock::now_millis;
use crate::errors::{ErrorModel, TransactionError};
use crate::num::{parse_i64, parse_i64_spec};
use crate::text::{join, join_strs, same_text, split_words, texts, to_chars, words};
use vstd::prelude::*;
use vstd::string::StringExecFns;

verus! {

#[derive(Debug, PartialEq)]
pub enum Operation {
    Get(String),
    Put(String, Value),
    Delete(String),
    ExpireAt(Expiration),
    Purge,
    Time,
}

/// An `Operation` with its texts as character sequences.
pub enum OperationModel {
    Get(Seq<char>),
    Put(Seq<char>, ValueModel),
    Delete(Seq<char>),
    ExpireAt(Seq<char>, i64),
    Purge,
    Time,
}

impl View for Operation {
    type V = OperationModel;

    open spec fn view(&self) -> OperationModel {
        match self {
            Operation::Get(key) => OperationModel::Get(key@),
            Operation::Put(key, value) => OperationModel::Put(key@, value@),
            Operation::Delete(key) => OperationModel::Delete(key@),
            Operation::ExpireAt(e) => OperationModel::ExpireAt(e.key@, e.timestamp),
            Operation::Purge => OperationModel::Purge,
            Operation::Time => OperationModel::Time,
        }
    }
}

/// The operation that the second and later words of a `PUT` line denote.
pub open spec fn parse_put(w: Seq<Seq<char>>) -> Result<OperationModel, ErrorModel> {
    if w.len() < 2 {
        Err(ErrorModel::MissingKey)
    } else if w.len() < 3 {
        Err(ErrorModel::MissingValue)
    } else {
        match parse_value(join(w.skip(2), ' ')) {
            Ok(v) => Ok(OperationModel::Put(w[1], v)),
            Err(_) => Err(ErrorModel::InvalidValue(join(w.skip(2), ' '))),
        }
    }
}

/// The operation that an `EXPIREAT` line (`relative` false) or an `EXPIRE`
/// line (`relative` true) denotes at the time `now`, in milliseconds. The
/// number of an `EXPIRE` line is added to `now`; a sum beyond the range of
/// `i64` is refused as the number itself would be.
pub open spec fn parse_expire(w: Seq<Seq<char>>, relative: bool, now: i64) -> Result<
    OperationModel,
    ErrorModel,
> {
    if w.len() < 2 {
        Err(ErrorModel::MissingKey)
    } else if w.len() < 3 {
        Err(ErrorModel::MissingValue)
    } else {
        match parse_i64_spec(w[2]) {
            Some(n) => if !relative {
                Ok(OperationModel::ExpireAt(w[1], n))
            } else if i64::MIN <= now + n <= i64::MAX {
                Ok(OperationModel::ExpireAt(w[1], (now + n) as i64))
            } else {
                Err(ErrorModel::InvalidValue("duration"@))
            },
            None => Err(
                ErrorModel::InvalidValue(
                    if relative {
                        "duration"@
                    } else {
                        "timestamp"@
                    },
                ),
            ),
        }
    }
}

/// What a line of text is read as at the time `now`, in milliseconds since
/// the Unix epoch. The line is cut into words at ASCII whitespace; the
/// first word is the command, in upper case, the second the key. Words after
/// those that a command needs are ignored.
pub open spec fn parse_line(line: Seq<char>, now: i64) -> Result<OperationModel, ErrorModel> {
    let w = words(line);
    if w.len() == 0 {
        Err(ErrorModel::MissingCommand)
    } else if w[0] == "GET"@ {
        if w.len() < 2 {
            Err(ErrorModel::MissingKey)
        } else {
            Ok(OperationModel::Get(w[1]))
        }
    } else if w[0] == "PUT"@ {
        parse_put(w)
    } else if w[0] == "DELETE"@ {
        if w.len() < 2 {
            Err(ErrorModel::MissingKey)
        } else {
            Ok(OperationModel::Delete(w[1]))
        }
    } else if w[0] == "PURGE"@ {
        Ok(OperationModel::Purge)
    } else if w[0] == "TIME"@ {
        Ok(OperationModel::Time)
    } else if w[0] == "EXPIREAT"@ {
        parse_expire(w, false, now)
    } else if w[0] == "EXPIRE"@ {
        parse_expire(w, true, now)
    } else {
        Err(ErrorModel::UnknownCommand(w[0]))
    }
}

/// Whether `out` is what the model `expected` describes.
pub open spec fn parsed_as(
    out: Result<Operation, TransactionError>,
    expected: Result<OperationModel, ErrorModel>,
) -> bool {
    match out {
        Ok(op) => expected == Ok::<OperationModel, ErrorModel>(op@),
        Err(e) => expected == Err::<OperationModel, ErrorModel>(e@),
    }
}

impl Operation {
    /// Reads one command line, taking the time for `EXPIRE` from the system
    /// clock.
    pub fn parse(command: String) -> (out: Result<Self, TransactionError>)
        ensures
            exists|now: i64| now >= 0 && parsed_as(out, #[trigger] parse_line(command@, now)),
    {
        let now = now_millis();
        let out = Self::parse_at(command.as_str(), now);
        assert(parsed_as(out, parse_line(command@, now)));
        out
    }

    /// Reads one command line at the time `now`, in milliseconds since the
    /// Unix epoch.
    pub fn parse_at(command: &str, now: i64) -> (out: Result<Self, TransactionError>)
        ensures
            parsed_as(out, parse_line(command@, now)),
    {
        let parts = split_words(command);
        if parts.len() == 0 {
            return Err(TransactionError::MissingCommand);
        }
        let verb = parts[0].as_str();
        assert(texts(parts@)[0] == verb@);
        if same_text(verb, "GET") {
            if parts.len() < 2 {
                return Err(TransactionError::MissingKey);
            }
            assert(texts(parts@)[1] == parts@[1]@);
            Ok(Operation::Get(parts[1].clone()))
        } else if same_text(verb, "PUT") {
            if parts.len() < 2 {
                return Err(TransactionError::MissingKey);
            }
            if parts.len() < 3 {
                return Err(TransactionError::MissingValue);
            }
            assert(texts(parts@)[1] == parts@[1]@);
            let text = join_strs(&parts, 2, parts.len(), ' ');
            assert(texts(parts@).subrange(2, parts.len() as int) == texts(parts@).skip(2));
            match Value::parse(text.as_str()) {
                Ok(value) => Ok(Operation::Put(parts[1].clone(), value)),
                Err(_) => Err(TransactionError::InvalidValue(text)),
            }
        } else if same_text(verb, "DELETE") {
            if parts.len() < 2 {
                return Err(TransactionError::MissingKey);
            }
            assert(texts(parts@)[1] == parts@[1]@);
            Ok(Operation::Delete(parts[1].clone()))
        } else if same_text(verb, "PURGE") {
            Ok(Operation::Purge)
        } else if same_text(verb, "TIME") {
            Ok(Operation::Time)
        } else if same_text(verb, "EXPIREAT") {
            Self::expiry(&parts, false, now)
        } else if same_text(verb, "EXPIRE") {
            Self::expiry(&parts, true, now)
        } else {
            Err(TransactionError::UnknownCommand(parts[0].clone()))
        }
    }

    fn expiry(parts: &Vec<String>, relative: bool, now: i64) -> (out: Result<
        Self,
        TransactionError,
    >)
        ensures
            parsed_as(out, parse_expire(texts(parts@), relative, now)),
    {
        if parts.len() < 2 {
            return Err(TransactionError::MissingKey);
        }
        if parts.len() < 3 {
            return Err(TransactionError::MissingValue);
        }
        assert(texts(parts@)[1] == parts@[1]@);
        assert(texts(parts@)[2] == parts@[2]@);
        let digits = to_chars(parts[2].as_str());
        match parse_i64(&digits) {
            None => Err(
                TransactionError::InvalidValue(
                    if relative {
                        String::from_str("duration")
                    } else {
                        String::from_str("timestamp")
                    },
                ),
            ),
            Some(n) => {
                if !relative {
                    Ok(Operation::ExpireAt(Expiration::new(parts[1].clone(), n)))
                } else {
                    match now.checked_add(n) {
                        Some(at) => Ok(Operation::ExpireAt(Expiration::new(parts[1].clone(), at))),
                        None => Err(TransactionError::InvalidValue(String::from_str("duration"))),
                    }
                }
            },
        }
    }
}

} // verus!
