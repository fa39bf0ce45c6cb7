//! A record of the log, read as a command, is the operation that it
//! records.

use super::record;
use crate::errors::ErrorModel;
use crate::num::{
    int_text, is_digit, lemma_decimal_of_int_text, lemma_nat_text_digits, nat_text, parse_i64_spec,
};
use crate::operation::value::{parse_value, ValueModel};
use crate::operation::{parse_expire, parse_line, parse_put, OperationModel};
use crate::text::{
    all_words, is_space, is_word, join, lemma_scan_word, lemma_words_are_words, lemma_words_join,
    lemma_words_of_command, words,
};
use vstd::prelude::*;

verus! {

/// The text of an integer is one word, and is read as that integer and
/// as nothing else.
pub proof fn lemma_int_text_is_value(i: i64)
    ensures
        is_word(int_text(i as int)),
        words(int_text(i as int)) == seq![int_text(i as int)],
        parse_i64_spec(int_text(i as int)) == Some(i),
        parse_value(int_text(i as int)) == Ok::<ValueModel, crate::operation::parse_error::ParseErrorModel>(
            ValueModel::Integer(i),
        ),
{
    let t = int_text(i as int);
    lemma_decimal_of_int_text(i as int);
    if i < 0 {
        lemma_nat_text_digits((-i) as nat);
        let digits = nat_text((-i) as nat);
        assert forall|k: int| 0 <= k < t.len() implies !is_space(#[trigger] t[k]) by {
            if k > 0 {
                assert(t[k] == digits[k - 1]);
                assert(is_digit(digits[k - 1]));
            }
        }
    } else {
        lemma_nat_text_digits(i as nat);
        assert forall|k: int| 0 <= k < t.len() implies !is_space(#[trigger] t[k]) by {
            assert(is_digit(t[k]));
        }
    }
    let empty = Seq::<char>::empty();
    lemma_scan_word(empty, t);
    assert(empty + t == t);
    assert(Seq::<Seq<char>>::empty().push(t) == seq![t]);
    reveal_strlit("null");
    reveal_strlit("true");
    reveal_strlit("false");
    assert(t[0] == '-' || is_digit(t[0])) by {
        if i >= 0 {
            lemma_nat_text_digits(i as nat);
            assert(is_digit(t[0]));
        }
    }
    assert(t != "null"@) by {
        if t == "null"@ {
            assert(t[0] == 'n');
        }
    }
    assert(t != "true"@) by {
        if t == "true"@ {
            assert(t[0] == 't');
        }
    }
    assert(t != "false"@) by {
        if t == "false"@ {
            assert(t[0] == 'f');
        }
    }
}

/// Whether the kept text of a floating-point value is read as itself:
/// it is one word, and as a value it is the same floating-point value.
pub open spec fn float_reads_back(text: Seq<char>) -> bool {
    is_word(text) && parse_value(text) == Ok::<
        ValueModel,
        crate::operation::parse_error::ParseErrorModel,
    >(ValueModel::Float(text))
}

/// Whether `op` was read from the command `line` and, where it puts a
/// floating-point value, the kept text of that value is read as itself.
pub open spec fn was_read(op: OperationModel, line: Seq<char>, now: i64) -> bool {
    &&& parse_line(line, now) == Ok::<OperationModel, ErrorModel>(op)
    &&& op matches OperationModel::Put(_, ValueModel::Float(text)) ==> float_reads_back(text)
}

proof fn lemma_verb_put()
    ensures
        is_word("PUT"@),
        "PUT "@ == "PUT"@.push(' '),
        " "@ == seq![' '],
        "PUT"@ != "GET"@,
{
    reveal_strlit("GET");
    reveal_strlit("PUT");
    reveal_strlit("PUT ");
    reveal_strlit(" ");
    let verb = "PUT"@;
    assert("PUT "@ =~= verb.push(' '));
    assert(" "@ =~= seq![' ']);
    assert(verb[0] == 'P' && "GET"@[0] == 'G');
    assert(verb[1] == 'U' && verb[2] == 'T');
}

proof fn lemma_verb_delete()
    ensures
        is_word("DELETE"@),
        "DELETE "@ == "DELETE"@.push(' '),
        "DELETE"@ != "GET"@,
        "DELETE"@ != "PUT"@,
{
    reveal_strlit("GET");
    reveal_strlit("PUT");
    reveal_strlit("DELETE");
    reveal_strlit("DELETE ");
    let verb = "DELETE"@;
    assert("DELETE "@ =~= verb.push(' '));
    assert(verb.len() == 6 && "GET"@.len() == 3 && "PUT"@.len() == 3);
    assert(verb[0] == 'D' && verb[1] == 'E' && verb[2] == 'L' && verb[3] == 'E' && verb[4] == 'T'
        && verb[5] == 'E');
}

proof fn lemma_verb_expireat()
    ensures
        is_word("EXPIREAT"@),
        "EXPIREAT "@ == "EXPIREAT"@.push(' '),
        " "@ == seq![' '],
        "EXPIREAT"@ != "GET"@,
        "EXPIREAT"@ != "PUT"@,
        "EXPIREAT"@ != "DELETE"@,
        "EXPIREAT"@ != "PURGE"@,
        "EXPIREAT"@ != "TIME"@,
{
    reveal_strlit("GET");
    reveal_strlit("PUT");
    reveal_strlit("DELETE");
    reveal_strlit("PURGE");
    reveal_strlit("TIME");
    reveal_strlit("EXPIREAT");
    reveal_strlit("EXPIREAT ");
    reveal_strlit(" ");
    let verb = "EXPIREAT"@;
    assert("EXPIREAT "@ =~= verb.push(' '));
    assert(" "@ =~= seq![' ']);
    assert(verb.len() == 8 && "GET"@.len() == 3 && "PUT"@.len() == 3 && "DELETE"@.len() == 6
        && "PURGE"@.len() == 5 && "TIME"@.len() == 4);
    assert(verb[0] == 'E' && verb[1] == 'X' && verb[2] == 'P' && verb[3] == 'I' && verb[4] == 'R'
        && verb[5] == 'E' && verb[6] == 'A' && verb[7] == 'T');
}

proof fn put_reads_back(key: Seq<char>, value: ValueModel, line: Seq<char>, now: i64, later: i64)
    requires
        was_read(OperationModel::Put(key, value), line, now),
    ensures
        parse_line(record(OperationModel::Put(key, value))->0, later) == Ok::<
            OperationModel,
            ErrorModel,
        >(OperationModel::Put(key, value)),
{
    let op = OperationModel::Put(key, value);
    let w = words(line);
    lemma_words_are_words(line);
    lemma_verb_put();
    let space = seq![' '];
    let verb = "PUT"@;
    assert(w.len() >= 3 && w[0] == verb && w[1] == key) by {
        lemma_first_word_put(line, now, key, value);
    }
    assert(parse_put(w) == Ok::<OperationModel, ErrorModel>(op)) by {
        lemma_first_word_put(line, now, key, value);
    }
    assert(is_word(w[1]));
    let given = w.skip(2);
    let text = join(given, ' ');
    assert(all_words(given)) by {
        assert forall|i: int| 0 <= i < given.len() implies is_word(#[trigger] given[i]) by {
            assert(given[i] == w[i + 2]);
        }
    }
    lemma_words_join(given);
    let literal = value.literal();
    lemma_words_of_command(verb, key, literal);
    let back = words(record(op)->0);
    assert(record(op)->0 =~= verb.push(' ') + key + space + literal);
    assert(back == seq![verb, key] + words(literal));
    assert(back.len() >= 2 && back[0] == verb && back[1] == key);
    assert(back.skip(2) =~= words(literal));
    match value {
        ValueModel::Integer(i) => {
            lemma_int_text_is_value(i);
            assert(join(seq![literal], ' ') == literal);
        },
        ValueModel::Float(kept) => {
            lemma_scan_word(Seq::<char>::empty(), kept);
            assert(Seq::<char>::empty() + kept == kept);
            assert(Seq::<Seq<char>>::empty().push(kept) == seq![kept]);
            assert(words(literal) == seq![literal]);
            assert(join(seq![literal], ' ') == literal);
        },
        ValueModel::String(inner) => {
            assert(literal =~= text);
        },
        ValueModel::Boolean(b) => {
            assert(literal == text);
        },
        ValueModel::Null => {
            assert(literal == text);
        },
    }
    assert(parse_put(back) == Ok::<OperationModel, ErrorModel>(op));
    assert(parse_line(record(op)->0, later) == parse_put(back));
}

/// A line that is read as a `PUT` begins with that word, and its other
/// words give the operation.
proof fn lemma_first_word_put(line: Seq<char>, now: i64, key: Seq<char>, value: ValueModel)
    requires
        parse_line(line, now) == Ok::<OperationModel, ErrorModel>(OperationModel::Put(key, value)),
    ensures
        words(line).len() >= 3,
        words(line)[0] == "PUT"@,
        words(line)[1] == key,
        parse_put(words(line)) == Ok::<OperationModel, ErrorModel>(OperationModel::Put(key, value)),
{
}

proof fn delete_reads_back(key: Seq<char>, line: Seq<char>, now: i64, later: i64)
    requires
        parse_line(line, now) == Ok::<OperationModel, ErrorModel>(OperationModel::Delete(key)),
    ensures
        parse_line(record(OperationModel::Delete(key))->0, later) == Ok::<
            OperationModel,
            ErrorModel,
        >(OperationModel::Delete(key)),
{
    let op = OperationModel::Delete(key);
    let w = words(line);
    lemma_words_are_words(line);
    lemma_verb_delete();
    let verb = "DELETE"@;
    assert(w.len() >= 2 && w[1] == key);
    assert(is_word(w[1]));
    lemma_words_of_command(verb, key, Seq::empty());
    let back = words(record(op)->0);
    assert(record(op)->0 =~= verb.push(' ') + key);
    assert(back == seq![verb, key]);
    assert(back.len() == 2 && back[0] == verb && back[1] == key);
}

proof fn expiry_reads_back(key: Seq<char>, timestamp: i64, line: Seq<char>, now: i64, later: i64)
    requires
        parse_line(line, now) == Ok::<OperationModel, ErrorModel>(
            OperationModel::ExpireAt(key, timestamp),
        ),
    ensures
        parse_line(record(OperationModel::ExpireAt(key, timestamp))->0, later) == Ok::<
            OperationModel,
            ErrorModel,
        >(OperationModel::ExpireAt(key, timestamp)),
{
    let op = OperationModel::ExpireAt(key, timestamp);
    let w = words(line);
    lemma_words_are_words(line);
    lemma_verb_expireat();
    let space = seq![' '];
    let verb = "EXPIREAT"@;
    assert(w.len() >= 2 && w[1] == key);
    assert(is_word(w[1]));
    let digits = int_text(timestamp as int);
    lemma_int_text_is_value(timestamp);
    lemma_words_of_command(verb, key, digits);
    let back = words(record(op)->0);
    assert(record(op)->0 =~= verb.push(' ') + key + space + digits);
    assert(back =~= seq![verb, key, digits]);
    assert(back.len() == 3 && back[0] == verb && back[1] == key && back[2] == digits);
    assert(parse_expire(back, false, later) == Ok::<OperationModel, ErrorModel>(op));
    assert(parse_line(record(op)->0, later) == parse_expire(back, false, later));
}

/// The record of an operation that was read from a command is read back
/// as the same operation, at any time.
pub proof fn record_reads_back(op: OperationModel, line: Seq<char>, now: i64, later: i64)
    requires
        was_read(op, line, now),
        record(op) is Some,
    ensures
        parse_line(record(op)->0, later) == Ok::<OperationModel, ErrorModel>(op),
{
    match op {
        OperationModel::Put(key, value) => {
            put_reads_back(key, value, line, now, later);
        },
        OperationModel::Delete(key) => {
            delete_reads_back(key, line, now, later);
        },
        OperationModel::ExpireAt(key, timestamp) => {
            expiry_reads_back(key, timestamp, line, now, later);
        },
        _ => {},
    }
}

} // verus!
