//! The write-ahead log as a value: the records written so far, one line
//! each, in the order in which they were written.

pub mod roundtrip;
pub mod wal_error;

use crate::errors::TransactionError;
use crate::num::{i64_chars, int_text};
use crate::operation::{Operation, OperationModel};
use crate::text::{from_chars, texts};
use vstd::prelude::*;
use vstd::string::StringExecFns;

verus! {

pub struct WriteAheadLog {
    lines: Vec<String>,
}

impl View for WriteAheadLog {
    type V = Seq<Seq<char>>;

    closed spec fn view(&self) -> Seq<Seq<char>> {
        texts(self.lines@)
    }
}

/// The line that records `op`, without its line end. Only what changes
/// the data is recorded: a `PUT` with the value as it is written in a
/// command, a `DELETE`, an `EXPIREAT` with the time in milliseconds.
pub open spec fn record(op: OperationModel) -> Option<Seq<char>> {
    match op {
        OperationModel::Put(key, value) => Some("PUT "@ + key + " "@ + value.literal()),
        OperationModel::Delete(key) => Some("DELETE "@ + key),
        OperationModel::ExpireAt(key, timestamp) => Some(
            "EXPIREAT "@ + key + " "@ + int_text(timestamp as int),
        ),
        _ => None,
    }
}

/// The log after `op`: a purge empties it, an operation that has a record
/// adds that record at the end, any other leaves it as it is.
pub open spec fn journal_after(journal: Seq<Seq<char>>, op: OperationModel) -> Seq<Seq<char>> {
    if op is Purge {
        Seq::empty()
    } else {
        match record(op) {
            Some(line) => journal.push(line),
            None => journal,
        }
    }
}

impl WriteAheadLog {
    /// A log without records.
    pub fn new() -> (log: Self)
        ensures
            log@ == Seq::<Seq<char>>::empty(),
    {
        let log = WriteAheadLog { lines: Vec::new() };
        assert(log@ =~= Seq::<Seq<char>>::empty());
        log
    }

    /// A log that holds the given records.
    pub fn from_lines(lines: Vec<String>) -> (log: Self)
        ensures
            log@ == texts(lines@),
    {
        WriteAheadLog { lines }
    }

    /// The line that records `op`, if it has one.
    pub fn format(op: &Operation) -> (line: Option<String>)
        ensures
            match line {
                Some(l) => record(op@) == Some(l@),
                None => record(op@) is None,
            },
    {
        match op {
            Operation::Put(key, value) => {
                let mut line = String::from_str("PUT ");
                line.append(key.as_str());
                line.append(" ");
                line.append(value.to_literal().as_str());
                Some(line)
            },
            Operation::Delete(key) => {
                let mut line = String::from_str("DELETE ");
                line.append(key.as_str());
                Some(line)
            },
            Operation::ExpireAt(expiration) => {
                let mut line = String::from_str("EXPIREAT ");
                line.append(expiration.key.as_str());
                line.append(" ");
                line.append(from_chars(&i64_chars(expiration.timestamp)).as_str());
                Some(line)
            },
            _ => None,
        }
    }

    /// Records `op`.
    pub fn write(&mut self, operation: &Operation) -> (out: Result<(), TransactionError>)
        ensures
            out is Ok,
            final(self)@ == journal_after(old(self)@, operation@),
    {
        if let Operation::Purge = operation {
            return self.clear();
        }
        match Self::format(operation) {
            Some(line) => {
                self.lines.push(line);
                assert(self@ =~= old(self)@.push(line@));
            },
            None => {},
        }
        Ok(())
    }

    /// The records, first to last.
    pub fn read_all_lines(&self) -> (out: Result<Vec<String>, TransactionError>)
        ensures
            out is Ok,
            texts(out->Ok_0@) == self@,
    {
        let out = self.read_from(0);
        assert(self@.skip(0) == self@);
        out
    }

    /// The records from the one at `offset` on; none where the log has
    /// fewer.
    pub fn read_from(&self, offset: usize) -> (out: Result<Vec<String>, TransactionError>)
        ensures
            out is Ok,
            texts(out->Ok_0@) == if offset <= self@.len() {
                self@.skip(offset as int)
            } else {
                Seq::<Seq<char>>::empty()
            },
    {
        let mut out: Vec<String> = Vec::new();
        if offset > self.lines.len() {
            assert(texts(out@) =~= Seq::<Seq<char>>::empty());
            return Ok(out);
        }
        let mut i: usize = offset;
        while i < self.lines.len()
            invariant
                offset <= i <= self.lines.len(),
                texts(out@) == self@.skip(offset as int).take(i - offset),
            decreases self.lines.len() - i,
        {
            let ghost before = texts(out@);
            let line = self.lines[i].clone();
            out.push(line);
            assert(texts(out@) =~= before.push(line@));
            assert(self@.skip(offset as int)[i - offset] == self.lines@[i as int]@);
            assert(self@.skip(offset as int).take(i - offset + 1) =~= before.push(line@));
            i += 1;
        }
        assert(self@.skip(offset as int).take(i - offset) =~= self@.skip(offset as int));
        Ok(out)
    }

    /// Drops every record.
    pub fn clear(&mut self) -> (out: Result<(), TransactionError>)
        ensures
            out is Ok,
            final(self)@ == Seq::<Seq<char>>::empty(),
    {
        self.lines = Vec::new();
        assert(self@ =~= Seq::<Seq<char>>::empty());
        Ok(())
    }
}

} // verus!
