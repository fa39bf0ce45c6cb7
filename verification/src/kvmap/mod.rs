//! The engine: it validates each operation, records it in the log, applies
//! it to the index and the expirations, and says what to reply.

pub mod map_error;
pub mod model;
pub mod theorems;

use self::model::{due, has_sentinel_token, is_sentinel, seconds, EngineModel};
use crate::atomicheap::{AtomicHeap, Ranked};
use crate::clock::now_millis;
use crate::errors::{ErrorModel, TransactionError};
use crate::num::i64_chars;
use crate::operation::expiration::Expiration;
use crate::operation::value::Value;
use crate::operation::{parse_line, Operation};
use crate::radixtree::{json_or_failure, replied, RadixTree};
use crate::text::{from_chars, split, split_str, texts, to_chars};
use crate::wal::WriteAheadLog;
use vstd::prelude::*;
use vstd::string::StringExecFns;

verus! {

pub struct KVMap {
    radix_tree: RadixTree,
    wal: WriteAheadLog,
    exp_heap: AtomicHeap<Expiration>,
}

/// For each key with a pending expiration, the time at which it falls due.
pub open spec fn deadlines_of(live: Map<Seq<char>, Expiration>) -> Map<Seq<char>, i64> {
    Map::new(|k: Seq<char>| live.contains_key(k), |k: Seq<char>| live[k].timestamp)
}

impl View for KVMap {
    type V = EngineModel;

    closed spec fn view(&self) -> EngineModel {
        EngineModel {
            tree: self.radix_tree.tree(),
            store: self.radix_tree@,
            deadlines: deadlines_of(self.exp_heap@),
            journal: self.wal@,
        }
    }
}

/// The line that answers a request: the reply itself, or the failure as
/// its code and message.
pub open spec fn reply_line(reply: Result<Seq<char>, ErrorModel>) -> Seq<char> {
    match reply {
        Ok(text) => text,
        Err(e) => e.message(),
    }
}

/// Whether no token of `key` is `*` or `_`.
fn sentinel_free(key: &str) -> (free: bool)
    ensures
        free == !has_sentinel_token(key@),
{
    let parts = split_str(key, '.');
    let ghost tokens = split(key@, '.');
    let mut i: usize = 0;
    while i < parts.len()
        invariant
            i <= parts.len(),
            texts(parts@) == tokens,
            tokens == split(key@, '.'),
            forall|j: int| 0 <= j < i ==> !is_sentinel(#[trigger] tokens[j]),
        decreases parts.len() - i,
    {
        let token = to_chars(parts[i].as_str());
        assert(tokens[i as int] == token@);
        if token.len() == 1 && (token[0] == '*' || token[0] == '_') {
            assert(token@ =~= seq!['*'] || token@ =~= seq!['_']);
            assert(is_sentinel(split(key@, '.')[i as int]));
            return false;
        }
        assert(!is_sentinel(token@)) by {
            if is_sentinel(token@) {
                assert(token@.len() == 1);
                assert(token@[0] == '*' || token@[0] == '_');
            }
        }
        i += 1;
    }
    true
}

impl KVMap {
    /// The index and the queue of expirations are each in order, and every
    /// expiration stands under the key it names.
    pub closed spec fn wf(&self) -> bool {
        &&& self.radix_tree.wf()
        &&& self.exp_heap.wf()
        &&& forall|k: Seq<char>| #[trigger]
            self.exp_heap@.contains_key(k) ==> self.exp_heap@[k].key@ == k
    }

    /// In an engine that is in order, the tree and the flat map agree.
    pub proof fn lemma_consistent(&self)
        requires
            self.wf(),
        ensures
            self@.consistent(),
    {
    }

    /// An engine without data, on the given log.
    pub fn new(wal: WriteAheadLog) -> (engine: Self)
        ensures
            engine.wf(),
            engine@ == EngineModel::fresh(wal@),
    {
        let engine = KVMap { radix_tree: RadixTree::new(), wal, exp_heap: AtomicHeap::new() };
        assert(engine@.deadlines =~= Map::<Seq<char>, i64>::empty());
        engine
    }

    /// The log.
    pub fn wal(&self) -> (log: &WriteAheadLog)
        ensures
            log@ == self@.journal,
    {
        &self.wal
    }

    /// Reads `key`.
    pub fn get(&mut self, key: &str) -> (out: Result<String, TransactionError>)
        requires
            old(self).wf(),
        ensures
            final(self).wf(),
            final(self)@ == old(self)@,
            replied(out, old(self)@.read(key@)),
    {
        match self.radix_tree.get(key) {
            Ok(text) => Ok(text),
            Err(TransactionError::SerializationFailure) => Err(
                TransactionError::SerializationFailure,
            ),
            Err(_) => Err(TransactionError::KeyNotFound(String::from_str(key))),
        }
    }

    /// Puts `value` under `key` and replies with the value as JSON.
    pub fn put(&mut self, key: String, value: Value) -> (out: Result<String, TransactionError>)
        requires
            old(self).wf(),
        ensures
            final(self).wf(),
            final(self)@ == old(self)@.stored(key@, value@),
            replied(out, old(self)@.store_reply(key@, value@)),
    {
        let json = value.to_json();
        match self.radix_tree.put(key, value) {
            Ok(_) => json_or_failure(json),
            Err(e) => Err(e),
        }
    }

    /// Takes `key` out, with its expiration, and replies with the value
    /// that it had as JSON.
    pub fn delete(&mut self, key: &str) -> (out: Result<String, TransactionError>)
        requires
            old(self).wf(),
        ensures
            final(self).wf(),
            final(self)@ == old(self)@.deleted(key@),
            replied(out, old(self)@.delete_reply(key@)),
    {
        self.exp_heap.invalidate(key);
        assert(self@.deadlines =~= old(self)@.deadlines.remove(key@));
        let json = match self.radix_tree.value(key) {
            None => {
                return Err(TransactionError::KeyNotFound(String::from_str(key)));
            },
            Some(value) => value.to_json(),
        };
        let _gone = self.radix_tree.delete(String::from_str(key));
        assert(self@.store.dom() =~= old(self)@.store.dom().remove(key@));
        json_or_failure(json)
    }

    /// Takes every value and every expiration out.
    pub fn purge(&mut self) -> (out: Result<String, TransactionError>)
        requires
            old(self).wf(),
        ensures
            final(self).wf(),
            final(self)@ == old(self)@.purged(),
            replied(out, Ok::<Seq<char>, ErrorModel>("OK"@)),
    {
        let _cleared = self.radix_tree.purge();
        self.exp_heap.clear();
        assert(self@.deadlines =~= Map::<Seq<char>, i64>::empty());
        Ok(String::from_str("OK"))
    }

    /// Makes the key of `expiration` fall due at its time, where a read of
    /// the key finds something.
    pub fn expire_at(&mut self, expiration: Expiration) -> (out: Result<String, TransactionError>)
        requires
            old(self).wf(),
        ensures
            final(self).wf(),
            final(self)@ == old(self)@.expiring(expiration.key@, expiration.timestamp),
            replied(out, old(self)@.expire_reply(expiration.key@)),
    {
        if !self.radix_tree.contains(expiration.key.as_str()) {
            return Err(TransactionError::KeyNotFound(expiration.key));
        }
        let key = expiration.key.clone();
        self.exp_heap.push(key, expiration);
        assert(self@.deadlines =~= old(self)@.deadlines.insert(
            expiration.key@,
            expiration.timestamp,
        ));
        Ok(String::from_str("OK"))
    }

    /// Sweeps at the time of the system clock.
    pub fn process_expirations(&mut self) -> (out: Result<(), TransactionError>)
        requires
            old(self).wf(),
        ensures
            final(self).wf(),
            out is Ok,
            exists|now: i64| #[trigger] old(self)@.swept_to(final(self)@, now),
    {
        let now = now_millis();
        let out = self.process_expirations_at(now);
        assert(old(self)@.swept_to(self@, now));
        out
    }

    /// Sweeps at the time `now`, in milliseconds: takes out every key whose
    /// expiration is due, with the expiration.
    pub fn process_expirations_at(&mut self, now: i64) -> (out: Result<(), TransactionError>)
        requires
            old(self).wf(),
        ensures
            final(self).wf(),
            out is Ok,
            old(self)@.swept_to(final(self)@, now),
    {
        let ghost start = self@;
        let ghost mut order: Seq<Seq<char>> = Seq::empty();
        let mut more = true;
        while more
            invariant
                self.wf(),
                self@ == start.expired(order),
                forall|i: int, j: int| 0 <= i < j < order.len() ==> order[i] != order[j],
                forall|k: Seq<char>| #[trigger]
                    order.contains(k) ==> due(start.deadlines, now).contains(k),
                !more ==> forall|k: Seq<char>|
                    self@.deadlines.contains_key(k) ==> #[trigger] self@.deadlines[k] > now,
            decreases self.exp_heap.size() + (if more { 1nat } else { 0nat }),
        {
            let ghost live = self.exp_heap@;
            let ghost current = self@;
            proof {
                theorems::expired_data(start, order);
            }
            match self.exp_heap.peek() {
                None => {
                    more = false;
                },
                Some(first) => {
                    if first.timestamp > now {
                        more = false;
                        proof {
                            assert forall|k: Seq<char>|
                                self@.deadlines.contains_key(k) implies #[trigger] self@.deadlines[k]
                                > now by {
                                assert(live[k].rank() <= first.rank());
                            }
                        }
                    } else {
                        match self.exp_heap.pop() {
                            None => {
                                more = false;
                            },
                            Some(entry) => {
                                let ghost k = choose|k: Seq<char>|
                                    live.contains_key(k) && #[trigger] live[k] == entry
                                        && self.exp_heap@ == live.remove(k);
                                proof {
                                    let k1 = choose|k1: Seq<char>|
                                        live.contains_key(k1) && #[trigger] live[k1] == first;
                                    assert(live[k1].rank() <= entry.rank());
                                    assert(entry.key@ == k);
                                    assert(current.deadlines.contains_key(k));
                                    assert(current.deadlines[k] == entry.timestamp);
                                    assert(start.deadlines.contains_key(k));
                                    assert(start.deadlines[k] == entry.timestamp);
                                    assert(entry.timestamp <= first.timestamp);
                                    assert(due(start.deadlines, now).contains(k));
                                    assert(!order.contains(k));
                                }
                                let _gone = self.radix_tree.delete(entry.key);
                                proof {
                                    assert(self.exp_heap@ == live.remove(k));
                                    assert(deadlines_of(live.remove(k)) =~= deadlines_of(
                                        live,
                                    ).remove(k));
                                    assert(self@.store.dom() =~= current.store.dom().remove(k));
                                    assert(self@.store =~= current.deleted(k).store);
                                    assert(self@ == current.deleted(k));
                                    let longer = order.push(k);
                                    assert(longer.drop_last() == order);
                                    assert forall|x: Seq<char>| longer.contains(
                                        x,
                                    ) implies due(start.deadlines, now).contains(x) by {
                                        let i = choose|i: int|
                                            0 <= i < longer.len() && longer[i] == x;
                                        if i < order.len() {
                                            assert(order[i] == x);
                                            assert(order.contains(x));
                                        } else {
                                            assert(longer[i] == k);
                                            assert(x == k);
                                            assert(due(start.deadlines, now).contains(k));
                                        }
                                    }
                                    assert forall|i: int, j: int|
                                        0 <= i < j < longer.len() implies longer[i]
                                        != longer[j] by {
                                        if j == order.len() {
                                            assert(order[i] == longer[i]);
                                        }
                                    }
                                    order = longer;
                                }
                            },
                        }
                    }
                },
            }
        }
        proof {
            theorems::expired_data(start, order);
            assert forall|k: Seq<char>| due(start.deadlines, now).contains(k) implies order.contains(
                k,
            ) by {
                if !order.contains(k) {
                    assert(self@.deadlines.contains_key(k));
                    assert(self@.deadlines[k] > now);
                }
            }
            assert(start.sweep_order(order, now));
        }
        Ok(())
    }

    /// Validates `operation` at the time of the system clock.
    pub fn validate(&self, operation: &Operation) -> (out: Result<(), TransactionError>)
        ensures
            exists|now: i64|
                match out {
                    Ok(_) => (#[trigger] self@.validation(operation@, seconds(now))) is None,
                    Err(e) => self@.validation(operation@, seconds(now)) == Some(e@),
                },
    {
        let now = now_millis();
        let out = self.validate_at(operation, now / 1000);
        assert(seconds(now) == now / 1000);
        assert(match out {
            Ok(_) => self@.validation(operation@, seconds(now)) is None,
            Err(e) => self@.validation(operation@, seconds(now)) == Some(e@),
        });
        out
    }

    /// Validates `operation` at the time `now_secs`, in seconds since the
    /// Unix epoch.
    pub fn validate_at(&self, operation: &Operation, now_secs: i64) -> (out: Result<
        (),
        TransactionError,
    >)
        ensures
            match out {
                Ok(_) => self@.validation(operation@, now_secs) is None,
                Err(e) => self@.validation(operation@, now_secs) == Some(e@),
            },
    {
        match operation {
            Operation::Get(key) => {
                if !self.radix_tree.contains(key.as_str()) {
                    return Err(TransactionError::KeyNotFound(key.clone()));
                }
                Ok(())
            },
            Operation::Put(key, _value) => {
                if !sentinel_free(key.as_str()) {
                    return Err(TransactionError::InvalidKey(key.clone()));
                }
                Ok(())
            },
            Operation::Delete(key) => {
                if self.radix_tree.value(key.as_str()).is_none() {
                    return Err(TransactionError::KeyNotFound(key.clone()));
                }
                Ok(())
            },
            Operation::ExpireAt(expiration) => {
                if expiration.timestamp <= now_secs {
                    return Err(TransactionError::InvalidExpiration(expiration.timestamp));
                }
                Ok(())
            },
            Operation::Time => Ok(()),
            Operation::Purge => Ok(()),
        }
    }

    /// Applies a valid operation to the data and says what to reply.
    fn apply(&mut self, operation: Operation, now: i64) -> (out: Result<String, TransactionError>)
        requires
            old(self).wf(),
        ensures
            final(self).wf(),
            final(self)@ == old(self)@.applied(operation@),
            replied(out, old(self)@.reply(operation@, now)),
    {
        match operation {
            Operation::Get(key) => self.get(key.as_str()),
            Operation::Put(key, value) => self.put(key, value),
            Operation::Delete(key) => self.delete(key.as_str()),
            Operation::ExpireAt(expiration) => self.expire_at(expiration),
            Operation::Time => Ok(from_chars(&i64_chars(now))),
            Operation::Purge => self.purge(),
        }
    }

    /// The first half of processing, up to the point at which the log is
    /// written: sweeps at `now`, then validates `operation`.
    pub fn begin_at(&mut self, operation: &Operation, now: i64) -> (out: Result<
        (),
        TransactionError,
    >)
        requires
            old(self).wf(),
        ensures
            final(self).wf(),
            old(self)@.swept_to(final(self)@, now),
            match out {
                Ok(_) => final(self)@.validation(operation@, seconds(now)) is None,
                Err(e) => final(self)@.validation(operation@, seconds(now)) == Some(e@),
            },
    {
        let _swept = self.process_expirations_at(now);
        let secs = if now < 0 {
            0
        } else {
            now / 1000
        };
        self.validate_at(operation, secs)
    }

    /// The second half of processing, for an operation that `begin_at` has
    /// found valid: records it in the log and applies it.
    pub fn finish_at(&mut self, operation: Operation, now: i64) -> (out: Result<
        String,
        TransactionError,
    >)
        requires
            old(self).wf(),
        ensures
            final(self).wf(),
            final(self)@ == old(self)@.committed(operation@),
            replied(out, old(self)@.reply(operation@, now)),
    {
        let _written = self.wal.write(&operation);
        self.apply(operation, now)
    }

    /// Processes `operation` at the time of the system clock.
    pub fn process_operation(&mut self, operation: Operation) -> (out: Result<
        String,
        TransactionError,
    >)
        requires
            old(self).wf(),
        ensures
            final(self).wf(),
            exists|now: i64, mid: EngineModel|
                {
                    &&& #[trigger] old(self)@.swept_to(mid, now)
                    &&& final(self)@ == mid.processed(operation@, now)
                    &&& replied(out, mid.outcome(operation@, now))
                },
    {
        let now = now_millis();
        let ghost before = self@;
        let out = self.process_operation_at(operation, now);
        proof {
            let mid = choose|mid: EngineModel|
                {
                    &&& #[trigger] before.swept_to(mid, now)
                    &&& self@ == mid.processed(operation@, now)
                    &&& replied(out, mid.outcome(operation@, now))
                };
            assert(before.swept_to(mid, now));
        }
        out
    }

    /// Processes `operation` at the time `now`, in milliseconds since the
    /// Unix epoch: sweeps, validates, records, applies.
    pub fn process_operation_at(&mut self, operation: Operation, now: i64) -> (out: Result<
        String,
        TransactionError,
    >)
        requires
            old(self).wf(),
        ensures
            final(self).wf(),
            exists|mid: EngineModel|
                {
                    &&& #[trigger] old(self)@.swept_to(mid, now)
                    &&& final(self)@ == mid.processed(operation@, now)
                    &&& replied(out, mid.outcome(operation@, now))
                },
    {
        match self.begin_at(&operation, now) {
            Err(e) => {
                assert(old(self)@.swept_to(self@, now));
                Err(e)
            },
            Ok(_) => {
                let ghost mid = self@;
                let out = self.finish_at(operation, now);
                assert(old(self)@.swept_to(mid, now));
                out
            },
        }
    }

    /// Answers one request line at the time of the system clock.
    pub fn respond(&mut self, line: &str) -> (reply: String)
        requires
            old(self).wf(),
        ensures
            final(self).wf(),
            exists|now: i64|
                match #[trigger] parse_line(line@, now) {
                    Err(e) => final(self)@ == old(self)@ && reply@ == e.message(),
                    Ok(op) => exists|mid: EngineModel|
                        {
                            &&& #[trigger] old(self)@.swept_to(mid, now)
                            &&& final(self)@ == mid.processed(op, now)
                            &&& reply@ == reply_line(mid.outcome(op, now))
                        },
                },
    {
        let now = now_millis();
        let ghost before = self@;
        let reply = self.respond_at(line, now);
        assert(match parse_line(line@, now) {
            Err(e) => self@ == before && reply@ == e.message(),
            Ok(op) => exists|mid: EngineModel|
                {
                    &&& #[trigger] before.swept_to(mid, now)
                    &&& self@ == mid.processed(op, now)
                    &&& reply@ == reply_line(mid.outcome(op, now))
                },
        });
        reply
    }

    /// Answers one request line at the time `now`: reads it as a command,
    /// processes the operation, and gives the reply or the failure as one
    /// line of text.
    pub fn respond_at(&mut self, line: &str, now: i64) -> (reply: String)
        requires
            old(self).wf(),
        ensures
            final(self).wf(),
            match parse_line(line@, now) {
                Err(e) => final(self)@ == old(self)@ && reply@ == e.message(),
                Ok(op) => exists|mid: EngineModel|
                    {
                        &&& #[trigger] old(self)@.swept_to(mid, now)
                        &&& final(self)@ == mid.processed(op, now)
                        &&& reply@ == reply_line(mid.outcome(op, now))
                    },
            },
    {
        match Operation::parse_at(line, now) {
            Err(e) => e.message(),
            Ok(operation) => {
                let ghost op = operation@;
                let out = self.process_operation_at(operation, now);
                proof {
                    let mid = choose|mid: EngineModel|
                        {
                            &&& #[trigger] old(self)@.swept_to(mid, now)
                            &&& self@ == mid.processed(op, now)
                            &&& replied(out, mid.outcome(op, now))
                        };
                    assert(old(self)@.swept_to(mid, now));
                }
                match out {
                    Ok(text) => text,
                    Err(e) => e.message(),
                }
            },
        }
    }

    /// Applies one record of the log again, unless it is unfit.
    fn replay(&mut self, line: &str, now: i64) -> (fault: Option<TransactionError>)
        requires
            old(self).wf(),
        ensures
            final(self).wf(),
            match fault {
                Some(e) => old(self)@.replay_fault(line@, now) == Some(e@) && final(self)@ == old(self)@,
                None => old(self)@.replay_fault(line@, now) is None && final(self)@ == old(self)@.replayed(line@, now),
            },
    {
        match Operation::parse_at(line, now) {
            Err(e) => Some(e),
            Ok(operation) => match operation {
                Operation::Put(key, value) => match self.radix_tree.put(key, value) {
                    Ok(_) => None,
                    Err(e) => Some(e),
                },
                Operation::Delete(key) => {
                    if self.radix_tree.value(key.as_str()).is_none() {
                        Some(TransactionError::KeyNotFound(key))
                    } else {
                        let _gone = self.delete(key.as_str());
                        None
                    }
                },
                Operation::ExpireAt(expiration) => match self.expire_at(expiration) {
                    Ok(_) => None,
                    Err(e) => Some(e),
                },
                _ => None,
            },
        }
    }

    /// Recovers from the log at the time of the system clock.
    pub fn restore(&mut self) -> (out: Result<(), TransactionError>)
        requires
            old(self).wf(),
        ensures
            final(self).wf(),
            exists|now: i64|
                {
                    &&& final(self)@ == (#[trigger] old(self)@.restored(old(self)@.journal, now)).0
                    &&& match out {
                        Ok(_) => old(self)@.restored(old(self)@.journal, now).1 is None,
                        Err(e) => old(self)@.restored(old(self)@.journal, now).1 is Some && e@
                            == ErrorModel::RestoreError(
                            old(self)@.restored(old(self)@.journal, now).1->0.message(),
                        ),
                    }
                },
    {
        let now = now_millis();
        let ghost before = self@;
        let out = self.restore_at(now);
        assert(self@ == before.restored(before.journal, now).0);
        out
    }

    /// Recovers from the log: applies each record again, first to last,
    /// without writing to the log. Stops at the first record that cannot
    /// be read or applied. `now` is the time that a record with a relative
    /// time would be read at.
    pub fn restore_at(&mut self, now: i64) -> (out: Result<(), TransactionError>)
        requires
            old(self).wf(),
        ensures
            final(self).wf(),
            final(self)@ == old(self)@.restored(old(self)@.journal, now).0,
            match out {
                Ok(_) => old(self)@.restored(old(self)@.journal, now).1 is None,
                Err(e) => old(self)@.restored(old(self)@.journal, now).1 is Some && e@
                    == ErrorModel::RestoreError(
                    old(self)@.restored(old(self)@.journal, now).1->0.message(),
                ),
            },
    {
        let ghost start = self@;
        let lines = match self.wal.read_all_lines() {
            Ok(lines) => lines,
            Err(e) => {
                return Err(e);
            },
        };
        let ghost all = texts(lines@);
        let mut i: usize = 0;
        while i < lines.len()
            invariant
                i <= lines.len(),
                self.wf(),
                all == texts(lines@),
                all == start.journal,
                start == old(self)@,
                start.restored(all.take(i as int), now) == (self@, None::<ErrorModel>),
            decreases lines.len() - i,
        {
            let ghost seen = all.take(i as int);
            let ghost next = all.take(i + 1);
            let ghost current = self@;
            proof {
                assert(next.drop_last() == seen);
                assert(next.last() == lines@[i as int]@);
            }
            match self.replay(lines[i].as_str(), now) {
                Some(e) => {
                    proof {
                        assert(self@ == current);
                        assert(start.restored(next, now) == (current, Some(e@)));
                        lemma_restored_stops(start, all, i + 1, now);
                    }
                    return Err(TransactionError::RestoreError(e.message()));
                },
                None => {},
            }
            i += 1;
        }
        assert(all.take(i as int) == all);
        Ok(())
    }
}

/// Once recovery has met an unfit record, the records after it change
/// nothing.
pub proof fn lemma_restored_stops(start: EngineModel, lines: Seq<Seq<char>>, n: int, now: i64)
    requires
        0 <= n <= lines.len(),
        start.restored(lines.take(n), now).1 is Some,
    ensures
        start.restored(lines, now) == start.restored(lines.take(n), now),
    decreases lines.len() - n,
{
    if n < lines.len() {
        let init = lines.drop_last();
        assert(init.take(n) == lines.take(n));
        lemma_restored_stops(start, init, n, now);
    } else {
        assert(lines.take(n) == lines);
    }
}

} // verus!
