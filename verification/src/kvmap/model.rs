//! The engine as a value, and each of its operations as a function from
//! one such value to the next and to the reply.

use crate::errors::ErrorModel;
use crate::num::int_text;
use crate::operation::value::ValueModel;
use crate::operation::{parse_line, OperationModel};
use crate::radixtree::radixnode::NodeModel;
use crate::radixtree::{consistent, has_reserved_token, json_reply, present, read};
use crate::text::split;
use crate::wal::journal_after;
use vstd::prelude::*;

verus! {

/// What the engine holds: the tree of tokens, the flat map from key to
/// value, for each key with a pending expiration the time at which it
/// falls due, and the records of the log.
pub struct EngineModel {
    pub tree: NodeModel,
    pub store: Map<Seq<char>, ValueModel>,
    pub deadlines: Map<Seq<char>, i64>,
    pub journal: Seq<Seq<char>>,
}

/// Whether `token` is `*` or `_`.
pub open spec fn is_sentinel(token: Seq<char>) -> bool {
    token == seq!['*'] || token == seq!['_']
}

/// Whether a token of `key` is `*` or `_`.
pub open spec fn has_sentinel_token(key: Seq<char>) -> bool {
    exists|i: int| 0 <= i < split(key, '.').len() && is_sentinel(#[trigger] split(key, '.')[i])
}

/// The whole seconds in `now` milliseconds; 0 for a time before the epoch.
pub open spec fn seconds(now: i64) -> i64 {
    if now < 0 {
        0
    } else {
        (now / 1000) as i64
    }
}

/// The keys whose expiration is due at `now`.
pub open spec fn due(deadlines: Map<Seq<char>, i64>, now: i64) -> Set<Seq<char>> {
    Set::new(|k: Seq<char>| deadlines.contains_key(k) && deadlines[k] <= now)
}

impl EngineModel {
    /// An engine that holds nothing but the given log.
    pub open spec fn fresh(journal: Seq<Seq<char>>) -> EngineModel {
        EngineModel {
            tree: NodeModel::leaf("_"@),
            store: Map::empty(),
            deadlines: Map::empty(),
            journal,
        }
    }

    /// The tree and the flat map agree.
    pub open spec fn consistent(self) -> bool {
        consistent(self.tree, self.store.dom())
    }

    /// The reply to a read of `key`. Whatever is not found is reported
    /// under the key as it was asked for.
    pub open spec fn read(self, key: Seq<char>) -> Result<Seq<char>, ErrorModel> {
        match read(self.tree, self.store, key) {
            Ok(text) => Ok(text),
            Err(ErrorModel::SerializationFailure) => Err(ErrorModel::SerializationFailure),
            Err(_) => Err(ErrorModel::KeyNotFound(key)),
        }
    }

    /// The engine with `value` under `key`; the same engine where a token
    /// of the key begins with `*`.
    pub open spec fn stored(self, key: Seq<char>, value: ValueModel) -> EngineModel {
        if has_reserved_token(key) {
            self
        } else {
            EngineModel {
                tree: self.tree.grown(Seq::empty(), split(key, '.')),
                store: self.store.insert(key, value),
                ..self
            }
        }
    }

    /// The reply to putting `value` under `key`: the value as JSON.
    pub open spec fn store_reply(self, key: Seq<char>, value: ValueModel) -> Result<
        Seq<char>,
        ErrorModel,
    > {
        if has_reserved_token(key) {
            Err(ErrorModel::InvalidKey(key))
        } else {
            json_reply(value.json())
        }
    }

    /// The engine without `key`: its expiration is dropped in any case, its
    /// value and its place in the tree where it has a value.
    pub open spec fn deleted(self, key: Seq<char>) -> EngineModel {
        if self.store.contains_key(key) {
            EngineModel {
                tree: self.tree.pruned(self.store.dom().remove(key), split(key, '.')),
                store: self.store.remove(key),
                deadlines: self.deadlines.remove(key),
                ..self
            }
        } else {
            EngineModel { deadlines: self.deadlines.remove(key), ..self }
        }
    }

    /// The reply to deleting `key`: the value that was under it, as JSON.
    pub open spec fn delete_reply(self, key: Seq<char>) -> Result<Seq<char>, ErrorModel> {
        if self.store.contains_key(key) {
            json_reply(self.store[key].json())
        } else {
            Err(ErrorModel::KeyNotFound(key))
        }
    }

    /// The engine with `key` due at `timestamp`, in the place of any
    /// earlier expiration of the key; the same engine where a read of the
    /// key would find nothing.
    pub open spec fn expiring(self, key: Seq<char>, timestamp: i64) -> EngineModel {
        if present(self.tree, self.store, key) {
            EngineModel { deadlines: self.deadlines.insert(key, timestamp), ..self }
        } else {
            self
        }
    }

    pub open spec fn expire_reply(self, key: Seq<char>) -> Result<Seq<char>, ErrorModel> {
        if present(self.tree, self.store, key) {
            Ok("OK"@)
        } else {
            Err(ErrorModel::KeyNotFound(key))
        }
    }

    /// The engine without data and without expirations. The log is not
    /// touched here.
    pub open spec fn purged(self) -> EngineModel {
        EngineModel {
            tree: NodeModel::leaf("_"@),
            store: Map::empty(),
            deadlines: Map::empty(),
            ..self
        }
    }

    /// The engine after the keys of `order` have expired, one after the
    /// other: each has lost its expiration, its value and its place in the
    /// tree.
    pub open spec fn expired(self, order: Seq<Seq<char>>) -> EngineModel
        decreases order.len(),
    {
        if order.len() == 0 {
            self
        } else {
            self.expired(order.drop_last()).deleted(order.last())
        }
    }

    /// Whether `order` lists the keys whose expiration is due at `now`,
    /// each once.
    pub open spec fn sweep_order(self, order: Seq<Seq<char>>, now: i64) -> bool {
        &&& forall|i: int, j: int| 0 <= i < j < order.len() ==> order[i] != order[j]
        &&& forall|k: Seq<char>| due(self.deadlines, now).contains(k) <==> order.contains(k)
    }

    /// Whether `after` is this engine after a sweep at `now`: the keys
    /// whose expiration was due have expired, in some order.
    pub open spec fn swept_to(self, after: EngineModel, now: i64) -> bool {
        exists|order: Seq<Seq<char>>|
            #[trigger] self.sweep_order(order, now) && after == self.expired(order)
    }

    /// What is wrong with `op` at the time `now_secs`, if anything. A read
    /// has to find what it asks for, a `PUT` may not use `*` or `_` as a
    /// token, a `DELETE` needs a key that has a value, and the time of an
    /// expiration has to be greater than `now_secs`.
    ///
    /// Beware: `now_secs` counts seconds, the time of an expiration counts
    /// milliseconds, and the two numbers are compared as they stand. Any
    /// time in milliseconds of the last decades is therefore accepted,
    /// past or future, and a time given in seconds by mistake is accepted
    /// only if it lies ahead.
    pub open spec fn validation(self, op: OperationModel, now_secs: i64) -> Option<ErrorModel> {
        match op {
            OperationModel::Get(key) => if present(self.tree, self.store, key) {
                None
            } else {
                Some(ErrorModel::KeyNotFound(key))
            },
            OperationModel::Put(key, _) => if has_sentinel_token(key) {
                Some(ErrorModel::InvalidKey(key))
            } else {
                None
            },
            OperationModel::Delete(key) => if self.store.contains_key(key) {
                None
            } else {
                Some(ErrorModel::KeyNotFound(key))
            },
            OperationModel::ExpireAt(_, timestamp) => if timestamp <= now_secs {
                Some(ErrorModel::InvalidExpiration(timestamp))
            } else {
                None
            },
            OperationModel::Purge => None,
            OperationModel::Time => None,
        }
    }

    /// The engine after `op` has been applied to its data.
    pub open spec fn applied(self, op: OperationModel) -> EngineModel {
        match op {
            OperationModel::Get(_) => self,
            OperationModel::Put(key, value) => self.stored(key, value),
            OperationModel::Delete(key) => self.deleted(key),
            OperationModel::ExpireAt(key, timestamp) => self.expiring(key, timestamp),
            OperationModel::Purge => self.purged(),
            OperationModel::Time => self,
        }
    }

    /// The reply to `op` at the time `now`, in milliseconds.
    pub open spec fn reply(self, op: OperationModel, now: i64) -> Result<Seq<char>, ErrorModel> {
        match op {
            OperationModel::Get(key) => self.read(key),
            OperationModel::Put(key, value) => self.store_reply(key, value),
            OperationModel::Delete(key) => self.delete_reply(key),
            OperationModel::ExpireAt(key, _) => self.expire_reply(key),
            OperationModel::Purge => Ok("OK"@),
            OperationModel::Time => Ok(int_text(now as int)),
        }
    }

    /// The engine after a valid `op` has been recorded and applied.
    pub open spec fn committed(self, op: OperationModel) -> EngineModel {
        EngineModel { journal: journal_after(self.journal, op), ..self }.applied(op)
    }

    /// The engine after `op` has gone through validation and, where it is
    /// valid, has been recorded and applied.
    pub open spec fn processed(self, op: OperationModel, now: i64) -> EngineModel {
        if self.validation(op, seconds(now)) is Some {
            self
        } else {
            self.committed(op)
        }
    }

    /// The reply to `op`: what is wrong with it, or the reply to applying
    /// it.
    pub open spec fn outcome(self, op: OperationModel, now: i64) -> Result<Seq<char>, ErrorModel> {
        match self.validation(op, seconds(now)) {
            Some(e) => Err(e),
            None => self.reply(op, now),
        }
    }

    /// What makes a record unfit for recovery, if anything: it cannot be
    /// read, or what it asks for cannot be done.
    pub open spec fn replay_fault(self, line: Seq<char>, now: i64) -> Option<ErrorModel> {
        match parse_line(line, now) {
            Err(e) => Some(e),
            Ok(OperationModel::Put(key, _)) => if has_reserved_token(key) {
                Some(ErrorModel::InvalidKey(key))
            } else {
                None
            },
            Ok(OperationModel::Delete(key)) => if self.store.contains_key(key) {
                None
            } else {
                Some(ErrorModel::KeyNotFound(key))
            },
            Ok(OperationModel::ExpireAt(key, _)) => if present(self.tree, self.store, key) {
                None
            } else {
                Some(ErrorModel::KeyNotFound(key))
            },
            Ok(_) => None,
        }
    }

    /// The engine after the record `line` has been applied again. A record
    /// that does not change the data is passed over.
    pub open spec fn replayed(self, line: Seq<char>, now: i64) -> EngineModel {
        match parse_line(line, now) {
            Err(_) => self,
            Ok(OperationModel::Purge) => self,
            Ok(op) => self.applied(op),
        }
    }

    /// Recovery from `lines`, first to last: the engine after every record
    /// up to the first unfit one, and what was wrong with that one.
    pub open spec fn restored(self, lines: Seq<Seq<char>>, now: i64) -> (EngineModel, Option<ErrorModel>)
        decreases lines.len(),
    {
        if lines.len() == 0 {
            (self, None)
        } else {
            let (before, fault) = self.restored(lines.drop_last(), now);
            if fault is Some {
                (before, fault)
            } else if before.replay_fault(lines.last(), now) is Some {
                (before, before.replay_fault(lines.last(), now))
            } else {
                (before.replayed(lines.last(), now), None)
            }
        }
    }
}

} // verus!
