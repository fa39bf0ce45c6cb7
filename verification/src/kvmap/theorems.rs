//! What holds of the engine whatever it has gone through.

use super::model::{due, seconds, EngineModel};
use crate::errors::ErrorModel;
use crate::operation::value::ValueModel;
use crate::operation::{parse_line, OperationModel};
use crate::radixtree::accesstype::access_type;
use crate::radixtree::radixnode::NodeModel;
use crate::radixtree::{
    consistent, grow_keeps_consistent, has_reserved_token, json_reply, present,
    presence_is_told_by_keys, prune_keeps_consistent, read,
};
use crate::text::{lemma_join_split, lemma_split_nonempty, split};
use crate::wal::roundtrip::{record_reads_back, was_read};
use crate::wal::record;
use vstd::prelude::*;

verus! {

/// Every key of the flat map can be walked to from the root, token by
/// token, and the node reached carries the key.
pub proof fn keys_are_reachable(root: NodeModel, keys: Set<Seq<char>>, key: Seq<char>)
    requires
        consistent(root, keys),
        keys.contains(key),
    ensures
        root.descend(split(key, '.')) is Some,
        root.descend(split(key, '.'))->0.key == key,
{
    let tokens = split(key, '.');
    lemma_split_nonempty(key, '.');
    lemma_join_split(key, '.');
    assert(Seq::<Seq<char>>::empty() + tokens == tokens);
    root.lemma_descend(Seq::empty(), tokens);
}

/// Every leaf of the tree is a key of the flat map.
pub proof fn leaves_are_keys(root: NodeModel, keys: Set<Seq<char>>, tokens: Seq<Seq<char>>)
    requires
        consistent(root, keys),
        tokens.len() > 0,
        root.descend(tokens) is Some,
        root.descend(tokens)->0.children.len() == 0,
    ensures
        keys.contains(root.descend(tokens)->0.key),
{
    root.lemma_leaf_anchored(keys, tokens);
}

/// Putting a value under a key keeps the tree and the flat map in
/// agreement.
pub proof fn stored_is_consistent(s: EngineModel, key: Seq<char>, value: ValueModel)
    requires
        s.consistent(),
    ensures
        s.stored(key, value).consistent(),
{
    if !has_reserved_token(key) {
        grow_keeps_consistent(s.tree, s.store.dom(), key);
        assert(s.store.insert(key, value).dom() =~= s.store.dom().insert(key));
    }
}

/// Taking a key out keeps the tree and the flat map in agreement.
pub proof fn deleted_is_consistent(s: EngineModel, key: Seq<char>)
    requires
        s.consistent(),
    ensures
        s.deleted(key).consistent(),
{
    if s.store.contains_key(key) {
        prune_keeps_consistent(s.tree, s.store.dom(), key);
        assert(s.store.remove(key).dom() =~= s.store.dom().remove(key));
    }
}

/// What the expiry of a list of keys leaves: the values and the
/// expirations of the other keys, the log, and a tree that agrees with
/// the flat map if it did before.
pub proof fn expired_data(s: EngineModel, order: Seq<Seq<char>>)
    ensures
        s.expired(order).store == s.store.remove_keys(Set::new(|k: Seq<char>| order.contains(k))),
        s.expired(order).deadlines == s.deadlines.remove_keys(
            Set::new(|k: Seq<char>| order.contains(k)),
        ),
        s.expired(order).journal == s.journal,
        s.consistent() ==> s.expired(order).consistent(),
        order.len() == 0 ==> s.expired(order) == s,
    decreases order.len(),
{
    let gone = Set::new(|k: Seq<char>| order.contains(k));
    if order.len() == 0 {
        assert(s.store.remove_keys(gone) =~= s.store);
        assert(s.deadlines.remove_keys(gone) =~= s.deadlines);
    } else {
        let init = order.drop_last();
        let last = order.last();
        let before = s.expired(init);
        let gone_before = Set::new(|k: Seq<char>| init.contains(k));
        expired_data(s, init);
        if s.consistent() {
            deleted_is_consistent(before, last);
        }
        assert forall|k: Seq<char>| gone.contains(k) <==> (gone_before.contains(k) || k
            == last) by {
            if gone_before.contains(k) {
                let i = choose|i: int| 0 <= i < init.len() && init[i] == k;
                assert(order[i] == k);
            }
            if k == last {
                assert(order[order.len() - 1] == k);
            }
            if gone.contains(k) {
                let i = choose|i: int| 0 <= i < order.len() && order[i] == k;
                if i < init.len() {
                    assert(init[i] == k);
                }
            }
        }
        assert(before.deleted(last).store =~= s.store.remove_keys(gone));
        assert(before.deleted(last).deadlines =~= s.deadlines.remove_keys(gone));
    }
}

/// What a sweep leaves: every key whose expiration was due is gone with
/// its expiration, everything else is as it was, and the tree agrees with
/// the flat map if it did before. A sweep at a time at which nothing is
/// due changes nothing.
pub proof fn swept_data(before: EngineModel, after: EngineModel, now: i64)
    requires
        before.swept_to(after, now),
    ensures
        after.store == before.store.remove_keys(due(before.deadlines, now)),
        after.deadlines == before.deadlines.remove_keys(due(before.deadlines, now)),
        after.journal == before.journal,
        before.consistent() ==> after.consistent(),
        (forall|k: Seq<char>| !due(before.deadlines, now).contains(k)) ==> after == before,
{
    let order = choose|order: Seq<Seq<char>>|
        #[trigger] before.sweep_order(order, now) && after == before.expired(order);
    expired_data(before, order);
    assert(Set::new(|k: Seq<char>| order.contains(k)) =~= due(before.deadlines, now));
    if forall|k: Seq<char>| !due(before.deadlines, now).contains(k) {
        if order.len() > 0 {
            assert(order.contains(order[0]));
        }
    }
}

/// After a sweep, no key whose expiration was due is left, and no
/// expiration that is due is left.
pub proof fn sweep_removes_due_keys(before: EngineModel, after: EngineModel, now: i64, key: Seq<char>)
    requires
        before.swept_to(after, now),
    ensures
        before.deadlines.contains_key(key) && before.deadlines[key] <= now ==> !after.store.contains_key(
            key,
        ),
        after.deadlines.contains_key(key) ==> after.deadlines[key] > now,
        !due(before.deadlines, now).contains(key) ==> after.store.contains_key(key)
            == before.store.contains_key(key),
{
    swept_data(before, after, now);
}

/// A key without a token that begins with `*` asks for its own value.
pub proof fn plain_key_is_direct(key: Seq<char>)
    requires
        !has_reserved_token(key),
    ensures
        access_type(key) is Direct,
{
    lemma_split_nonempty(key, '.');
    let parts = split(key, '.');
    let last = parts.last();
    if last.len() > 0 && last[0] == '*' {
        assert(parts[parts.len() - 1].len() > 0 && parts[parts.len() - 1][0] == '*');
    }
    if last == seq!['*'] {
        assert(last[0] == '*');
    }
}

/// Of two values put under one key, a read gives the later one.
pub proof fn later_put_wins(s: EngineModel, key: Seq<char>, first: ValueModel, second: ValueModel)
    requires
        !has_reserved_token(key),
    ensures
        s.committed(OperationModel::Put(key, first)).committed(
            OperationModel::Put(key, second),
        ).read(key) == json_reply(second.json()),
{
    plain_key_is_direct(key);
}

/// Of two expirations set for one key, only the later one is pending: the
/// key does not fall due before the time of the later one.
pub proof fn later_expiration_wins(s: EngineModel, key: Seq<char>, first: i64, second: i64)
    requires
        present(s.tree, s.store, key),
    ensures
        s.committed(OperationModel::ExpireAt(key, first)).committed(
            OperationModel::ExpireAt(key, second),
        ).deadlines == s.deadlines.insert(key, second),
        forall|now: i64|
            now < second ==> !(#[trigger] due(
                s.committed(OperationModel::ExpireAt(key, first)).committed(
                    OperationModel::ExpireAt(key, second),
                ).deadlines,
                now,
            )).contains(key),
{
    let once = s.committed(OperationModel::ExpireAt(key, first));
    let twice = once.committed(OperationModel::ExpireAt(key, second));
    assert(twice.deadlines =~= s.deadlines.insert(key, second));
}

/// A purge leaves no value, no expiration and no record, and a second
/// purge changes nothing.
pub proof fn purge_is_idempotent(s: EngineModel)
    ensures
        s.committed(OperationModel::Purge) == EngineModel::fresh(Seq::empty()),
        s.committed(OperationModel::Purge).committed(OperationModel::Purge) == s.committed(
            OperationModel::Purge,
        ),
        s.committed(OperationModel::Purge).validation(OperationModel::Purge, 0) is None,
{
}


/// Whether two engines hold the same values, the same expirations and the
/// same log. Their trees may differ in the order of children.
pub open spec fn same_data(a: EngineModel, b: EngineModel) -> bool {
    &&& a.store == b.store
    &&& a.deadlines == b.deadlines
    &&& a.journal == b.journal
}

/// Whether a new engine that recovers from the log of `s` ends up with
/// the data of `s`.
pub open spec fn recoverable(s: EngineModel, now: i64) -> bool {
    &&& EngineModel::fresh(s.journal).restored(s.journal, now).1 is None
    &&& same_data(EngineModel::fresh(s.journal).restored(s.journal, now).0, s)
}

/// `s` on another log.
pub open spec fn on_journal(s: EngineModel, journal: Seq<Seq<char>>) -> EngineModel {
    EngineModel { journal, ..s }
}

/// Recovery does not look at the log that the engine itself holds.
pub proof fn lemma_restored_on_journal(
    s: EngineModel,
    journal: Seq<Seq<char>>,
    lines: Seq<Seq<char>>,
    now: i64,
)
    ensures
        on_journal(s, journal).restored(lines, now) == (
            on_journal(s.restored(lines, now).0, journal),
            s.restored(lines, now).1,
        ),
    decreases lines.len(),
{
    if lines.len() > 0 {
        lemma_restored_on_journal(s, journal, lines.drop_last(), now);
        let before = s.restored(lines.drop_last(), now).0;
        let line = lines.last();
        assert(on_journal(before, journal).replay_fault(line, now) == before.replay_fault(
            line,
            now,
        ));
        assert(on_journal(before, journal).replayed(line, now) == on_journal(
            before.replayed(line, now),
            journal,
        ));
    }
}

/// Recovery keeps the tree and the flat map in agreement.
pub proof fn restored_is_consistent(s: EngineModel, lines: Seq<Seq<char>>, now: i64)
    requires
        s.consistent(),
    ensures
        s.restored(lines, now).0.consistent(),
    decreases lines.len(),
{
    if lines.len() > 0 {
        restored_is_consistent(s, lines.drop_last(), now);
        let before = s.restored(lines.drop_last(), now).0;
        match parse_line(lines.last(), now) {
            Ok(OperationModel::Put(key, value)) => {
                stored_is_consistent(before, key, value);
            },
            Ok(OperationModel::Delete(key)) => {
                deleted_is_consistent(before, key);
            },
            _ => {},
        }
    }
}

/// Two engines with the same data give the same reply to a read of a
/// single key.
pub proof fn same_data_reads_alike(a: EngineModel, b: EngineModel, key: Seq<char>)
    requires
        same_data(a, b),
        access_type(key) is Direct,
    ensures
        a.read(key) == b.read(key),
{
}

/// Two engines with the same data, each with a tree that agrees with its
/// flat map, find the same keys and the same prefixes.
pub proof fn same_data_finds_alike(a: EngineModel, b: EngineModel, key: Seq<char>)
    requires
        same_data(a, b),
        a.consistent(),
        b.consistent(),
    ensures
        present(a.tree, a.store, key) == present(b.tree, b.store, key),
{
    presence_is_told_by_keys(a.tree, a.store, key);
    presence_is_told_by_keys(b.tree, b.store, key);
}

/// Recovery leaves the log as it is.
pub proof fn restored_keeps_journal(s: EngineModel, lines: Seq<Seq<char>>, now: i64)
    ensures
        s.restored(lines, now).0.journal == s.journal,
    decreases lines.len(),
{
    if lines.len() > 0 {
        restored_keeps_journal(s, lines.drop_last(), now);
    }
}

/// An engine that has just recovered from a log without meeting an unfit
/// record is recoverable from that log; so is a new engine on an empty
/// log.
pub proof fn recovered_engine_is_recoverable(journal: Seq<Seq<char>>, now: i64)
    requires
        EngineModel::fresh(journal).restored(journal, now).1 is None,
    ensures
        recoverable(EngineModel::fresh(journal).restored(journal, now).0, now),
        EngineModel::fresh(journal).restored(journal, now).0.consistent(),
        recoverable(EngineModel::fresh(Seq::empty()), now),
{
    restored_keeps_journal(EngineModel::fresh(journal), journal, now);
    restored_is_consistent(EngineModel::fresh(journal), journal, now);
}

/// Once an operation that was read from a command has been validated,
/// recorded and applied with success, a new engine that recovers from the
/// log has the same data, if that was so before the operation.
pub proof fn committed_operation_is_recovered(
    s: EngineModel,
    op: OperationModel,
    line: Seq<char>,
    now: i64,
    later: i64,
)
    requires
        s.consistent(),
        recoverable(s, later),
        was_read(op, line, now),
        s.validation(op, seconds(now)) is None,
        s.reply(op, now) is Ok,
    ensures
        recoverable(s.committed(op), later),
{
    let after = s.committed(op);
    if op is Purge {
        assert(after == EngineModel::fresh(Seq::empty()));
        assert(after.journal.len() == 0);
    } else if record(op) is None {
        assert(after == s);
    } else {
        let line_back = record(op)->0;
        let old_journal = s.journal;
        let new_journal = old_journal.push(line_back);
        assert(after.journal == new_journal);
        let recovered = EngineModel::fresh(old_journal).restored(old_journal, later).0;
        lemma_restored_on_journal(EngineModel::fresh(old_journal), new_journal, old_journal, later);
        assert(on_journal(EngineModel::fresh(old_journal), new_journal) == EngineModel::fresh(
            new_journal,
        ));
        let before = on_journal(recovered, new_journal);
        assert(new_journal.drop_last() == old_journal);
        assert(new_journal.last() == line_back);
        assert(EngineModel::fresh(new_journal).restored(old_journal, later) == (
            before,
            None::<ErrorModel>,
        ));
        record_reads_back(op, line, now, later);
        restored_is_consistent(EngineModel::fresh(old_journal), old_journal, later);
        if let OperationModel::ExpireAt(key, _) = op {
            presence_is_told_by_keys(s.tree, s.store, key);
            presence_is_told_by_keys(before.tree, before.store, key);
        }
        assert(before.replay_fault(line_back, later) is None);
        assert(before.replayed(line_back, later) == before.applied(op));
        assert(EngineModel::fresh(new_journal).restored(new_journal, later) == (
            before.applied(op),
            None::<ErrorModel>,
        ));
        assert(same_data(before.applied(op), after));
    }
}

/// Durability of one request: where recovery from the log gave the data
/// of the engine before the request, no expiration was due when the
/// request was processed, and the request succeeded, recovery from the
/// log gives the data of the engine after it.
pub proof fn processed_operation_is_recovered(
    s: EngineModel,
    mid: EngineModel,
    op: OperationModel,
    line: Seq<char>,
    now: i64,
    later: i64,
)
    requires
        s.consistent(),
        recoverable(s, later),
        s.swept_to(mid, now),
        forall|k: Seq<char>| !due(s.deadlines, now).contains(k),
        was_read(op, line, now),
        mid.outcome(op, now) is Ok,
    ensures
        recoverable(mid.processed(op, now), later),
{
    swept_data(s, mid, now);
    assert(mid == s);
    committed_operation_is_recovered(mid, op, line, now, later);
}

} // verus!
