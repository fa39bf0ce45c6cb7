//! What growing a path in a tree and pruning one keep true.

use super::radixnode::{is_prefix, NodeModel};
use crate::text::{all_free_of, free_of, join, lemma_join_injective};
use vstd::prelude::*;

verus! {

impl NodeModel {
    /// Growing a path keeps the tree well formed and its own key, and makes
    /// the path walkable.
    pub proof fn lemma_grown_wf(self, path: Seq<Seq<char>>, tokens: Seq<Seq<char>>)
        requires
            self.wf(path),
            all_free_of(tokens, '.'),
        ensures
            self.grown(path, tokens).wf(path),
            self.grown(path, tokens).key == self.key,
            self.grown(path, tokens).descend(tokens) is Some,
            tokens.len() > 0 ==> self.grown(path, tokens).children.len() > 0,
        decreases tokens.len(),
    {
        if tokens.len() > 0 {
            let t = tokens[0];
            let rest = tokens.skip(1);
            let g = self.grown(path, tokens);
            assert(free_of(t, '.'));
            assert(all_free_of(rest, '.')) by {
                assert forall|k: int| 0 <= k < rest.len() implies free_of(
                    #[trigger] rest[k],
                    '.',
                ) by {
                    assert(rest[k] == tokens[k + 1]);
                }
            }
            if self.has_child(t) {
                self.lemma_has_first(t);
                let i = self.child_at(t);
                let c = self.children[i].1;
                c.lemma_grown_wf(path.push(t), rest);
                let gc = c.grown(path.push(t), rest);
                assert(g.children == self.children.update(i, (t, gc)));
                assert forall|a: int, b: int| 0 <= a < b < g.children.len() implies (
                #[trigger] g.children[a]).0 != (#[trigger] g.children[b]).0 by {
                    assert(g.children[a].0 == self.children[a].0);
                    assert(g.children[b].0 == self.children[b].0);
                }
                assert forall|k: int| 0 <= k < g.children.len() implies {
                    &&& free_of((#[trigger] g.children[k]).0, '.')
                    &&& g.children[k].1.key == join(path.push(g.children[k].0), '.')
                    &&& g.children[k].1.wf(path.push(g.children[k].0))
                } by {
                    if k != i {
                        assert(g.children[k] == self.children[k]);
                    }
                }
                assert(g.is_first(t, i)) by {
                    assert forall|j: int| 0 <= j < i implies (#[trigger] g.children[j]).0
                        != t by {
                        assert(g.children[j] == self.children[j]);
                    }
                }
                g.lemma_first_unique(t, i);
            } else {
                let fresh = NodeModel::leaf(join(path.push(t), '.'));
                fresh.lemma_grown_wf(path.push(t), rest);
                let gf = fresh.grown(path.push(t), rest);
                let n = self.children.len() as int;
                assert(g.children == self.children.push((t, gf)));
                assert forall|a: int, b: int| 0 <= a < b < g.children.len() implies (
                #[trigger] g.children[a]).0 != (#[trigger] g.children[b]).0 by {
                    assert(g.children[a] == self.children[a]);
                    if b < n {
                        assert(g.children[b] == self.children[b]);
                    }
                }
                assert forall|k: int| 0 <= k < g.children.len() implies {
                    &&& free_of((#[trigger] g.children[k]).0, '.')
                    &&& g.children[k].1.key == join(path.push(g.children[k].0), '.')
                    &&& g.children[k].1.wf(path.push(g.children[k].0))
                } by {
                    if k < n {
                        assert(g.children[k] == self.children[k]);
                    }
                }
                assert(g.is_first(t, n)) by {
                    assert forall|j: int| 0 <= j < n implies (#[trigger] g.children[j]).0
                        != t by {
                        assert(g.children[j] == self.children[j]);
                    }
                }
                g.lemma_first_unique(t, n);
            }
        }
    }

    /// Growing a path takes no walk away: what could be reached before can
    /// be reached after.
    pub proof fn lemma_grown_keeps(
        self,
        path: Seq<Seq<char>>,
        tokens: Seq<Seq<char>>,
        walk: Seq<Seq<char>>,
    )
        requires
            self.wf(path),
            all_free_of(tokens, '.'),
            self.descend(walk) is Some,
        ensures
            self.grown(path, tokens).descend(walk) is Some,
        decreases walk.len(),
    {
        if tokens.len() > 0 && walk.len() > 0 {
            let t = tokens[0];
            let rest = tokens.skip(1);
            let g = self.grown(path, tokens);
            self.lemma_grown_wf(path, tokens);
            assert(all_free_of(rest, '.')) by {
                assert forall|k: int| 0 <= k < rest.len() implies free_of(
                    #[trigger] rest[k],
                    '.',
                ) by {
                    assert(rest[k] == tokens[k + 1]);
                }
            }
            self.lemma_has_first(walk[0]);
            let at = self.child_at(walk[0]);
            if self.has_child(t) {
                self.lemma_has_first(t);
                let i = self.child_at(t);
                let gc = self.children[i].1.grown(path.push(t), rest);
                assert(g.children == self.children.update(i, (t, gc)));
                assert(g.children[at].0 == walk[0]);
                g.lemma_child_at(path, at);
                if at == i {
                    self.children[i].1.lemma_grown_keeps(path.push(t), rest, walk.skip(1));
                } else {
                    assert(g.children[at] == self.children[at]);
                }
            } else {
                let fresh = NodeModel::leaf(join(path.push(t), '.'));
                let gf = fresh.grown(path.push(t), rest);
                assert(g.children == self.children.push((t, gf)));
                assert(g.children[at] == self.children[at]);
                g.lemma_child_at(path, at);
            }
        }
    }

    /// Growing the path to a key anchors every leaf in the keys with that
    /// key added.
    pub proof fn lemma_grown_anchored(
        self,
        path: Seq<Seq<char>>,
        tokens: Seq<Seq<char>>,
        keys: Set<Seq<char>>,
    )
        requires
            self.wf(path),
            all_free_of(tokens, '.'),
            self.children_anchored(keys),
            tokens.len() > 0 || self.key == join(path, '.'),
        ensures
            self.grown(path, tokens).children_anchored(keys.insert(join(path + tokens, '.'))),
            self.key == join(path, '.') ==> self.grown(path, tokens).anchored(
                keys.insert(join(path + tokens, '.')),
            ),
        decreases tokens.len(),
    {
        let more = keys.insert(join(path + tokens, '.'));
        let g = self.grown(path, tokens);
        if tokens.len() == 0 {
            assert(path + tokens == path);
            assert forall|k: int| 0 <= k < self.children.len() implies (
            #[trigger] self.children[k]).1.anchored(more) by {
                self.children[k].1.lemma_anchored_grows(keys, more);
            }
        } else {
            let t = tokens[0];
            let rest = tokens.skip(1);
            assert(path.push(t) + rest == path + tokens);
            assert(all_free_of(rest, '.')) by {
                assert forall|k: int| 0 <= k < rest.len() implies free_of(
                    #[trigger] rest[k],
                    '.',
                ) by {
                    assert(rest[k] == tokens[k + 1]);
                }
            }
            self.lemma_grown_wf(path, tokens);
            if self.has_child(t) {
                self.lemma_has_first(t);
                let i = self.child_at(t);
                let c = self.children[i].1;
                assert(c.anchored(keys));
                c.lemma_grown_anchored(path.push(t), rest, keys);
                assert forall|k: int| 0 <= k < g.children.len() implies (
                #[trigger] g.children[k]).1.anchored(more) by {
                    if k != i {
                        assert(g.children[k] == self.children[k]);
                        self.children[k].1.lemma_anchored_grows(keys, more);
                    }
                }
            } else {
                let fresh = NodeModel::leaf(join(path.push(t), '.'));
                fresh.lemma_grown_anchored(path.push(t), rest, keys);
                let n = self.children.len() as int;
                assert forall|k: int| 0 <= k < g.children.len() implies (
                #[trigger] g.children[k]).1.anchored(more) by {
                    if k < n {
                        assert(g.children[k] == self.children[k]);
                        self.children[k].1.lemma_anchored_grows(keys, more);
                    }
                }
            }
        }
    }

    /// Pruning a path keeps the tree well formed and its own key.
    pub proof fn lemma_pruned_wf(
        self,
        path: Seq<Seq<char>>,
        keys: Set<Seq<char>>,
        tokens: Seq<Seq<char>>,
    )
        requires
            self.wf(path),
        ensures
            self.pruned(keys, tokens).wf(path),
            self.pruned(keys, tokens).key == self.key,
        decreases tokens.len(),
    {
        if tokens.len() > 0 && self.has_child(tokens[0]) {
            let t = tokens[0];
            self.lemma_has_first(t);
            let i = self.child_at(t);
            let c = self.children[i].1;
            c.lemma_pruned_wf(path.push(t), keys, tokens.skip(1));
            let pc = c.pruned(keys, tokens.skip(1));
            let p = self.pruned(keys, tokens);
            if pc.removable(keys) {
                assert(p.children == self.children.remove(i));
                assert forall|a: int, b: int| 0 <= a < b < p.children.len() implies (
                #[trigger] p.children[a]).0 != (#[trigger] p.children[b]).0 by {
                    let a0 = if a < i { a } else { a + 1 };
                    let b0 = if b < i { b } else { b + 1 };
                    assert(p.children[a] == self.children[a0]);
                    assert(p.children[b] == self.children[b0]);
                }
                assert forall|k: int| 0 <= k < p.children.len() implies {
                    &&& free_of((#[trigger] p.children[k]).0, '.')
                    &&& p.children[k].1.key == join(path.push(p.children[k].0), '.')
                    &&& p.children[k].1.wf(path.push(p.children[k].0))
                } by {
                    let k0 = if k < i { k } else { k + 1 };
                    assert(p.children[k] == self.children[k0]);
                }
            } else {
                assert(p.children == self.children.update(i, (t, pc)));
                assert forall|a: int, b: int| 0 <= a < b < p.children.len() implies (
                #[trigger] p.children[a]).0 != (#[trigger] p.children[b]).0 by {
                    assert(p.children[a].0 == self.children[a].0);
                    assert(p.children[b].0 == self.children[b].0);
                }
                assert forall|k: int| 0 <= k < p.children.len() implies {
                    &&& free_of((#[trigger] p.children[k]).0, '.')
                    &&& p.children[k].1.key == join(path.push(p.children[k].0), '.')
                    &&& p.children[k].1.wf(path.push(p.children[k].0))
                } by {
                    if k != i {
                        assert(p.children[k] == self.children[k]);
                    }
                }
            }
        }
    }

    /// Pruning a path takes away no walk that ends at a node whose key is
    /// among the keys.
    pub proof fn lemma_pruned_keeps(
        self,
        path: Seq<Seq<char>>,
        keys: Set<Seq<char>>,
        tokens: Seq<Seq<char>>,
        walk: Seq<Seq<char>>,
    )
        requires
            self.wf(path),
            self.descend(walk) is Some,
            keys.contains(self.descend(walk)->0.key),
        ensures
            self.pruned(keys, tokens).descend(walk) is Some,
        decreases walk.len(),
    {
        if tokens.len() > 0 && self.has_child(tokens[0]) && walk.len() > 0 {
            let t = tokens[0];
            self.lemma_has_first(t);
            let i = self.child_at(t);
            let c = self.children[i].1;
            let pc = c.pruned(keys, tokens.skip(1));
            let p = self.pruned(keys, tokens);
            self.lemma_pruned_wf(path, keys, tokens);
            c.lemma_pruned_wf(path.push(t), keys, tokens.skip(1));
            self.lemma_has_first(walk[0]);
            let at = self.child_at(walk[0]);
            if at == i {
                c.lemma_pruned_keeps(path.push(t), keys, tokens.skip(1), walk.skip(1));
                if pc.removable(keys) {
                    if walk.skip(1).len() > 0 {
                        assert(!pc.has_child(walk.skip(1)[0]));
                    }
                    assert(false);
                } else {
                    assert(p.children[i].0 == walk[0]);
                    p.lemma_child_at(path, i);
                }
            } else {
                if pc.removable(keys) {
                    let shifted = if at < i { at } else { at - 1 };
                    assert(p.children[shifted] == self.children[at]);
                    p.lemma_child_at(path, shifted);
                } else {
                    assert(p.children[at] == self.children[at]);
                    p.lemma_child_at(path, at);
                }
            }
        }
    }

    /// A tree that stands off the way to a key does not need that key:
    /// anchored in some keys, it is anchored in those keys without it.
    pub proof fn lemma_anchored_off_path(
        self,
        path: Seq<Seq<char>>,
        keys: Set<Seq<char>>,
        target: Seq<Seq<char>>,
    )
        requires
            self.wf(path),
            self.key == join(path, '.'),
            self.anchored(keys),
            path.len() >= 1,
            target.len() >= 1,
            all_free_of(path, '.'),
            all_free_of(target, '.'),
            !is_prefix(path, target),
        ensures
            self.anchored(keys.remove(join(target, '.'))),
        decreases self,
    {
        let fewer = keys.remove(join(target, '.'));
        if self.children.len() == 0 {
            if join(path, '.') == join(target, '.') {
                lemma_join_injective(path, target, '.');
                assert(target.take(path.len() as int) == path);
            }
        } else {
            assert forall|k: int| 0 <= k < self.children.len() implies (
            #[trigger] self.children[k]).1.anchored(fewer) by {
                let t = self.children[k].0;
                let deeper = path.push(t);
                assert(all_free_of(deeper, '.')) by {
                    assert forall|j: int| 0 <= j < deeper.len() implies free_of(
                        #[trigger] deeper[j],
                        '.',
                    ) by {
                        if j < path.len() {
                            assert(deeper[j] == path[j]);
                        }
                    }
                }
                if is_prefix(deeper, target) {
                    assert(target.take(path.len() as int) == target.take(
                        deeper.len() as int,
                    ).take(path.len() as int));
                    assert(deeper.take(path.len() as int) == path);
                }
                self.children[k].1.lemma_anchored_off_path(deeper, keys, target);
            }
        }
    }

    /// Pruning the path to a key leaves every leaf anchored in the keys
    /// without that key.
    pub proof fn lemma_pruned_anchored(
        self,
        path: Seq<Seq<char>>,
        keys: Set<Seq<char>>,
        tokens: Seq<Seq<char>>,
    )
        requires
            self.wf(path),
            all_free_of(path, '.'),
            all_free_of(tokens, '.'),
            path.len() + tokens.len() >= 1,
            self.children_anchored(keys),
            self.descend(tokens) is Some,
        ensures
            self.pruned(keys.remove(join(path + tokens, '.')), tokens).children_anchored(
                keys.remove(join(path + tokens, '.')),
            ),
        decreases tokens.len(),
    {
        let target = path + tokens;
        let fewer = keys.remove(join(target, '.'));
        let p = self.pruned(fewer, tokens);
        assert(all_free_of(target, '.')) by {
            assert forall|j: int| 0 <= j < target.len() implies free_of(
                #[trigger] target[j],
                '.',
            ) by {
                if j < path.len() {
                    assert(target[j] == path[j]);
                } else {
                    assert(target[j] == tokens[j - path.len()]);
                }
            }
        }
        if tokens.len() == 0 {
            assert(target == path);
            assert forall|k: int| 0 <= k < self.children.len() implies (
            #[trigger] self.children[k]).1.anchored(fewer) by {
                self.lemma_child_off_path(path, keys, target, k);
            }
        } else {
            let t = tokens[0];
            let rest = tokens.skip(1);
            self.lemma_has_first(t);
            let i = self.child_at(t);
            let c = self.children[i].1;
            let pc = c.pruned(fewer, rest);
            assert(path.push(t) + rest == target);
            assert(all_free_of(rest, '.')) by {
                assert forall|k: int| 0 <= k < rest.len() implies free_of(
                    #[trigger] rest[k],
                    '.',
                ) by {
                    assert(rest[k] == tokens[k + 1]);
                }
            }
            assert(all_free_of(path.push(t), '.')) by {
                assert forall|j: int| 0 <= j < path.push(t).len() implies free_of(
                    #[trigger] path.push(t)[j],
                    '.',
                ) by {
                    if j < path.len() {
                        assert(path.push(t)[j] == path[j]);
                    }
                }
            }
            assert(c.anchored(keys));
            c.lemma_pruned_anchored(path.push(t), keys, rest);
            assert forall|k: int| 0 <= k < p.children.len() implies (
            #[trigger] p.children[k]).1.anchored(fewer) by {
                if pc.removable(fewer) {
                    let k0 = if k < i { k } else { k + 1 };
                    assert(p.children[k] == self.children[k0]);
                    assert(self.children[k0].0 != self.children[i].0);
                    assert(target[path.len() as int] == t);
                    self.lemma_child_off_path(path, keys, target, k0);
                } else if k == i {
                    assert(p.children[k].1 == pc);
                } else {
                    assert(p.children[k] == self.children[k]);
                    assert(self.children[k].0 != self.children[i].0);
                    assert(target[path.len() as int] == t);
                    self.lemma_child_off_path(path, keys, target, k);
                }
            }
        }
    }

    /// The child at position `k` does not need the key at `target` where
    /// the way to `target` does not go through it.
    proof fn lemma_child_off_path(
        self,
        path: Seq<Seq<char>>,
        keys: Set<Seq<char>>,
        target: Seq<Seq<char>>,
        k: int,
    )
        requires
            self.wf(path),
            self.children_anchored(keys),
            0 <= k < self.children.len(),
            target.len() >= 1,
            all_free_of(path, '.'),
            all_free_of(target, '.'),
            target.len() <= path.len() || target[path.len() as int] != self.children[k].0,
        ensures
            self.children[k].1.anchored(keys.remove(join(target, '.'))),
    {
        let t = self.children[k].0;
        let deeper = path.push(t);
        assert(all_free_of(deeper, '.')) by {
            assert forall|j: int| 0 <= j < deeper.len() implies free_of(
                #[trigger] deeper[j],
                '.',
            ) by {
                if j < path.len() {
                    assert(deeper[j] == path[j]);
                }
            }
        }
        if is_prefix(deeper, target) {
            assert(target.take(deeper.len() as int)[path.len() as int] == t);
        }
        self.children[k].1.lemma_anchored_off_path(deeper, keys, target);
    }
    /// A walk that ends somewhere can be stopped at any step.
    pub proof fn lemma_descend_prefix(self, tokens: Seq<Seq<char>>, n: int)
        requires
            self.descend(tokens) is Some,
            0 <= n <= tokens.len(),
        ensures
            self.descend(tokens.take(n)) is Some,
        decreases tokens.len(),
    {
        if n > 0 {
            let child = self.children[self.child_at(tokens[0])].1;
            child.lemma_descend_prefix(tokens.skip(1), n - 1);
            assert(tokens.take(n)[0] == tokens[0]);
            assert(tokens.take(n).skip(1) == tokens.skip(1).take(n - 1));
        }
    }

    /// A walk in two parts ends where the second part ends, begun where
    /// the first part ended.
    pub proof fn lemma_descend_concat(self, first: Seq<Seq<char>>, second: Seq<Seq<char>>)
        requires
            self.descend(first) is Some,
        ensures
            self.descend(first + second) == self.descend(first)->0.descend(second),
        decreases first.len(),
    {
        if first.len() == 0 {
            assert(first + second == second);
        } else {
            let child = self.children[self.child_at(first[0])].1;
            child.lemma_descend_concat(first.skip(1), second);
            assert((first + second)[0] == first[0]);
            assert((first + second).skip(1) == first.skip(1) + second);
        }
    }

    /// The way from this node down to a leaf through the first child of
    /// each node.
    pub open spec fn way_to_leaf(self) -> Seq<Seq<char>>
        decreases self,
    {
        if self.children.len() == 0 {
            Seq::empty()
        } else {
            seq![self.children[0].0] + self.children[0].1.way_to_leaf()
        }
    }

    /// Below every node of a well-formed tree there is a leaf.
    pub proof fn lemma_way_to_leaf(self, path: Seq<Seq<char>>)
        requires
            self.wf(path),
        ensures
            self.descend(self.way_to_leaf()) is Some,
            self.descend(self.way_to_leaf())->0.children.len() == 0,
            self.children.len() > 0 ==> self.way_to_leaf().len() > 0,
        decreases self,
    {
        if self.children.len() > 0 {
            let t = self.children[0].0;
            let child = self.children[0].1;
            self.lemma_child_at(path, 0);
            child.lemma_way_to_leaf(path.push(t));
            let way = self.way_to_leaf();
            assert(way[0] == t);
            assert(way.skip(1) == child.way_to_leaf());
        }
    }
}

} // verus!
