//! A node of the key tree, and the mathematics of such trees: walking
//! them, growing a path, pruning one, and what each keeps true.

use crate::text::{all_free_of, free_of, join, same_text};
use vstd::prelude::*;

verus! {

/// One node of the tree. `children` pairs each next token with the node it
/// leads to; `key` is the node's own full dotted key.
pub struct RadixNode {
    pub children: Vec<(String, RadixNode)>,
    pub key: String,
}

/// A tree of nodes as a value: a key, and the children in order, each
/// under its token.
pub struct NodeModel {
    pub key: Seq<char>,
    pub children: Seq<(Seq<char>, NodeModel)>,
}

/// The children of a node as values.
pub open spec fn children_model(children: Vec<(String, RadixNode)>) -> Seq<(Seq<char>, NodeModel)>
    decreases children,
{
    Seq::new(
        children.len() as nat,
        |i: int|
            if 0 <= i < children.len() {
                (children[i].0@, node_model(children[i].1))
            } else {
                (Seq::empty(), NodeModel { key: Seq::empty(), children: Seq::empty() })
            },
    )
}

/// The tree below and including `node` as a value.
pub open spec fn node_model(node: RadixNode) -> NodeModel
    decreases node,
{
    NodeModel { key: node.key@, children: children_model(node.children) }
}

impl View for RadixNode {
    type V = NodeModel;

    open spec fn view(&self) -> NodeModel {
        node_model(*self)
    }
}

/// Whether `p` is what `q` begins with.
pub open spec fn is_prefix(p: Seq<Seq<char>>, q: Seq<Seq<char>>) -> bool {
    p.len() <= q.len() && q.take(p.len() as int) == p
}

impl NodeModel {
    /// A node with the given key and no children.
    pub open spec fn leaf(key: Seq<char>) -> NodeModel {
        NodeModel { key, children: Seq::empty() }
    }

    /// Whether `at` is the first position whose child stands under `token`.
    pub open spec fn is_first(self, token: Seq<char>, at: int) -> bool {
        &&& 0 <= at < self.children.len()
        &&& self.children[at].0 == token
        &&& forall|j: int| 0 <= j < at ==> (#[trigger] self.children[j]).0 != token
    }

    /// Whether a child stands under `token`.
    pub open spec fn has_child(self, token: Seq<char>) -> bool {
        exists|i: int| 0 <= i < self.children.len() && (#[trigger] self.children[i]).0 == token
    }

    /// The first position whose child stands under `token`.
    pub open spec fn child_at(self, token: Seq<char>) -> int {
        choose|i: int| self.is_first(token, i)
    }

    /// The node that walking `tokens` one by one from this node ends at.
    pub open spec fn descend(self, tokens: Seq<Seq<char>>) -> Option<NodeModel>
        decreases tokens.len(),
    {
        if tokens.len() == 0 {
            Some(self)
        } else if self.has_child(tokens[0]) {
            self.children[self.child_at(tokens[0])].1.descend(tokens.skip(1))
        } else {
            None
        }
    }

    /// Where a walk along `tokens` stops for want of a child: the tokens
    /// not yet walked.
    pub open spec fn unwalked(self, tokens: Seq<Seq<char>>) -> Seq<Seq<char>>
        decreases tokens.len(),
    {
        if tokens.len() == 0 || !self.has_child(tokens[0]) {
            tokens
        } else {
            self.children[self.child_at(tokens[0])].1.unwalked(tokens.skip(1))
        }
    }

    /// Below a node that stands at `path`: no two children of one node
    /// share a token, no token holds a dot, and each node's key is the
    /// tokens on the way to it joined by dots.
    pub open spec fn wf(self, path: Seq<Seq<char>>) -> bool
        decreases self,
    {
        &&& forall|i: int, j: int|
            0 <= i < j < self.children.len() ==> (#[trigger] self.children[i]).0 != (
            #[trigger] self.children[j]).0
        &&& forall|i: int|
            0 <= i < self.children.len() ==> {
                &&& free_of((#[trigger] self.children[i]).0, '.')
                &&& self.children[i].1.key == join(path.push(self.children[i].0), '.')
                &&& self.children[i].1.wf(path.push(self.children[i].0))
            }
    }

    /// Every leaf at or below this node has its key in `keys`.
    pub open spec fn anchored(self, keys: Set<Seq<char>>) -> bool
        decreases self,
    {
        if self.children.len() == 0 {
            keys.contains(self.key)
        } else {
            forall|i: int|
                0 <= i < self.children.len() ==> (#[trigger] self.children[i]).1.anchored(keys)
        }
    }

    /// Every child of this node is anchored in `keys`.
    pub open spec fn children_anchored(self, keys: Set<Seq<char>>) -> bool {
        forall|i: int|
            0 <= i < self.children.len() ==> (#[trigger] self.children[i]).1.anchored(keys)
    }

    /// A node without children whose key is not in `keys` holds nothing and
    /// leads nowhere.
    pub open spec fn removable(self, keys: Set<Seq<char>>) -> bool {
        self.children.len() == 0 && !keys.contains(self.key)
    }

    /// This tree with the path `tokens` below it: nodes that the path
    /// needs and the tree lacks are added, each as the last child of its
    /// parent, with the key that its place gives it. `path` is the place
    /// of this node itself.
    pub open spec fn grown(self, path: Seq<Seq<char>>, tokens: Seq<Seq<char>>) -> NodeModel
        decreases tokens.len(),
    {
        if tokens.len() == 0 {
            self
        } else {
            let t = tokens[0];
            if self.has_child(t) {
                let i = self.child_at(t);
                NodeModel {
                    key: self.key,
                    children: self.children.update(
                        i,
                        (t, self.children[i].1.grown(path.push(t), tokens.skip(1))),
                    ),
                }
            } else {
                let fresh = NodeModel::leaf(join(path.push(t), '.'));
                NodeModel {
                    key: self.key,
                    children: self.children.push(
                        (t, fresh.grown(path.push(t), tokens.skip(1))),
                    ),
                }
            }
        }
    }

    /// This tree after the path `tokens` has been pruned from its end
    /// upward: a node on the path leaves its parent where, once the nodes
    /// below it on the path have been seen to, it is removable.
    pub open spec fn pruned(self, keys: Set<Seq<char>>, tokens: Seq<Seq<char>>) -> NodeModel
        decreases tokens.len(),
    {
        if tokens.len() == 0 || !self.has_child(tokens[0]) {
            self
        } else {
            let i = self.child_at(tokens[0]);
            let c = self.children[i].1.pruned(keys, tokens.skip(1));
            if c.removable(keys) {
                NodeModel { key: self.key, children: self.children.remove(i) }
            } else {
                NodeModel {
                    key: self.key,
                    children: self.children.update(i, (self.children[i].0, c)),
                }
            }
        }
    }

    proof fn lemma_first_below(self, token: Seq<char>, k: int)
        requires
            0 <= k < self.children.len(),
            self.children[k].0 == token,
        ensures
            exists|i: int| self.is_first(token, i),
        decreases k,
    {
        if forall|j: int| 0 <= j < k ==> (#[trigger] self.children[j]).0 != token {
            assert(self.is_first(token, k));
        } else {
            let j = choose|j: int| 0 <= j < k && (#[trigger] self.children[j]).0 == token;
            self.lemma_first_below(token, j);
        }
    }

    /// Where a child stands under a token, the first one does.
    pub proof fn lemma_has_first(self, token: Seq<char>)
        requires
            self.has_child(token),
        ensures
            self.is_first(token, self.child_at(token)),
    {
        let k = choose|i: int| 0 <= i < self.children.len() && (#[trigger] self.children[i]).0
            == token;
        self.lemma_first_below(token, k);
    }

    /// The first position of a token is unique.
    pub proof fn lemma_first_unique(self, token: Seq<char>, i: int)
        requires
            self.is_first(token, i),
        ensures
            self.has_child(token),
            self.child_at(token) == i,
    {
        let j = self.child_at(token);
        assert(self.is_first(token, j));
        if j < i {
            assert(self.children[j].0 != token);
        } else if i < j {
            assert(self.children[i].0 != token);
        }
    }

    /// In a well-formed tree, each child is the first and only one under
    /// its token.
    pub proof fn lemma_child_at(self, path: Seq<Seq<char>>, i: int)
        requires
            self.wf(path),
            0 <= i < self.children.len(),
        ensures
            self.has_child(self.children[i].0),
            self.child_at(self.children[i].0) == i,
    {
        let token = self.children[i].0;
        assert forall|j: int| 0 <= j < i implies (#[trigger] self.children[j]).0 != token by {
            assert(self.children[j].0 != self.children[i].0);
        }
        self.lemma_first_unique(token, i);
    }

    /// The key of a node reached by a walk is the whole way to it joined by
    /// dots, and the tree below it is as well formed as the tree it was
    /// reached in.
    pub proof fn lemma_descend(self, path: Seq<Seq<char>>, tokens: Seq<Seq<char>>)
        requires
            self.wf(path),
            self.descend(tokens) is Some,
        ensures
            self.descend(tokens)->0.wf(path + tokens),
            tokens.len() > 0 ==> self.descend(tokens)->0.key == join(path + tokens, '.'),
            tokens.len() > 0 ==> all_free_of(tokens, '.'),
        decreases tokens.len(),
    {
        if tokens.len() == 0 {
            assert(path + tokens == path);
        } else {
            self.lemma_has_first(tokens[0]);
            let i = self.child_at(tokens[0]);
            let child = self.children[i].1;
            assert(self.children[i].0 == tokens[0]);
            assert(path.push(tokens[0]) + tokens.skip(1) == path + tokens);
            child.lemma_descend(path.push(tokens[0]), tokens.skip(1));
            if tokens.len() == 1 {
                assert(tokens.skip(1).len() == 0);
                assert(path.push(tokens[0]) == path + tokens);
            }
            assert forall|k: int| 0 <= k < tokens.len() implies free_of(
                #[trigger] tokens[k],
                '.',
            ) by {
                if k > 0 {
                    assert(tokens[k] == tokens.skip(1)[k - 1]);
                }
            }
        }
    }

    /// A node anchored in a set of keys is anchored in any larger set.
    pub proof fn lemma_anchored_grows(self, keys: Set<Seq<char>>, more: Set<Seq<char>>)
        requires
            self.anchored(keys),
            keys.subset_of(more),
        ensures
            self.anchored(more),
        decreases self,
    {
        if self.children.len() > 0 {
            assert forall|i: int| 0 <= i < self.children.len() implies (
            #[trigger] self.children[i]).1.anchored(more) by {
                self.children[i].1.lemma_anchored_grows(keys, more);
            }
        }
    }

    /// A leaf reached by a walk of one step or more in a tree whose
    /// children are anchored has its key among the keys.
    pub proof fn lemma_leaf_anchored(self, keys: Set<Seq<char>>, tokens: Seq<Seq<char>>)
        requires
            self.children_anchored(keys),
            tokens.len() > 0,
            self.descend(tokens) is Some,
            self.descend(tokens)->0.children.len() == 0,
        ensures
            keys.contains(self.descend(tokens)->0.key),
        decreases tokens.len(),
    {
        self.lemma_has_first(tokens[0]);
        let i = self.child_at(tokens[0]);
        let child = self.children[i].1;
        assert(child.anchored(keys));
        if tokens.len() > 1 {
            if child.children.len() == 0 {
                assert(!child.has_child(tokens.skip(1)[0]));
            }
            child.lemma_leaf_anchored(keys, tokens.skip(1));
        }
    }
}

impl RadixNode {
    pub fn new(key: String) -> (node: Self)
        ensures
            node@ == NodeModel::leaf(key@),
    {
        let node = RadixNode { children: Vec::new(), key };
        assert(children_model(node.children) =~= Seq::empty());
        node
    }

    /// The first position whose child stands under `token`, if there is
    /// one.
    pub fn find(&self, token: &str) -> (at: Option<usize>)
        ensures
            match at {
                Some(i) => self@.is_first(token@, i as int),
                None => !self@.has_child(token@),
            },
    {
        let ghost model = self@;
        let mut i: usize = 0;
        while i < self.children.len()
            invariant
                i <= self.children.len(),
                model == self@,
                forall|j: int| 0 <= j < i ==> (#[trigger] model.children[j]).0 != token@,
            decreases self.children.len() - i,
        {
            if same_text(self.children[i].0.as_str(), token) {
                return Some(i);
            }
            i += 1;
        }
        None
    }
}

} // verus!
