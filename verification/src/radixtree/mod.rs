//! The hierarchical key index: a flat map from key to value, and a tree of
//! the keys' tokens that finds what lies below a prefix.

pub mod accesstype;
pub mod radixerror;
pub mod radixnode;
pub mod recursive_map;
pub mod shape;

use self::accesstype::{access_type, AccessModel, AccessType};
use self::radixnode::{is_prefix, NodeModel, RadixNode};
use self::recursive_map::{json_text, with_member, RecursiveMap, RecursiveMapModel};
use crate::errors::{ErrorModel, TransactionError};
use crate::operation::value::{Value, ValueModel};
use crate::text::{
    all_free_of, join, join_strs, lemma_join_split, lemma_split_join, lemma_split_nonempty,
    lemma_split_pieces,
    split, split_str, texts, to_chars,
};
use vstd::hash_map::StringHashMap;
use vstd::prelude::*;
use vstd::string::StringExecFns;

verus! {

pub struct RadixTree {
    root: RadixNode,
    map: StringHashMap<Value>,
}

/// A flat map with its values as models.
pub open spec fn value_models(m: Map<Seq<char>, Value>) -> Map<Seq<char>, ValueModel> {
    Map::new(|k: Seq<char>| m.contains_key(k), |k: Seq<char>| m[k]@)
}

/// The index is seen as its flat map.
impl View for RadixTree {
    type V = Map<Seq<char>, ValueModel>;

    closed spec fn view(&self) -> Map<Seq<char>, ValueModel> {
        value_models(self.map@)
    }
}

/// Whether a token of `key` begins with `*`.
pub open spec fn has_reserved_token(key: Seq<char>) -> bool {
    exists|i: int|
        0 <= i < split(key, '.').len() && (#[trigger] split(key, '.')[i]).len() > 0 && split(
            key,
            '.',
        )[i][0] == '*'
}

/// The tree and the flat map agree: every key of the map can be walked to
/// from the root, token by token, and every leaf of the tree is a key of
/// the map. The root itself stands for no key.
pub open spec fn consistent(root: NodeModel, keys: Set<Seq<char>>) -> bool {
    &&& root.key == "_"@
    &&& root.wf(Seq::empty())
    &&& forall|k: Seq<char>| keys.contains(k) ==> (#[trigger] root.descend(split(k, '.'))) is Some
    &&& root.children_anchored(keys)
}

/// Growing the path to a new key keeps the tree and the keys in
/// agreement.
pub proof fn grow_keeps_consistent(root: NodeModel, keys: Set<Seq<char>>, key: Seq<char>)
    requires
        consistent(root, keys),
    ensures
        consistent(root.grown(Seq::empty(), split(key, '.')), keys.insert(key)),
{
    let empty = Seq::<Seq<char>>::empty();
    let tokens = split(key, '.');
    let more = keys.insert(key);
    lemma_split_nonempty(key, '.');
    lemma_split_pieces(key, '.');
    lemma_join_split(key, '.');
    assert(empty + tokens == tokens);
    root.lemma_grown_wf(empty, tokens);
    root.lemma_grown_anchored(empty, tokens, keys);
    let grown = root.grown(empty, tokens);
    assert forall|k: Seq<char>| more.contains(k) implies (#[trigger] grown.descend(
        split(k, '.'),
    )) is Some by {
        if k != key {
            root.lemma_grown_keeps(empty, tokens, split(k, '.'));
        }
    }
}

/// Pruning the path of a key that leaves keeps the tree and the keys in
/// agreement.
pub proof fn prune_keeps_consistent(root: NodeModel, keys: Set<Seq<char>>, key: Seq<char>)
    requires
        consistent(root, keys),
        keys.contains(key),
    ensures
        consistent(root.pruned(keys.remove(key), split(key, '.')), keys.remove(key)),
{
    let empty = Seq::<Seq<char>>::empty();
    let tokens = split(key, '.');
    let fewer = keys.remove(key);
    lemma_split_nonempty(key, '.');
    lemma_split_pieces(key, '.');
    lemma_join_split(key, '.');
    assert(empty + tokens == tokens);
    assert(all_free_of(empty, '.'));
    root.lemma_pruned_wf(empty, fewer, tokens);
    root.lemma_pruned_anchored(empty, keys, tokens);
    let after = root.pruned(fewer, tokens);
    assert forall|k: Seq<char>| fewer.contains(k) implies (#[trigger] after.descend(
        split(k, '.'),
    )) is Some by {
        let walk = split(k, '.');
        lemma_split_nonempty(k, '.');
        lemma_join_split(k, '.');
        assert(empty + walk == walk);
        root.lemma_descend(empty, walk);
        root.lemma_pruned_keeps(empty, fewer, tokens, walk);
    }
}

/// The value under `key`, `null` where there is none.
pub open spec fn value_or_null(values: Map<Seq<char>, ValueModel>, key: Seq<char>) -> ValueModel {
    if values.contains_key(key) {
        values[key]
    } else {
        ValueModel::Null
    }
}

/// How many levels are left below a child, where `depth` are left below
/// its parent. 0 stands for no limit.
pub open spec fn depth_below(depth: usize) -> usize {
    if depth == 0 {
        0
    } else {
        (depth - 1) as usize
    }
}

/// The members that the first `n` children of `node` give to the object
/// for `node`. With one level left, a child gives its own value, or
/// nothing where it has none; else it gives the object or value for its
/// whole subtree.
pub open spec fn child_members(
    node: NodeModel,
    values: Map<Seq<char>, ValueModel>,
    depth: usize,
    n: nat,
) -> Seq<(Seq<char>, RecursiveMapModel)>
    decreases node, n,
{
    if n == 0 || n > node.children.len() {
        Seq::empty()
    } else {
        let before = child_members(node, values, depth, (n - 1) as nat);
        let token = node.children[n - 1].0;
        let child = node.children[n - 1].1;
        if depth == 1 {
            if values.contains_key(child.key) {
                with_member(before, token, RecursiveMapModel::Value(values[child.key]))
            } else {
                before
            }
        } else {
            with_member(before, token, subtree(child, values, depth_below(depth)))
        }
    }
}

/// What a read of the subtree at `node` gives with `depth` levels left
/// (0: no limit). A node without children gives its value, or `null`. Any
/// other node gives an object with a member for each child and, where the
/// node has a value itself, that value under `_`.
pub open spec fn subtree(node: NodeModel, values: Map<Seq<char>, ValueModel>, depth: usize) -> RecursiveMapModel
    decreases node, node.children.len() + 1,
{
    if node.children.len() == 0 {
        RecursiveMapModel::Value(value_or_null(values, node.key))
    } else {
        let members = child_members(node, values, depth, node.children.len());
        RecursiveMapModel::Object(
            if values.contains_key(node.key) {
                with_member(members, "_"@, RecursiveMapModel::Value(values[node.key]))
            } else {
                members
            },
        )
    }
}

/// Whether `tokens` is the beginning of the tokens of one of `keys`.
pub open spec fn begins_a_key(keys: Set<Seq<char>>, tokens: Seq<Seq<char>>) -> bool {
    exists|k: Seq<char>| keys.contains(k) && is_prefix(tokens, #[trigger] split(k, '.'))
}

/// Whether a read of `key` finds what it asks for, told from the keys
/// alone: the key itself, or a key below the prefix.
pub open spec fn present_among(keys: Set<Seq<char>>, key: Seq<char>) -> bool {
    match access_type(key) {
        AccessModel::Direct => keys.contains(key),
        AccessModel::FullSubtree(prefix) => begins_a_key(keys, split(prefix, '.')),
        AccessModel::PartialSubtree(prefix, _) => begins_a_key(keys, split(prefix, '.')),
    }
}

/// In a tree that agrees with the keys, the nodes other than the root are
/// the beginnings of keys: a walk of one step or more ends at a node if
/// and only if it is the beginning of the tokens of a key.
pub proof fn nodes_are_beginnings_of_keys(root: NodeModel, keys: Set<Seq<char>>, tokens: Seq<Seq<char>>)
    requires
        consistent(root, keys),
        tokens.len() > 0,
    ensures
        root.descend(tokens) is Some <==> begins_a_key(keys, tokens),
{
    let empty = Seq::<Seq<char>>::empty();
    if begins_a_key(keys, tokens) {
        let k = choose|k: Seq<char>| keys.contains(k) && is_prefix(tokens, #[trigger] split(k, '.'));
        root.lemma_descend_prefix(split(k, '.'), tokens.len() as int);
    }
    if root.descend(tokens) is Some {
        let node = root.descend(tokens)->0;
        assert(empty + tokens == tokens);
        root.lemma_descend(empty, tokens);
        node.lemma_way_to_leaf(tokens);
        let way = node.way_to_leaf();
        let whole = tokens + way;
        root.lemma_descend_concat(tokens, way);
        let leaf = root.descend(whole)->0;
        root.lemma_leaf_anchored(keys, whole);
        assert(empty + whole == whole);
        root.lemma_descend(empty, whole);
        lemma_split_join(whole, '.');
        assert(whole.take(tokens.len() as int) == tokens);
        assert(is_prefix(tokens, split(leaf.key, '.')));
    }
}

/// In an index whose tree agrees with its flat map, whether a read finds
/// what it asks for can be told from the keys alone.
pub proof fn presence_is_told_by_keys(
    root: NodeModel,
    values: Map<Seq<char>, ValueModel>,
    key: Seq<char>,
)
    requires
        consistent(root, values.dom()),
    ensures
        present(root, values, key) == present_among(values.dom(), key),
{
    match access_type(key) {
        AccessModel::Direct => {},
        AccessModel::FullSubtree(prefix) => {
            lemma_split_nonempty(prefix, '.');
            nodes_are_beginnings_of_keys(root, values.dom(), split(prefix, '.'));
        },
        AccessModel::PartialSubtree(prefix, _) => {
            lemma_split_nonempty(prefix, '.');
            nodes_are_beginnings_of_keys(root, values.dom(), split(prefix, '.'));
        },
    }
}

/// A JSON text as a reply, or the failure of the encoder.
pub open spec fn json_reply(text: Option<Seq<char>>) -> Result<Seq<char>, ErrorModel> {
    match text {
        Some(t) => Ok(t),
        None => Err(ErrorModel::SerializationFailure),
    }
}

/// The reply to a read of the subtree below `prefix`.
pub open spec fn read_subtree(
    root: NodeModel,
    values: Map<Seq<char>, ValueModel>,
    prefix: Seq<char>,
    depth: usize,
) -> Result<Seq<char>, ErrorModel> {
    match root.descend(split(prefix, '.')) {
        None => Err(ErrorModel::KeyNotFound(prefix)),
        Some(node) => json_reply(json_text(subtree(node, values, depth))),
    }
}

/// The reply to a read of `key`: the JSON text of its value, or of the
/// subtree that it asks for.
pub open spec fn read(root: NodeModel, values: Map<Seq<char>, ValueModel>, key: Seq<char>) -> Result<
    Seq<char>,
    ErrorModel,
> {
    match access_type(key) {
        AccessModel::Direct => if values.contains_key(key) {
            json_reply(values[key].json())
        } else {
            Err(ErrorModel::KeyNotFound(key))
        },
        AccessModel::FullSubtree(prefix) => read_subtree(root, values, prefix, 0),
        AccessModel::PartialSubtree(prefix, depth) => read_subtree(root, values, prefix, depth),
    }
}

/// Whether a read of `key` finds what it asks for: the key itself in the
/// flat map, or the node of the prefix in the tree.
pub open spec fn present(root: NodeModel, values: Map<Seq<char>, ValueModel>, key: Seq<char>) -> bool {
    match access_type(key) {
        AccessModel::Direct => values.contains_key(key),
        AccessModel::FullSubtree(prefix) => root.descend(split(prefix, '.')) is Some,
        AccessModel::PartialSubtree(prefix, _) => root.descend(split(prefix, '.')) is Some,
    }
}

/// Whether `out` is the reply that `expected` describes.
pub open spec fn replied(
    out: Result<String, TransactionError>,
    expected: Result<Seq<char>, ErrorModel>,
) -> bool {
    match out {
        Ok(t) => expected == Ok::<Seq<char>, ErrorModel>(t@),
        Err(e) => expected == Err::<Seq<char>, ErrorModel>(e@),
    }
}

/// The text of a reply, or the failure that stands for an error of the
/// encoder.
pub(crate) fn json_or_failure(out: Result<String, serde_json::Error>) -> (reply: Result<
    String,
    TransactionError,
>)
    ensures
        match out {
            Ok(t) => reply == Ok::<String, TransactionError>(t),
            Err(_) => reply == Err::<String, TransactionError>(
                TransactionError::SerializationFailure,
            ),
        },
{
    match out {
        Ok(t) => Ok(t),
        Err(_) => Err(TransactionError::SerializationFailure),
    }
}

fn walk<'a>(node: &'a RadixNode, parts: &Vec<String>, from: usize) -> (end: Option<&'a RadixNode>)
    requires
        from <= parts.len(),
    ensures
        match end {
            Some(n) => node@.descend(texts(parts@).skip(from as int)) == Some(n@),
            None => node@.descend(texts(parts@).skip(from as int)) is None,
        },
    decreases parts.len() - from,
{
    let ghost tokens = texts(parts@).skip(from as int);
    if from == parts.len() {
        return Some(node);
    }
    assert(tokens[0] == parts@[from as int]@);
    assert(tokens.skip(1) == texts(parts@).skip(from + 1));
    match node.find(parts[from].as_str()) {
        None => None,
        Some(i) => {
            proof {
                node@.lemma_first_unique(tokens[0], i as int);
            }
            walk(&node.children[i].1, parts, from + 1)
        },
    }
}

fn grow(node: &mut RadixNode, parts: &Vec<String>, from: usize)
    requires
        from <= parts.len(),
    ensures
        final(node)@ == old(node)@.grown(
            texts(parts@).take(from as int),
            texts(parts@).skip(from as int),
        ),
    decreases parts.len() - from,
{
    let ghost path = texts(parts@).take(from as int);
    let ghost tokens = texts(parts@).skip(from as int);
    let ghost before = node@;
    if from == parts.len() {
        return ;
    }
    proof {
        assert(tokens[0] == parts@[from as int]@);
        assert(tokens.skip(1) == texts(parts@).skip(from + 1));
        assert(path.push(tokens[0]) == texts(parts@).take(from + 1));
        assert(texts(parts@).subrange(0, from + 1) == texts(parts@).take(from + 1));
    }
    match node.find(parts[from].as_str()) {
        Some(i) => {
            proof {
                before.lemma_first_unique(tokens[0], i as int);
            }
            let ghost child_before = node.children[i as int].1@;
            grow(&mut node.children[i].1, parts, from + 1);
            assert(node@.children =~= before.children.update(
                i as int,
                (tokens[0], child_before.grown(path.push(tokens[0]), tokens.skip(1))),
            ));
        },
        None => {
            let mut fresh = RadixNode::new(join_strs(parts, 0, from + 1, '.'));
            let ghost fresh_before = fresh@;
            grow(&mut fresh, parts, from + 1);
            node.children.push((parts[from].clone(), fresh));
            assert(node@.children =~= before.children.push(
                (tokens[0], fresh_before.grown(path.push(tokens[0]), tokens.skip(1))),
            ));
        },
    }
}

fn prune(node: &mut RadixNode, map: &StringHashMap<Value>, parts: &Vec<String>, from: usize) -> (out:
    Result<bool, TransactionError>)
    requires
        from <= parts.len(),
    ensures
        match out {
            Ok(gone) => {
                &&& old(node)@.descend(texts(parts@).skip(from as int)) is Some
                &&& final(node)@ == old(node)@.pruned(map@.dom(), texts(parts@).skip(from as int))
                &&& gone == final(node)@.removable(map@.dom())
            },
            Err(e) => {
                &&& old(node)@.descend(texts(parts@).skip(from as int)) is None
                &&& e@ == ErrorModel::KeyNotFound(
                    join(old(node)@.unwalked(texts(parts@).skip(from as int)), '.'),
                )
                &&& final(node)@ == old(node)@
            },
        },
    decreases parts.len() - from,
{
    let ghost tokens = texts(parts@).skip(from as int);
    let ghost before = node@;
    if from < parts.len() {
        proof {
            assert(tokens[0] == parts@[from as int]@);
            assert(tokens.skip(1) == texts(parts@).skip(from + 1));
        }
        match node.find(parts[from].as_str()) {
            None => {
                assert(texts(parts@).subrange(from as int, parts.len() as int) == tokens);
                return Err(
                    TransactionError::KeyNotFound(join_strs(parts, from, parts.len(), '.')),
                );
            },
            Some(i) => {
                proof {
                    before.lemma_first_unique(tokens[0], i as int);
                }
                let ghost child_before = node.children[i as int].1@;
                match prune(&mut node.children[i].1, map, parts, from + 1) {
                    Err(e) => {
                        assert(node@.children =~= before.children);
                        return Err(e);
                    },
                    Ok(gone) => {
                        let ghost child_after = child_before.pruned(map@.dom(), tokens.skip(1));
                        assert(node@.children =~= before.children.update(
                            i as int,
                            (tokens[0], child_after),
                        ));
                        if gone {
                            node.children.remove(i);
                            assert(node@.children =~= before.children.remove(i as int));
                        }
                    },
                }
            },
        }
    }
    let gone = node.children.len() == 0 && !map.contains_key(node.key.as_str());
    Ok(gone)
}

impl RadixTree {
    /// The tree of the keys' tokens.
    pub closed spec fn tree(&self) -> NodeModel {
        self.root@
    }

    /// The tree and the flat map agree.
    pub open spec fn wf(&self) -> bool {
        consistent(self.tree(), self@.dom())
    }

    pub fn new() -> (index: Self)
        ensures
            index.wf(),
            index@ == Map::<Seq<char>, ValueModel>::empty(),
            index.tree() == NodeModel::leaf("_"@),
    {
        let index = RadixTree {
            root: RadixNode::new(String::from_str("_")),
            map: StringHashMap::new(),
        };
        assert(index@ =~= Map::<Seq<char>, ValueModel>::empty());
        index
    }

    /// The object or value for the subtree at `head`, with `depth` levels
    /// left to go down (0: no limit).
    pub fn serialize_subtree(&self, head: &RadixNode, depth: usize) -> (out: RecursiveMap)
        ensures
            out@ == subtree(head@, self@, depth),
        decreases head,
    {
        if head.children.len() == 0 {
            return match self.map.get(head.key.as_str()) {
                Some(value) => RecursiveMap::Value(value.clone()),
                None => RecursiveMap::Value(Value::Null),
            };
        }
        let mut out = RecursiveMap::new();
        let mut i: usize = 0;
        while i < head.children.len()
            invariant
                i <= head.children.len(),
                out@ == RecursiveMapModel::Object(child_members(head@, self@, depth, i as nat)),
            decreases head.children.len() - i,
        {
            let child = &head.children[i].1;
            assert(head@.children[i as int] == (head.children[i as int].0@, child@));
            if depth == 1 {
                if let Some(value) = self.map.get(child.key.as_str()) {
                    out.insert(head.children[i].0.clone(), RecursiveMap::Value(value.clone()));
                }
            } else {
                let below = if depth == 0 {
                    0
                } else {
                    depth - 1
                };
                out.insert(head.children[i].0.clone(), self.serialize_subtree(child, below));
            }
            i += 1;
        }
        if let Some(value) = self.map.get(head.key.as_str()) {
            out.insert(String::from_str("_"), RecursiveMap::Value(value.clone()));
        }
        out
    }

    /// The value under `key` in the flat map, if there is one.
    pub fn value(&self, key: &str) -> (out: Option<&Value>)
        ensures
            match out {
                Some(v) => self@.contains_key(key@) && self@[key@] == v@,
                None => !self@.contains_key(key@),
            },
    {
        self.map.get(key)
    }

    /// Whether a read of `key` finds what it asks for.
    pub fn contains(&self, key: &str) -> (found: bool)
        ensures
            found == present(self.tree(), self@, key@),
    {
        match AccessType::parse(key) {
            AccessType::Direct => self.map.contains_key(key),
            AccessType::FullSubtree(prefix) => {
                let parts = split_str(prefix.as_str(), '.');
                assert(texts(parts@).skip(0) == texts(parts@));
                walk(&self.root, &parts, 0).is_some()
            },
            AccessType::PartialSubtree(prefix, _) => {
                let parts = split_str(prefix.as_str(), '.');
                assert(texts(parts@).skip(0) == texts(parts@));
                walk(&self.root, &parts, 0).is_some()
            },
        }
    }

    fn get_subtree(&self, prefix: String, depth: usize) -> (out: Result<String, TransactionError>)
        ensures
            replied(out, read_subtree(self.tree(), self@, prefix@, depth)),
    {
        let parts = split_str(prefix.as_str(), '.');
        assert(texts(parts@).skip(0) == texts(parts@));
        match walk(&self.root, &parts, 0) {
            None => Err(TransactionError::KeyNotFound(prefix)),
            Some(node) => json_or_failure(self.serialize_subtree(node, depth).to_string()),
        }
    }

    /// Reads `key`: the JSON text of its value, or of the subtree that it
    /// asks for.
    pub fn get(&self, key: &str) -> (out: Result<String, TransactionError>)
        ensures
            replied(out, read(self.tree(), self@, key@)),
    {
        match AccessType::parse(key) {
            AccessType::Direct => match self.map.get(key) {
                Some(value) => json_or_failure(value.to_json()),
                None => Err(TransactionError::KeyNotFound(String::from_str(key))),
            },
            AccessType::FullSubtree(prefix) => self.get_subtree(prefix, 0),
            AccessType::PartialSubtree(prefix, depth) => self.get_subtree(prefix, depth),
        }
    }

    /// Puts `value` under `key`, unless a token of the key begins with `*`.
    /// Returns the value as plain text.
    pub fn put(&mut self, key: String, value: Value) -> (out: Result<String, TransactionError>)
        requires
            old(self).wf(),
        ensures
            final(self).wf(),
            match out {
                Ok(text) => {
                    &&& !has_reserved_token(key@)
                    &&& text@ == value@.render()
                    &&& final(self)@ == old(self)@.insert(key@, value@)
                    &&& final(self).tree() == old(self).tree().grown(
                        Seq::empty(),
                        split(key@, '.'),
                    )
                },
                Err(e) => {
                    &&& has_reserved_token(key@)
                    &&& e@ == ErrorModel::InvalidKey(key@)
                    &&& final(self)@ == old(self)@
                    &&& final(self).tree() == old(self).tree()
                },
            },
    {
        let parts = split_str(key.as_str(), '.');
        let ghost tokens = split(key@, '.');
        let mut i: usize = 0;
        while i < parts.len()
            invariant
                i <= parts.len(),
                texts(parts@) == tokens,
                tokens == split(key@, '.'),
                *self == *old(self),
                old(self).wf(),
                forall|j: int| 0 <= j < i ==> !(tokens[j].len() > 0 && tokens[j][0] == '*'),
            decreases parts.len() - i,
        {
            let token = to_chars(parts[i].as_str());
            assert(tokens[i as int] == token@);
            if token.len() > 0 && token[0] == '*' {
                assert(split(key@, '.')[i as int].len() > 0 && split(key@, '.')[i as int][0]
                    == '*');
                return Err(TransactionError::InvalidKey(key));
            }
            i += 1;
        }
        assert(!has_reserved_token(key@));
        let text = value.to_string();
        let ghost root_before = self.root@;
        let ghost keys = self@.dom();
        let ghost empty = Seq::<Seq<char>>::empty();
        assert(texts(parts@).take(0) == empty);
        assert(texts(parts@).skip(0) == tokens);
        grow(&mut self.root, &parts, 0);
        let ghost more = keys.insert(key@);
        proof {
            grow_keeps_consistent(root_before, keys, key@);
        }
        self.map.insert(key, value);
        assert(self@ =~= old(self)@.insert(key@, value@));
        assert(self@.dom() =~= more);
        Ok(text)
    }

    /// Prunes the path `parts` below `node`: going up from its end, a node
    /// leaves its parent where it has no children and its key is not in
    /// `map`. Tells whether `node` itself is such a node afterwards. Where
    /// the path cannot be walked, nothing changes and the failure names
    /// the part of it that lies beyond the last node reached.
    pub fn remove(node: &mut RadixNode, map: &StringHashMap<Value>, parts: &Vec<String>) -> (out:
        Result<bool, TransactionError>)
        ensures
            match out {
                Ok(gone) => {
                    &&& old(node)@.descend(texts(parts@)) is Some
                    &&& final(node)@ == old(node)@.pruned(map@.dom(), texts(parts@))
                    &&& gone == final(node)@.removable(map@.dom())
                },
                Err(e) => {
                    &&& old(node)@.descend(texts(parts@)) is None
                    &&& e@ == ErrorModel::KeyNotFound(
                        join(old(node)@.unwalked(texts(parts@)), '.'),
                    )
                    &&& final(node)@ == old(node)@
                },
            },
    {
        assert(texts(parts@).skip(0) == texts(parts@));
        prune(node, map, parts, 0)
    }

    /// Takes `key` and its value out. Returns the value as plain text.
    pub fn delete(&mut self, key: String) -> (out: Result<String, TransactionError>)
        requires
            old(self).wf(),
        ensures
            final(self).wf(),
            match out {
                Ok(text) => {
                    &&& old(self)@.contains_key(key@)
                    &&& text@ == old(self)@[key@].render()
                    &&& final(self)@ == old(self)@.remove(key@)
                    &&& final(self).tree() == old(self).tree().pruned(
                        final(self)@.dom(),
                        split(key@, '.'),
                    )
                },
                Err(e) => {
                    &&& !old(self)@.contains_key(key@)
                    &&& e@ == ErrorModel::KeyNotFound(key@)
                    &&& final(self)@ == old(self)@
                    &&& final(self).tree() == old(self).tree()
                },
            },
    {
        let text = match self.map.get(key.as_str()) {
            None => {
                return Err(TransactionError::KeyNotFound(key));
            },
            Some(value) => value.to_string(),
        };
        let ghost root_before = self.root@;
        let ghost keys = self@.dom();
        let ghost fewer = keys.remove(key@);
        let ghost tokens = split(key@, '.');
        self.map.remove(key.as_str());
        assert(self@ =~= old(self)@.remove(key@));
        assert(self@.dom() =~= fewer);
        assert(self.map@.dom() =~= fewer);
        let parts = split_str(key.as_str(), '.');
        assert(root_before.descend(tokens) is Some);
        let pruned = Self::remove(&mut self.root, &self.map, &parts);
        assert(pruned is Ok);
        proof {
            prune_keeps_consistent(root_before, keys, key@);
        }
        Ok(text)
    }

    /// Takes everything out.
    pub fn purge(&mut self) -> (out: Result<(), TransactionError>)
        ensures
            out is Ok,
            final(self).wf(),
            final(self)@ == Map::<Seq<char>, ValueModel>::empty(),
            final(self).tree() == NodeModel::leaf("_"@),
    {
        self.map = StringHashMap::new();
        self.root = RadixNode::new(String::from_str("_"));
        assert(self@ =~= Map::<Seq<char>, ValueModel>::empty());
        Ok(())
    }
}

} // verus!
