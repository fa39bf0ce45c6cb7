//! The three ways a key can ask for data: the value itself, everything
//! below a prefix, or the levels next below a prefix.

use crate::num::{parse_usize, parse_usize_spec};
use crate::text::{join, join_strs, split, split_str, texts, to_chars};
use vstd::prelude::*;

verus! {

#[derive(Debug, PartialEq)]
pub enum AccessType {
    Direct,
    FullSubtree(String),
    PartialSubtree(String, usize),
}

/// An `AccessType` with its prefix as a character sequence.
pub enum AccessModel {
    Direct,
    FullSubtree(Seq<char>),
    PartialSubtree(Seq<char>, usize),
}

impl View for AccessType {
    type V = AccessModel;

    open spec fn view(&self) -> AccessModel {
        match self {
            AccessType::Direct => AccessModel::Direct,
            AccessType::FullSubtree(prefix) => AccessModel::FullSubtree(prefix@),
            AccessType::PartialSubtree(prefix, depth) => AccessModel::PartialSubtree(
                prefix@,
                *depth,
            ),
        }
    }
}

/// How `key` asks for data. Only its last token decides: `*` asks for the
/// whole subtree below the tokens before it, `*` followed by a number for
/// that many levels of it. A last token that begins with `*` and goes on
/// with anything but a number asks for nothing special.
pub open spec fn access_type(key: Seq<char>) -> AccessModel {
    let parts = split(key, '.');
    let last = parts.last();
    let prefix = join(parts.drop_last(), '.');
    if last == seq!['*'] {
        AccessModel::FullSubtree(prefix)
    } else if last.len() > 0 && last[0] == '*' {
        match parse_usize_spec(last.skip(1)) {
            Some(depth) => AccessModel::PartialSubtree(prefix, depth),
            None => AccessModel::Direct,
        }
    } else {
        AccessModel::Direct
    }
}

impl AccessType {
    pub fn parse(key: &str) -> (access: Self)
        ensures
            access@ == access_type(key@),
    {
        let parts = split_str(key, '.');
        let n = parts.len();
        let mut last = to_chars(parts[n - 1].as_str());
        assert(texts(parts@).last() == parts@[n - 1]@);
        assert(texts(parts@).subrange(0, n - 1) == texts(parts@).drop_last());
        if last.len() == 0 || last[0] != '*' {
            return AccessType::Direct;
        }
        if last.len() == 1 {
            assert(last@ =~= seq!['*']);
            return AccessType::FullSubtree(join_strs(&parts, 0, n - 1, '.'));
        }
        let digits = last.split_off(1);
        assert(digits@ == parts@[n - 1]@.skip(1));
        match parse_usize(&digits) {
            Some(depth) => AccessType::PartialSubtree(join_strs(&parts, 0, n - 1, '.'), depth),
            None => AccessType::Direct,
        }
    }
}

} // verus!
