//! The nested object that a subtree read produces, and its JSON text.

use crate::operation::value::{json_string, json_string_text, Value, ValueModel};
use crate::text::{push_char, same_text};
use vstd::prelude::*;
use vstd::string::StringExecFns;

verus! {

/// Either a scalar or an object. The members of an object are kept in the
/// order in which they were added, each under a name of its own.
#[derive(Debug, PartialEq)]
pub enum RecursiveMap {
    Object(Vec<(String, RecursiveMap)>),
    Value(Value),
}

/// A `RecursiveMap` with its texts as character sequences.
pub enum RecursiveMapModel {
    Object(Seq<(Seq<char>, RecursiveMapModel)>),
    Value(ValueModel),
}

/// The members of an object, each with its name as a character sequence
/// and its value as a model.
pub open spec fn members_model(members: Vec<(String, RecursiveMap)>) -> Seq<
    (Seq<char>, RecursiveMapModel),
>
    decreases members,
{
    Seq::new(
        members.len() as nat,
        |i: int|
            if 0 <= i < members.len() {
                (members[i].0@, model_of(members[i].1))
            } else {
                (Seq::empty(), RecursiveMapModel::Value(ValueModel::Null))
            },
    )
}

/// What a `RecursiveMap` holds.
pub open spec fn model_of(m: RecursiveMap) -> RecursiveMapModel
    decreases m,
{
    match m {
        RecursiveMap::Object(members) => RecursiveMapModel::Object(members_model(members)),
        RecursiveMap::Value(v) => RecursiveMapModel::Value(v@),
    }
}

impl View for RecursiveMap {
    type V = RecursiveMapModel;

    open spec fn view(&self) -> RecursiveMapModel {
        model_of(*self)
    }
}

/// Whether a member of `members` has the name `name`.
pub open spec fn has_member(members: Seq<(Seq<char>, RecursiveMapModel)>, name: Seq<char>) -> bool {
    exists|i: int| 0 <= i < members.len() && (#[trigger] members[i]).0 == name
}

/// Whether `at` is the first position in `members` that holds `name`.
pub open spec fn first_member(
    members: Seq<(Seq<char>, RecursiveMapModel)>,
    name: Seq<char>,
    at: int,
) -> bool {
    &&& 0 <= at < members.len()
    &&& members[at].0 == name
    &&& forall|j: int| 0 <= j < at ==> (#[trigger] members[j]).0 != name
}

/// `members` with `value` under `name`: in the place of the first member
/// that has the name already, or at the end where none has.
pub open spec fn with_member(
    members: Seq<(Seq<char>, RecursiveMapModel)>,
    name: Seq<char>,
    value: RecursiveMapModel,
) -> Seq<(Seq<char>, RecursiveMapModel)> {
    if has_member(members, name) {
        let at = choose|i: int| first_member(members, name, i);
        members.update(at, (name, value))
    } else {
        members.push((name, value))
    }
}

/// The JSON text of the first `n` members of an object, without the
/// braces: each name as a JSON string, a colon and the member's text, with
/// commas between members. `None` where the encoder of strings fails on a
/// name or on a value.
pub open spec fn json_members(members: Seq<(Seq<char>, RecursiveMapModel)>, n: nat) -> Option<
    Seq<char>,
>
    decreases members, n,
{
    if n == 0 {
        Some(Seq::<char>::empty())
    } else if n > members.len() {
        None
    } else {
        match (
            json_members(members, (n - 1) as nat),
            json_string_text(members[n - 1].0),
            json_text(members[n - 1].1),
        ) {
            (Some(before), Some(name), Some(value)) => Some(
                if n == 1 {
                    name + seq![':'] + value
                } else {
                    before + seq![','] + name + seq![':'] + value
                },
            ),
            _ => None,
        }
    }
}

/// The JSON text of a nested object or a scalar.
pub open spec fn json_text(m: RecursiveMapModel) -> Option<Seq<char>>
    decreases m,
{
    match m {
        RecursiveMapModel::Value(v) => v.json(),
        RecursiveMapModel::Object(members) => match json_members(members, members.len()) {
            Some(body) => Some(seq!['{'] + body + seq!['}']),
            None => None,
        },
    }
}

impl RecursiveMap {
    /// An object without members.
    pub fn new() -> (m: Self)
        ensures
            m@ == RecursiveMapModel::Object(Seq::empty()),
    {
        let members: Vec<(String, RecursiveMap)> = Vec::new();
        assert(members_model(members) =~= Seq::empty());
        RecursiveMap::Object(members)
    }

    /// Puts `value` under `name` into an object, in the place of the member
    /// that has the name already, or at the end. A scalar is left as it is.
    pub fn insert(&mut self, name: String, value: RecursiveMap)
        ensures
            match old(self)@ {
                RecursiveMapModel::Object(members) => final(self)@ == RecursiveMapModel::Object(
                    with_member(members, name@, value@),
                ),
                RecursiveMapModel::Value(_) => final(self)@ == old(self)@,
            },
    {
        match self {
            RecursiveMap::Object(members) => {
                put_member(members, name, value);
            },
            RecursiveMap::Value(_) => {},
        }
    }

    /// The JSON text of this object or scalar.
    pub fn to_string(&self) -> (out: Result<String, serde_json::Error>)
        ensures
            match out {
                Ok(t) => json_text(self@) == Some(t@),
                Err(_) => json_text(self@) is None,
            },
        decreases self,
    {
        match self {
            RecursiveMap::Value(v) => v.to_json(),
            RecursiveMap::Object(members) => {
                let mut text = String::from_str("{");
                proof {
                    reveal_strlit("{");
                }
                let ghost model = members_model(*members);
                let mut i: usize = 0;
                while i < members.len()
                    invariant
                        i <= members.len(),
                        self@ == RecursiveMapModel::Object(model),
                        *self == RecursiveMap::Object(*members),
                        model.len() == members.len(),
                        json_members(model, i as nat) is Some,
                        text@ == seq!['{'] + json_members(model, i as nat)->0,
                    decreases members.len() - i,
                {
                    assert(model[i as int] == (members[i as int].0@, members[i as int].1@));
                    let name = match json_string(members[i].0.as_str()) {
                        Ok(t) => t,
                        Err(e) => {
                            proof {
                                lemma_json_members_fail(model, (i + 1) as nat, model.len());
                            }
                            return Err(e);
                        },
                    };
                    let value = match members[i].1.to_string() {
                        Ok(t) => t,
                        Err(e) => {
                            proof {
                                lemma_json_members_fail(model, (i + 1) as nat, model.len());
                            }
                            return Err(e);
                        },
                    };
                    if i > 0 {
                        push_char(&mut text, ',');
                    }
                    text.append(name.as_str());
                    push_char(&mut text, ':');
                    text.append(value.as_str());
                    i += 1;
                    assert(text@ =~= seq!['{'] + json_members(model, i as nat)->0);
                }
                push_char(&mut text, '}');
                Ok(text)
            },
        }
    }
}

/// Once the text of the first `n` members fails, so does that of any
/// longer run of members.
pub proof fn lemma_json_members_fail(
    members: Seq<(Seq<char>, RecursiveMapModel)>,
    n: nat,
    m: nat,
)
    requires
        json_members(members, n) is None,
        n <= m,
    ensures
        json_members(members, m) is None,
    decreases m - n,
{
    if n < m {
        lemma_json_members_fail(members, n, (m - 1) as nat);
    }
}

fn find_member(members: &Vec<(String, RecursiveMap)>, name: &str) -> (at: Option<usize>)
    ensures
        match at {
            Some(i) => first_member(members_model(*members), name@, i as int),
            None => !has_member(members_model(*members), name@),
        },
{
    let ghost model = members_model(*members);
    let mut i: usize = 0;
    while i < members.len()
        invariant
            i <= members.len(),
            model == members_model(*members),
            forall|j: int| 0 <= j < i ==> (#[trigger] model[j]).0 != name@,
        decreases members.len() - i,
    {
        if same_text(members[i].0.as_str(), name) {
            return Some(i);
        }
        i += 1;
    }
    None
}

fn put_member(members: &mut Vec<(String, RecursiveMap)>, name: String, value: RecursiveMap)
    ensures
        members_model(*final(members)) == with_member(
            members_model(*old(members)),
            name@,
            value@,
        ),
{
    let ghost before = members_model(*members);
    let ghost value_model = value@;
    match find_member(members, name.as_str()) {
        Some(i) => {
            let ghost at = choose|k: int| first_member(before, name@, k);
            proof {
                assert(first_member(before, name@, i as int));
                assert(has_member(before, name@));
                if at < i {
                    assert(before[at].0 != name@);
                } else if i < at {
                    assert(before[i as int].0 != name@);
                }
            }
            members.set(i, (name, value));
            assert(members_model(*members) =~= before.update(at, (name@, value_model)));
        },
        None => {
            members.push((name, value));
            assert(members_model(*members) =~= before.push((name@, value_model)));
        },
    }
}

} // verus!
