//! JSON documents: a tree of values, read and written with the `serde_json` crate.

use vstd::prelude::*;
use crate::text;

verus! {

/// A JSON value.
#[derive(Debug)]
pub enum Json {
    Null,
    Bool(bool),
    /// A number, as it is written.
    Number(String),
    Text(String),
    Array(Vec<Json>),
    Object(Vec<Member>),
}

/// A member of a JSON object.
#[derive(Debug)]
pub struct Member {
    pub key: String,
    pub value: Json,
}

/// What a [`Json`] stands for.
pub enum JsonTree {
    Null,
    Bool(bool),
    Number(Seq<char>),
    Text(Seq<char>),
    Array(Seq<JsonTree>),
    Object(Seq<MemberTree>),
}

/// What a [`Member`] stands for.
pub struct MemberTree {
    pub key: Seq<char>,
    pub value: JsonTree,
}

impl Json {
    pub open spec fn tree(self) -> JsonTree
        decreases self,
    {
        match self {
            Json::Null => JsonTree::Null,
            Json::Bool(b) => JsonTree::Bool(b),
            Json::Number(s) => JsonTree::Number(s@),
            Json::Text(s) => JsonTree::Text(s@),
            Json::Array(items) => JsonTree::Array(
                Seq::new(items@.len(), |i: int| if 0 <= i < items@.len() { items@[i].tree() } else { arbitrary() }),
            ),
            Json::Object(members) => JsonTree::Object(
                Seq::new(
                    members@.len(),
                    |i: int| if 0 <= i < members@.len() { members@[i].tree() } else { arbitrary() },
                ),
            ),
        }
    }
}

impl Member {
    pub open spec fn tree(self) -> MemberTree
        decreases self,
    {
        MemberTree { key: self.key@, value: self.value.tree() }
    }
}

/// The value of the first of these members with a key.
pub open spec fn first_member(members: Seq<MemberTree>, key: Seq<char>) -> Option<JsonTree>
    decreases members.len(),
{
    if members.len() == 0 {
        None
    } else if members[0].key == key {
        Some(members[0].value)
    } else {
        first_member(members.skip(1), key)
    }
}

/// The value that an object holds under a key. What is no object holds none.
pub open spec fn member_of(t: JsonTree, key: Seq<char>) -> Option<JsonTree> {
    match t {
        JsonTree::Object(members) => first_member(members, key),
        _ => None,
    }
}

/// The text under one key below another, where there is a text.
pub open spec fn text_below(t: JsonTree, outer: Seq<char>, inner: Seq<char>) -> Option<Seq<char>> {
    match member_of(t, outer) {
        Some(below) => match member_of(below, inner) {
            Some(JsonTree::Text(s)) => Some(s),
            _ => None,
        },
        None => None,
    }
}

impl Json {
    /// The value that an object holds under a key.
    pub fn get(&self, key: &str) -> (r: Option<&Json>)
        ensures
            match r {
                Some(value) => member_of(self.tree(), key@) == Some(value.tree()),
                None => member_of(self.tree(), key@) is None,
            },
    {
        let members = match self {
            Json::Object(members) => members,
            _ => return None,
        };
        let ghost all = self.tree()->Object_0;
        let mut i: usize = 0;
        proof {
            assert(all.skip(0) =~= all);
        }
        while i < members.len()
            invariant
                i <= members@.len(),
                *self == Json::Object(*members),
                all == self.tree()->Object_0,
                first_member(all, key@) == first_member(all.skip(i as int), key@),
            decreases members@.len() - i,
        {
            proof {
                assert(all[i as int] == members@[i as int].tree());
                assert(all.skip(i as int)[0] == all[i as int]);
                assert(all.skip(i as int).skip(1) =~= all.skip(i + 1));
            }
            if text::same_text(members[i].key.as_str(), key) {
                return Some(&members[i].value);
            }
            i = i + 1;
        }
        None
    }

    /// The text under one key below another, where there is a text.
    pub fn text_below(&self, outer: &str, inner: &str) -> (r: Option<String>)
        ensures
            text::option_view(r) == text_below(self.tree(), outer@, inner@),
    {
        let below = match self.get(outer) {
            Some(below) => below,
            None => return None,
        };
        match below.get(inner) {
            Some(Json::Text(s)) => Some(s.clone()),
            _ => None,
        }
    }
}

// ---------------------------------------------------------------------------
// Reading
// ---------------------------------------------------------------------------

/// A value of the `serde_json` crate. It is only carried between the functions below.
#[verifier::external_type_specification]
#[verifier::external_body]
pub struct ExValue(serde_json::Value);

/// The tree that a `serde_json::Value` holds.
pub uninterp spec fn value_tree(v: serde_json::Value) -> JsonTree;

/// What `serde_json::from_str` makes of a text: a value, or the words of the error that it
/// ends in.
pub uninterp spec fn parsed_json(s: Seq<char>) -> Result<JsonTree, Seq<char>>;

/// `serde_json::from_str` into a value: the outcome depends on the text alone.
#[verifier::external_body]
fn parse_value(s: &str) -> (r: Result<serde_json::Value, String>)
    ensures
        match r {
            Ok(v) => parsed_json(s@) == Ok::<JsonTree, Seq<char>>(value_tree(v)),
            Err(words) => parsed_json(s@) == Err::<JsonTree, Seq<char>>(words@),
        },
{
    serde_json::from_str(s).map_err(|e: serde_json::Error| e.to_string())
}

/// The contents of a `serde_json::Value` and of the values below it, moved one for one; a
/// number as `serde_json` writes it.
#[verifier::external_body]
pub(crate) fn import_value(v: serde_json::Value) -> (r: Json)
    ensures
        r.tree() == value_tree(v),
{
    match v {
        serde_json::Value::Null => Json::Null,
        serde_json::Value::Bool(b) => Json::Bool(b),
        serde_json::Value::Number(n) => Json::Number(n.to_string()),
        serde_json::Value::String(s) => Json::Text(s),
        serde_json::Value::Array(items) => Json::Array(items.into_iter().map(import_value).collect()),
        serde_json::Value::Object(members) => Json::Object(
            members.into_iter().map(|(key, v)| Member { key, value: import_value(v) }).collect(),
        ),
    }
}

/// The text that `serde_json` writes for a value, without any white space between its parts.
pub uninterp spec fn printed_json(t: JsonTree) -> Seq<char>;

/// What the text for a value is, where the value has no parts and is no string.
pub open spec fn printed_plainly(t: JsonTree, s: Seq<char>) -> bool {
    match t {
        JsonTree::Null => s == "null"@,
        JsonTree::Bool(true) => s == "true"@,
        JsonTree::Bool(false) => s == "false"@,
        JsonTree::Number(n) => s == n,
        _ => true,
    }
}

/// `serde_json::Value::to_string`: the text depends on the contents of the value alone. That of
/// nothing, of a truth value and of a number is as it is written in a document.
#[verifier::external_body]
pub(crate) fn print_value(v: &serde_json::Value) -> (r: String)
    ensures
        r@ == printed_json(value_tree(*v)),
        printed_plainly(value_tree(*v), r@),
{
    v.to_string()
}

/// Reads a document.
pub fn read_json(s: &str) -> (r: Result<Json, String>)
    ensures
        match r {
            Ok(value) => parsed_json(s@) == Ok::<JsonTree, Seq<char>>(value.tree()),
            Err(words) => parsed_json(s@) == Err::<JsonTree, Seq<char>>(words@),
        },
{
    match parse_value(s) {
        Ok(v) => Ok(import_value(v)),
        Err(words) => Err(words),
    }
}

/// The value under a key is that of the first member with it, and what has no such member, or is
/// no object, holds none.
pub proof fn law_member_of(members: Seq<MemberTree>, key: Seq<char>, n: int)
    requires
        0 <= n <= members.len(),
        n < members.len() ==> members[n].key == key,
        forall|i: int| 0 <= i < n ==> (#[trigger] members[i]).key != key,
    ensures
        n < members.len() ==> member_of(JsonTree::Object(members), key) == Some(members[n].value),
        n == members.len() ==> member_of(JsonTree::Object(members), key) is None,
    decreases n,
{
    if n > 0 {
        let rest = members.skip(1);
        assert(members[0].key != key);
        assert forall|i: int| 0 <= i < n - 1 implies (#[trigger] rest[i]).key != key by {
            assert(rest[i] == members[i + 1]);
        }
        law_member_of(rest, key, n - 1);
    }
}

/// What is no object holds nothing under a key.
pub proof fn law_only_objects_hold_members(t: JsonTree, key: Seq<char>)
    ensures
        member_of(t, key) is Some ==> t is Object,
{
}

/// A text is found below two keys exactly where the first leads to an object and the second,
/// below it, to a text.
pub proof fn law_text_below(t: JsonTree, outer: Seq<char>, inner: Seq<char>, s: Seq<char>)
    ensures
        text_below(t, outer, inner) == Some(s) <==> member_of(t, outer) is Some && member_of(
            member_of(t, outer)->0,
            inner,
        ) == Some(JsonTree::Text(s)),
        text_below(t, outer, inner) is Some ==> t is Object && member_of(t, outer)->0 is Object,
{
}

} // verus!
