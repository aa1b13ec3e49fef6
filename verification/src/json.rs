//! JSON documents as plain values.

use vstd::prelude::*;

verus! {

/// A number as the log formats read it: whole and non-negative, whole, or with its fraction cut off.
#[derive(Debug, Clone, Copy)]
pub struct JsonNumber {
    /// The number, where it is an integer from 0 to `u64::MAX`.
    pub unsigned: Option<u64>,
    /// The number, where it is an integer that fits an `i64`.
    pub signed: Option<i64>,
    /// The nearest double with its fraction cut off, pressed into the range of `i64`.
    pub truncated: Option<i64>,
}

/// A JSON value that owns its parts. Members of an object stand in the order in which they are met.
#[derive(Debug)]
pub enum Json {
    Null,
    Bool(bool),
    Number(JsonNumber),
    Text(String),
    Array(Vec<Json>),
    Object(Vec<(String, Json)>),
}

/// What a JSON value is, apart from how it is stored.
#[verifier::ext_equal]
pub ghost enum JsonTree {
    Null,
    Bool(bool),
    Number(JsonNumber),
    Text(Seq<char>),
    Array(Seq<JsonTree>),
    Object(Seq<(Seq<char>, JsonTree)>),
}

impl Json {
    /// The tree that this value stands for.
    pub open spec fn tree(&self) -> JsonTree
        decreases self,
    {
        match self {
            Json::Null => JsonTree::Null,
            Json::Bool(b) => JsonTree::Bool(*b),
            Json::Number(n) => JsonTree::Number(*n),
            Json::Text(s) => JsonTree::Text(s@),
            Json::Array(items) => JsonTree::Array(
                Seq::new(
                    items@.len(),
                    |i: int|
                        if 0 <= i < items@.len() {
                            items@[i].tree()
                        } else {
                            JsonTree::Null
                        },
                ),
            ),
            Json::Object(members) => JsonTree::Object(
                Seq::new(
                    members@.len(),
                    |i: int|
                        if 0 <= i < members@.len() {
                            (members@[i].0@, members@[i].1.tree())
                        } else {
                            (Seq::empty(), JsonTree::Null)
                        },
                ),
            ),
        }
    }
}

impl View for Json {
    type V = JsonTree;

    open spec fn view(&self) -> JsonTree {
        self.tree()
    }
}

/// The JSON value type of `serde_json`.
#[verifier::external_type_specification]
#[verifier::external_body]
pub struct ExJsonValue(serde_json::Value);

/// What a `serde_json::Value` holds.
pub uninterp spec fn json_contents(value: serde_json::Value) -> JsonTree;

/// What `serde_json` reads out of a text: nothing where the text is not one JSON document.
pub uninterp spec fn json_document(text: Seq<char>) -> Option<JsonTree>;

/// One level of a `serde_json::Value`.
pub enum JsonLevel<'a> {
    Null,
    Bool(bool),
    Number(JsonNumber),
    Text(&'a str),
    Array(&'a Vec<serde_json::Value>),
    Object(Vec<(&'a String, &'a serde_json::Value)>),
}

impl<'a> JsonLevel<'a> {
    /// The tree whose top level this is.
    pub open spec fn tree(self) -> JsonTree {
        match self {
            JsonLevel::Null => JsonTree::Null,
            JsonLevel::Bool(b) => JsonTree::Bool(b),
            JsonLevel::Number(n) => JsonTree::Number(n),
            JsonLevel::Text(s) => JsonTree::Text(s@),
            JsonLevel::Array(items) => JsonTree::Array(
                Seq::new(items@.len(), |i: int| json_contents(items@[i])),
            ),
            JsonLevel::Object(members) => JsonTree::Object(
                Seq::new(
                    members@.len(),
                    |i: int| (members@[i].0@, json_contents(*members@[i].1)),
                ),
            ),
        }
    }
}

/// Calls `serde_json::from_str` for a `serde_json::Value`.
///
/// Claims that success and the value read depend on the text alone.
#[verifier::external_body]
fn read_document(text: &str) -> (r: Result<serde_json::Value, serde_json::Error>)
    ensures
        r is Ok <==> json_document(text@) is Some,
        r matches Ok(v) ==> json_document(text@) == Some(json_contents(v)),
{
    serde_json::from_str::<serde_json::Value>(text)
}

/// The error type of `serde_json`.
#[verifier::external_type_specification]
#[verifier::external_body]
pub struct ExJsonError(serde_json::Error);

/// Takes a `serde_json::Value` apart by its variants. Numbers are read with
/// `serde_json::Number::as_u64`, `as_i64` and `as_f64`.
///
/// Claims that the level handed out, with the values below it, is what the value holds.
#[verifier::external_body]
fn open_level<'a>(value: &'a serde_json::Value) -> (r: JsonLevel<'a>)
    ensures
        r.tree() == json_contents(*value),
{
    match value {
        serde_json::Value::Null => JsonLevel::Null,
        serde_json::Value::Bool(b) => JsonLevel::Bool(*b),
        serde_json::Value::Number(n) => JsonLevel::Number(JsonNumber {
            unsigned: n.as_u64(),
            signed: n.as_i64(),
            truncated: n.as_f64().map(|x| x as i64),
        }),
        serde_json::Value::String(s) => JsonLevel::Text(s),
        serde_json::Value::Array(items) => JsonLevel::Array(items),
        serde_json::Value::Object(members) => JsonLevel::Object(members.iter().collect()),
    }
}

/// Copies a `serde_json::Value` into a value of this library.
fn json_of(value: &serde_json::Value) -> (r: Json)
    ensures
        r@ == json_contents(*value),
    decreases json_contents(*value),
{
    match open_level(value) {
        JsonLevel::Null => Json::Null,
        JsonLevel::Bool(b) => Json::Bool(b),
        JsonLevel::Number(n) => Json::Number(n),
        JsonLevel::Text(s) => Json::Text(s.to_string()),
        JsonLevel::Array(items) => {
            let mut out: Vec<Json> = Vec::new();
            let mut i: usize = 0;
            while i < items.len()
                invariant
                    i <= items@.len(),
                    out@.len() == i,
                    forall|k: int| 0 <= k < i ==> (#[trigger] out@[k])@ == json_contents(items@[k]),
                    json_contents(*value) == JsonLevel::Array(items).tree(),
                decreases items@.len() - i,
            {
                proof {
                    let tree = json_contents(*value);
                    assert(tree->Array_0[i as int] == json_contents(items@[i as int]));
                }
                out.push(json_of(&items[i]));
                i += 1;
            }
            let r = Json::Array(out);
            assert(r@->Array_0 =~= JsonLevel::Array(items).tree()->Array_0);
            r
        },
        JsonLevel::Object(members) => {
            let mut out: Vec<(String, Json)> = Vec::new();
            let mut i: usize = 0;
            while i < members.len()
                invariant
                    i <= members@.len(),
                    out@.len() == i,
                    forall|k: int|
                        0 <= k < i ==> (#[trigger] out@[k]).0@ == members@[k].0@ && out@[k].1@
                            == json_contents(*members@[k].1),
                    json_contents(*value) == JsonLevel::Object(members).tree(),
                decreases members@.len() - i,
            {
                proof {
                    let tree = json_contents(*value);
                    assert(tree->Object_0[i as int].1 == json_contents(*members@[i as int].1));
                }
                out.push((members[i].0.clone(), json_of(members[i].1)));
                i += 1;
            }
            let r = Json::Object(out);
            assert(r@->Object_0 =~= JsonLevel::Object(members).tree()->Object_0);
            r
        },
    }
}

/// The tree of a value that may be missing.
pub open spec fn tree_of(value: Option<Json>) -> Option<JsonTree> {
    match value {
        Some(v) => Some(v@),
        None => None,
    }
}

/// Reads a text as one JSON document; `None` where it is not one.
pub fn parse_json(text: &str) -> (r: Option<Json>)
    ensures
        tree_of(r) == json_document(text@),
{
    match read_document(text) {
        Ok(value) => Some(json_of(&value)),
        Err(_) => None,
    }
}

/// A value is what its tree says, part by part: all items and all members, in order.
pub proof fn law_value_is_its_tree(value: Json, i: int)
    ensures
        value is Null <==> value@ is Null,
        value matches Json::Bool(b) ==> value@ == JsonTree::Bool(b),
        value matches Json::Number(n) ==> value@ == JsonTree::Number(n),
        value matches Json::Text(s) ==> value@ == JsonTree::Text(s@),
        value matches Json::Array(items) ==> value@ is Array && value@->Array_0.len()
            == items@.len() && (0 <= i < items@.len() ==> value@->Array_0[i] == items@[i]@),
        value matches Json::Object(members) ==> value@ is Object && value@->Object_0.len()
            == members@.len() && (0 <= i < members@.len() ==> value@->Object_0[i] == (
            members@[i].0@,
            members@[i].1@,
        )),
{
}

/// The value of the first member with a key.
pub open spec fn member(members: Seq<(Seq<char>, JsonTree)>, key: Seq<char>) -> Option<JsonTree>
    decreases members.len(),
{
    if members.len() == 0 {
        None
    } else if members[0].0 == key {
        Some(members[0].1)
    } else {
        member(members.drop_first(), key)
    }
}

impl JsonTree {
    /// The value under a key, where this is an object that has it.
    pub open spec fn get(self, key: Seq<char>) -> Option<JsonTree> {
        match self {
            JsonTree::Object(members) => member(members, key),
            _ => None,
        }
    }

    /// The text, where this is a string.
    pub open spec fn text(self) -> Option<Seq<char>> {
        match self {
            JsonTree::Text(s) => Some(s),
            _ => None,
        }
    }

    /// The number, where this is an integer that a `u64` holds.
    pub open spec fn unsigned(self) -> Option<u64> {
        match self {
            JsonTree::Number(n) => n.unsigned,
            _ => None,
        }
    }

    /// The number, where this is an integer that an `i64` holds.
    pub open spec fn signed(self) -> Option<i64> {
        match self {
            JsonTree::Number(n) => n.signed,
            _ => None,
        }
    }

    /// The number without its fraction, where this is a number.
    pub open spec fn truncated(self) -> Option<i64> {
        match self {
            JsonTree::Number(n) => n.truncated,
            _ => None,
        }
    }

    /// The items, where this is an array.
    pub open spec fn items(self) -> Option<Seq<JsonTree>> {
        match self {
            JsonTree::Array(items) => Some(items),
            _ => None,
        }
    }

    /// The text under a key.
    pub open spec fn text_at(self, key: Seq<char>) -> Option<Seq<char>> {
        match self.get(key) {
            Some(v) => v.text(),
            None => None,
        }
    }

    /// The text under a key, or another where there is none.
    pub open spec fn text_or(self, key: Seq<char>, other: Seq<char>) -> Seq<char> {
        match self.text_at(key) {
            Some(s) => s,
            None => other,
        }
    }

    /// The count under a key; 0 where there is none.
    pub open spec fn count_at(self, key: Seq<char>) -> u64 {
        match self.get(key) {
            Some(v) => match v.unsigned() {
                Some(n) => n,
                None => 0,
            },
            None => 0,
        }
    }

    /// The integer under a key.
    pub open spec fn signed_at(self, key: Seq<char>) -> Option<i64> {
        match self.get(key) {
            Some(v) => v.signed(),
            None => None,
        }
    }

    /// The items of the array under a key.
    pub open spec fn items_at(self, key: Seq<char>) -> Option<Seq<JsonTree>> {
        match self.get(key) {
            Some(v) => v.items(),
            None => None,
        }
    }

    /// The value under one key, or under another where the first is missing.
    pub open spec fn get_either(self, first: Seq<char>, second: Seq<char>) -> Option<JsonTree> {
        match self.get(first) {
            Some(v) => Some(v),
            None => self.get(second),
        }
    }

    /// The value under a key of the value under a key.
    pub open spec fn get_in(self, outer: Seq<char>, inner: Seq<char>) -> Option<JsonTree> {
        match self.get(outer) {
            Some(v) => v.get(inner),
            None => None,
        }
    }
}

/// What stands under a key of an object is the first member with that key; other members do not
/// matter. Only objects have members, only strings are texts, and only numbers count: a text or a
/// count that is missing, or of another kind, is none.
pub proof fn law_members_are_found_by_key(
    members: Seq<(Seq<char>, JsonTree)>,
    i: int,
    key: Seq<char>,
    other: Seq<char>,
)
    requires
        0 <= i < members.len(),
        members[i].0 == key,
        forall|k: int| 0 <= k < i ==> (#[trigger] members[k]).0 != key,
    ensures
        ({
            let object = JsonTree::Object(members);
            let v = members[i].1;
            &&& object.get(key) == Some(v)
            &&& object.text_at(key) == match v {
                JsonTree::Text(s) => Some(s),
                _ => None,
            }
            &&& object.text_or(key, other) == match v {
                JsonTree::Text(s) => s,
                _ => other,
            }
            &&& object.count_at(key) == match v {
                JsonTree::Number(JsonNumber { unsigned: Some(n), .. }) => n,
                _ => 0,
            }
            &&& object.signed_at(key) == match v {
                JsonTree::Number(n) => n.signed,
                _ => None,
            }
            &&& v.truncated() == match v {
                JsonTree::Number(n) => n.truncated,
                _ => None,
            }
            &&& object.items_at(key) == match v {
                JsonTree::Array(items) => Some(items),
                _ => None,
            }
            &&& object.get_either(key, other) == Some(v)
            &&& object.get_in(key, other) == v.get(other)
        }),
{
    lemma_member_skip(members, key, i);
    assert(members.skip(i)[0] == members[i]);
}

/// What is no object, or an object without a key, has nothing under it.
pub proof fn law_missing_members_are_none(v: JsonTree, key: Seq<char>, other: Seq<char>)
    requires
        v matches JsonTree::Object(members) ==> forall|k: int|
            0 <= k < members.len() ==> (#[trigger] members[k]).0 != key,
    ensures
        v.get(key) is None,
        v.text_at(key) is None,
        v.text_or(key, other) == other,
        v.count_at(key) == 0,
        v.signed_at(key) is None,
        v.items_at(key) is None,
        v.get_either(key, other) == v.get(other),
        v.get_in(key, other) is None,
{
    if let JsonTree::Object(members) = v {
        lemma_member_skip(members, key, members.len() as int);
        assert(members.skip(members.len() as int).len() == 0);
    }
}

/// The tree of a borrowed value that may be missing.
pub open spec fn tree_at(value: Option<&Json>) -> Option<JsonTree> {
    match value {
        Some(v) => Some(v@),
        None => None,
    }
}

/// The trees of a list of values.
pub open spec fn trees(values: Seq<Json>) -> Seq<JsonTree> {
    values.map_values(|v: Json| v@)
}

proof fn lemma_member_skip(members: Seq<(Seq<char>, JsonTree)>, key: Seq<char>, n: int)
    requires
        0 <= n <= members.len(),
        forall|i: int| 0 <= i < n ==> (#[trigger] members[i]).0 != key,
    ensures
        member(members, key) == member(members.skip(n), key),
    decreases n,
{
    if n > 0 {
        assert(members[0].0 != key);
        assert(members.drop_first().skip(n - 1) =~= members.skip(n));
        lemma_member_skip(members.drop_first(), key, n - 1);
    } else {
        assert(members.skip(0) =~= members);
    }
}

impl Json {
    /// The value under a key, where this is an object that has it.
    pub fn get(&self, key: &str) -> (r: Option<&Json>)
        ensures
            tree_at(r) == self@.get(key@),
    {
        match self {
            Json::Object(members) => {
                let ghost seen = self@->Object_0;
                let mut i: usize = 0;
                while i < members.len()
                    invariant
                        i <= members@.len(),
                        self == Json::Object(*members),
                        seen == self@->Object_0,
                        seen.len() == members@.len(),
                        forall|k: int| 0 <= k < i ==> (#[trigger] seen[k]).0 != key@,
                    decreases members@.len() - i,
                {
                    assert(seen[i as int] == (members@[i as int].0@, members@[i as int].1@));
                    if crate::text::same(members[i].0.as_str(), key) {
                        proof {
                            lemma_member_skip(seen, key@, i as int);
                            assert(seen.skip(i as int)[0] == seen[i as int]);
                        }
                        return Some(&members[i].1);
                    }
                    i += 1;
                }
                proof {
                    lemma_member_skip(seen, key@, i as int);
                    assert(seen.skip(i as int).len() == 0);
                }
                None
            },
            _ => None,
        }
    }

    /// The text, where this is a string.
    pub fn as_str(&self) -> (r: Option<&str>)
        ensures
            crate::text::str_opt(r) == self@.text(),
    {
        match self {
            Json::Text(s) => Some(s.as_str()),
            _ => None,
        }
    }

    /// The number, where this is an integer that a `u64` holds.
    pub fn as_u64(&self) -> (r: Option<u64>)
        ensures
            r == self@.unsigned(),
    {
        match self {
            Json::Number(n) => n.unsigned,
            _ => None,
        }
    }

    /// The number, where this is an integer that an `i64` holds.
    pub fn as_i64(&self) -> (r: Option<i64>)
        ensures
            r == self@.signed(),
    {
        match self {
            Json::Number(n) => n.signed,
            _ => None,
        }
    }

    /// The number without its fraction, where this is a number.
    pub fn as_truncated(&self) -> (r: Option<i64>)
        ensures
            r == self@.truncated(),
    {
        match self {
            Json::Number(n) => n.truncated,
            _ => None,
        }
    }

    /// The items, where this is an array.
    pub fn as_array(&self) -> (r: Option<&Vec<Json>>)
        ensures
            match r {
                Some(items) => self@.items() == Some(trees(items@)),
                None => self@.items() is None,
            },
    {
        match self {
            Json::Array(items) => {
                assert(self@->Array_0 =~= trees(items@));
                Some(items)
            },
            _ => None,
        }
    }

    /// Whether this is `null`.
    pub fn is_null(&self) -> (r: bool)
        ensures
            r == (self@ is Null),
    {
        matches!(self, Json::Null)
    }

    /// The text under a key.
    pub fn text_at(&self, key: &str) -> (r: Option<&str>)
        ensures
            crate::text::str_opt(r) == self@.text_at(key@),
    {
        match self.get(key) {
            Some(v) => v.as_str(),
            None => None,
        }
    }

    /// The text under a key, or another where there is none.
    pub fn text_or<'a>(&'a self, key: &str, other: &'a str) -> (r: &'a str)
        ensures
            r@ == self@.text_or(key@, other@),
    {
        match self.text_at(key) {
            Some(s) => s,
            None => other,
        }
    }

    /// The count under a key; 0 where there is none.
    pub fn count_at(&self, key: &str) -> (r: u64)
        ensures
            r == self@.count_at(key@),
    {
        match self.get(key) {
            Some(v) => match v.as_u64() {
                Some(n) => n,
                None => 0,
            },
            None => 0,
        }
    }

    /// The integer under a key.
    pub fn signed_at(&self, key: &str) -> (r: Option<i64>)
        ensures
            r == self@.signed_at(key@),
    {
        match self.get(key) {
            Some(v) => v.as_i64(),
            None => None,
        }
    }

    /// The items of the array under a key.
    pub fn items_at(&self, key: &str) -> (r: Option<&Vec<Json>>)
        ensures
            match r {
                Some(items) => self@.items_at(key@) == Some(trees(items@)),
                None => self@.items_at(key@) is None,
            },
    {
        match self.get(key) {
            Some(v) => v.as_array(),
            None => None,
        }
    }

    /// The value under one key, or under another where the first is missing.
    pub fn get_either(&self, first: &str, second: &str) -> (r: Option<&Json>)
        ensures
            tree_at(r) == self@.get_either(first@, second@),
    {
        match self.get(first) {
            Some(v) => Some(v),
            None => self.get(second),
        }
    }

    /// The value under a key of the value under a key.
    pub fn get_in(&self, outer: &str, inner: &str) -> (r: Option<&Json>)
        ensures
            tree_at(r) == self@.get_in(outer@, inner@),
    {
        match self.get(outer) {
            Some(v) => v.get(inner),
            None => None,
        }
    }
}

} // verus!
