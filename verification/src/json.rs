//! JSON texts as trees of plain values.

use vstd::prelude::*;

use crate::binary64::Binary64;
use crate::text::same_text;

verus! {

/// A JSON number, by what it reads as: a binary64 number, and the integers where it is one.
#[derive(Clone, Copy, Debug, PartialEq, Eq, Structural)]
pub struct Number {
    pub float: Option<Binary64>,
    pub unsigned: Option<u64>,
    pub signed: Option<i64>,
}

/// A JSON value.
#[derive(Debug)]
pub enum Json {
    Null,
    Bool(bool),
    Number(Number),
    Text(String),
    Array(Vec<Json>),
    Object(Vec<(String, Json)>),
}

/// A JSON value as mathematics.
pub enum JsonModel {
    Null,
    Bool(bool),
    Number(Number),
    Text(Seq<char>),
    Array(Seq<JsonModel>),
    Object(Seq<(Seq<char>, JsonModel)>),
}

impl Json {
    /// The value with its texts and lists taken by their contents.
    pub open spec fn model(self) -> JsonModel
        decreases self,
    {
        match self {
            Json::Null => JsonModel::Null,
            Json::Bool(b) => JsonModel::Bool(b),
            Json::Number(n) => JsonModel::Number(n),
            Json::Text(t) => JsonModel::Text(t@),
            Json::Array(items) => JsonModel::Array(
                Seq::new(
                    items@.len(),
                    |i: int|
                        if 0 <= i < items@.len() {
                            items@[i].model()
                        } else {
                            JsonModel::Null
                        },
                ),
            ),
            Json::Object(members) => JsonModel::Object(
                Seq::new(
                    members@.len(),
                    |i: int|
                        if 0 <= i < members@.len() {
                            (members@[i].0@, members@[i].1.model())
                        } else {
                            (Seq::empty(), JsonModel::Null)
                        },
                ),
            ),
        }
    }
}

impl View for Json {
    type V = JsonModel;

    open spec fn view(&self) -> JsonModel {
        self.model()
    }
}

/// The members of an object, one by one.
proof fn lemma_members(members: Vec<(String, Json)>)
    ensures
        Json::Object(members)@ is Object,
        Json::Object(members)@->Object_0.len() == members@.len(),
        forall|i: int|
            0 <= i < members@.len() ==> #[trigger] Json::Object(members)@->Object_0[i] == (
                members@[i].0@,
                members@[i].1@,
            ),
{
    reveal_with_fuel(Json::model, 2);
}

/// The value of the first member with this key.
pub open spec fn member_among(
    members: Seq<(Seq<char>, JsonModel)>,
    key: Seq<char>,
) -> Option<JsonModel>
    decreases members.len(),
{
    if members.len() == 0 {
        None
    } else if members[0].0 == key {
        Some(members[0].1)
    } else {
        member_among(members.drop_first(), key)
    }
}

impl JsonModel {
    /// The member of an object with this key. Other values have no members.
    pub open spec fn member(self, key: Seq<char>) -> Option<JsonModel> {
        match self {
            JsonModel::Object(members) => member_among(members, key),
            _ => None,
        }
    }

    /// What a number reads as. Other values are no numbers.
    pub open spec fn float(self) -> Option<Binary64> {
        match self {
            JsonModel::Number(n) => n.float,
            _ => None,
        }
    }
}

/// `serde_json::Value`, declared as an opaque type.
#[verifier::external_type_specification]
#[verifier::external_body]
pub struct ExValue(serde_json::Value);

/// The JSON value that a text holds, or `None` where it holds none: the result of
/// `serde_json::from_str`.
pub uninterp spec fn json_in(text: Seq<char>) -> Option<JsonModel>;

/// What a `serde_json::Value` holds.
pub uninterp spec fn content(value: serde_json::Value) -> JsonModel;

/// `serde_json::from_str`, into `serde_json::Value`. Trusted: whether it succeeds, and what the
/// value then holds, depends on the text alone.
#[verifier::external_body]
fn parse_value(text: &str) -> (r: Option<serde_json::Value>)
    ensures
        match r {
            Some(value) => json_in(text@) == Some(content(value)),
            None => json_in(text@) is None,
        },
{
    serde_json::from_str::<serde_json::Value>(text).ok()
}

/// The variants of `serde_json::Value`, each moved to its counterpart; `Number::as_f64`, `as_u64`
/// and `as_i64` say what a number reads as. Trusted: the tree holds what the value holds.
#[verifier::external_body]
fn json_from_value(value: serde_json::Value) -> (r: Json)
    ensures
        r@ == content(value),
{
    match value {
        serde_json::Value::Null => Json::Null,
        serde_json::Value::Bool(b) => Json::Bool(b),
        serde_json::Value::Number(n) => Json::Number(Number {
            float: n.as_f64().map(|x| Binary64 { bits: x.to_bits() }),
            unsigned: n.as_u64(),
            signed: n.as_i64(),
        }),
        serde_json::Value::String(t) => Json::Text(t),
        serde_json::Value::Array(items) => Json::Array(items.into_iter().map(json_from_value).collect()),
        serde_json::Value::Object(members) => Json::Object(
            members.into_iter().map(|(key, value)| (key, json_from_value(value))).collect()),
    }
}

/// The JSON value that the text holds.
pub fn parse_json(text: &str) -> (r: Option<Json>)
    ensures
        match r {
            Some(json) => json_in(text@) == Some(json@),
            None => json_in(text@) is None,
        },
{
    match parse_value(text) {
        Some(value) => Some(json_from_value(value)),
        None => None,
    }
}

impl Json {
    /// The member of an object with this key.
    pub fn member(&self, key: &str) -> (r: Option<&Json>)
        ensures
            match r {
                Some(json) => self@.member(key@) == Some(json@),
                None => self@.member(key@) is None,
            },
    {
        match self {
            Json::Object(members) => {
                let ghost all = self@->Object_0;
                let n: usize = members.len();
                proof {
                    lemma_members(*members);
                }
                assert(all.skip(0) == all);
                for i in 0..n
                    invariant
                        *self == Json::Object(*members),
                        n == members@.len(),
                        all == self@->Object_0,
                        all.len() == n,
                        forall|j: int|
                            0 <= j < n ==> #[trigger] all[j] == (members@[j].0@, members@[j].1@),
                        self@.member(key@) == member_among(all.skip(i as int), key@),
                {
                    let member = &members[i];
                    assert(all.skip(i as int)[0] == all[i as int]);
                    assert(all.skip(i as int).drop_first() == all.skip(i + 1));
                    if same_text(member.0.as_str(), key) {
                        return Some(&member.1);
                    }
                }
                None
            },
            _ => None,
        }
    }

    /// The member of an object with this key, taken out of it.
    pub fn into_member(self, key: &str) -> (r: Option<Json>)
        ensures
            match r {
                Some(json) => self@.member(key@) == Some(json@),
                None => self@.member(key@) is None,
            },
    {
        let ghost whole = self;
        match self {
            Json::Object(members) => {
                let ghost all = whole@->Object_0;
                let ghost parts = members@;
                proof {
                    lemma_members(members);
                }
                assert(all.skip(0) == all);
                for member in it: members
                    invariant
                        it.seq() == parts,
                        whole == self,
                        whole is Object,
                        all == whole@->Object_0,
                        all.len() == parts.len(),
                        forall|j: int|
                            0 <= j < all.len() ==> #[trigger] all[j] == (
                                parts[j].0@,
                                parts[j].1@,
                            ),
                        whole@.member(key@) == member_among(all.skip(it.index()), key@),
                {
                    proof {
                        let i = it.index();
                        assert(all.skip(i)[0] == all[i]);
                        assert(all.skip(i).drop_first() == all.skip(i + 1));
                    }
                    if same_text(member.0.as_str(), key) {
                        return Some(member.1);
                    }
                }
                None
            },
            _ => None,
        }
    }

    /// What a number reads as.
    pub fn float(&self) -> (r: Option<Binary64>)
        ensures
            r == self@.float(),
    {
        match self {
            Json::Number(n) => n.float,
            _ => None,
        }
    }

    pub fn is_null(&self) -> (r: bool)
        ensures
            r == (self@ is Null),
    {
        match self {
            Json::Null => true,
            _ => false,
        }
    }
}

/// The member of an object is the first of its key; where there is none of that key, or the value is
/// no object, there is no member.
pub proof fn law_member(members: Seq<(Seq<char>, JsonModel)>, key: Seq<char>, value: JsonModel)
    ensures
        forall|k: int|
            0 <= k < members.len() && (#[trigger] members[k]).0 == key && (forall|j: int|
                0 <= j < k ==> (#[trigger] members[j]).0 != key) ==> JsonModel::Object(
                members,
            ).member(key) == Some(members[k].1),
        (forall|k: int| 0 <= k < members.len() ==> (#[trigger] members[k]).0 != key)
            ==> JsonModel::Object(members).member(key) is None,
        !(value is Object) ==> value.member(key) is None,
    decreases members.len(),
{
    if members.len() > 0 {
        let rest = members.drop_first();
        law_member(rest, key, value);
        assert(JsonModel::Object(rest).member(key) == member_among(rest, key));
        assert forall|k: int|
            0 <= k < members.len() && (#[trigger] members[k]).0 == key && (forall|j: int|
                0 <= j < k ==> (#[trigger] members[j]).0 != key) implies JsonModel::Object(
            members,
        ).member(key) == Some(members[k].1) by {
            if k > 0 {
                assert(members[0].0 != key);
                assert(rest[k - 1] == members[k]);
                assert forall|j: int| 0 <= j < k - 1 implies (#[trigger] rest[j]).0 != key by {
                    assert(rest[j] == members[j + 1]);
                }
            }
        }
        if forall|k: int| 0 <= k < members.len() ==> (#[trigger] members[k]).0 != key {
            assert(members[0].0 != key);
            assert forall|k: int| 0 <= k < rest.len() implies (#[trigger] rest[k]).0 != key by {
                assert(rest[k] == members[k + 1]);
            }
        }
    }
}

/// Only a number reads as one.
pub proof fn law_float(value: JsonModel)
    ensures
        value is Number ==> value.float() == value->Number_0.float,
        !(value is Number) ==> value.float() is None,
{
}

} // verus!
