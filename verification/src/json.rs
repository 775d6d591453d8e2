//! JSON documents as plain values, read by `serde_json`.

use crate::text::{opt_text, same_text};
use vstd::prelude::*;

verus! {

/// A JSON value. A number carries its integer form, where it is an integer that
/// an `i64` holds, and its floating-point form in decimal.
pub enum Json {
    Null,
    Bool(bool),
    Number(Option<i64>, Option<String>),
    Text(String),
    Array(Vec<Json>),
    Object(Vec<(String, Json)>),
}

/// The mathematical form of a JSON value.
pub enum JsonModel {
    Null,
    Bool(bool),
    Number(Option<i64>, Option<Seq<char>>),
    Text(Seq<char>),
    Array(Seq<JsonModel>),
    Object(Seq<(Seq<char>, JsonModel)>),
}

/// The value of the first pair with the given key.
pub open spec fn first_for<V>(pairs: Seq<(Seq<char>, V)>, key: Seq<char>) -> Option<V>
    decreases pairs.len(),
{
    if pairs.len() == 0 {
        None
    } else if pairs[0].0 == key {
        Some(pairs[0].1)
    } else {
        first_for(pairs.skip(1), key)
    }
}

impl JsonModel {
    /// The member of an object with the given name.
    pub open spec fn get(self, key: Seq<char>) -> Option<JsonModel> {
        match self {
            JsonModel::Object(members) => first_for(members, key),
            _ => None,
        }
    }

    /// The integer that this is.
    pub open spec fn as_int(self) -> Option<i64> {
        match self {
            JsonModel::Number(i, _) => i,
            _ => None,
        }
    }

    /// The floating-point number that this is, in decimal.
    pub open spec fn as_real(self) -> Option<Seq<char>> {
        match self {
            JsonModel::Number(_, x) => x,
            _ => None,
        }
    }

    /// The text that this is.
    pub open spec fn as_text(self) -> Option<Seq<char>> {
        match self {
            JsonModel::Text(s) => Some(s),
            _ => None,
        }
    }

    /// The items of an array.
    pub open spec fn as_array(self) -> Option<Seq<JsonModel>> {
        match self {
            JsonModel::Array(items) => Some(items),
            _ => None,
        }
    }

    /// The text in the member with the given name.
    pub open spec fn text_at(self, key: Seq<char>) -> Option<Seq<char>> {
        match self.get(key) {
            Some(v) => v.as_text(),
            None => None,
        }
    }

    /// The integer in the member with the given name.
    pub open spec fn int_at(self, key: Seq<char>) -> Option<i64> {
        match self.get(key) {
            Some(v) => v.as_int(),
            None => None,
        }
    }

    /// The floating-point number in the member with the given name.
    pub open spec fn real_at(self, key: Seq<char>) -> Option<Seq<char>> {
        match self.get(key) {
            Some(v) => v.as_real(),
            None => None,
        }
    }

    /// What stands under two names, one inside the other.
    pub open spec fn inside(self, outer: Seq<char>, inner: Seq<char>) -> Option<JsonModel> {
        match self.get(outer) {
            Some(v) => v.get(inner),
            None => None,
        }
    }
}

impl Json {
    /// The mathematical form.
    pub open spec fn model(self) -> JsonModel
        decreases self,
    {
        match self {
            Json::Null => JsonModel::Null,
            Json::Bool(b) => JsonModel::Bool(b),
            Json::Number(i, x) => JsonModel::Number(i, opt_text(x)),
            Json::Text(s) => JsonModel::Text(s@),
            Json::Array(items) => JsonModel::Array(
                Seq::new(
                    items@.len(),
                    |i: int|
                        if 0 <= i < items@.len() {
                            items@[i].model()
                        } else {
                            JsonModel::Null
                        },
                ),
            ),
            Json::Object(members) => JsonModel::Object(
                Seq::new(
                    members@.len(),
                    |i: int|
                        if 0 <= i < members@.len() {
                            (members@[i].0@, members@[i].1.model())
                        } else {
                            (Seq::empty(), JsonModel::Null)
                        },
                ),
            ),
        }
    }
}

/// The mathematical form of an optional reference.
pub open spec fn opt_model(o: Option<&Json>) -> Option<JsonModel> {
    match o {
        Some(j) => Some(j.model()),
        None => None,
    }
}

// ---------------------------------------------------------------------------
// serde_json
// ---------------------------------------------------------------------------

/// A value of `serde_json`, carried between the two functions below.
#[verifier::external_type_specification]
#[verifier::external_body]
pub struct ExValue(serde_json::Value);

/// One layer of a `serde_json` value.
pub enum Layer {
    Null,
    Bool(bool),
    Number(Option<i64>, Option<String>),
    Text(String),
    Array(Vec<serde_json::Value>),
    Object(Vec<(String, serde_json::Value)>),
}

/// The document that `serde_json::from_str` reads from a text, if it accepts it.
pub uninterp spec fn json_document(text: Seq<char>) -> Option<JsonModel>;

/// What a `serde_json` value holds.
pub uninterp spec fn json_content(v: serde_json::Value) -> JsonModel;

impl Layer {
    /// What a value with this layer holds.
    pub open spec fn content(self) -> JsonModel {
        match self {
            Layer::Null => JsonModel::Null,
            Layer::Bool(b) => JsonModel::Bool(b),
            Layer::Number(i, x) => JsonModel::Number(i, opt_text(x)),
            Layer::Text(s) => JsonModel::Text(s@),
            Layer::Array(items) => JsonModel::Array(
                items@.map_values(|v: serde_json::Value| json_content(v)),
            ),
            Layer::Object(members) => JsonModel::Object(
                members@.map_values(|m: (String, serde_json::Value)| (m.0@, json_content(m.1))),
            ),
        }
    }
}

/// `serde_json::from_str` into a `serde_json::Value`. Its result depends on the
/// text alone.
#[verifier::external_body]
fn parse_value(text: &str) -> (r: Option<serde_json::Value>)
    ensures
        match r {
            Some(v) => json_document(text@) == Some(json_content(v)),
            None => json_document(text@) is None,
        },
{
    serde_json::from_str(text).ok()
}

/// Takes a `serde_json::Value` apart by one layer: a number gives what
/// `Number::as_i64` and `Number::as_f64` give, the latter in decimal.
#[verifier::external_body]
fn open_value(v: serde_json::Value) -> (r: Layer)
    ensures
        r.content() == json_content(v),
{
    match v {
        serde_json::Value::Null => Layer::Null,
        serde_json::Value::Bool(b) => Layer::Bool(b),
        serde_json::Value::Number(n) => Layer::Number(n.as_i64(), n.as_f64().map(|x| x.to_string())),
        serde_json::Value::String(s) => Layer::Text(s),
        serde_json::Value::Array(items) => Layer::Array(items),
        serde_json::Value::Object(members) => Layer::Object(members.into_iter().collect()),
    }
}

/// A `serde_json` value as a plain one.
fn into_json(v: serde_json::Value) -> (r: Json)
    ensures
        r.model() == json_content(v),
    decreases json_content(v),
{
    let ghost content = json_content(v);
    match open_value(v) {
        Layer::Null => Json::Null,
        Layer::Bool(b) => Json::Bool(b),
        Layer::Number(i, x) => Json::Number(i, x),
        Layer::Text(s) => Json::Text(s),
        Layer::Array(items) => {
            let ghost all = items@;
            let mut out: Vec<Json> = Vec::new();
            for item in it: items
                invariant
                    it.seq() == all,
                    content == json_content(v),
                    content == JsonModel::Array(
                        all.map_values(|v: serde_json::Value| json_content(v)),
                    ),
                    out@.len() == it.index(),
                    forall|k: int|
                        0 <= k < out@.len() ==> (#[trigger] out@[k]).model() == json_content(all[k]),
            {
                proof {
                    let s = all.map_values(|v: serde_json::Value| json_content(v));
                    assert(s[it.index()] == json_content(item));
                    assert(decreases_to!(content => content->Array_0));
                    assert(decreases_to!(s => s[it.index()]));
                }
                out.push(into_json(item));
            }
            let r = Json::Array(out);
            proof {
                assert(r.model()->Array_0 =~= content->Array_0);
            }
            r
        },
        Layer::Object(members) => {
            let ghost all = members@;
            let mut out: Vec<(String, Json)> = Vec::new();
            for member in it: members
                invariant
                    it.seq() == all,
                    content == json_content(v),
                    content == JsonModel::Object(
                        all.map_values(
                            |m: (String, serde_json::Value)| (m.0@, json_content(m.1)),
                        ),
                    ),
                    out@.len() == it.index(),
                    forall|k: int|
                        0 <= k < out@.len() ==> (#[trigger] out@[k]).0@ == all[k].0@
                            && out@[k].1.model() == json_content(all[k].1),
            {
                proof {
                    let s = all.map_values(
                        |m: (String, serde_json::Value)| (m.0@, json_content(m.1)),
                    );
                    assert(s[it.index()] == (member.0@, json_content(member.1)));
                    assert(decreases_to!(content => content->Object_0));
                    assert(decreases_to!(s => s[it.index()]));
                    assert(decreases_to!(s[it.index()] => s[it.index()].1));
                }
                let (name, value) = member;
                out.push((name, into_json(value)));
            }
            let r = Json::Object(out);
            proof {
                assert(r.model()->Object_0 =~= content->Object_0);
            }
            r
        },
    }
}

/// Reads a JSON document.
pub fn parse_json(text: &str) -> (r: Option<Json>)
    ensures
        match r {
            Some(j) => json_document(text@) == Some(j.model()),
            None => json_document(text@) is None,
        },
{
    match parse_value(text) {
        Some(v) => Some(into_json(v)),
        None => None,
    }
}

impl Json {
    /// The member of an object with the given name.
    pub fn get(&self, key: &str) -> (r: Option<&Json>)
        ensures
            opt_model(r) == self.model().get(key@),
    {
        match self {
            Json::Object(members) => {
                let ghost all = self.model()->Object_0;
                let mut i: usize = 0;
                assert(all.skip(0) == all);
                while i < members.len()
                    invariant
                        i <= members@.len(),
                        *self == Json::Object(*members),
                        all == self.model()->Object_0,
                        first_for(all.skip(i as int), key@) == first_for(all, key@),
                    decreases members@.len() - i,
                {
                    assert(all.skip(i as int)[0] == all[i as int]);
                    assert(all[i as int] == (members@[i as int].0@, members@[i as int].1.model()));
                    if same_text(members[i].0.as_str(), key) {
                        return Some(&members[i].1);
                    }
                    assert(all.skip(i as int).skip(1) == all.skip(i + 1));
                    i += 1;
                }
                None
            },
            _ => None,
        }
    }

    /// The integer that this is.
    pub fn as_i64(&self) -> (r: Option<i64>)
        ensures
            r == self.model().as_int(),
    {
        match self {
            Json::Number(i, _) => *i,
            _ => None,
        }
    }

    /// The floating-point number that this is, in decimal.
    pub fn as_real(&self) -> (r: Option<String>)
        ensures
            opt_text(r) == self.model().as_real(),
    {
        match self {
            Json::Number(_, x) => match x {
                Some(s) => Some(s.clone()),
                None => None,
            },
            _ => None,
        }
    }

    /// The text that this is.
    pub fn as_text(&self) -> (r: Option<String>)
        ensures
            opt_text(r) == self.model().as_text(),
    {
        match self {
            Json::Text(s) => Some(s.clone()),
            _ => None,
        }
    }

    /// The text in the member with the given name.
    pub fn text_at(&self, key: &str) -> (r: Option<String>)
        ensures
            opt_text(r) == self.model().text_at(key@),
    {
        match self.get(key) {
            Some(v) => v.as_text(),
            None => None,
        }
    }

    /// The integer in the member with the given name.
    pub fn int_at(&self, key: &str) -> (r: Option<i64>)
        ensures
            r == self.model().int_at(key@),
    {
        match self.get(key) {
            Some(v) => v.as_i64(),
            None => None,
        }
    }

    /// The floating-point number in the member with the given name.
    pub fn real_at(&self, key: &str) -> (r: Option<String>)
        ensures
            opt_text(r) == self.model().real_at(key@),
    {
        match self.get(key) {
            Some(v) => v.as_real(),
            None => None,
        }
    }

    /// What stands under two names, one inside the other.
    pub fn inside(&self, outer: &str, inner: &str) -> (r: Option<&Json>)
        ensures
            opt_model(r) == self.model().inside(outer@, inner@),
    {
        match self.get(outer) {
            Some(v) => v.get(inner),
            None => None,
        }
    }
}

} // verus!
