//! JSON values of `serde_json`, and what they hold.

use serde_json::Value;
use vstd::prelude::*;

verus! {

/// What a JSON value holds.
pub enum Json {
    Null,
    Bool(bool),
    /// A number without a fraction or an exponent that fits in 64 bits.
    Int(int),
    /// Any other number, by the bits of its double-precision form.
    Float(u64),
    Str(Seq<char>),
    Arr(Seq<Json>),
    Obj(Map<Seq<char>, Json>),
}

impl Json {
    /// The member of an object under `key`, if it is an object and has one.
    pub open spec fn member(self, key: Seq<char>) -> Option<Json> {
        match self {
            Json::Obj(m) => if m.contains_key(key) {
                Some(m[key])
            } else {
                None
            },
            _ => None,
        }
    }

    /// The text of the member under `key`; none where that is no string.
    pub open spec fn str_member(self, key: Seq<char>) -> Seq<char> {
        match self.member(key) {
            Some(Json::Str(s)) => s,
            _ => Seq::empty(),
        }
    }

    pub open spec fn is_number(self) -> bool {
        self is Int || self is Float
    }

    /// Whether this is an object all of whose members are strings.
    pub open spec fn is_string_record(self) -> bool {
        match self {
            Json::Obj(m) => forall|k: Seq<char>| #[trigger] m.contains_key(k) ==> m[k] is Str,
            _ => false,
        }
    }
}

/// `serde_json::Value`, a JSON value.
#[verifier::external_type_specification]
#[verifier::external_body]
pub struct ExValue(serde_json::Value);

/// What a `serde_json::Value` holds.
pub uninterp spec fn json_of(value: serde_json::Value) -> Json;

/// What `serde_json::from_str` makes of a text as a `Value`, if it accepts it.
pub uninterp spec fn json_parsed(text: Seq<char>) -> Option<Json>;

/// The compact text that `Value`'s `Display` gives of what a value holds.
pub uninterp spec fn json_text(json: Json) -> Seq<char>;

/// `Value::Null`.
#[verifier::external_body]
pub(crate) fn null() -> (res: Value)
    ensures
        json_of(res) == Json::Null,
{
    Value::Null
}

/// `Value::from` a string slice: a JSON string with the same characters.
#[verifier::external_body]
pub(crate) fn string(s: &str) -> (res: Value)
    ensures
        json_of(res) == Json::Str(s@),
{
    Value::from(s)
}

/// `Value::from` an unsigned number: a JSON number of that value.
#[verifier::external_body]
pub(crate) fn number(n: u32) -> (res: Value)
    ensures
        json_of(res) == Json::Int(n as int),
{
    Value::from(n)
}

/// The JSON strings of a list of texts, in order.
pub open spec fn str_array(list: Seq<String>) -> Json {
    Json::Arr(list.map_values(|s: String| Json::Str(s@)))
}

/// `Value::from` a slice of strings: a JSON array of their JSON strings.
#[verifier::external_body]
pub(crate) fn strings(list: &[String]) -> (res: Value)
    ensures
        json_of(res) == str_array(list@),
{
    Value::from(list)
}

/// `Value::Object` of `serde_json::Map::new`: an object without members.
#[verifier::external_body]
pub(crate) fn object() -> (res: Value)
    ensures
        json_of(res) == Json::Obj(Map::empty()),
{
    Value::Object(serde_json::Map::new())
}

/// Assignment through `Value`'s `IndexMut` by a key: the member under the key
/// is the new value, whether or not there was one before. On what is neither
/// an object nor null the index panics.
#[verifier::external_body]
pub(crate) fn set_member(object: &mut Value, key: &str, value: Value)
    requires
        json_of(*old(object)) is Obj,
    ensures
        json_of(*final(object)) == Json::Obj(
            json_of(*old(object))->Obj_0.insert(key@, json_of(value)),
        ),
{
    object[key] = value;
}

/// `Value::get` by a key: the member under that key, where there is one.
#[verifier::external_body]
pub(crate) fn member<'a>(value: &'a Value, key: &str) -> (res: Option<&'a Value>)
    ensures
        match res {
            Some(v) => json_of(*value).member(key@) == Some(json_of(*v)),
            None => json_of(*value).member(key@) is None,
        },
{
    value.get(key)
}

/// `Value::as_str`: the characters of a JSON string, and nothing for any other
/// value.
#[verifier::external_body]
pub(crate) fn as_str(value: &Value) -> (res: Option<&str>)
    ensures
        match res {
            Some(s) => json_of(*value) == Json::Str(s@),
            None => !(json_of(*value) is Str),
        },
{
    value.as_str()
}

/// `Value::is_number`.
#[verifier::external_body]
pub(crate) fn is_number(value: &Value) -> (res: bool)
    ensures
        res == json_of(*value).is_number(),
{
    value.is_number()
}

/// `ToString` of a `Value`: its compact text. That text has no line break and
/// no other control character, since they are escaped; and parsing it gives
/// back an object of strings.
#[verifier::external_body]
pub(crate) fn text_of(value: &Value) -> (res: String)
    ensures
        res@ == json_text(json_of(*value)),
        forall|i: int| 0 <= i < res@.len() ==> (#[trigger] res@[i]) as u32 >= 0x20,
        json_of(*value).is_string_record() ==> json_parsed(res@) == Some(json_of(*value)),
{
    value.to_string()
}

/// `serde_json::from_str` into a `Value`; a text that it refuses gives nothing.
#[verifier::external_body]
pub(crate) fn parse(text: &str) -> (res: Option<Value>)
    ensures
        match res {
            Some(v) => json_parsed(text@) == Some(json_of(v)),
            None => json_parsed(text@) is None,
        },
{
    serde_json::from_str(text).ok()
}

/// The text of the member under `key`; the empty text where that is no string.
pub fn str_member<'a>(value: &'a Value, key: &str) -> (res: &'a str)
    ensures
        res@ == json_of(*value).str_member(key@),
{
    match member(value, key) {
        Some(v) => match as_str(v) {
            Some(s) => s,
            None => {
                proof {
                    reveal_strlit("");
                }
                assert(""@ =~= Seq::empty());
                ""
            },
        },
        None => {
            proof {
                reveal_strlit("");
            }
            assert(""@ =~= Seq::empty());
            ""
        },
    }
}

/// A member is found under its own key, with what it holds; the text of a
/// member is that of a string, and what is missing or no string has none.
pub proof fn law_members(m: Map<Seq<char>, Json>, key: Seq<char>, text: Seq<char>)
    ensures
        m.contains_key(key) ==> Json::Obj(m).member(key) == Some(m[key]),
        !m.contains_key(key) ==> Json::Obj(m).member(key) is None,
        m.contains_key(key) && m[key] == Json::Str(text) ==> Json::Obj(m).str_member(key) == text,
        !(m.contains_key(key) && m[key] is Str) ==> Json::Obj(m).str_member(key).len() == 0,
        Json::Null.member(key) is None && Json::Str(text).member(key) is None,
        Json::Null.str_member(key).len() == 0 && Json::Str(text).str_member(key).len() == 0,
{
}

/// A list of texts is an array of as many strings, each with its own text.
pub proof fn law_str_array(list: Seq<String>)
    ensures
        str_array(list) matches Json::Arr(items) && items.len() == list.len() && forall|i: int|
            0 <= i < items.len() ==> #[trigger] items[i] == Json::Str(list[i]@),
{
}

} // verus!
