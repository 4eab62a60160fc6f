//! The JSON values that requests are made of.

use vstd::prelude::*;
use vstd::string::*;

verus! {

/// A JSON value in the body of a request.
#[derive(Debug)]
pub enum JsonValue {
    Text(String),
    Flag(bool),
    Number(u64),
    /// The members in order; no key stands there twice.
    Object(Vec<(String, JsonValue)>),
}

/// A JSON value, with its texts as sequences of characters.
#[verifier::ext_equal]
pub enum Json {
    Text(Seq<char>),
    Flag(bool),
    Number(u64),
    Object(Seq<(Seq<char>, Json)>),
}

/// The JSON value, with its texts as sequences of characters.
pub open spec fn json_of(value: JsonValue) -> Json
    decreases value,
{
    match value {
        JsonValue::Text(text) => Json::Text(text@),
        JsonValue::Flag(flag) => Json::Flag(flag),
        JsonValue::Number(number) => Json::Number(number),
        JsonValue::Object(members) => Json::Object(
            Seq::new(
                members@.len(),
                |i: int|
                    if 0 <= i < members@.len() {
                        (members@[i].0@, json_of(members@[i].1))
                    } else {
                        arbitrary()
                    },
            ),
        ),
    }
}

impl View for JsonValue {
    type V = Json;

    open spec fn view(&self) -> Json {
        json_of(*self)
    }
}

/// The members of an object, with their texts as sequences of characters.
pub open spec fn members_view(members: Seq<(String, JsonValue)>) -> Seq<(Seq<char>, Json)> {
    members.map_values(|member: (String, JsonValue)| (member.0@, member.1@))
}

#[verifier::external_type_specification]
#[verifier::external_body]
pub struct ExSerdeValue(serde_json::Value);

#[verifier::external_type_specification]
#[verifier::external_body]
#[verifier::reject_recursive_types(K)]
#[verifier::reject_recursive_types(V)]
pub struct ExSerdeMap<K, V>(serde_json::Map<K, V>);

/// The members of a `serde_json::Map`, in order.
pub uninterp spec fn object_members(
    object: serde_json::Map<String, serde_json::Value>,
) -> Seq<(Seq<char>, Json)>;

/// Whether one of the members has this key.
pub open spec fn has_key(members: Seq<(Seq<char>, Json)>, key: Seq<char>) -> bool {
    exists|i: int| 0 <= i < members.len() && (#[trigger] members[i]).0 == key
}

/// No members at all.
pub open spec fn no_members() -> Seq<(Seq<char>, Json)> {
    Seq::empty()
}

/// `serde_json::Map::new`: there are no members.
#[verifier::external_body]
pub(crate) fn new_object() -> (r: serde_json::Map<String, serde_json::Value>)
    ensures
        object_members(r) == no_members(),
{
    serde_json::Map::new()
}

/// `serde_json::Map::insert` with a text: a member with a new key becomes the last one,
/// as the feature `preserve_order` has it.
#[verifier::external_body]
pub(crate) fn add_text(
    object: &mut serde_json::Map<String, serde_json::Value>,
    key: &str,
    value: &str,
)
    requires
        !has_key(object_members(*old(object)), key@),
    ensures
        object_members(*final(object)) == object_members(*old(object)).push(
            (key@, Json::Text(value@)),
        ),
{
    object.insert(key.to_owned(), value.into());
}

/// `serde_json::Map::insert` with a number: a member with a new key becomes the last one,
/// as the feature `preserve_order` has it.
#[verifier::external_body]
pub(crate) fn add_number(
    object: &mut serde_json::Map<String, serde_json::Value>,
    key: &str,
    value: u64,
)
    requires
        !has_key(object_members(*old(object)), key@),
    ensures
        object_members(*final(object)) == object_members(*old(object)).push(
            (key@, Json::Number(value)),
        ),
{
    object.insert(key.to_owned(), value.into());
}

/// A text.
pub fn json_text(text: &str) -> (r: JsonValue)
    ensures
        r@ == Json::Text(text@),
{
    JsonValue::Text(text.to_owned())
}

/// A member of an object.
pub fn json_member(key: &str, value: JsonValue) -> (r: (String, JsonValue))
    ensures
        r.0@ == key@,
        r.1 == value,
{
    (key.to_owned(), value)
}

/// An object with these members.
pub fn json_object(members: Vec<(String, JsonValue)>) -> (r: JsonValue)
    ensures
        r@ == Json::Object(members_view(members@)),
{
    let ghost seen = members@;
    let object = JsonValue::Object(members);
    proof {
        reveal_with_fuel(json_of, 2);
    }
    assert(object@->Object_0 =~= members_view(seen));
    object
}

/// A value that reads as a text is that text.
pub proof fn law_texts_are_read_as_they_are(value: JsonValue)
    ensures
        value@ matches Json::Text(s) ==> (value matches JsonValue::Text(text) && text@ == s),
        value@ matches Json::Flag(b) ==> value == JsonValue::Flag(b),
        value@ matches Json::Number(n) ==> value == JsonValue::Number(n),
        value matches JsonValue::Text(text) ==> value@ == Json::Text(text@),
{
}

/// A value that reads as an object has the members that are read, in order.
pub proof fn law_objects_are_read_as_they_are(value: JsonValue)
    ensures
        value@ matches Json::Object(read) ==> (value matches JsonValue::Object(members)
            && members@.len() == read.len() && forall|i: int|
            0 <= i < read.len() ==> (#[trigger] members@[i]).0@ == read[i].0 && members@[i].1@
                == read[i].1),
{
    reveal_with_fuel(json_of, 2);
    if let JsonValue::Object(members) = value {
        let read = value@->Object_0;
        assert(read.len() == members@.len());
        assert forall|i: int| 0 <= i < read.len() implies (#[trigger] members@[i]).0@ == read[i].0
            && members@[i].1@ == read[i].1 by {}
    }
}

} // verus!
