//! JSON objects as the JSON crate keeps, prints and reads them.

use vstd::prelude::*;

verus! {

/// How deep objects may nest in a text that is read back: the JSON crate
/// refuses more than about a hundred levels.
pub const READABLE_DEPTH: u32 = 16;

/// Declares `serde_json::Map`, of which only what `json_members` says of an
/// object is known.
#[verifier::external_type_specification]
#[verifier::external_body]
#[verifier::reject_recursive_types(K)]
#[verifier::reject_recursive_types(V)]
pub struct ExJsonMap<K, V>(serde_json::Map<K, V>);

/// Declares `serde_json::Value`, of which nothing is known.
#[verifier::external_type_specification]
#[verifier::external_body]
pub struct ExJsonValue(serde_json::Value);

/// An object of the JSON crate.
pub type JsonObject = serde_json::Map<String, serde_json::Value>;

/// A value to put under a key of an object.
pub enum Json {
    Null,
    Text(String),
    Number(u32),
    Object(JsonObject),
    List(Vec<JsonObject>),
}

/// What a value under a key of an object is.
pub enum JsonView {
    Null,
    Text(Seq<char>),
    Number(u32),
    Object(Map<Seq<char>, JsonView>),
    List(Seq<Map<Seq<char>, JsonView>>),
}

/// The keys of an object with their values.
pub uninterp spec fn json_members(object: JsonObject) -> Map<Seq<char>, JsonView>;

/// The text of an object with the given keys and values.
pub uninterp spec fn json_text(members: Map<Seq<char>, JsonView>) -> Seq<char>;

/// The text under a key of the object that a JSON text describes.
pub uninterp spec fn json_lookup(text: Seq<char>, key: Seq<char>) -> Option<Seq<char>>;

/// No keys at all.
pub open spec fn no_members() -> Map<Seq<char>, JsonView> {
    Map::empty()
}

/// What a `Json` is.
pub open spec fn json_view(value: Json) -> JsonView {
    match value {
        Json::Null => JsonView::Null,
        Json::Text(text) => JsonView::Text(text@),
        Json::Number(n) => JsonView::Number(n),
        Json::Object(object) => JsonView::Object(json_members(object)),
        Json::List(items) => JsonView::List(
            items@.map_values(|object: JsonObject| json_members(object)),
        ),
    }
}

/// The text that stands directly under a key.
pub open spec fn text_under(members: Map<Seq<char>, JsonView>, key: Seq<char>) -> Option<
    Seq<char>,
> {
    if members.contains_key(key) {
        match members[key] {
            JsonView::Text(text) => Some(text),
            _ => None,
        }
    } else {
        None
    }
}

/// Whether objects nest at most `depth` levels deep under a set of keys.
pub open spec fn nests_at_most(members: Map<Seq<char>, JsonView>, depth: nat) -> bool
    decreases depth,
{
    forall|key: Seq<char>| #[trigger]
        members.contains_key(key) ==> match members[key] {
            JsonView::Object(inner) => depth > 0 && nests_at_most(inner, (depth - 1) as nat),
            JsonView::List(items) => depth > 0 && forall|i: int|
                0 <= i < items.len() ==> nests_at_most(#[trigger] items[i], (depth - 1) as nat),
            _ => true,
        }
}

/// The text under a key is there where the key has a text; a key that is
/// missing, or has anything else, has none.
pub proof fn lemma_text_stands_under_its_key(
    members: Map<Seq<char>, JsonView>,
    key: Seq<char>,
    text: Seq<char>,
)
    ensures
        no_members() == Map::<Seq<char>, JsonView>::empty(),
        text_under(members, key) == Some(text) <==> members.contains_key(key) && members[key]
            == JsonView::Text(text),
{
}

/// Calls `serde_json::Map::new`: an object without keys.
#[verifier::external_body]
pub(crate) fn new_object() -> (object: JsonObject)
    ensures
        json_members(object) == no_members(),
{
    serde_json::Map::new()
}

/// Calls `serde_json::Map::insert`: the key has the value, in place of any
/// that it had.
#[verifier::external_body]
pub(crate) fn set_member(object: &mut JsonObject, key: String, value: Json)
    ensures
        json_members(*final(object)) == json_members(*old(object)).insert(key@, json_view(value)),
{
    let value = match value {
        Json::Null => serde_json::Value::Null,
        Json::Text(text) => serde_json::Value::String(text),
        Json::Number(n) => serde_json::Value::from(n),
        Json::Object(inner) => serde_json::Value::Object(inner),
        Json::List(items) => items.into(),
    };
    object.insert(key, value);
}

/// Calls `to_string` on an object as a `serde_json::Value`. The text is named,
/// not stated; of it is said that reading it back finds the texts that stand
/// directly under the keys, and no others.
#[verifier::external_body]
pub(crate) fn print_object(object: &JsonObject) -> (text: String)
    ensures
        text@ == json_text(json_members(*object)),
        nests_at_most(json_members(*object), READABLE_DEPTH as nat) ==> forall|key: Seq<char>|
            json_lookup(text@, key) == #[trigger] text_under(json_members(*object), key),
{
    serde_json::Value::Object(object.clone()).to_string()
}

/// Calls `serde_json::from_str` for a `serde_json::Value`, then `get` and
/// `as_str`: nothing comes out where the text is no JSON, is no object, or has
/// no text under the key.
#[verifier::external_body]
pub(crate) fn read_member(text: &str, key: &str) -> (value: Option<String>)
    ensures
        value is Some <==> json_lookup(text@, key@) is Some,
        value matches Some(found) ==> json_lookup(text@, key@) == Some(found@),
{
    let value = serde_json::from_str::<serde_json::Value>(text).ok()?;
    value.get(key)?.as_str().map(|found| found.to_string())
}

} // verus!
