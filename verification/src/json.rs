//! JSON documents: what a document is, and the building and printing of one
//! through `serde_json`.

use vstd::prelude::*;

verus! {

/// A JSON document. An object is a map: it holds each key once, and the order
/// of its keys carries no meaning.
#[verifier::ext_equal]
pub enum Json {
    Null,
    Bool(bool),
    Number(int),
    Text(Seq<char>),
    Array(Seq<Json>),
    Object(Map<Seq<char>, Json>),
}

#[verifier::external_type_specification]
#[verifier::external_body]
pub struct ExValue(serde_json::Value);

#[verifier::external_type_specification]
#[verifier::external_body]
#[verifier::reject_recursive_types(K)]
#[verifier::reject_recursive_types(V)]
pub struct ExObject<K, V>(serde_json::Map<K, V>);

/// The document that a `serde_json::Value` holds.
pub uninterp spec fn document(v: serde_json::Value) -> Json;

/// The members that a `serde_json::Map` holds.
pub uninterp spec fn members(m: serde_json::Map<String, serde_json::Value>) -> Map<Seq<char>, Json>;

/// The text that `serde_json` prints for a document.
pub uninterp spec fn json_text(j: Json) -> Seq<char>;

/// The documents that a list of values holds.
pub open spec fn documents(vs: Seq<serde_json::Value>) -> Seq<Json> {
    vs.map_values(|v: serde_json::Value| document(v))
}

/// Prints a document in compact form.
///
/// Claims of `to_string` on `serde_json::Value` that the text is a function of
/// the document (objects are printed by ascending key), and that it holds no line
/// feed: the compact form puts none between tokens, and in strings they are
/// escaped.
#[verifier::external_body]
pub(crate) fn print(v: &serde_json::Value) -> (r: String)
    ensures
        r@ == json_text(document(*v)),
        forall|i: int| 0 <= i < r@.len() ==> r@[i] != '\n',
{
    v.to_string()
}

/// Makes the document `null`.
///
/// Claims of `serde_json::Value::from` on `()` that it is that document.
#[verifier::external_body]
pub(crate) fn null() -> (r: serde_json::Value)
    ensures
        document(r) == Json::Null,
{
    serde_json::Value::from(())
}

/// Makes a truth value.
///
/// Claims of `serde_json::Value::from` on `bool` that it holds this value.
#[verifier::external_body]
pub(crate) fn truth(b: bool) -> (r: serde_json::Value)
    ensures
        document(r) == Json::Bool(b),
{
    serde_json::Value::from(b)
}

/// Makes a number.
///
/// Claims of `serde_json::Value::from` on `u64` that it holds this number.
#[verifier::external_body]
pub(crate) fn number(n: u64) -> (r: serde_json::Value)
    ensures
        document(r) == Json::Number(n as int),
{
    serde_json::Value::from(n)
}

/// Makes a signed number.
///
/// Claims of `serde_json::Value::from` on `i64` that it holds this number.
#[verifier::external_body]
pub(crate) fn signed_number(n: i64) -> (r: serde_json::Value)
    ensures
        document(r) == Json::Number(n as int),
{
    serde_json::Value::from(n)
}

/// Makes a text.
///
/// Claims of `serde_json::Value::from` on `&str` that it holds these characters.
#[verifier::external_body]
pub(crate) fn text(s: &str) -> (r: serde_json::Value)
    ensures
        document(r) == Json::Text(s@),
{
    serde_json::Value::from(s)
}

/// Makes an array.
///
/// Claims of `serde_json::Value::from` on `Vec<serde_json::Value>` that it holds
/// these documents in this order.
#[verifier::external_body]
pub(crate) fn array(items: Vec<serde_json::Value>) -> (r: serde_json::Value)
    ensures
        document(r) == Json::Array(documents(items@)),
{
    serde_json::Value::from(items)
}

/// Makes an object out of its members.
///
/// Claims of `serde_json::Value::from` on `serde_json::Map` that it holds these
/// members.
#[verifier::external_body]
pub(crate) fn object(m: serde_json::Map<String, serde_json::Value>) -> (r: serde_json::Value)
    ensures
        document(r) == Json::Object(members(m)),
{
    serde_json::Value::from(m)
}

/// Starts an object.
///
/// Claims of `serde_json::Map::new` that it has no members.
#[verifier::external_body]
fn empty_map() -> (r: serde_json::Map<String, serde_json::Value>)
    ensures
        members(r).is_empty(),
{
    serde_json::Map::new()
}

/// Gives an object a member.
///
/// Claims of `serde_json::Map::insert` that afterwards the key has this value and
/// all other members are as before.
#[verifier::external_body]
pub(crate) fn insert(
    m: &mut serde_json::Map<String, serde_json::Value>,
    key: &str,
    value: serde_json::Value,
)
    ensures
        members(*final(m)) == members(*old(m)).insert(key@, document(value)),
{
    m.insert(key.to_string(), value);
}

/// Starts an object without members.
pub(crate) fn start() -> (r: serde_json::Map<String, serde_json::Value>)
    ensures
        members(r) == Map::<Seq<char>, Json>::empty(),
{
    let r = empty_map();
    assert(members(r) =~= Map::<Seq<char>, Json>::empty());
    r
}

/// A number that may be absent.
pub open spec fn optional_number(n: Option<u64>) -> Json {
    match n {
        Some(v) => Json::Number(v as int),
        None => Json::Null,
    }
}

/// Makes a number, or `null` where there is none.
pub(crate) fn number_or_null(n: Option<u64>) -> (r: serde_json::Value)
    ensures
        document(r) == optional_number(n),
{
    match n {
        Some(v) => number(v),
        None => null(),
    }
}

/// A truth value that may be absent.
pub open spec fn optional_truth(b: Option<bool>) -> Json {
    match b {
        Some(v) => Json::Bool(v),
        None => Json::Null,
    }
}

/// Makes a truth value, or `null` where there is none.
pub(crate) fn truth_or_null(b: Option<bool>) -> (r: serde_json::Value)
    ensures
        document(r) == optional_truth(b),
{
    match b {
        Some(v) => truth(v),
        None => null(),
    }
}

}
