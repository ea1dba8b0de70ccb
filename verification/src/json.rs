//! JSON documents, as `serde_json` reads them.
//!
//! [`Json`] is the model of a document. What stands in a
//! [`Value`](serde_json::Value) is named [`contents`], and what a text parses to
//! is named [`parsed`]; the accessors are stated over the model.

use serde_json::Value;
use vstd::prelude::*;

verus! {

/// A JSON document, in the model.
pub enum Json {
    /// `null`.
    Null,
    /// `true` or `false`.
    Bool(bool),
    /// A number. Its value does not matter here.
    Number,
    /// A string.
    Text(Seq<char>),
    /// An array.
    List(Seq<Json>),
    /// An object.
    Table(Map<Seq<char>, Json>),
}

impl Json {
    /// The value of `key`, if this is an object that has it.
    pub open spec fn member(self, key: Seq<char>) -> Option<Json> {
        match self {
            Json::Table(map) => if map.dom().contains(key) {
                Some(map[key])
            } else {
                None
            },
            _ => None,
        }
    }

    /// The value of `inner` in the object that is the value of `outer`.
    pub open spec fn nested(self, outer: Seq<char>, inner: Seq<char>) -> Option<Json> {
        match self.member(outer) {
            None => None,
            Some(table) => table.member(inner),
        }
    }

    /// The characters, if this is a string.
    pub open spec fn text(self) -> Option<Seq<char>> {
        match self {
            Json::Text(s) => Some(s),
            _ => None,
        }
    }

    /// The items, if this is an array.
    pub open spec fn list(self) -> Option<Seq<Json>> {
        match self {
            Json::List(items) => Some(items),
            _ => None,
        }
    }

    /// The characters of the value of `key`, if that is a string.
    pub open spec fn member_text(self, key: Seq<char>) -> Option<Seq<char>> {
        match self.member(key) {
            None => None,
            Some(value) => value.text(),
        }
    }
}

/// A JSON value of `serde_json`.
#[verifier::external_type_specification]
#[verifier::external_body]
pub struct ExValue(serde_json::Value);

/// Why a text is not JSON.
#[verifier::external_type_specification]
#[verifier::external_body]
pub struct ExError(serde_json::Error);

/// What stands in a value.
pub uninterp spec fn contents(v: serde_json::Value) -> Json;

/// What a text parses to: nothing, if it is not a JSON document.
pub uninterp spec fn parsed(bytes: Seq<u8>) -> Option<Json>;

/// `serde_json::from_slice`, into a [`Value`](serde_json::Value). Its result is
/// named: a value with the contents that the text parses to, or an error if
/// there are none.
#[verifier::external_body]
pub(crate) fn parse(bytes: &[u8]) -> (r: Result<Value, serde_json::Error>)
    ensures
        parsed(bytes@) == match r {
            Ok(v) => Some(contents(v)),
            Err(_) => None,
        },
{
    serde_json::from_slice::<Value>(bytes)
}

/// `serde_json::Value::get` with a string index: the value of that key, if this
/// is an object that has it, and nothing for any other value.
#[verifier::external_body]
pub(crate) fn get<'a>(v: &'a Value, key: &str) -> (r: Option<&'a Value>)
    ensures
        contents(*v).member(key@) == match r {
            Some(value) => Some(contents(*value)),
            None => None,
        },
{
    v.get(key)
}

/// `serde_json::Value::as_str`: the characters of a string, and nothing for any
/// other value.
pub assume_specification[ serde_json::Value::as_str ](v: &serde_json::Value) -> (r: Option<&str>)
    ensures
        contents(*v).text() == match r {
            Some(s) => Some(s@),
            None => None,
        },
;

/// `serde_json::Value::as_array`: the items of an array, in order, and nothing
/// for any other value.
pub assume_specification[ serde_json::Value::as_array ](v: &serde_json::Value) -> (r: Option<
    &Vec<serde_json::Value>,
>)
    ensures
        contents(*v).list() == match r {
            Some(items) => Some(items@.map_values(|item: serde_json::Value| contents(item))),
            None => None,
        },
;

/// A key that a JSON pointer spells as it is and that indexes no array: it has
/// neither `/` nor `~`, and does not start with a digit.
pub open spec fn plain_key(key: Seq<char>) -> bool {
    &&& !key.contains('/')
    &&& !key.contains('~')
    &&& key.len() > 0
    &&& !('0' <= key[0] <= '9')
}

/// The JSON pointer to `inner` in `outer`.
pub open spec fn pointer_to(outer: Seq<char>, inner: Seq<char>) -> Seq<char> {
    seq!['/'] + outer + seq!['/'] + inner
}

/// `serde_json::Value::pointer`, for pointers of two plain keys: the value of the
/// second in the object that is the value of the first, and nothing if either is
/// missing or its place is not an object. Other pointers are not used.
pub assume_specification<'a>[ serde_json::Value::pointer ](
    v: &'a serde_json::Value,
    pointer: &str,
) -> (r: Option<&'a serde_json::Value>)
    requires
        exists|outer: Seq<char>, inner: Seq<char>|
            plain_key(outer) && plain_key(inner) && pointer@ == #[trigger] pointer_to(
                outer,
                inner,
            ),
    ensures
        forall|outer: Seq<char>, inner: Seq<char>|
            plain_key(outer) && plain_key(inner) && pointer@ == #[trigger] pointer_to(
                outer,
                inner,
            ) ==> contents(*v).nested(outer, inner) == match r {
                Some(value) => Some(contents(*value)),
                None => None,
            },
;

/// What is found in a value: a key only in an object that has it, characters
/// only in a string, items only in an array, and an inner key only in what the
/// outer one leads to.
pub proof fn lemma_lookup(
    j: Json,
    map: Map<Seq<char>, Json>,
    key: Seq<char>,
    inner: Seq<char>,
    s: Seq<char>,
    items: Seq<Json>,
)
    ensures
        map.dom().contains(key) ==> Json::Table(map).member(key) == Some(map[key]),
        !map.dom().contains(key) ==> Json::Table(map).member(key) is None,
        j.member(key) is Some ==> j is Table,
        Json::Text(s).text() == Some(s),
        j.text() is Some ==> j is Text,
        Json::List(items).list() == Some(items),
        j.list() is Some ==> j is List,
        j.member(key) matches Some(v) ==> j.nested(key, inner) == v.member(inner),
        j.member(key) is None ==> j.nested(key, inner) is None,
        j.member(key) == Some(Json::Text(s)) ==> j.member_text(key) == Some(s),
        j.member_text(key) is Some ==> j.member(key) is Some && j.member(key)->0 is Text,
{
}

} // verus!
