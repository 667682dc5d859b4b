//! JSON, by way of `serde_json`: whether a text is JSON, what stands at a place in it, and
//! an object of strings as text.
use serde_json::Value;
use vstd::prelude::*;
use crate::text::pairs;

verus! {

/// What is wrong with a text that is not JSON; nothing where it is.
pub uninterp spec fn json_error_of(text: Seq<char>) -> Option<Seq<char>>;

/// The string at a place in a JSON text, named by a JSON pointer.
pub uninterp spec fn json_string_at(text: Seq<char>, pointer: Seq<char>) -> Option<Seq<char>>;

/// The length of the array at a place in a JSON text, named by a JSON pointer.
pub uninterp spec fn json_count_at(text: Seq<char>, pointer: Seq<char>) -> Option<nat>;

/// An object of strings as JSON text.
pub uninterp spec fn json_object_of(fields: Seq<(Seq<char>, Seq<char>)>) -> Seq<char>;

/// A name that a JSON pointer writes as it is.
pub open spec fn is_plain_name(name: Seq<char>) -> bool {
    forall|i: int| 0 <= i < name.len() ==> #[trigger] name[i] != '/' && name[i] != '~'
}

/// Fields with names that all differ, and that a JSON pointer writes as they are.
pub open spec fn has_plain_names(fields: Seq<(Seq<char>, Seq<char>)>) -> bool {
    &&& forall|i: int| 0 <= i < fields.len() ==> is_plain_name((#[trigger] fields[i]).0)
    &&& forall|i: int, j: int|
        0 <= i < j < fields.len() ==> (#[trigger] fields[i]).0 != (#[trigger] fields[j]).0
}

/// `serde_json::from_str` into a `Value`: the words of its error, or nothing where the
/// text is JSON. They depend on the text alone.
#[verifier::external_body]
pub(crate) fn json_error(text: &str) -> (r: Option<String>)
    ensures
        match r {
            Some(e) => json_error_of(text@) == Some(e@),
            None => json_error_of(text@) is None,
        },
{
    match serde_json::from_str::<Value>(text) {
        Ok(_) => None,
        Err(e) => Some(e.to_string()),
    }
}

/// `serde_json::Value::pointer` and `as_str`, on the text read by `serde_json::from_str`:
/// the string at a place; nothing where something else stands there, or nothing at all, or
/// the text is not JSON. It depends on the text and the pointer alone.
#[verifier::external_body]
pub(crate) fn json_string(text: &str, pointer: &str) -> (r: Option<String>)
    ensures
        match r {
            Some(s) => json_string_at(text@, pointer@) == Some(s@),
            None => json_string_at(text@, pointer@) is None,
        },
{
    let value = serde_json::from_str::<Value>(text).ok()?;
    value.pointer(pointer)?.as_str().map(str::to_owned)
}

/// `serde_json::Value::pointer` and `as_array`, on the text read by
/// `serde_json::from_str`: the length of the array at a place; nothing where something else
/// stands there, or nothing at all, or the text is not JSON. It depends on the text and the
/// pointer alone.
#[verifier::external_body]
pub(crate) fn json_count(text: &str, pointer: &str) -> (r: Option<usize>)
    ensures
        match r {
            Some(n) => json_count_at(text@, pointer@) == Some(n as nat),
            None => json_count_at(text@, pointer@) is None,
        },
{
    let value = serde_json::from_str::<Value>(text).ok()?;
    value.pointer(pointer)?.as_array().map(Vec::len)
}

/// `serde_json::Value` collected from pairs of strings, and its `to_string`: a JSON object.
/// The text depends on the pairs alone. It is JSON, and where the names differ each value
/// is read back under its name.
#[verifier::external_body]
pub(crate) fn json_object(fields: &[(String, String)]) -> (r: String)
    ensures
        r@ == json_object_of(pairs(fields@)),
        json_error_of(r@) is None,
        has_plain_names(pairs(fields@)) ==> forall|i: int|
            0 <= i < fields@.len() ==> json_string_at(
                r@,
                "/"@ + (#[trigger] pairs(fields@)[i]).0,
            ) == Some(pairs(fields@)[i].1),
{
    let object: Value = fields.iter().map(|(k, v)| (k.as_str(), v.as_str())).collect();
    object.to_string()
}

} // verus!
