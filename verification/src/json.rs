//! The one question that is put to a line of JSON.

use vstd::prelude::*;

verus! {

#[verifier::external_type_specification]
#[verifier::external_body]
pub struct ExJsonError(serde_json::Error);

/// What `serde_json` reads in a text under a key: `None` where it does not
/// parse the text as one JSON value; else, under `Some`, the string that the
/// value's member of that key is, and `None` where the value is no object, has
/// no such member, or has one that is no string.
pub uninterp spec fn json_string_member(text: Seq<char>, key: Seq<char>) -> Option<
    Option<Seq<char>>,
>;

/// `serde_json::from_str` into a `serde_json::Value`, then `Value::get` and
/// `Value::as_str`: fails exactly where the text does not parse, and else
/// gives a copy of the string member, if there is one. What is read is a
/// function of the text and the key; what the error says is left open.
#[verifier::external_body]
pub(crate) fn string_member(text: &str, key: &str) -> (res: Result<
    Option<String>,
    serde_json::Error,
>)
    ensures
        match res {
            Ok(Some(member)) => json_string_member(text@, key@) == Some(Some(member@)),
            Ok(None) => json_string_member(text@, key@) == Some(None::<Seq<char>>),
            Err(_) => json_string_member(text@, key@) is None,
        },
{
    let value: serde_json::Value = serde_json::from_str(text)?;
    Ok(value.get(key).and_then(serde_json::Value::as_str).map(str::to_owned))
}

} // verus!
