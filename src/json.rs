use vstd::prelude::*;
use vstd::string::StringExecFns;

use crate::number::radix_string;
use crate::number::radix_text;

verus! {

#[verifier::external_type_specification]
#[verifier::external_body]
pub struct ExJsonError(serde_json::Error);

/// The number of elements of the JSON array that a text writes; none where
/// serde_json does not read the text as one JSON array (it also refuses an
/// array nested deeper than 128 levels).
pub uninterp spec fn json_array_len(text: Seq<char>) -> Option<nat>;

/// The member under `key` of element `index` of the JSON array that a text
/// writes, where that member is a JSON string: its text.
pub uninterp spec fn json_member_text(text: Seq<char>, index: int, key: Seq<char>) -> Option<Seq<char>>;

/// The member under `key` of element `index` of the JSON array that a text
/// writes, where that member is a JSON integer that fits in a u64: its value.
pub uninterp spec fn json_member_u64(text: Seq<char>, index: int, key: Seq<char>) -> Option<u64>;

/// The text of an optional string.
pub open spec fn text_of(o: Option<String>) -> Option<Seq<char>> {
    match o {
        Some(s) => Some(s@),
        None => None,
    }
}

/// The string member under `key` of element `index`, or the empty text where
/// there is none.
pub open spec fn member_or_empty(text: Seq<char>, index: int, key: Seq<char>) -> Seq<char> {
    match json_member_text(text, index, key) {
        Some(s) => s,
        None => Seq::empty(),
    }
}

/// A syscall number member of element `index`: a JSON number written in
/// decimal, else the string, else the empty text.
pub open spec fn number_member_text(text: Seq<char>, index: int, key: Seq<char>) -> Seq<char> {
    match json_member_u64(text, index, key) {
        Some(n) => radix_text(n as nat, 10),
        None => member_or_empty(text, index, key),
    }
}

/// Relies on serde_json::from_str (the text read as a JSON array of values),
/// serde_json::Value::get (an object's member under a key), and
/// serde_json::Value::as_str and serde_json::Value::as_u64 (a member's string,
/// or its value as a u64): for each element, each key's member as plain values.
#[verifier::external_body]
pub(crate) fn parse_members(text: &str, keys: &Vec<&str>) -> (r: Result<
    Vec<Vec<(Option<String>, Option<u64>)>>,
    serde_json::Error,
>)
    ensures
        match json_array_len(text@) {
            Some(n) => r matches Ok(items) && items@.len() == n && forall|k: int|
                0 <= k < n ==> (#[trigger] items@[k])@.len() == keys@.len() && forall|j: int|
                    0 <= j < keys@.len() ==> text_of((#[trigger] items@[k]@[j]).0) == json_member_text(
                        text@,
                        k,
                        keys@[j]@,
                    ) && items@[k]@[j].1 == json_member_u64(text@, k, keys@[j]@),
            None => r is Err,
        },
{
    let items: Vec<serde_json::Value> = serde_json::from_str(text)?;
    Ok(items.iter().map(|v| keys.iter().map(|key| {
        let m = v.get(*key);
        (m.and_then(|x| x.as_str()).map(String::from), m.and_then(|x| x.as_u64()))
    }).collect()).collect())
}

/// A field that the source may omit: its text, or the empty string.
pub fn text_or_empty(o: &Option<String>) -> (r: String)
    ensures
        r@ == match text_of(*o) {
            Some(s) => s,
            None => Seq::empty(),
        },
{
    match o {
        Some(s) => s.clone(),
        None => String::new(),
    }
}

/// A syscall number given either as a JSON number or as a string: the number
/// written in decimal, else the string, else the empty string.
pub fn number_text(number: &Option<u64>, text: &Option<String>) -> (r: String)
    ensures
        r@ == match *number {
            Some(n) => radix_text(n as nat, 10),
            None => match text_of(*text) {
                Some(s) => s,
                None => Seq::empty(),
            },
        },
{
    match number {
        Some(n) => radix_string(*n, 10),
        None => text_or_empty(text),
    }
}

} // verus!
