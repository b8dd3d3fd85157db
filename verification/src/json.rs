//! What the library reads of JSON documents (`package.json`), read by
//! `serde_json`.
use vstd::prelude::*;

verus! {

/// For a JSON text whose top-level value is an object with a string under
/// `key`, that string; `None` otherwise (not JSON, no such member, or not
/// a string).
pub uninterp spec fn json_string_field(text: Seq<char>, key: Seq<char>) -> Option<Seq<char>>;

/// For a JSON text whose top-level value is an object with an object under
/// `key`, the members of that object in `serde_json`'s order: each name,
/// with its value when the value is a string; `None` otherwise.
pub uninterp spec fn json_object_members(text: Seq<char>, key: Seq<char>) -> Option<
    Seq<(Seq<char>, Option<Seq<char>>)>,
>;

pub open spec fn opt_view(o: Option<String>) -> Option<Seq<char>> {
    match o {
        Some(s) => Some(s@),
        None => None,
    }
}

pub open spec fn member_views(v: Seq<(String, Option<String>)>) -> Seq<(Seq<char>, Option<Seq<char>>)> {
    v.map_values(|m: (String, Option<String>)| (m.0@, opt_view(m.1)))
}

/// `serde_json::from_str::<serde_json::Value>(text)`, then `get(key)` and
/// `as_str`. The result is named by `json_string_field`: it depends on the
/// text and the key alone; nothing more is stated of it.
#[verifier::external_body]
pub(crate) fn string_field(text: &str, key: &str) -> (r: Option<String>)
    ensures
        opt_view(r) == json_string_field(text@, key@),
{
    let value = serde_json::from_str::<serde_json::Value>(text).ok()?;
    value.get(key)?.as_str().map(str::to_string)
}

/// `serde_json::from_str::<serde_json::Value>(text)`, then `get(key)` and
/// `as_object`, each member with `as_str` of its value. The result is
/// named by `json_object_members`: it depends on the text and the key
/// alone; nothing more is stated of it.
#[verifier::external_body]
pub(crate) fn object_members(text: &str, key: &str) -> (r: Option<Vec<(String, Option<String>)>>)
    ensures
        match r {
            Some(v) => json_object_members(text@, key@) == Some(member_views(v@)),
            None => json_object_members(text@, key@) is None,
        },
{
    let value = serde_json::from_str::<serde_json::Value>(text).ok()?;
    let members = value.get(key)?.as_object()?;
    Some(members.iter().map(|(name, v)| (name.clone(), v.as_str().map(str::to_string))).collect())
}

} // verus!
