//! The outside types that the library carries through its logic without
//! looking inside them, and the few calls it makes on JSON values.

use vstd::prelude::*;

verus! {

/// A JSON object of `serde_json`, carried as it is from input to output.
#[verifier::external_type_specification]
#[verifier::external_body]
#[verifier::reject_recursive_types(K)]
#[verifier::reject_recursive_types(V)]
pub struct ExJsonMap<K, V>(serde_json::Map<K, V>);

/// A JSON value of `serde_json`.
#[verifier::external_type_specification]
#[verifier::external_body]
pub struct ExJsonValue(serde_json::Value);

/// A file system path of std.
#[verifier::external_type_specification]
#[verifier::external_body]
pub struct ExPathBuf(std::path::PathBuf);

/// A compiled regular expression of `regex`.
#[verifier::external_type_specification]
#[verifier::external_body]
pub struct ExRegex(regex::Regex);

/// Why `regex` refused to compile a pattern.
#[verifier::external_type_specification]
#[verifier::external_body]
pub struct ExRegexError(regex::Error);

/// An insertion-ordered hash map of `indexmap`.
#[verifier::external_type_specification]
#[verifier::external_body]
#[verifier::reject_recursive_types(K)]
#[verifier::reject_recursive_types(V)]
#[verifier::reject_recursive_types(S)]
pub struct ExIndexMap<K, V, S>(indexmap::IndexMap<K, V, S>);

/// An I/O error of std.
#[verifier::external_type_specification]
#[verifier::external_body]
pub struct ExIoError(std::io::Error);

/// A JSON parse error of `serde_json`.
#[verifier::external_type_specification]
#[verifier::external_body]
pub struct ExJsonError(serde_json::Error);

/// An HTTP request error of `ureq`.
#[verifier::external_type_specification]
#[verifier::external_body]
pub struct ExRequestError(ureq::Error);

/// The JSON objects that outbounds, selectors and configurations carry.
pub type JsonObject = serde_json::Map<String, serde_json::Value>;

/// `<serde_json::Map<String, Value> as Clone>::clone`: the copy is the same
/// object as the original.
pub assume_specification[ <serde_json::Map<String, serde_json::Value> as Clone>::clone ](
    m: &serde_json::Map<String, serde_json::Value>,
) -> (r: serde_json::Map<String, serde_json::Value>)
    ensures
        r == *m,
;

/// `<std::path::PathBuf as Clone>::clone`: the copy is the same path.
pub assume_specification[ <std::path::PathBuf as Clone>::clone ](p: &std::path::PathBuf) -> (r:
    std::path::PathBuf)
    ensures
        r == *p,
;

/// The value that a JSON object holds under a key (`None` where the key is
/// absent).
pub uninterp spec fn json_field(m: JsonObject, key: Seq<char>) -> Option<serde_json::Value>;

/// `serde_json::Map::get`: the value stored under `key`, where there is one.
#[verifier::external_body]
pub(crate) fn json_get<'a>(m: &'a JsonObject, key: &str) -> (r: Option<&'a serde_json::Value>)
    ensures
        r matches Some(v) ==> json_field(*m, key@) == Some(*v),
        r is None ==> json_field(*m, key@) is None,
{
    m.get(key)
}

/// The text of a JSON value where it is a JSON string (`None` for every
/// other kind of value).
pub uninterp spec fn json_as_str(v: serde_json::Value) -> Option<Seq<char>>;

/// `serde_json::Value::as_str`: the text of a JSON string, `None` for any
/// other value.
#[verifier::external_body]
pub(crate) fn json_value_as_str<'a>(v: &'a serde_json::Value) -> (r: Option<&'a str>)
    ensures
        r matches Some(s) ==> json_as_str(*v) == Some(s@),
        r is None ==> json_as_str(*v) is None,
{
    v.as_str()
}

/// The views of a sequence of strings.
pub open spec fn strings_view(v: Seq<String>) -> Seq<Seq<char>> {
    v.map_values(|s: String| s@)
}

/// Copies a vector of strings, element by element.
pub(crate) fn clone_strings(v: &Vec<String>) -> (r: Vec<String>)
    ensures
        strings_view(r@) == strings_view(v@),
{
    let r = v.clone();
    assert(strings_view(r@) =~= strings_view(v@));
    r
}

} // verus!
