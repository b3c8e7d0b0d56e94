//! The JSON reading that the library leaves to `serde_json`.
use vstd::prelude::*;
use crate::text::views;
use crate::encryption::codec::hex_digit;

verus! {

/// The list of strings that `text` holds as JSON, if it is a JSON array of
/// strings, as `serde_json` reads it.
pub uninterp spec fn json_string_array_of(text: Seq<char>) -> Option<Seq<Seq<char>>>;

/// `serde_json::from_str::<Vec<String>>`, with the error dropped. The
/// contract claims that the result is a function of the text.
#[verifier::external_body]
pub(crate) fn json_string_array(text: &str) -> (r: Option<Vec<String>>)
    ensures
        r matches Some(v) ==> json_string_array_of(text@) == Some(views(v@)),
        r is None ==> json_string_array_of(text@) is None,
{
    serde_json::from_str::<Vec<String>>(text).ok()
}

/// How `text` reads as JSON with respect to the string member `field`:
/// `Err` with the parser's message where it is not JSON, `Ok(None)` where it
/// is but has no string member of that name, `Ok(Some(s))` where that member
/// is the string `s`.
pub uninterp spec fn json_str_field_of(text: Seq<char>, field: Seq<char>) -> Result<Option<Seq<char>>, Seq<char>>;

/// A string member as read, by its text.
pub open spec fn field_result_view(r: Result<Option<String>, String>) -> Result<Option<Seq<char>>, Seq<char>> {
    match r {
        Ok(Some(s)) => Ok(Some(s@)),
        Ok(None) => Ok(None),
        Err(e) => Err(e@),
    }
}

/// A string member `v` that was found.
pub open spec fn member_found(v: Seq<char>) -> Result<Option<Seq<char>>, Seq<char>> {
    Ok(Some(v))
}

/// `serde_json::from_str::<Value>`, then `Value::get` of `field` and
/// `Value::as_str`; a parse error is returned as its message. The contract
/// claims that the result is a function of the text and the field name, and
/// that reading what `serde_json::to_string_pretty` wrote for an object of
/// two string members with different names gives back each member, as does
/// reading a one-member object written as `json_object1` writes it.
#[verifier::external_body]
pub(crate) fn json_str_field(text: &str, field: &str) -> (r: Result<Option<String>, String>)
    ensures
        field_result_view(r) == json_str_field_of(text@, field@),
        forall|k1: Seq<char>, v1: Seq<char>, k2: Seq<char>, v2: Seq<char>| text@ == #[trigger] pretty_json_pair_of(k1, v1, k2, v2) && k1 != k2 && (field@ == k1 || field@ == k2) ==> field_result_view(r) == member_found(if field@ == k1 { v1 } else { v2 }),
        forall|k: Seq<char>, v: Seq<char>| text@ == #[trigger] json_object1(k, v) && field@ == k ==> field_result_view(r) == member_found(v),
{
    match serde_json::from_str::<serde_json::Value>(text) {
        Ok(v) => Ok(v.get(field).and_then(|f| f.as_str()).map(|s| s.to_string())),
        Err(e) => Err(e.to_string()),
    }
}

/// How `serde_json` writes the character `c` inside a JSON string: `"`, `\`
/// and the control characters below U+0020 are escaped (the short forms
/// `\b \f \n \r \t` where there is one, else `\u00` and two lowercase hex
/// digits); every other character stands as it is.
pub open spec fn json_escape_char(c: char) -> Seq<char> {
    if c == '"' {
        seq!['\\', '"']
    } else if c == '\\' {
        seq!['\\', '\\']
    } else if c == '\u{8}' {
        seq!['\\', 'b']
    } else if c == '\u{c}' {
        seq!['\\', 'f']
    } else if c == '\n' {
        seq!['\\', 'n']
    } else if c == '\r' {
        seq!['\\', 'r']
    } else if c == '\t' {
        seq!['\\', 't']
    } else if (c as int) < 0x20 {
        seq!['\\', 'u', '0', '0', hex_digit((c as int) / 16), hex_digit((c as int) % 16)]
    } else {
        seq![c]
    }
}

/// The characters of `s`, each written as in a JSON string.
pub open spec fn json_escaped(s: Seq<char>) -> Seq<char>
    decreases s.len(),
{
    if s.len() == 0 {
        seq![]
    } else {
        json_escape_char(s[0]) + json_escaped(s.drop_first())
    }
}

/// `s` as a JSON string literal, quotes included.
pub open spec fn json_quote(s: Seq<char>) -> Seq<char> {
    seq!['"'] + json_escaped(s) + seq!['"']
}

/// The compact JSON object with the one string member `k: v`.
pub open spec fn json_object1(k: Seq<char>, v: Seq<char>) -> Seq<char> {
    seq!['{'] + json_quote(k) + seq![':'] + json_quote(v) + seq!['}']
}

/// `serde_json::to_string` of a string slice: the text as a JSON string
/// literal, escaped as `serde_json`'s serializer does (see
/// `json_escape_char`). Writing a string into memory cannot fail.
#[verifier::external_body]
pub(crate) fn json_string(text: &str) -> (r: String)
    ensures
        r@ == json_quote(text@),
{
    match serde_json::to_string(text) {
        Ok(s) => s,
        Err(_) => String::new(),
    }
}

/// The text that `serde_json::to_string_pretty` writes for a JSON object of
/// the two string members `k1: v1` and `k2: v2`.
pub uninterp spec fn pretty_json_pair_of(k1: Seq<char>, v1: Seq<char>, k2: Seq<char>, v2: Seq<char>) -> Seq<char>;

/// `serde_json::to_string_pretty` of the object `{k1: v1, k2: v2}` (string
/// members). Writing a JSON value with string keys into memory cannot fail.
/// The contract claims that the result is a function of the four texts.
#[verifier::external_body]
pub(crate) fn pretty_json_pair(k1: &str, v1: &str, k2: &str, v2: &str) -> (r: String)
    ensures
        r@ == pretty_json_pair_of(k1@, v1@, k2@, v2@),
{
    let mut m = serde_json::Map::new();
    m.insert(k1.to_string(), serde_json::Value::String(v1.to_string()));
    m.insert(k2.to_string(), serde_json::Value::String(v2.to_string()));
    match serde_json::to_string_pretty(&serde_json::Value::Object(m)) {
        Ok(s) => s,
        Err(_) => String::new(),
    }
}

} // verus!
