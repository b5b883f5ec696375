//! Small JSON writers for request bodies: strings, arrays of strings and
//! objects of string values.

use vstd::prelude::*;
use vstd::string::*;
use crate::text::{json_escape_chars, json_string, push_char, push_json_escaped};

verus! {

broadcast use vstd::string::group_string_axioms;

/// Parts joined with commas.
pub open spec fn comma_joined(parts: Seq<Seq<char>>) -> Seq<char>
    decreases parts.len(),
{
    if parts.len() == 0 {
        Seq::empty()
    } else if parts.len() == 1 {
        parts[0]
    } else {
        comma_joined(parts.drop_last()) + seq![','] + parts.last()
    }
}

/// The views of a sequence of strings.
pub open spec fn string_views(items: Seq<String>) -> Seq<Seq<char>> {
    items.map_values(|s: String| s@)
}

/// JSON string literals of each item.
pub open spec fn json_strings(items: Seq<Seq<char>>) -> Seq<Seq<char>> {
    items.map_values(|s: Seq<char>| json_string(s))
}

/// A JSON array of strings.
pub open spec fn json_array_text(items: Seq<Seq<char>>) -> Seq<char> {
    seq!['['] + comma_joined(json_strings(items)) + seq![']']
}

/// `"key":"value"` members of a JSON object.
pub open spec fn json_members(entries: Seq<(Seq<char>, Seq<char>)>) -> Seq<Seq<char>> {
    entries.map_values(|e: (Seq<char>, Seq<char>)| json_string(e.0) + seq![':'] + json_string(e.1))
}

/// A JSON object of string values, members in the given order.
pub open spec fn json_object_text(entries: Seq<(Seq<char>, Seq<char>)>) -> Seq<char> {
    seq!['{'] + comma_joined(json_members(entries)) + seq!['}']
}

/// The views of key-value pairs of strings.
pub open spec fn pair_views(entries: Seq<(String, String)>) -> Seq<(Seq<char>, Seq<char>)> {
    entries.map_values(|e: (String, String)| (e.0@, e.1@))
}

/// Appending one more part to a comma-joined sequence.
pub proof fn lemma_comma_joined_push(parts: Seq<Seq<char>>, p: Seq<char>)
    ensures
        comma_joined(parts.push(p)) == if parts.len() == 0 {
            p
        } else {
            comma_joined(parts) + seq![','] + p
        },
{
    assert(parts.push(p).drop_last() =~= parts);
}

/// A JSON string literal holding `s`: quotes around its escape.
pub fn escape_json(s: &str) -> (r: String)
    ensures
        r@ == json_string(s@),
{
    let mut out = String::new();
    push_char(&mut out, '"');
    push_json_escaped(&mut out, s);
    push_char(&mut out, '"');
    assert(out@ =~= json_string(s@));
    out
}

/// The escape of `s` for use inside a JSON string literal, without quotes.
pub fn escape_json_value(s: &str) -> (r: String)
    ensures
        r@ == json_escape_chars(s@),
{
    let mut out = String::new();
    push_json_escaped(&mut out, s);
    assert(out@ =~= json_escape_chars(s@));
    out
}

/// Appends `part` to a comma-joined list of `count` earlier parts.
fn push_part(out: &mut String, count: usize, part: &str)
    ensures
        final(out)@ == if count == 0 {
            old(out)@ + part@
        } else {
            old(out)@ + seq![','] + part@
        },
{
    if count > 0 {
        push_char(out, ',');
    }
    out.append(part);
}

/// Appends a JSON array of the strings `items` to `out`.
pub fn push_json_array(out: &mut String, items: &[String])
    ensures
        final(out)@ == old(out)@ + json_array_text(string_views(items@)),
{
    let ghost start = out@;
    push_char(out, '[');
    let mut i: usize = 0;
    while i < items.len()
        invariant
            i <= items@.len(),
            out@ == start + seq!['['] + comma_joined(
                json_strings(string_views(items@.take(i as int))),
            ),
        decreases items@.len() - i,
    {
        let item = escape_json(items[i].as_str());
        let ghost before = json_strings(string_views(items@.take(i as int)));
        push_part(out, i, item.as_str());
        proof {
            assert(json_strings(string_views(items@.take(i + 1))) =~= before.push(
                json_string(items@[i as int]@),
            ));
            lemma_comma_joined_push(before, json_string(items@[i as int]@));
            assert(out@ =~= start + seq!['['] + comma_joined(
                json_strings(string_views(items@.take(i + 1))),
            ));
        }
        i += 1;
    }
    push_char(out, ']');
    proof {
        assert(items@.take(i as int) =~= items@);
        assert(out@ =~= start + json_array_text(string_views(items@)));
    }
}

/// A JSON array of the strings `items`.
pub fn json_array(items: &[String]) -> (r: String)
    ensures
        r@ == json_array_text(string_views(items@)),
{
    let mut out = String::new();
    push_json_array(&mut out, items);
    assert(out@ =~= json_array_text(string_views(items@)));
    out
}

/// A JSON object whose members are `entries`, in order, with string values.
pub fn json_object(entries: &[(String, String)]) -> (r: String)
    ensures
        r@ == json_object_text(pair_views(entries@)),
{
    let mut out = String::new();
    push_char(&mut out, '{');
    let mut i: usize = 0;
    while i < entries.len()
        invariant
            i <= entries@.len(),
            out@ == seq!['{'] + comma_joined(json_members(pair_views(entries@.take(i as int)))),
        decreases entries@.len() - i,
    {
        let (k, v) = &entries[i];
        let mut member = escape_json(k.as_str());
        push_char(&mut member, ':');
        let value = escape_json(v.as_str());
        member.append(value.as_str());
        let ghost before = json_members(pair_views(entries@.take(i as int)));
        let ghost m = json_string(k@) + seq![':'] + json_string(v@);
        push_part(&mut out, i, member.as_str());
        proof {
            assert(member@ =~= m);
            assert(json_members(pair_views(entries@.take(i + 1))) =~= before.push(m));
            lemma_comma_joined_push(before, m);
            assert(out@ =~= seq!['{'] + comma_joined(json_members(pair_views(entries@.take(i + 1)))));
        }
        i += 1;
    }
    push_char(&mut out, '}');
    proof {
        assert(entries@.take(i as int) =~= entries@);
        assert(out@ =~= json_object_text(pair_views(entries@)));
    }
    out
}

/// The views of a path of member names.
pub open spec fn path_views(path: Seq<&str>) -> Seq<Seq<char>> {
    path.map_values(|p: &str| p@)
}

/// The views of a list of strings read from JSON.
pub open spec fn text_views(v: Seq<String>) -> Seq<Seq<char>> {
    v.map_values(|s: String| s@)
}

/// The kinds of JSON value.
#[derive(Debug, Clone, Copy, PartialEq, Eq, Structural)]
pub enum JsonKind {
    Null,
    Boolean,
    Integer,
    Float,
    String,
    Array,
    Object,
}

// Each reader below parses a JSON text with `nojson::RawJson::parse` and
// reads one thing from its top-level value; a nested value is handed on as
// its raw JSON text (`as_raw_str`), which parses to the same value. An
// `Err` holds the text of nojson's error (its `Display`).

/// What `nojson::RawJson::parse` makes of `text`: nothing, or its error.
pub uninterp spec fn json_syntax(text: Seq<char>) -> Result<(), Seq<char>>;

/// `nojson::RawJson::parse`: whether `text` is one JSON value.
#[verifier::external_body]
pub(crate) fn json_check(text: &str) -> (r: Result<(), String>)
    ensures
        match json_syntax(text@) {
            Ok(()) => r is Ok,
            Err(e) => r matches Err(m) && m@ == e,
        },
{
    nojson::RawJson::parse(text).map(|_| ()).map_err(|e| e.to_string())
}

/// The kind of the value `text` holds (`RawJsonValue::kind`).
pub uninterp spec fn json_kind_of(text: Seq<char>) -> Result<JsonKind, Seq<char>>;

/// `RawJsonValue::kind` of the parsed `text`.
#[verifier::external_body]
pub(crate) fn json_kind(text: &str) -> (r: Result<JsonKind, String>)
    ensures
        match json_kind_of(text@) {
            Ok(k) => r == Ok::<JsonKind, String>(k),
            Err(e) => r matches Err(m) && m@ == e,
        },
{
    let json = nojson::RawJson::parse(text).map_err(|e| e.to_string())?;
    Ok(match json.value().kind() {
        nojson::JsonValueKind::Null => JsonKind::Null,
        nojson::JsonValueKind::Boolean => JsonKind::Boolean,
        nojson::JsonValueKind::Integer => JsonKind::Integer,
        nojson::JsonValueKind::Float => JsonKind::Float,
        nojson::JsonValueKind::String => JsonKind::String,
        nojson::JsonValueKind::Array => JsonKind::Array,
        nojson::JsonValueKind::Object => JsonKind::Object,
    })
}

/// The raw text of the member at `path` (`to_path_member`, then
/// `optional`): `Ok(None)` when the last member is absent; an error when
/// the text does not parse or a member on the way is missing or not an
/// object.
pub uninterp spec fn json_member_text(text: Seq<char>, path: Seq<Seq<char>>) -> Result<
    Option<Seq<char>>,
    Seq<char>,
>;

/// `RawJsonValue::to_path_member(path)` then `optional`, as raw text.
#[verifier::external_body]
pub(crate) fn json_member_raw(text: &str, path: &[&str]) -> (r: Result<Option<String>, String>)
    ensures
        match json_member_text(text@, path_views(path@)) {
            Ok(Some(v)) => r matches Ok(Some(s)) && s@ == v,
            Ok(None) => r matches Ok(None),
            Err(e) => r matches Err(m) && m@ == e,
        },
{
    let json = nojson::RawJson::parse(text).map_err(|e| e.to_string())?;
    let member = json.value().to_path_member(path).map_err(|e| e.to_string())?;
    Ok(member.optional().map(|v| v.as_raw_str().to_string()))
}

/// The string at `path` (`to_path_member`, `required`, then
/// `String::try_from`), or the error.
pub uninterp spec fn json_string_lookup(text: Seq<char>, path: Seq<Seq<char>>) -> Result<
    Seq<char>,
    Seq<char>,
>;

/// `to_path_member(path)`, `required` and `String::try_from` on the parsed
/// `text`.
#[verifier::external_body]
pub(crate) fn json_string_path(text: &str, path: &[&str]) -> (r: Result<String, String>)
    ensures
        match json_string_lookup(text@, path_views(path@)) {
            Ok(v) => r matches Ok(s) && s@ == v,
            Err(e) => r matches Err(m) && m@ == e,
        },
{
    let json = nojson::RawJson::parse(text).map_err(|e| e.to_string())?;
    let value = json.value().to_path_member(path).and_then(|m| m.required());
    String::try_from(value.map_err(|e| e.to_string())?).map_err(|e| e.to_string())
}

/// The members of the object `text` holds, in order: each key unquoted and
/// each value as raw text (`to_object`); the error of a key that does not
/// read as a string is the reader's error.
pub uninterp spec fn json_entries_of(text: Seq<char>) -> Result<Seq<(Seq<char>, Seq<char>)>, Seq<char>>;

/// `RawJsonValue::to_object` on the parsed `text`.
#[verifier::external_body]
pub(crate) fn json_entries(text: &str) -> (r: Result<Vec<(String, String)>, String>)
    ensures
        match json_entries_of(text@) {
            Ok(v) => r matches Ok(e) && pair_views(e@) == v,
            Err(e) => r matches Err(m) && m@ == e,
        },
{
    let json = nojson::RawJson::parse(text).map_err(|e| e.to_string())?;
    let members = json.value().to_object().map_err(|e| e.to_string())?;
    members
        .map(|(k, v)| String::try_from(k).map(|k| (k, v.as_raw_str().to_string())))
        .collect::<Result<Vec<(String, String)>, nojson::JsonParseError>>()
        .map_err(|e| e.to_string())
}

/// The elements of the array `text` holds, in order, as raw text
/// (`to_array`).
pub uninterp spec fn json_items_of(text: Seq<char>) -> Result<Seq<Seq<char>>, Seq<char>>;

/// `RawJsonValue::to_array` on the parsed `text`.
#[verifier::external_body]
pub(crate) fn json_items(text: &str) -> (r: Result<Vec<String>, String>)
    ensures
        match json_items_of(text@) {
            Ok(v) => r matches Ok(e) && text_views(e@) == v,
            Err(e) => r matches Err(m) && m@ == e,
        },
{
    let json = nojson::RawJson::parse(text).map_err(|e| e.to_string())?;
    let items = json.value().to_array().map_err(|e| e.to_string())?;
    Ok(items.map(|v| v.as_raw_str().to_string()).collect())
}

/// The string `text` holds (`String::try_from`).
pub uninterp spec fn json_string_of(text: Seq<char>) -> Result<Seq<char>, Seq<char>>;

/// `String::try_from` the parsed `text`.
#[verifier::external_body]
pub(crate) fn json_as_string(text: &str) -> (r: Result<String, String>)
    ensures
        match json_string_of(text@) {
            Ok(v) => r matches Ok(s) && s@ == v,
            Err(e) => r matches Err(m) && m@ == e,
        },
{
    let json = nojson::RawJson::parse(text).map_err(|e| e.to_string())?;
    String::try_from(json.value()).map_err(|e| e.to_string())
}

/// The string at `path`, if there is one.
pub open spec fn json_string_at(text: Seq<char>, path: Seq<Seq<char>>) -> Option<Seq<char>> {
    match json_string_lookup(text, path) {
        Ok(v) => Some(v),
        Err(_) => None,
    }
}

/// The string at `path` of the parsed `text`, if there is one.
pub(crate) fn json_string_member(text: &str, path: &[&str]) -> (r: Option<String>)
    ensures
        match json_string_at(text@, path_views(path@)) {
            Some(v) => r matches Some(s) && s@ == v,
            None => r is None,
        },
{
    match json_string_path(text, path) {
        Ok(s) => Some(s),
        Err(_) => None,
    }
}

/// The `u16` `text` holds (`u16::try_from`).
pub uninterp spec fn json_u16_of(text: Seq<char>) -> Option<u16>;

/// `u16::try_from` the parsed `text`, its error dropped.
#[verifier::external_body]
pub(crate) fn json_as_u16(text: &str) -> (r: Option<u16>)
    ensures
        r == json_u16_of(text@),
{
    let json = nojson::RawJson::parse(text).ok()?;
    u16::try_from(json.value()).ok()
}

/// The `i64` `text` holds (`i64::try_from`).
pub uninterp spec fn json_i64_of(text: Seq<char>) -> Option<i64>;

/// `i64::try_from` the parsed `text`, its error dropped.
#[verifier::external_body]
pub(crate) fn json_as_i64(text: &str) -> (r: Option<i64>)
    ensures
        r == json_i64_of(text@),
{
    let json = nojson::RawJson::parse(text).ok()?;
    i64::try_from(json.value()).ok()
}

/// The `bool` `text` holds (`bool::try_from`).
pub uninterp spec fn json_bool_of(text: Seq<char>) -> Option<bool>;

/// `bool::try_from` the parsed `text`, its error dropped.
#[verifier::external_body]
pub(crate) fn json_as_bool(text: &str) -> (r: Option<bool>)
    ensures
        r == json_bool_of(text@),
{
    let json = nojson::RawJson::parse(text).ok()?;
    bool::try_from(json.value()).ok()
}

/// The elements of the array at `path`, which must be there (`required`,
/// then `to_array`), as raw text; or the error.
pub uninterp spec fn json_required_items_of(text: Seq<char>, path: Seq<Seq<char>>) -> Result<
    Seq<Seq<char>>,
    Seq<char>,
>;

/// `to_path_member(path)`, `required` and `to_array` on the parsed `text`.
#[verifier::external_body]
pub(crate) fn json_required_items(text: &str, path: &[&str]) -> (r: Result<Vec<String>, String>)
    ensures
        match json_required_items_of(text@, path_views(path@)) {
            Ok(v) => r matches Ok(e) && text_views(e@) == v,
            Err(e) => r matches Err(m) && m@ == e,
        },
{
    let json = nojson::RawJson::parse(text).map_err(|e| e.to_string())?;
    let value = json.value().to_path_member(path).and_then(|m| m.required());
    let items = value.and_then(|v| v.to_array()).map_err(|e| e.to_string())?;
    Ok(items.map(|v| v.as_raw_str().to_string()).collect())
}

/// The raw text of the member at `path`, which must be there
/// (`to_path_member`, then `required`); or the error.
pub uninterp spec fn json_required_text_of(text: Seq<char>, path: Seq<Seq<char>>) -> Result<
    Seq<char>,
    Seq<char>,
>;

/// `to_path_member(path)` and `required` on the parsed `text`, as raw text.
#[verifier::external_body]
pub(crate) fn json_required_member(text: &str, path: &[&str]) -> (r: Result<String, String>)
    ensures
        match json_required_text_of(text@, path_views(path@)) {
            Ok(v) => r matches Ok(s) && s@ == v,
            Err(e) => r matches Err(m) && m@ == e,
        },
{
    let json = nojson::RawJson::parse(text).map_err(|e| e.to_string())?;
    let value = json.value().to_path_member(path).and_then(|m| m.required());
    Ok(value.map_err(|e| e.to_string())?.as_raw_str().to_string())
}

/// The `i64` at `path`, which must be there (`to_path_member`, `required`,
/// then `i64::try_from`); or the error.
pub uninterp spec fn json_i64_lookup(text: Seq<char>, path: Seq<Seq<char>>) -> Result<i64, Seq<char>>;

/// `to_path_member(path)`, `required` and `i64::try_from` on the parsed
/// `text`.
#[verifier::external_body]
pub(crate) fn json_i64_path(text: &str, path: &[&str]) -> (r: Result<i64, String>)
    ensures
        match json_i64_lookup(text@, path_views(path@)) {
            Ok(v) => r == Ok::<i64, String>(v),
            Err(e) => r matches Err(m) && m@ == e,
        },
{
    let json = nojson::RawJson::parse(text).map_err(|e| e.to_string())?;
    let value = json.value().to_path_member(path).and_then(|m| m.required());
    i64::try_from(value.map_err(|e| e.to_string())?).map_err(|e| e.to_string())
}

} // verus!
