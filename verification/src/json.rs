//! JSON documents, read and written by `serde_json`.

use vstd::prelude::*;

verus! {

// ---------------------------------------------------------------------------
// Documents
// ---------------------------------------------------------------------------

/// A JSON value of `serde_json`.
#[verifier::external_type_specification]
#[verifier::external_body]
pub struct ExValue(serde_json::Value);

/// A JSON document as a mathematical tree. A number is its JSON text. The order
/// of an object's members counts for nothing.
pub enum JsonTree {
    Null,
    Bool(bool),
    Number(Seq<char>),
    Text(Seq<char>),
    Array(Seq<JsonTree>),
    Object(Map<Seq<char>, JsonTree>),
}

/// What a `serde_json::Value` holds.
pub uninterp spec fn json_contents(value: serde_json::Value) -> JsonTree;

/// What a text reads as: a document, or why it is none, in words.
pub uninterp spec fn parsed_json(text: Seq<char>) -> Result<JsonTree, Seq<char>>;

/// How a document is printed with line breaks and indentation.
pub uninterp spec fn pretty_json(tree: JsonTree) -> Seq<char>;

/// What the result of reading a text stands for.
pub open spec fn document_of(r: Result<serde_json::Value, String>) -> Result<
    JsonTree,
    Seq<char>,
> {
    match r {
        Ok(value) => Ok(json_contents(value)),
        Err(e) => Err(e@),
    }
}

/// `serde_json::from_str` into a `serde_json::Value`: the document or the error's
/// text, which depend on the text alone.
#[verifier::external_body]
pub(crate) fn parse_json(text: &str) -> (r: Result<serde_json::Value, String>)
    ensures
        document_of(r) == parsed_json(text@),
{
    serde_json::from_str(text).map_err(|e: serde_json::Error| e.to_string())
}

/// The member of that name, if the document is an object that has it.
pub open spec fn member(tree: JsonTree, key: Seq<char>) -> Option<JsonTree> {
    match tree {
        JsonTree::Object(members) => if members.contains_key(key) {
            Some(members[key])
        } else {
            None
        },
        _ => None,
    }
}

/// `serde_json::Value::get` with a string: the member of that name, where the
/// value is an object that has one.
#[verifier::external_body]
pub(crate) fn get_member<'a>(value: &'a serde_json::Value, key: &str) -> (r: Option<
    &'a serde_json::Value,
>)
    ensures
        match r {
            Some(found) => member(json_contents(*value), key@) == Some(json_contents(*found)),
            None => member(json_contents(*value), key@) is None,
        },
{
    value.get(key)
}

/// `serde_json::Value::as_array`: the elements in order, where the value is an
/// array.
#[verifier::external_body]
pub(crate) fn array_items(value: &serde_json::Value) -> (r: Option<&Vec<serde_json::Value>>)
    ensures
        match r {
            Some(items) => json_contents(*value) == JsonTree::Array(
                items@.map_values(|v: serde_json::Value| json_contents(v)),
            ),
            None => !(json_contents(*value) is Array),
        },
{
    value.as_array()
}

/// `serde_json::Value::as_str`: the text, where the value is a string.
#[verifier::external_body]
pub(crate) fn string_text(value: &serde_json::Value) -> (r: Option<&str>)
    ensures
        match r {
            Some(text) => json_contents(*value) == JsonTree::Text(text@),
            None => !(json_contents(*value) is Text),
        },
{
    value.as_str()
}

/// `serde_json::Value::is_object`: whether the value is an object.
#[verifier::external_body]
pub(crate) fn is_object(value: &serde_json::Value) -> (r: bool)
    ensures
        r == (json_contents(*value) is Object),
{
    value.is_object()
}

/// `serde_json::Value::is_null`: whether the value is null.
#[verifier::external_body]
pub(crate) fn is_null(value: &serde_json::Value) -> (r: bool)
    ensures
        r == (json_contents(*value) is Null),
{
    value.is_null()
}

/// Whether members can be put into the document.
pub open spec fn takes_members(tree: JsonTree) -> bool {
    tree is Object || tree is Null
}

/// The document with one member set; null counts as an object without members.
pub open spec fn with_member(tree: JsonTree, key: Seq<char>, value: JsonTree) -> JsonTree {
    match tree {
        JsonTree::Object(members) => JsonTree::Object(members.insert(key, value)),
        _ => JsonTree::Object(Map::<Seq<char>, JsonTree>::empty().insert(key, value)),
    }
}

/// A member that was set is there, and the document's other members are as before.
pub proof fn law_set_member_is_there(
    tree: JsonTree,
    key: Seq<char>,
    value: JsonTree,
    other: Seq<char>,
)
    requires
        takes_members(tree),
    ensures
        member(with_member(tree, key, value), key) == Some(value),
        other != key ==> member(with_member(tree, key, value), other) == member(tree, other),
{
}

/// Assignment through `serde_json`'s `IndexMut` with a string: sets the member of
/// that name. It panics on a value that is neither an object nor null.
#[verifier::external_body]
pub(crate) fn set_member(value: &mut serde_json::Value, key: &str, new: serde_json::Value)
    requires
        takes_members(json_contents(*old(value))),
    ensures
        json_contents(*final(value)) == with_member(
            json_contents(*old(value)),
            key@,
            json_contents(new),
        ),
{
    value[key] = new;
}

/// `serde_json::to_string_pretty` of a `serde_json::Value`: the printed document,
/// which depends on what the value holds alone. A value has string keys only and
/// is printed into memory, so printing does not fail.
#[verifier::external_body]
pub(crate) fn print_pretty(value: &serde_json::Value) -> (r: Result<String, String>)
    ensures
        r is Ok,
        r->Ok_0@ == pretty_json(json_contents(*value)),
{
    serde_json::to_string_pretty(value).map_err(|e: serde_json::Error| e.to_string())
}

// ---------------------------------------------------------------------------
// Lists of strings
// ---------------------------------------------------------------------------

/// The strings among the items, in order.
pub open spec fn strings_among(items: Seq<JsonTree>) -> Seq<Seq<char>>
    decreases items.len(),
{
    if items.len() == 0 {
        Seq::empty()
    } else {
        match items.last() {
            JsonTree::Text(text) => strings_among(items.drop_last()).push(text),
            _ => strings_among(items.drop_last()),
        }
    }
}

/// The strings of an array; none where the document is no array.
pub open spec fn strings_in(tree: JsonTree) -> Seq<Seq<char>> {
    match tree {
        JsonTree::Array(items) => strings_among(items),
        _ => Seq::empty(),
    }
}

/// The strings of the array that stands under `key`; none if nothing does.
pub open spec fn strings_under(tree: JsonTree, key: Seq<char>) -> Option<Seq<Seq<char>>> {
    match member(tree, key) {
        Some(found) => Some(strings_in(found)),
        None => None,
    }
}

/// Collects the strings of the array under `key`: `None` if there is no such
/// member. Elements that are no strings are passed over, and a member that is no
/// array has none.
pub fn listed_strings(value: &serde_json::Value, key: &str) -> (r: Option<Vec<String>>)
    ensures
        r.deep_view() == strings_under(json_contents(*value), key@),
{
    let found = match get_member(value, key) {
        Some(found) => found,
        None => {
            return None;
        },
    };
    let mut out: Vec<String> = Vec::new();
    if let Some(items) = array_items(found) {
        let ghost trees = items@.map_values(|v: serde_json::Value| json_contents(v));
        let mut i: usize = 0;
        assert(trees.take(0) =~= Seq::empty());
        assert(out.deep_view() =~= Seq::empty());
        while i < items.len()
            invariant
                i <= items@.len(),
                trees == items@.map_values(|v: serde_json::Value| json_contents(v)),
                out.deep_view() == strings_among(trees.take(i as int)),
            decreases items@.len() - i,
        {
            let ghost before = out.deep_view();
            proof {
                let now = trees.take(i as int + 1);
                assert(now.drop_last() =~= trees.take(i as int));
                assert(now.last() == json_contents(items@[i as int]));
            }
            if let Some(text) = string_text(&items[i]) {
                out.push(text.to_owned());
                assert(out.deep_view() =~= before.push(text@));
            }
            i = i + 1;
        }
        assert(trees.take(items@.len() as int) =~= trees);
    }
    assert(out.deep_view() =~= strings_in(json_contents(*found)));
    Some(out)
}

// ---------------------------------------------------------------------------
// Strings
// ---------------------------------------------------------------------------

pub open spec fn hex_digit(n: int) -> char {
    if n < 10 {
        (48 + n) as char
    } else {
        (87 + n) as char
    }
}

/// How one character is written inside a JSON string.
pub open spec fn escaped_char(c: char) -> Seq<char> {
    let n = c as u32 as int;
    if c == '"' || c == '\\' {
        seq!['\\', c]
    } else if n == 8 {
        seq!['\\', 'b']
    } else if c == '\t' {
        seq!['\\', 't']
    } else if c == '\n' {
        seq!['\\', 'n']
    } else if n == 12 {
        seq!['\\', 'f']
    } else if c == '\r' {
        seq!['\\', 'r']
    } else if n < 32 {
        seq!['\\', 'u', '0', '0', hex_digit(n / 16), hex_digit(n % 16)]
    } else {
        seq![c]
    }
}

/// The text with each character as it is written inside a JSON string.
pub open spec fn escaped(s: Seq<char>) -> Seq<char>
    decreases s.len(),
{
    if s.len() == 0 {
        Seq::empty()
    } else {
        escaped(s.drop_last()) + escaped_char(s.last())
    }
}

/// The text as a JSON string.
pub open spec fn quoted(s: Seq<char>) -> Seq<char> {
    seq!['"'] + escaped(s) + seq!['"']
}

/// `serde_json::to_string` of a string: the string in quotes, with quotes,
/// backslashes and control characters escaped. It is printed into memory, so
/// printing does not fail.
#[verifier::external_body]
pub(crate) fn quote(s: &str) -> (r: Result<String, String>)
    ensures
        r is Ok,
        r->Ok_0@ == quoted(s@),
{
    serde_json::to_string(s).map_err(|e: serde_json::Error| e.to_string())
}

}
