//! Reading JSON documents. The `serde_json` crate parses the text; a value
//! inside a document is handed on as JSON text of its own, so that documents
//! are taken apart level by level.

use crate::text::{lookup, same_text, views};
use vstd::prelude::*;
use vstd::string::StringExecFns;

verus! {

/// A JSON value, one level deep: what it holds, with each value inside an
/// array or an object as JSON text of its own.
#[derive(Debug, Clone, PartialEq, Eq)]
pub enum Node {
    Null,
    Bool(bool),
    /// A number, as JSON text.
    Number(String),
    Text(String),
    /// The items of an array, each as JSON text.
    Array(Vec<String>),
    /// The members of an object in document order, each value as JSON text.
    Object(Vec<(String, String)>),
}

/// A JSON value as plain values.
pub enum NodeView {
    Null,
    Bool(bool),
    Number(Seq<char>),
    Text(Seq<char>),
    Array(Seq<Seq<char>>),
    Object(Seq<(Seq<char>, Seq<char>)>),
}

/// The views of the keys and values of `members`.
pub open spec fn pairs(members: Seq<(String, String)>) -> Seq<(Seq<char>, Seq<char>)> {
    members.map_values(|m: (String, String)| (m.0@, m.1@))
}

impl View for Node {
    type V = NodeView;

    open spec fn view(&self) -> NodeView {
        match self {
            Node::Null => NodeView::Null,
            Node::Bool(b) => NodeView::Bool(*b),
            Node::Number(n) => NodeView::Number(n@),
            Node::Text(t) => NodeView::Text(t@),
            Node::Array(items) => NodeView::Array(views(items@)),
            Node::Object(members) => NodeView::Object(pairs(members@)),
        }
    }
}

/// The value that `serde_json` reads from the text `doc`: `None` where `doc`
/// is not a JSON document; else what the document holds, each value inside an
/// array or an object written back as JSON text, the members of an object in
/// document order.
pub uninterp spec fn json_node(doc: Seq<char>) -> Option<NodeView>;

/// Parses `doc` with `serde_json::from_str` and hands out what the value
/// holds, each value inside an array or an object written back as text by
/// `Value::to_string`. The contract names the outcome `json_node`.
#[verifier::external_body]
pub(crate) fn parse(doc: &str) -> (r: Option<Node>)
    ensures
        match r {
            Some(node) => json_node(doc@) == Some(node@),
            None => json_node(doc@) is None,
        },
{
    Some(match serde_json::from_str(doc).ok()? {
        serde_json::Value::Null => Node::Null,
        serde_json::Value::Bool(b) => Node::Bool(b),
        serde_json::Value::Number(n) => Node::Number(n.to_string()),
        serde_json::Value::String(text) => Node::Text(text),
        serde_json::Value::Array(items) => Node::Array(items.iter().map(|v| v.to_string()).collect()),
        serde_json::Value::Object(map) => {
            Node::Object(map.iter().map(|(k, v)| (k.clone(), v.to_string())).collect())
        },
    })
}

/// The members of the JSON object that `doc` holds: each key with its value
/// as JSON text, in document order. `None` where `doc` is not a JSON document
/// or holds something else than an object.
pub open spec fn json_object(doc: Seq<char>) -> Option<Seq<(Seq<char>, Seq<char>)>> {
    match json_node(doc) {
        Some(NodeView::Object(members)) => Some(members),
        _ => None,
    }
}

/// The items of the JSON array that `doc` holds, each as JSON text. `None`
/// where `doc` is not a JSON document or holds something else than an array.
pub open spec fn json_array(doc: Seq<char>) -> Option<Seq<Seq<char>>> {
    match json_node(doc) {
        Some(NodeView::Array(items)) => Some(items),
        _ => None,
    }
}

/// The text of the JSON string that `doc` holds. `None` where `doc` is not a
/// JSON document or holds something else than a string.
pub open spec fn json_string(doc: Seq<char>) -> Option<Seq<char>> {
    match json_node(doc) {
        Some(NodeView::Text(text)) => Some(text),
        _ => None,
    }
}

/// Whether `doc` is a JSON document that holds `null`.
pub open spec fn json_null(doc: Seq<char>) -> bool {
    json_node(doc) == Some(NodeView::Null)
}

/// Reads the members of an object.
pub fn object_members(doc: &str) -> (r: Option<Vec<(String, String)>>)
    ensures
        match r {
            Some(members) => json_object(doc@) == Some(pairs(members@)),
            None => json_object(doc@) is None,
        },
{
    match parse(doc) {
        Some(Node::Object(members)) => Some(members),
        _ => None,
    }
}

/// Reads the items of an array.
pub fn array_items(doc: &str) -> (r: Option<Vec<String>>)
    ensures
        match r {
            Some(items) => json_array(doc@) == Some(views(items@)),
            None => json_array(doc@) is None,
        },
{
    match parse(doc) {
        Some(Node::Array(items)) => Some(items),
        _ => None,
    }
}

/// Reads a string.
pub fn string_text(doc: &str) -> (r: Option<String>)
    ensures
        match r {
            Some(text) => json_string(doc@) == Some(text@),
            None => json_string(doc@) is None,
        },
{
    match parse(doc) {
        Some(Node::Text(text)) => Some(text),
        _ => None,
    }
}

/// Tells whether a document holds `null`.
pub fn holds_null(doc: &str) -> (r: bool)
    ensures
        r == json_null(doc@),
{
    match parse(doc) {
        Some(Node::Null) => true,
        _ => false,
    }
}

// ---------------------------------------------------------------------------
// Members of an object
// ---------------------------------------------------------------------------

/// Finds the value of the first member with the key `key`.
pub fn find<'a>(members: &'a Vec<(String, String)>, key: &str) -> (r: Option<&'a String>)
    ensures
        match r {
            Some(value) => lookup(pairs(members@), key@) == Some(value@),
            None => lookup(pairs(members@), key@) is None,
        },
{
    let ghost all = pairs(members@);
    let mut i: usize = 0;
    assert(all.skip(0) =~= all);
    while i < members.len()
        invariant
            i <= members.len(),
            all == pairs(members@),
            lookup(all, key@) == lookup(all.skip(i as int), key@),
        decreases members.len() - i,
    {
        proof {
            assert(all.skip(i as int).drop_first() =~= all.skip(i + 1));
            assert(all.skip(i as int)[0] == (members@[i as int].0@, members@[i as int].1@));
        }
        if same_text(members[i].0.as_str(), key) {
            return Some(&members[i].1);
        }
        i += 1;
    }
    None
}

// ---------------------------------------------------------------------------
// Documents of one shape
// ---------------------------------------------------------------------------

/// Every text of `items` holds a JSON string.
pub open spec fn all_strings(items: Seq<Seq<char>>) -> bool {
    forall|i: int| 0 <= i < items.len() ==> json_string(#[trigger] items[i]) is Some
}

/// The texts of an array of strings; `None` for any other document.
pub open spec fn spec_string_list(doc: Seq<char>) -> Option<Seq<Seq<char>>> {
    match json_array(doc) {
        Some(items) => if all_strings(items) {
            Some(items.map_values(|t: Seq<char>| json_string(t)->0))
        } else {
            None
        },
        None => None,
    }
}

/// Every value of `members` holds a JSON string.
pub open spec fn all_string_values(members: Seq<(Seq<char>, Seq<char>)>) -> bool {
    forall|i: int| 0 <= i < members.len() ==> json_string((#[trigger] members[i]).1) is Some
}

/// The keys and texts of an object whose values are all strings, in document
/// order; `None` for any other document.
pub open spec fn spec_string_map(doc: Seq<char>) -> Option<Seq<(Seq<char>, Seq<char>)>> {
    match json_object(doc) {
        Some(members) => if all_string_values(members) {
            Some(members.map_values(|m: (Seq<char>, Seq<char>)| (m.0, json_string(m.1)->0)))
        } else {
            None
        },
        None => None,
    }
}

/// Reads an array of strings.
pub fn string_list(doc: &str) -> (r: Option<Vec<String>>)
    ensures
        match r {
            Some(texts) => spec_string_list(doc@) == Some(views(texts@)),
            None => spec_string_list(doc@) is None,
        },
{
    let items = match array_items(doc) {
        None => { return None; },
        Some(items) => items,
    };
    let ghost all = views(items@);
    let mut texts: Vec<String> = Vec::new();
    let mut i: usize = 0;
    while i < items.len()
        invariant
            i <= items.len(),
            all == views(items@),
            json_array(doc@) == Some(all),
            texts@.len() == i,
            forall|j: int| 0 <= j < i ==> json_string(#[trigger] all[j]) == Some(texts@[j]@),
        decreases items.len() - i,
    {
        assert(all[i as int] == items@[i as int]@);
        match string_text(items[i].as_str()) {
            None => { return None; },
            Some(text) => { texts.push(text); },
        }
        i += 1;
    }
    assert(views(texts@) =~= all.map_values(|t: Seq<char>| json_string(t)->0));
    Some(texts)
}

/// Reads an object whose values are all strings.
pub fn string_map(doc: &str) -> (r: Option<Vec<(String, String)>>)
    ensures
        match r {
            Some(map) => spec_string_map(doc@) == Some(pairs(map@)),
            None => spec_string_map(doc@) is None,
        },
{
    let members = match object_members(doc) {
        None => { return None; },
        Some(members) => members,
    };
    let ghost all = pairs(members@);
    let mut map: Vec<(String, String)> = Vec::new();
    let mut i: usize = 0;
    while i < members.len()
        invariant
            i <= members.len(),
            all == pairs(members@),
            json_object(doc@) == Some(all),
            map@.len() == i,
            forall|j: int|
                0 <= j < i ==> json_string((#[trigger] all[j]).1) == Some(map@[j].1@) && map@[j].0@
                    == all[j].0,
        decreases members.len() - i,
    {
        assert(all[i as int] == (members@[i as int].0@, members@[i as int].1@));
        match string_text(members[i].1.as_str()) {
            None => { return None; },
            Some(text) => { map.push((members[i].0.clone(), text)); },
        }
        i += 1;
    }
    assert(pairs(map@) =~= all.map_values(
        |m: (Seq<char>, Seq<char>)| (m.0, json_string(m.1)->0),
    ));
    Some(map)
}

// ---------------------------------------------------------------------------
// Writing
// ---------------------------------------------------------------------------

/// The JSON string that holds `text`, quotes and escapes included, as
/// `serde_json` writes it.
pub uninterp spec fn json_quoted(text: Seq<char>) -> Seq<char>;

/// Writes `text` as a JSON string with `serde_json::Value::to_string`. The
/// contract names the outcome `json_quoted`.
#[verifier::external_body]
pub(crate) fn quote(text: &str) -> (r: String)
    ensures
        r@ == json_quoted(text@),
{
    serde_json::Value::String(text.to_owned()).to_string()
}

/// The texts of `items` with a comma between each two of them.
pub open spec fn comma_separated(items: Seq<Seq<char>>) -> Seq<char>
    decreases items.len(),
{
    if items.len() == 0 {
        Seq::empty()
    } else if items.len() == 1 {
        items[0]
    } else {
        comma_separated(items.drop_last()) + ","@ + items.last()
    }
}

/// The JSON array whose items are the JSON texts `items`.
pub open spec fn spec_array(items: Seq<Seq<char>>) -> Seq<char> {
    "["@ + comma_separated(items) + "]"@
}

/// The JSON object whose members are the JSON texts `members`.
pub open spec fn spec_object(members: Seq<Seq<char>>) -> Seq<char> {
    "{"@ + comma_separated(members) + "}"@
}

/// The member of a JSON object with the key `key` and the JSON text `value`.
pub open spec fn spec_member(key: Seq<char>, value: Seq<char>) -> Seq<char> {
    json_quoted(key) + ":"@ + value
}

/// The JSON array of the strings `texts`.
pub open spec fn spec_write_strings(texts: Seq<Seq<char>>) -> Seq<char> {
    spec_array(texts.map_values(|t: Seq<char>| json_quoted(t)))
}

/// The JSON array of the strings `texts`, or `null` for none.
pub open spec fn spec_write_optional_strings(texts: Option<Seq<Seq<char>>>) -> Seq<char> {
    match texts {
        Some(texts) => spec_write_strings(texts),
        None => "null"@,
    }
}

/// The JSON object that maps each key of `map` to its text.
pub open spec fn spec_write_string_map(map: Seq<(Seq<char>, Seq<char>)>) -> Seq<char> {
    spec_object(
        map.map_values(|m: (Seq<char>, Seq<char>)| spec_member(m.0, json_quoted(m.1))),
    )
}

/// Writes texts with a comma between each two of them.
pub fn separate(items: &Vec<String>) -> (r: String)
    ensures
        r@ == comma_separated(views(items@)),
{
    let ghost all = views(items@);
    let mut out = String::new();
    let mut i: usize = 0;
    assert(all.take(0) =~= Seq::<Seq<char>>::empty());
    while i < items.len()
        invariant
            i <= items.len(),
            all == views(items@),
            out@ == comma_separated(all.take(i as int)),
        decreases items.len() - i,
    {
        proof {
            assert(all.take(i + 1).drop_last() =~= all.take(i as int));
            assert(all.take(i + 1).last() == items@[i as int]@);
            if i == 0 {
                assert(comma_separated(all.take(0)) =~= Seq::<char>::empty());
                assert(all.take(1)[0] == items@[0]@);
            }
        }
        let ghost before = out@;
        if i > 0 {
            out.append(",");
        }
        out.append(items[i].as_str());
        proof {
            if i == 0 {
                assert(out@ =~= items@[0]@);
            }
        }
        i += 1;
    }
    assert(all.take(i as int) =~= all);
    out
}

/// Encloses `inner` in `open` and `close`.
fn enclose(open: &str, inner: &str, close: &str) -> (r: String)
    ensures
        r@ == open@ + inner@ + close@,
{
    let mut out = open.to_owned();
    out.append(inner);
    out.append(close);
    out
}

/// Writes a JSON array whose items are the JSON texts `items`.
pub fn write_array(items: &Vec<String>) -> (r: String)
    ensures
        r@ == spec_array(views(items@)),
{
    let inner = separate(items);
    enclose("[", inner.as_str(), "]")
}

/// Writes a JSON object whose members are the JSON texts `members`.
pub fn write_object(members: &Vec<String>) -> (r: String)
    ensures
        r@ == spec_object(views(members@)),
{
    let inner = separate(members);
    enclose("{", inner.as_str(), "}")
}

/// Writes a member of a JSON object.
pub fn write_member(key: &str, value: &str) -> (r: String)
    ensures
        r@ == spec_member(key@, value@),
{
    let mut out = quote(key);
    out.append(":");
    out.append(value);
    out
}

/// Writes a JSON array of strings.
pub fn write_strings(texts: &Vec<String>) -> (r: String)
    ensures
        r@ == spec_write_strings(views(texts@)),
{
    let mut items: Vec<String> = Vec::new();
    let mut i: usize = 0;
    while i < texts.len()
        invariant
            i <= texts.len(),
            items@.len() == i,
            forall|k: int| 0 <= k < i ==> (#[trigger] items@[k])@ == json_quoted(texts@[k]@),
        decreases texts.len() - i,
    {
        items.push(quote(texts[i].as_str()));
        i += 1;
    }
    assert(views(items@) =~= views(texts@).map_values(|t: Seq<char>| json_quoted(t)));
    write_array(&items)
}

/// Writes a JSON array of strings, or `null` for none.
pub fn write_optional_strings(texts: &Option<Vec<String>>) -> (r: String)
    ensures
        r@ == spec_write_optional_strings(
            match *texts {
                Some(t) => Some(views(t@)),
                None => None,
            },
        ),
{
    match texts {
        Some(texts) => write_strings(texts),
        None => "null".to_owned(),
    }
}

/// Writes a JSON object that maps each key to its text.
pub fn write_string_map(map: &Vec<(String, String)>) -> (r: String)
    ensures
        r@ == spec_write_string_map(pairs(map@)),
{
    let mut members: Vec<String> = Vec::new();
    let mut i: usize = 0;
    while i < map.len()
        invariant
            i <= map.len(),
            members@.len() == i,
            forall|k: int|
                0 <= k < i ==> (#[trigger] members@[k])@ == spec_member(
                    map@[k].0@,
                    json_quoted(map@[k].1@),
                ),
        decreases map.len() - i,
    {
        let value = quote(map[i].1.as_str());
        members.push(write_member(map[i].0.as_str(), value.as_str()));
        i += 1;
    }
    assert(views(members@) =~= pairs(map@).map_values(
        |m: (Seq<char>, Seq<char>)| spec_member(m.0, json_quoted(m.1)),
    ));
    write_object(&members)
}

} // verus!
