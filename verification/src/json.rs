//! A JSON document as plain values, and the removal of a bookmark node from a
//! Chromium `Bookmarks` document.

use vstd::prelude::*;
use crate::text::str_eq;

verus! {

/// A JSON value. Numbers keep their written form; an object keeps its
/// members in order, each key once.
#[derive(Debug)]
pub enum JsonValue {
    Null,
    Bool(bool),
    Number(String),
    String(String),
    Array(Vec<JsonValue>),
    Object(Vec<(String, JsonValue)>),
}

/// A JSON value as mathematical sequences.
pub enum JsonView {
    Null,
    Bool(bool),
    Number(Seq<char>),
    Str(Seq<char>),
    Array(Seq<JsonView>),
    Object(Seq<(Seq<char>, JsonView)>),
}

pub open spec fn json_view(v: JsonValue) -> JsonView
    decreases v, 2nat,
{
    match v {
        JsonValue::Null => JsonView::Null,
        JsonValue::Bool(b) => JsonView::Bool(b),
        JsonValue::Number(n) => JsonView::Number(n@),
        JsonValue::String(s) => JsonView::Str(s@),
        JsonValue::Array(items) => JsonView::Array(json_views(items@)),
        JsonValue::Object(entries) => JsonView::Object(json_entry_views(entries@)),
    }
}

pub open spec fn json_views(items: Seq<JsonValue>) -> Seq<JsonView>
    decreases items, 1nat,
{
    if items.len() == 0 {
        Seq::empty()
    } else {
        json_views(items.drop_last()).push(json_view(items.last()))
    }
}

pub open spec fn json_entry_views(entries: Seq<(String, JsonValue)>) -> Seq<(Seq<char>, JsonView)>
    decreases entries, 1nat,
{
    if entries.len() == 0 {
        Seq::empty()
    } else {
        json_entry_views(entries.drop_last()).push((entries.last().0@, json_view(entries.last().1)))
    }
}

impl View for JsonValue {
    type V = JsonView;

    open spec fn view(&self) -> JsonView {
        json_view(*self)
    }
}

/// The value of the first member named `key`.
pub open spec fn member(entries: Seq<(Seq<char>, JsonView)>, key: Seq<char>) -> Option<JsonView>
    decreases entries.len(),
{
    if entries.len() == 0 {
        None
    } else if entries[0].0 == key {
        Some(entries[0].1)
    } else {
        member(entries.drop_first(), key)
    }
}

/// A node whose `"id"` member is the string `id`.
pub open spec fn is_target(v: JsonView, id: Seq<char>) -> bool {
    match v {
        JsonView::Object(entries) => member(entries, "id"@) == Some(JsonView::Str(id)),
        _ => false,
    }
}

/// `v` with every node whose id is `id` taken out of the `"children"` arrays
/// that hold it, at any depth.
pub open spec fn strip(v: JsonView, id: Seq<char>) -> JsonView
    decreases v, 2nat,
{
    match v {
        JsonView::Array(items) => JsonView::Array(strip_all(items, id)),
        JsonView::Object(entries) => JsonView::Object(strip_entries(entries, id)),
        _ => v,
    }
}

/// Each item stripped.
pub open spec fn strip_all(items: Seq<JsonView>, id: Seq<char>) -> Seq<JsonView>
    decreases items, 1nat,
{
    if items.len() == 0 {
        Seq::empty()
    } else {
        strip_all(items.drop_last(), id).push(strip(items.last(), id))
    }
}

/// The items that are not targets, each stripped.
pub open spec fn strip_children(items: Seq<JsonView>, id: Seq<char>) -> Seq<JsonView>
    decreases items, 1nat,
{
    if items.len() == 0 {
        Seq::empty()
    } else if is_target(items.last(), id) {
        strip_children(items.drop_last(), id)
    } else {
        strip_children(items.drop_last(), id).push(strip(items.last(), id))
    }
}

/// Each member stripped; a `"children"` array also loses its targets.
pub open spec fn strip_entries(entries: Seq<(Seq<char>, JsonView)>, id: Seq<char>) -> Seq<(Seq<char>, JsonView)>
    decreases entries, 1nat,
{
    if entries.len() == 0 {
        Seq::empty()
    } else {
        let (k, val) = entries.last();
        let nv = match val {
            JsonView::Array(items) => if k == "children"@ {
                JsonView::Array(strip_children(items, id))
            } else {
                JsonView::Array(strip_all(items, id))
            },
            _ => strip(val, id),
        };
        strip_entries(entries.drop_last(), id).push((k, nv))
    }
}

/// Whether `v` holds a target in some `"children"` array.
pub open spec fn has_target(v: JsonView, id: Seq<char>) -> bool
    decreases v, 2nat,
{
    match v {
        JsonView::Array(items) => any_has_target(items, id),
        JsonView::Object(entries) => entries_have_target(entries, id),
        _ => false,
    }
}

pub open spec fn any_has_target(items: Seq<JsonView>, id: Seq<char>) -> bool
    decreases items, 1nat,
{
    if items.len() == 0 {
        false
    } else {
        any_has_target(items.drop_last(), id) || has_target(items.last(), id)
    }
}

pub open spec fn children_have_target(items: Seq<JsonView>, id: Seq<char>) -> bool
    decreases items, 1nat,
{
    if items.len() == 0 {
        false
    } else {
        children_have_target(items.drop_last(), id) || is_target(items.last(), id) || has_target(items.last(), id)
    }
}

pub open spec fn entries_have_target(entries: Seq<(Seq<char>, JsonView)>, id: Seq<char>) -> bool
    decreases entries, 1nat,
{
    if entries.len() == 0 {
        false
    } else {
        let (k, val) = entries.last();
        entries_have_target(entries.drop_last(), id) || match val {
            JsonView::Array(items) => if k == "children"@ {
                children_have_target(items, id)
            } else {
                any_has_target(items, id)
            },
            _ => has_target(val, id),
        }
    }
}

// ---------------------------------------------------------------------------
// Executable removal
// ---------------------------------------------------------------------------

/// The first member named `key`.
pub(crate) fn get_member<'a>(entries: &'a Vec<(String, JsonValue)>, key: &str) -> (r: Option<&'a JsonValue>)
    ensures
        match r {
            Some(v) => member(json_entry_views(entries@), key@) == Some(json_view(*v)),
            None => member(json_entry_views(entries@), key@) is None,
        },
{
    let mut i: usize = 0;
    assert(json_entry_views(entries@).skip(0) == json_entry_views(entries@));
    while i < entries.len()
        invariant
            i <= entries.len(),
            member(json_entry_views(entries@), key@) == member(json_entry_views(entries@).skip(i as int), key@),
        decreases entries.len() - i,
    {
        proof {
            lemma_entry_views_index(entries@, i as int);
            let t = json_entry_views(entries@).skip(i as int);
            assert(t.drop_first() == json_entry_views(entries@).skip(i + 1));
        }
        if str_eq(entries[i].0.as_str(), key) {
            return Some(&entries[i].1);
        }
        i = i + 1;
    }
    proof {
        lemma_entry_views_len(entries@);
    }
    None
}

pub proof fn lemma_entry_views_len(entries: Seq<(String, JsonValue)>)
    ensures
        json_entry_views(entries).len() == entries.len(),
    decreases entries.len(),
{
    if entries.len() > 0 {
        lemma_entry_views_len(entries.drop_last());
    }
}

pub proof fn lemma_entry_views_index(entries: Seq<(String, JsonValue)>, i: int)
    requires
        0 <= i < entries.len(),
    ensures
        json_entry_views(entries).len() == entries.len(),
        json_entry_views(entries)[i] == (entries[i].0@, json_view(entries[i].1)),
    decreases entries.len(),
{
    lemma_entry_views_len(entries);
    if i < entries.len() - 1 {
        lemma_entry_views_index(entries.drop_last(), i);
    }
}

pub proof fn lemma_views_index(items: Seq<JsonValue>, i: int)
    requires
        0 <= i < items.len(),
    ensures
        json_views(items).len() == items.len(),
        json_views(items)[i] == json_view(items[i]),
    decreases items.len(),
{
    lemma_views_len(items);
    if i < items.len() - 1 {
        lemma_views_index(items.drop_last(), i);
    }
}

pub proof fn lemma_views_len(items: Seq<JsonValue>)
    ensures
        json_views(items).len() == items.len(),
    decreases items.len(),
{
    if items.len() > 0 {
        lemma_views_len(items.drop_last());
    }
}

fn value_is_target(v: &JsonValue, id: &str) -> (r: bool)
    ensures
        r == is_target(json_view(*v), id@),
{
    match v {
        JsonValue::Object(entries) => match get_member(entries, "id") {
            Some(JsonValue::String(s)) => str_eq(s.as_str(), id),
            _ => false,
        },
        _ => false,
    }
}

/// The stripped copy of a value, and whether a target was removed.
fn strip_value(v: &JsonValue, id: &str) -> (r: (JsonValue, bool))
    ensures
        json_view(r.0) == strip(json_view(*v), id@),
        r.1 == has_target(json_view(*v), id@),
    decreases v, 3nat,
{
    match v {
        JsonValue::Null => (JsonValue::Null, false),
        JsonValue::Bool(b) => (JsonValue::Bool(*b), false),
        JsonValue::Number(n) => (JsonValue::Number(n.clone()), false),
        JsonValue::String(t) => (JsonValue::String(t.clone()), false),
        JsonValue::Array(items) => {
            let (out, removed) = strip_items(items, id, false);
            (JsonValue::Array(out), removed)
        },
        JsonValue::Object(entries) => {
            let (out, removed) = strip_members(entries, id);
            (JsonValue::Object(out), removed)
        },
    }
}

/// Strips each item; with `children`, targets are dropped as well.
fn strip_items(items: &Vec<JsonValue>, id: &str, children: bool) -> (r: (Vec<JsonValue>, bool))
    ensures
        children ==> json_views(r.0@) == strip_children(json_views(items@), id@),
        !children ==> json_views(r.0@) == strip_all(json_views(items@), id@),
        children ==> r.1 == children_have_target(json_views(items@), id@),
        !children ==> r.1 == any_has_target(json_views(items@), id@),
    decreases items, 2nat,
{
    let mut out: Vec<JsonValue> = Vec::new();
    let mut removed = false;
    let mut i: usize = 0;
    while i < items.len()
        invariant
            i <= items.len(),
            children ==> json_views(out@) == strip_children(json_views(items@.take(i as int)), id@),
            !children ==> json_views(out@) == strip_all(json_views(items@.take(i as int)), id@),
            children ==> removed == children_have_target(json_views(items@.take(i as int)), id@),
            !children ==> removed == any_has_target(json_views(items@.take(i as int)), id@),
        decreases items.len() - i,
    {
        proof {
            let t = items@.take(i + 1);
            assert(t.drop_last() == items@.take(i as int));
            assert(t.last() == items@[i as int]);
            let jv = json_views(items@.take(i as int));
            assert(json_views(t) == jv.push(json_view(items@[i as int])));
            assert(jv.push(json_view(items@[i as int])).drop_last() == jv);
            assert(decreases_to!(items => items@[i as int]));
        }
        if children && value_is_target(&items[i], id) {
            removed = true;
        } else {
            let (sx, r) = strip_value(&items[i], id);
            if r {
                removed = true;
            }
            let ghost before = out@;
            out.push(sx);
            assert(json_views(out@).drop_last() == json_views(before)) by {
                assert(out@.drop_last() == before);
            }
            assert(json_views(out@).last() == json_view(sx)) by {
                assert(out@.last() == sx);
            }
        }
        i = i + 1;
    }
    assert(items@.take(items.len() as int) == items@);
    (out, removed)
}

/// Strips each member of an object.
fn strip_members(entries: &Vec<(String, JsonValue)>, id: &str) -> (r: (Vec<(String, JsonValue)>, bool))
    ensures
        json_entry_views(r.0@) == strip_entries(json_entry_views(entries@), id@),
        r.1 == entries_have_target(json_entry_views(entries@), id@),
    decreases entries, 2nat,
{
    let mut out: Vec<(String, JsonValue)> = Vec::new();
    let mut removed = false;
    let mut i: usize = 0;
    while i < entries.len()
        invariant
            i <= entries.len(),
            json_entry_views(out@) == strip_entries(json_entry_views(entries@.take(i as int)), id@),
            removed == entries_have_target(json_entry_views(entries@.take(i as int)), id@),
        decreases entries.len() - i,
    {
        let key = &entries[i].0;
        let val = &entries[i].1;
        proof {
            let t = entries@.take(i + 1);
            assert(t.drop_last() == entries@.take(i as int));
            assert(t.last() == entries@[i as int]);
            assert(json_entry_views(t).drop_last() == json_entry_views(entries@.take(i as int)));
            assert(decreases_to!(entries => entries@[i as int].1));
        }
        let is_children = str_eq(key.as_str(), "children");
        let (nv, r) = match val {
            JsonValue::Array(items) => {
                proof {
                    assert(decreases_to!(entries => *items));
                }
                let (out_items, r) = strip_items(items, id, is_children);
                (JsonValue::Array(out_items), r)
            },
            other => strip_value(other, id),
        };
        if r {
            removed = true;
        }
        let ghost before = out@;
        let kc = key.clone();
        let ghost nvg = nv;
        out.push((kc, nv));
        proof {
            assert(out@.drop_last() == before);
            assert(out@.last() == (kc, nvg));
            assert(json_entry_views(out@) == json_entry_views(before).push((key@, json_view(nvg))));
            let t = entries@.take(i + 1);
            assert(json_entry_views(t).last() == (key@, json_view(*val)));
        }
        i = i + 1;
    }
    assert(entries@.take(entries.len() as int) == entries@);
    (out, removed)
}

/// Removes from `node` every bookmark node whose `"id"` is `original_id`,
/// wherever it sits in a `"children"` array; tells whether one was removed.
pub fn remove_chromium_bookmark_from_value(node: &mut JsonValue, original_id: &str) -> (removed: bool)
    ensures
        json_view(*final(node)) == strip(json_view(*old(node)), original_id@),
        removed == has_target(json_view(*old(node)), original_id@),
{
    let (nv, removed) = strip_value(node, original_id);
    *node = nv;
    removed
}

// ---------------------------------------------------------------------------
// JSON text
// ---------------------------------------------------------------------------

#[verifier::external_type_specification]
#[verifier::external_body]
pub struct ExSerdeJsonValue(serde_json::Value);

/// What serde_json makes of a byte string parsed as a `serde_json::Value`:
/// the document (numbers in the form serde_json writes them back, object
/// members in the order of serde_json's map, a repeated key once) or its
/// error message.
pub uninterp spec fn spec_json_parse(bytes: Seq<u8>) -> Result<JsonView, Seq<char>>;

/// The text `serde_json::to_string_pretty` writes for a document, or its
/// error message; a number serde_json cannot read back from its written form
/// gives that error's message.
pub uninterp spec fn spec_json_pretty(v: JsonView) -> Result<Seq<char>, Seq<char>>;

/// One serde_json value as a `JsonValue`, variant for variant.
#[verifier::external_body]
fn json_from_serde(v: serde_json::Value) -> JsonValue {
    match v {
        serde_json::Value::Null => JsonValue::Null,
        serde_json::Value::Bool(b) => JsonValue::Bool(b),
        serde_json::Value::Number(n) => JsonValue::Number(n.to_string()),
        serde_json::Value::String(s) => JsonValue::String(s),
        serde_json::Value::Array(items) => JsonValue::Array(items.into_iter().map(json_from_serde).collect()),
        serde_json::Value::Object(map) => JsonValue::Object(map.into_iter().map(|(k, v)| (k, json_from_serde(v))).collect()),
    }
}

/// One `JsonValue` as a serde_json value, variant for variant; a number is
/// read back from its written form with `serde_json::Number`'s `FromStr`,
/// whose error, for a form it cannot read, is passed on.
#[verifier::external_body]
fn json_to_serde(v: &JsonValue) -> Result<serde_json::Value, String> {
    Ok(match v {
        JsonValue::Null => serde_json::Value::Null,
        JsonValue::Bool(b) => serde_json::Value::Bool(*b),
        JsonValue::Number(n) => serde_json::Value::Number(n.parse::<serde_json::Number>().map_err(|e| e.to_string())?),
        JsonValue::String(s) => serde_json::Value::String(s.clone()),
        JsonValue::Array(items) => serde_json::Value::Array(items.iter().map(json_to_serde).collect::<Result<_, _>>()?),
        JsonValue::Object(entries) => serde_json::Value::Object(
            entries.iter().map(|(k, v)| Ok((k.clone(), json_to_serde(v)?))).collect::<Result<_, String>>()?,
        ),
    })
}

/// Parses JSON text with `serde_json::from_slice::<serde_json::Value>`. The
/// document, or the error's message, is what serde_json gives for these
/// bytes; serde_json's grammar is not restated here.
#[verifier::external_body]
fn json_parse(bytes: &[u8]) -> (r: Result<JsonValue, String>)
    ensures
        match r {
            Ok(v) => spec_json_parse(bytes@) == Ok::<JsonView, Seq<char>>(v@),
            Err(e) => spec_json_parse(bytes@) == Err::<JsonView, Seq<char>>(e@),
        },
{
    match serde_json::from_slice::<serde_json::Value>(bytes) {
        Ok(v) => Ok(json_from_serde(v)),
        Err(e) => Err(e.to_string()),
    }
}

/// Writes a document with `serde_json::to_string_pretty` (two-space
/// indentation), its numbers read back from their written forms first. The
/// text, or the error's message (also that of a number serde_json cannot
/// read), is what serde_json gives for this document; its layout rules are
/// not restated here.
#[verifier::external_body]
fn json_pretty(v: &JsonValue) -> (r: Result<String, String>)
    ensures
        match r {
            Ok(t) => spec_json_pretty(v@) == Ok::<Seq<char>, Seq<char>>(t@),
            Err(e) => spec_json_pretty(v@) == Err::<Seq<char>, Seq<char>>(e@),
        },
{
    match json_to_serde(v) {
        Ok(value) => serde_json::to_string_pretty(&value).map_err(|e| e.to_string()),
        Err(e) => Err(e),
    }
}

/// A native-messaging message body read as a JSON document, or the parse
/// error's message.
pub fn parse_native_message(body: &[u8]) -> (r: Result<JsonValue, String>)
    ensures
        match r {
            Ok(v) => spec_json_parse(body@) == Ok::<JsonView, Seq<char>>(v@),
            Err(e) => spec_json_parse(body@) == Err::<JsonView, Seq<char>>(e@),
        },
{
    json_parse(body)
}

/// The new text of a Chromium `Bookmarks` file once every bookmark node
/// whose `"id"` is `original_id` is removed: `None` when the document holds
/// no such node (the file is then left as it is), an error when the text is
/// not JSON.
pub fn remove_chromium_bookmark_from_text(content: &str, original_id: &str) -> (r: Result<Option<String>, String>)
    ensures
        match spec_json_parse(vstd::utf8::encode_utf8(content@)) {
            Err(e) => r matches Err(m) && m@ == e,
            Ok(doc) => if has_target(doc, original_id@) {
                match spec_json_pretty(strip(doc, original_id@)) {
                    Ok(t) => r matches Ok(Some(s)) && s@ == t,
                    Err(e) => r matches Err(m) && m@ == e,
                }
            } else {
                r matches Ok(None)
            },
        },
{
    let mut doc = match json_parse(content.as_bytes()) {
        Ok(d) => d,
        Err(e) => return Err(e),
    };
    let removed = remove_chromium_bookmark_from_value(&mut doc, original_id);
    if !removed {
        return Ok(None);
    }
    match json_pretty(&doc) {
        Ok(t) => Ok(Some(t)),
        Err(e) => Err(e),
    }
}

// ---------------------------------------------------------------------------
// Laws
// ---------------------------------------------------------------------------

/// After a removal no target is left in any `"children"` array, and a value
/// with no target is left as it is: removing twice is removing once.
pub proof fn lemma_strip_leaves_no_target(v: JsonView, id: Seq<char>)
    ensures
        !has_target(strip(v, id), id),
        !has_target(v, id) ==> strip(v, id) == v,
    decreases v, 2nat,
{
    match v {
        JsonView::Array(items) => {
            lemma_strip_all_leaves_no_target(items, id);
        },
        JsonView::Object(entries) => {
            lemma_strip_entries_leaves_no_target(entries, id);
        },
        _ => {},
    }
}

proof fn lemma_strip_all_leaves_no_target(items: Seq<JsonView>, id: Seq<char>)
    ensures
        !any_has_target(strip_all(items, id), id),
        !any_has_target(items, id) ==> strip_all(items, id) == items,
    decreases items, 1nat,
{
    if items.len() > 0 {
        lemma_strip_all_leaves_no_target(items.drop_last(), id);
        lemma_strip_leaves_no_target(items.last(), id);
        let s = strip_all(items, id);
        assert(s.drop_last() == strip_all(items.drop_last(), id));
        if !any_has_target(items, id) {
            assert(items.drop_last().push(items.last()) == items);
        }
    }
}

proof fn lemma_strip_children_leaves_no_target(items: Seq<JsonView>, id: Seq<char>)
    ensures
        !any_has_target(strip_children(items, id), id),
        !children_have_target(items, id) ==> strip_children(items, id) == items,
    decreases items, 1nat,
{
    if items.len() > 0 {
        lemma_strip_children_leaves_no_target(items.drop_last(), id);
        lemma_strip_leaves_no_target(items.last(), id);
        if !is_target(items.last(), id) {
            let s = strip_children(items, id);
            assert(s.drop_last() == strip_children(items.drop_last(), id));
        }
        if !children_have_target(items, id) {
            assert(items.drop_last().push(items.last()) == items);
        }
    }
}

/// An array with no target at all is also free of targets as a `"children"` array.
proof fn lemma_no_target_children(items: Seq<JsonView>, id: Seq<char>)
    requires
        !any_has_target(items, id),
        forall|i: int| 0 <= i < items.len() ==> !is_target(#[trigger] items[i], id),
    ensures
        !children_have_target(items, id),
    decreases items.len(),
{
    if items.len() > 0 {
        assert(items.last() == items[items.len() - 1]);
        lemma_no_target_children(items.drop_last(), id);
    }
}

/// Stripped values are never targets: a stripped child keeps its own id,
/// so targets have to be proven absent from the parent's array instead.
proof fn lemma_strip_children_not_targets(items: Seq<JsonView>, id: Seq<char>)
    ensures
        forall|i: int| 0 <= i < strip_children(items, id).len() ==> !is_target(#[trigger] strip_children(items, id)[i], id),
    decreases items.len(),
{
    if items.len() > 0 {
        lemma_strip_children_not_targets(items.drop_last(), id);
        let s = strip_children(items, id);
        let p = strip_children(items.drop_last(), id);
        if !is_target(items.last(), id) {
            lemma_strip_keeps_target_status(items.last(), id);
            assert forall|i: int| 0 <= i < s.len() implies !is_target(#[trigger] s[i], id) by {
                if i < p.len() {
                    assert(s[i] == p[i]);
                }
            }
        }
    }
}

/// Stripping never changes whether a value is a target.
proof fn lemma_strip_keeps_target_status(v: JsonView, id: Seq<char>)
    ensures
        is_target(strip(v, id), id) == is_target(v, id),
{
    match v {
        JsonView::Object(entries) => {
            reveal_strlit("id");
            reveal_strlit("children");
            assert("id"@.len() != "children"@.len());
            lemma_strip_entries_member(entries, id, "id"@);
        },
        _ => {},
    }
}

/// The member `key` of stripped entries is the stripped member, so a string
/// member stays the same string.
proof fn lemma_strip_entries_member(entries: Seq<(Seq<char>, JsonView)>, id: Seq<char>, key: Seq<char>)
    requires
        key != "children"@,
    ensures
        (member(strip_entries(entries, id), key) matches Some(JsonView::Str(s))) <==> (member(entries, key) matches Some(
            JsonView::Str(s),
        )),
        member(strip_entries(entries, id), key) is Some <==> member(entries, key) is Some,
        member(entries, key) matches Some(JsonView::Str(s)) ==> member(strip_entries(entries, id), key) == Some(
            JsonView::Str(s),
        ),
    decreases entries.len(),
{
    lemma_strip_entries_len(entries, id);
    if entries.len() > 0 {
        let se = strip_entries(entries, id);
        lemma_strip_entries_first(entries, id);
        if entries[0].0 == key {
        } else {
            lemma_strip_entries_member(entries.drop_first(), id, key);
        }
    }
}

proof fn lemma_strip_entries_len(entries: Seq<(Seq<char>, JsonView)>, id: Seq<char>)
    ensures
        strip_entries(entries, id).len() == entries.len(),
    decreases entries.len(),
{
    if entries.len() > 0 {
        lemma_strip_entries_len(entries.drop_last(), id);
    }
}

/// The stripped entries are the first entry stripped followed by the rest
/// stripped.
proof fn lemma_strip_entries_first(entries: Seq<(Seq<char>, JsonView)>, id: Seq<char>)
    requires
        entries.len() > 0,
    ensures
        strip_entries(entries, id)[0].0 == entries[0].0,
        entries[0].0 != "children"@ ==> strip_entries(entries, id)[0].1 == strip(entries[0].1, id),
        strip_entries(entries, id).drop_first() == strip_entries(entries.drop_first(), id),
    decreases entries.len(),
{
    lemma_strip_entries_len(entries, id);
    if entries.len() == 1 {
        assert(entries.drop_first().len() == 0);
        assert(entries.drop_last().len() == 0);
        let (k, val) = entries[0];
        if k != "children"@ {
            match val {
                JsonView::Array(items) => {},
                _ => {},
            }
        }
    } else {
        lemma_strip_entries_first(entries.drop_last(), id);
        assert(entries.drop_last()[0] == entries[0]);
        assert(entries.drop_first().drop_last() == entries.drop_last().drop_first());
        assert(entries.drop_first().last() == entries.last());
        lemma_strip_entries_len(entries.drop_last(), id);
        let a = strip_entries(entries.drop_last(), id);
        assert(strip_entries(entries, id) == a.push(strip_entries(entries, id).last()));
        assert(strip_entries(entries, id)[0] == a[0]);
        assert(strip_entries(entries, id).drop_first() == a.drop_first().push(strip_entries(entries, id).last()));
    }
}

proof fn lemma_strip_entries_leaves_no_target(entries: Seq<(Seq<char>, JsonView)>, id: Seq<char>)
    ensures
        !entries_have_target(strip_entries(entries, id), id),
        !entries_have_target(entries, id) ==> strip_entries(entries, id) == entries,
    decreases entries, 1nat,
{
    if entries.len() > 0 {
        lemma_strip_entries_leaves_no_target(entries.drop_last(), id);
        let (k, val) = entries.last();
        let s = strip_entries(entries, id);
        assert(s.drop_last() == strip_entries(entries.drop_last(), id));
        match val {
            JsonView::Array(items) => {
                if k == "children"@ {
                    lemma_strip_children_leaves_no_target(items, id);
                    lemma_strip_children_not_targets(items, id);
                    lemma_no_target_children(strip_children(items, id), id);
                } else {
                    lemma_strip_all_leaves_no_target(items, id);
                }
            },
            _ => {
                lemma_strip_leaves_no_target(val, id);
                assert(!(strip(val, id) is Array));
            },
        }
        if !entries_have_target(entries, id) {
            assert(entries.drop_last().push(entries.last()) == entries);
        }
    }
}

} // verus!
