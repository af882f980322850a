//! A property list as plain values; Safari's `Bookmarks.plist` tree read
//! into import nodes, and the removal of a bookmark from it.

use vstd::prelude::*;
use crate::scanner::{ImportNode, ImportNodeView, node_views};
use crate::text::str_eq;

verus! {

/// A property-list value. Dictionaries keep their entries in order, each key
/// once; values the bookmark logic never reads (numbers, dates, data, ...)
/// are carried as `Other`, by a number under which the caller keeps them.
#[derive(Debug)]
pub enum PlistValue {
    Dict(Vec<(String, PlistValue)>),
    Array(Vec<PlistValue>),
    String(String),
    Other(u64),
}

/// A property-list value as mathematical sequences.
pub enum PlistView {
    Dict(Seq<(Seq<char>, PlistView)>),
    Array(Seq<PlistView>),
    Str(Seq<char>),
    Other(u64),
}

pub open spec fn plist_view(v: PlistValue) -> PlistView
    decreases v, 2nat,
{
    match v {
        PlistValue::Dict(entries) => PlistView::Dict(plist_entry_views(entries@)),
        PlistValue::Array(items) => PlistView::Array(plist_views(items@)),
        PlistValue::String(s) => PlistView::Str(s@),
        PlistValue::Other(n) => PlistView::Other(n),
    }
}

pub open spec fn plist_views(items: Seq<PlistValue>) -> Seq<PlistView>
    decreases items, 1nat,
{
    if items.len() == 0 {
        Seq::empty()
    } else {
        plist_views(items.drop_last()).push(plist_view(items.last()))
    }
}

pub open spec fn plist_entry_views(entries: Seq<(String, PlistValue)>) -> Seq<(Seq<char>, PlistView)>
    decreases entries, 1nat,
{
    if entries.len() == 0 {
        Seq::empty()
    } else {
        plist_entry_views(entries.drop_last()).push((entries.last().0@, plist_view(entries.last().1)))
    }
}

impl View for PlistValue {
    type V = PlistView;

    open spec fn view(&self) -> PlistView {
        plist_view(*self)
    }
}

/// The value of the first entry named `key`.
pub open spec fn entry(entries: Seq<(Seq<char>, PlistView)>, key: Seq<char>) -> Option<PlistView>
    decreases entries.len(),
{
    if entries.len() == 0 {
        None
    } else if entries[0].0 == key {
        Some(entries[0].1)
    } else {
        entry(entries.drop_first(), key)
    }
}

/// The string stored under `key`, if the entry is a string.
pub open spec fn string_entry(entries: Seq<(Seq<char>, PlistView)>, key: Seq<char>) -> Option<Seq<char>> {
    match entry(entries, key) {
        Some(PlistView::Str(s)) => Some(s),
        _ => None,
    }
}

/// An entry's value lies inside the dictionary.
pub proof fn lemma_entry_decreases(d: Seq<(Seq<char>, PlistView)>, key: Seq<char>)
    ensures
        entry(d, key) matches Some(v) ==> decreases_to!(d => v),
    decreases d.len(),
{
    if d.len() > 0 {
        if d[0].0 == key {
            assert(decreases_to!(d => d[0].1));
        } else {
            lemma_entry_decreases(d.drop_first(), key);
            if let Some(v) = entry(d, key) {
                assert(decreases_to!(d => d.drop_first()));
            }
        }
    }
}

fn get_entry<'a>(entries: &'a Vec<(String, PlistValue)>, key: &str) -> (r: Option<&'a PlistValue>)
    ensures
        match r {
            Some(v) => entry(plist_entry_views(entries@), key@) == Some(plist_view(*v)),
            None => entry(plist_entry_views(entries@), key@) is None,
        },
        r matches Some(v) ==> exists|i: int| 0 <= i < entries@.len() && *v == #[trigger] entries@[i].1,
{
    let mut i: usize = 0;
    assert(plist_entry_views(entries@).skip(0) == plist_entry_views(entries@));
    while i < entries.len()
        invariant
            i <= entries.len(),
            entry(plist_entry_views(entries@), key@) == entry(plist_entry_views(entries@).skip(i as int), key@),
        decreases entries.len() - i,
    {
        proof {
            lemma_plist_entry_views_index(entries@, i as int);
            let t = plist_entry_views(entries@).skip(i as int);
            assert(t.drop_first() == plist_entry_views(entries@).skip(i + 1));
        }
        if str_eq(entries[i].0.as_str(), key) {
            assert(entries@[i as int].1 == entries[i as int].1);
            return Some(&entries[i].1);
        }
        i = i + 1;
    }
    proof {
        lemma_plist_entry_views_len(entries@);
    }
    None
}

fn get_string_entry<'a>(entries: &'a Vec<(String, PlistValue)>, key: &str) -> (r: Option<&'a String>)
    ensures
        match r {
            Some(s) => string_entry(plist_entry_views(entries@), key@) == Some(s@),
            None => string_entry(plist_entry_views(entries@), key@) is None,
        },
{
    match get_entry(entries, key) {
        Some(PlistValue::String(s)) => Some(s),
        _ => None,
    }
}

pub proof fn lemma_plist_entry_views_len(entries: Seq<(String, PlistValue)>)
    ensures
        plist_entry_views(entries).len() == entries.len(),
    decreases entries.len(),
{
    if entries.len() > 0 {
        lemma_plist_entry_views_len(entries.drop_last());
    }
}

pub proof fn lemma_plist_entry_views_index(entries: Seq<(String, PlistValue)>, i: int)
    requires
        0 <= i < entries.len(),
    ensures
        plist_entry_views(entries).len() == entries.len(),
        plist_entry_views(entries)[i] == (entries[i].0@, plist_view(entries[i].1)),
    decreases entries.len(),
{
    lemma_plist_entry_views_len(entries);
    if i < entries.len() - 1 {
        lemma_plist_entry_views_index(entries.drop_last(), i);
    }
}

pub proof fn lemma_plist_views_index(items: Seq<PlistValue>, i: int)
    requires
        0 <= i < items.len(),
    ensures
        plist_views(items).len() == items.len(),
        plist_views(items)[i] == plist_view(items[i]),
    decreases items.len(),
{
    lemma_plist_views_len(items);
    if i < items.len() - 1 {
        lemma_plist_views_index(items.drop_last(), i);
    }
}

pub proof fn lemma_plist_views_len(items: Seq<PlistValue>)
    ensures
        plist_views(items).len() == items.len(),
    decreases items.len(),
{
    if items.len() > 0 {
        lemma_plist_views_len(items.drop_last());
    }
}

// ---------------------------------------------------------------------------
// Reading Safari's tree
// ---------------------------------------------------------------------------

/// The entry of one Safari dictionary: a leaf with a URL gives a bookmark
/// titled by its `URIDictionary` title (else its URL); a list gives a folder
/// titled `Title` (else "Untitled"); the id is `WebBookmarkUUID`, else
/// "safari-root".
pub open spec fn safari_own(d: Seq<(Seq<char>, PlistView)>, parent: Option<Seq<char>>) -> Seq<ImportNodeView> {
    let kind = string_entry(d, "WebBookmarkType"@);
    let id = match string_entry(d, "WebBookmarkUUID"@) {
        Some(s) => s,
        None => "safari-root"@,
    };
    if kind == Some("WebBookmarkTypeLeaf"@) {
        match string_entry(d, "URLString"@) {
            Some(u) => {
                let title = match entry(d, "URIDictionary"@) {
                    Some(PlistView::Dict(ud)) => string_entry(ud, "title"@),
                    _ => None,
                };
                seq![
                    ImportNodeView {
                        original_id: id,
                        parent_original_id: parent,
                        title: match title {
                            Some(t) => t,
                            None => u,
                        },
                        url: Some(u),
                        is_folder: false,
                        browser: "Safari"@,
                    },
                ]
            },
            None => Seq::empty(),
        }
    } else if kind == Some("WebBookmarkTypeList"@) {
        seq![
            ImportNodeView {
                original_id: id,
                parent_original_id: parent,
                title: match string_entry(d, "Title"@) {
                    Some(t) => t,
                    None => "Untitled"@,
                },
                url: None,
                is_folder: true,
                browser: "Safari"@,
            },
        ]
    } else {
        Seq::empty()
    }
}

/// What one Safari dictionary gives: a `WebBookmarkTypeList` gives one
/// folder titled by its `Title` (`Untitled` without one), a
/// `WebBookmarkTypeLeaf` with a `URLString` gives one bookmark with that URL,
/// titled by the `title` of its `URIDictionary` (its URL without one), and
/// anything else gives nothing; the node's id is the `WebBookmarkUUID`
/// (`safari-root` without one), it lies under `parent`, and its browser is
/// Safari.
pub proof fn lemma_safari_own_fields(d: Seq<(Seq<char>, PlistView)>, parent: Option<Seq<char>>)
    ensures
        ({
            let own = safari_own(d, parent);
            let kind = string_entry(d, "WebBookmarkType"@);
            let is_list = kind == Some("WebBookmarkTypeList"@);
            let is_leaf = kind == Some("WebBookmarkTypeLeaf"@) && string_entry(d, "URLString"@) is Some;
            &&& own.len() == (if is_list || is_leaf { 1int } else { 0int })
            &&& own.len() == 1 ==> {
                let v = own[0];
                &&& v.parent_original_id == parent
                &&& v.browser == "Safari"@
                &&& v.original_id == match string_entry(d, "WebBookmarkUUID"@) {
                    Some(s) => s,
                    None => "safari-root"@,
                }
                &&& v.is_folder == is_list
                &&& is_list ==> v.url is None && v.title == match string_entry(d, "Title"@) {
                    Some(t) => t,
                    None => "Untitled"@,
                }
                &&& is_leaf ==> v.url == string_entry(d, "URLString"@) && v.title == match entry(d, "URIDictionary"@) {
                    Some(PlistView::Dict(ud)) => match string_entry(ud, "title"@) {
                        Some(t) => t,
                        None => string_entry(d, "URLString"@)->0,
                    },
                    _ => string_entry(d, "URLString"@)->0,
                }
            }
        }),
{
    reveal_strlit("WebBookmarkTypeList");
    reveal_strlit("WebBookmarkTypeLeaf");
    assert("WebBookmarkTypeList"@ != "WebBookmarkTypeLeaf"@) by {
        assert("WebBookmarkTypeList"@[16] != "WebBookmarkTypeLeaf"@[16]);
    }
}

/// A flattened Safari tree lists each folder before what it holds: every
/// node but the first lies under a node listed earlier, and the first lies
/// under `parent`.
pub proof fn lemma_safari_flatten_preorder(d: Seq<(Seq<char>, PlistView)>, parent: Option<Seq<char>>)
    ensures
        safari_flatten(d, parent).len() > 0 ==> safari_flatten(d, parent)[0].parent_original_id == parent,
        forall|i: int| 1 <= i < safari_flatten(d, parent).len() ==>
            #[trigger] crate::scanner::parent_listed_before(safari_flatten(d, parent), i),
    decreases d, 2nat,
{
    lemma_safari_own_fields(d, parent);
    let f = safari_flatten(d, parent);
    let own = safari_own(d, parent);
    if string_entry(d, "WebBookmarkType"@) == Some("WebBookmarkTypeList"@) {
        match entry(d, "Children"@) {
            Some(PlistView::Array(items)) => {
                lemma_entry_decreases(d, "Children"@);
                lemma_safari_flatten_all_preorder(items, safari_id(d));
                let rest = safari_flatten_all(items, safari_id(d));
                assert(f == own + rest);
                assert(own.len() == 1);
                assert(own[0].original_id == safari_id(d));
                assert forall|i: int| 1 <= i < f.len() implies #[trigger] crate::scanner::parent_listed_before(f, i) by {
                    assert(f[i] == rest[i - 1]);
                    if rest[i - 1].parent_original_id == Some(safari_id(d)) {
                        assert(Some(f[0].original_id) == f[i].parent_original_id);
                    } else {
                        assert(crate::scanner::parent_listed_before(rest, i - 1));
                        let j = choose|j: int| 0 <= j < i - 1 && Some(#[trigger] rest[j].original_id) == rest[i - 1].parent_original_id;
                        assert(f[j + 1] == rest[j]);
                        assert(Some(f[j + 1].original_id) == f[i].parent_original_id);
                    }
                }
            },
            _ => {
                assert(f == own);
            },
        }
    } else {
        assert(f == own);
    }
}

proof fn lemma_safari_flatten_all_preorder(items: Seq<PlistView>, parent: Seq<char>)
    ensures
        forall|i: int| 0 <= i < safari_flatten_all(items, parent).len() ==>
            safari_flatten_all(items, parent)[i].parent_original_id == Some(parent)
            || #[trigger] crate::scanner::parent_listed_before(safari_flatten_all(items, parent), i),
    decreases items, 1nat,
{
    if items.len() > 0 {
        lemma_safari_flatten_all_preorder(items.drop_last(), parent);
        let a = safari_flatten_all(items.drop_last(), parent);
        let b = match items.last() {
            PlistView::Dict(dd) => safari_flatten(dd, Some(parent)),
            _ => Seq::empty(),
        };
        if let PlistView::Dict(dd) = items.last() {
            lemma_safari_flatten_preorder(dd, Some(parent));
        }
        let f = safari_flatten_all(items, parent);
        assert(f == a + b);
        assert forall|i: int| 0 <= i < f.len() implies f[i].parent_original_id == Some(parent)
            || #[trigger] crate::scanner::parent_listed_before(f, i) by {
            if i < a.len() {
                assert(f[i] == a[i]);
                if a[i].parent_original_id != Some(parent) {
                    assert(crate::scanner::parent_listed_before(a, i));
                    let j = choose|j: int| 0 <= j < i && Some(#[trigger] a[j].original_id) == a[i].parent_original_id;
                    assert(f[j] == a[j]);
                }
            } else {
                let k = i - a.len();
                assert(f[i] == b[k]);
                if k > 0 {
                    assert(crate::scanner::parent_listed_before(b, k));
                    let j = choose|j: int| 0 <= j < k && Some(#[trigger] b[j].original_id) == b[k].parent_original_id;
                    assert(f[j + a.len()] == b[j]);
                    assert(Some(f[j + a.len()].original_id) == f[i].parent_original_id);
                }
            }
        }
    }
}

/// The id a Safari dictionary gives its children.
pub open spec fn safari_id(d: Seq<(Seq<char>, PlistView)>) -> Seq<char> {
    match string_entry(d, "WebBookmarkUUID"@) {
        Some(s) => s,
        None => "safari-root"@,
    }
}

/// A Safari dictionary's own node, then (for a list) the nodes of its
/// dictionary children, depth first.
pub open spec fn safari_flatten(d: Seq<(Seq<char>, PlistView)>, parent: Option<Seq<char>>) -> Seq<ImportNodeView>
    decreases d, 2nat,
{
    safari_own(d, parent) + if string_entry(d, "WebBookmarkType"@) == Some("WebBookmarkTypeList"@) {
        match entry(d, "Children"@) {
            Some(PlistView::Array(items)) => {
                proof {
                    lemma_entry_decreases(d, "Children"@);
                }
                safari_flatten_all(items, safari_id(d))
            },
            _ => Seq::empty(),
        }
    } else {
        Seq::empty()
    }
}

/// The nodes of the dictionaries among `items`, in order.
pub open spec fn safari_flatten_all(items: Seq<PlistView>, parent: Seq<char>) -> Seq<ImportNodeView>
    decreases items, 1nat,
{
    if items.len() == 0 {
        Seq::empty()
    } else {
        safari_flatten_all(items.drop_last(), parent) + match items.last() {
            PlistView::Dict(d) => safari_flatten(d, Some(parent)),
            _ => Seq::empty(),
        }
    }
}

fn str_or(o: Option<&String>, dflt: &str) -> (r: String)
    ensures
        r@ == match o {
            Some(s) => s@,
            None => dflt@,
        },
{
    match o {
        Some(s) => s.clone(),
        None => String::from_str(dflt),
    }
}

fn opt_str_eq(o: Option<&String>, t: &str) -> (r: bool)
    ensures
        r == match o {
            Some(s) => s@ == t@,
            None => false,
        },
{
    match o {
        Some(s) => str_eq(s.as_str(), t),
        None => false,
    }
}

/// Appends the nodes of one Safari dictionary and its descendants.
pub fn traverse_safari_recursive(dict: &Vec<(String, PlistValue)>, parent_id: Option<String>, result: &mut Vec<ImportNode>)
    ensures
        node_views(final(result)@) == node_views(old(result)@) + safari_flatten(
            plist_entry_views(dict@),
            crate::scanner::opt_view(parent_id),
        ),
    decreases dict, 2nat,
{
    let ghost d = plist_entry_views(dict@);
    let ghost parent_view = crate::scanner::opt_view(parent_id);
    let kind = get_string_entry(dict, "WebBookmarkType");
    let original_id = str_or(get_string_entry(dict, "WebBookmarkUUID"), "safari-root");
    let ghost start = node_views(result@);
    if opt_str_eq(kind, "WebBookmarkTypeLeaf") {
        proof {
            reveal_strlit("WebBookmarkTypeLeaf");
            reveal_strlit("WebBookmarkTypeList");
            assert("WebBookmarkTypeLeaf"@[16] != "WebBookmarkTypeList"@[16]);
        }
        let url = get_string_entry(dict, "URLString");
        let title: Option<&String> = match get_entry(dict, "URIDictionary") {
            Some(PlistValue::Dict(ud)) => get_string_entry(ud, "title"),
            _ => None,
        };
        if let Some(u) = url {
            let t = match title {
                Some(t) => t.clone(),
                None => u.clone(),
            };
            let node = ImportNode {
                original_id,
                parent_original_id: parent_id,
                title: t,
                url: Some(u.clone()),
                is_folder: false,
                browser: String::from_str("Safari"),
            };
            let ghost before = result@;
            result.push(node);
            assert(node_views(result@) == node_views(before).push(node@));
        }
        assert(node_views(result@) == start + safari_flatten(d, parent_view));
    } else if opt_str_eq(kind, "WebBookmarkTypeList") {
        let title = str_or(get_string_entry(dict, "Title"), "Untitled");
        let node = ImportNode {
            original_id: original_id.clone(),
            parent_original_id: parent_id,
            title,
            url: None,
            is_folder: true,
            browser: String::from_str("Safari"),
        };
        let ghost before = result@;
        result.push(node);
        assert(node_views(result@) == node_views(before).push(node@));
        let ch = get_entry(dict, "Children");
        match ch {
            Some(PlistValue::Array(children)) => {
                proof {
                    let i = choose|i: int| 0 <= i < dict@.len() && *ch.unwrap() == #[trigger] dict@[i].1;
                    assert(decreases_to!(dict => dict@[i].1->Array_0));
                }
                let ghost mid = node_views(result@);
                traverse_safari_children(children, &original_id, result);
                assert(node_views(result@) == start + safari_flatten(d, parent_view));
            },
            _ => {
                assert(node_views(result@) == start + safari_flatten(d, parent_view));
            },
        }
    } else {
        assert(safari_flatten(d, parent_view) == Seq::<ImportNodeView>::empty());
        assert(node_views(result@) == start + safari_flatten(d, parent_view));
    }
}

fn traverse_safari_children(children: &Vec<PlistValue>, parent: &String, result: &mut Vec<ImportNode>)
    ensures
        node_views(final(result)@) == node_views(old(result)@) + safari_flatten_all(plist_views(children@), parent@),
    decreases children, 1nat,
{
    let ghost start = node_views(result@);
    let mut i: usize = 0;
    assert(plist_views(children@.take(0)) == Seq::<PlistView>::empty());
    assert(start + Seq::<ImportNodeView>::empty() == start);
    while i < children.len()
        invariant
            i <= children.len(),
            node_views(result@) == start + safari_flatten_all(plist_views(children@.take(i as int)), parent@),
        decreases children.len() - i,
    {
        proof {
            let t = children@.take(i + 1);
            assert(t.drop_last() == children@.take(i as int));
            assert(t.last() == children@[i as int]);
            assert(plist_views(t).drop_last() == plist_views(children@.take(i as int)));
            assert(plist_views(t).last() == plist_view(children@[i as int]));
            assert(decreases_to!(children => children@[i as int]));
        }
        match &children[i] {
            PlistValue::Dict(d) => {
                traverse_safari_recursive(d, Some(parent.clone()), result);
            },
            _ => {
                assert(start + safari_flatten_all(plist_views(children@.take(i as int)), parent@) + Seq::<ImportNodeView>::empty()
                    == start + safari_flatten_all(plist_views(children@.take(i as int)), parent@));
            },
        }
        i = i + 1;
    }
    assert(children@.take(children.len() as int) == children@);
}

/// The nodes of Safari's bookmark tree; nothing when the root is not a
/// dictionary.
pub fn safari_import_nodes(root: &PlistValue) -> (r: Vec<ImportNode>)
    ensures
        node_views(r@) == match plist_view(*root) {
            PlistView::Dict(d) => safari_flatten(d, None),
            _ => Seq::empty(),
        },
{
    let mut out: Vec<ImportNode> = Vec::new();
    if let PlistValue::Dict(d) = root {
        traverse_safari_recursive(d, None, &mut out);
    }
    out
}

// ---------------------------------------------------------------------------
// Removing a Safari bookmark
// ---------------------------------------------------------------------------

/// A dictionary whose `WebBookmarkUUID` is the string `id`.
pub open spec fn is_safari_target(v: PlistView, id: Seq<char>) -> bool {
    match v {
        PlistView::Dict(d) => string_entry(d, "WebBookmarkUUID"@) == Some(id),
        _ => false,
    }
}

/// `v` with every dictionary whose uuid is `id` taken out of the `Children`
/// arrays on the way down (dictionaries are entered through `Children`
/// only, arrays through all items).
pub open spec fn sstrip(v: PlistView, id: Seq<char>) -> PlistView
    decreases v, 2nat,
{
    match v {
        PlistView::Dict(d) => PlistView::Dict(sstrip_entries(d, id)),
        PlistView::Array(items) => PlistView::Array(sstrip_all(items, id)),
        _ => v,
    }
}

pub open spec fn sstrip_all(items: Seq<PlistView>, id: Seq<char>) -> Seq<PlistView>
    decreases items, 1nat,
{
    if items.len() == 0 {
        Seq::empty()
    } else {
        sstrip_all(items.drop_last(), id).push(sstrip(items.last(), id))
    }
}

pub open spec fn sstrip_children(items: Seq<PlistView>, id: Seq<char>) -> Seq<PlistView>
    decreases items, 1nat,
{
    if items.len() == 0 {
        Seq::empty()
    } else if is_safari_target(items.last(), id) {
        sstrip_children(items.drop_last(), id)
    } else {
        sstrip_children(items.drop_last(), id).push(sstrip(items.last(), id))
    }
}

pub open spec fn sstrip_entries(d: Seq<(Seq<char>, PlistView)>, id: Seq<char>) -> Seq<(Seq<char>, PlistView)>
    decreases d, 1nat,
{
    if d.len() == 0 {
        Seq::empty()
    } else {
        let (k, val) = d.last();
        let nv = match val {
            PlistView::Array(items) => if k == "Children"@ {
                PlistView::Array(sstrip_children(items, id))
            } else {
                val
            },
            _ => val,
        };
        sstrip_entries(d.drop_last(), id).push((k, nv))
    }
}

pub open spec fn has_safari_target(v: PlistView, id: Seq<char>) -> bool
    decreases v, 2nat,
{
    match v {
        PlistView::Dict(d) => entries_have_safari_target(d, id),
        PlistView::Array(items) => any_has_safari_target(items, id),
        _ => false,
    }
}

pub open spec fn any_has_safari_target(items: Seq<PlistView>, id: Seq<char>) -> bool
    decreases items, 1nat,
{
    if items.len() == 0 {
        false
    } else {
        any_has_safari_target(items.drop_last(), id) || has_safari_target(items.last(), id)
    }
}

pub open spec fn children_have_safari_target(items: Seq<PlistView>, id: Seq<char>) -> bool
    decreases items, 1nat,
{
    if items.len() == 0 {
        false
    } else {
        children_have_safari_target(items.drop_last(), id) || is_safari_target(items.last(), id) || has_safari_target(
            items.last(),
            id,
        )
    }
}

pub open spec fn entries_have_safari_target(d: Seq<(Seq<char>, PlistView)>, id: Seq<char>) -> bool
    decreases d, 1nat,
{
    if d.len() == 0 {
        false
    } else {
        let (k, val) = d.last();
        entries_have_safari_target(d.drop_last(), id) || match val {
            PlistView::Array(items) => k == "Children"@ && children_have_safari_target(items, id),
            _ => false,
        }
    }
}

fn clone_plist(v: &PlistValue) -> (r: PlistValue)
    ensures
        plist_view(r) == plist_view(*v),
    decreases v, 2nat,
{
    match v {
        PlistValue::String(s) => PlistValue::String(s.clone()),
        PlistValue::Other(n) => PlistValue::Other(*n),
        PlistValue::Array(items) => PlistValue::Array(clone_plist_items(items)),
        PlistValue::Dict(entries) => PlistValue::Dict(clone_plist_entries(entries)),
    }
}

fn clone_plist_items(items: &Vec<PlistValue>) -> (r: Vec<PlistValue>)
    ensures
        plist_views(r@) == plist_views(items@),
    decreases items, 1nat,
{
    let mut out: Vec<PlistValue> = Vec::new();
    let mut i: usize = 0;
    while i < items.len()
        invariant
            i <= items.len(),
            plist_views(out@) == plist_views(items@.take(i as int)),
        decreases items.len() - i,
    {
        proof {
            let t = items@.take(i + 1);
            assert(t.drop_last() == items@.take(i as int));
            assert(t.last() == items@[i as int]);
            assert(decreases_to!(items => items@[i as int]));
        }
        let c = clone_plist(&items[i]);
        let ghost before = out@;
        out.push(c);
        assert(out@.drop_last() == before);
        i = i + 1;
    }
    assert(items@.take(items.len() as int) == items@);
    out
}

fn clone_plist_entries(entries: &Vec<(String, PlistValue)>) -> (r: Vec<(String, PlistValue)>)
    ensures
        plist_entry_views(r@) == plist_entry_views(entries@),
    decreases entries, 1nat,
{
    let mut out: Vec<(String, PlistValue)> = Vec::new();
    let mut i: usize = 0;
    while i < entries.len()
        invariant
            i <= entries.len(),
            plist_entry_views(out@) == plist_entry_views(entries@.take(i as int)),
        decreases entries.len() - i,
    {
        proof {
            let t = entries@.take(i + 1);
            assert(t.drop_last() == entries@.take(i as int));
            assert(t.last() == entries@[i as int]);
            assert(decreases_to!(entries => entries@[i as int].1));
        }
        let c = clone_plist(&entries[i].1);
        let k = entries[i].0.clone();
        let ghost before = out@;
        out.push((k, c));
        assert(out@.drop_last() == before);
        i = i + 1;
    }
    assert(entries@.take(entries.len() as int) == entries@);
    out
}

fn plist_is_target(v: &PlistValue, id: &str) -> (r: bool)
    ensures
        r == is_safari_target(plist_view(*v), id@),
{
    match v {
        PlistValue::Dict(d) => opt_str_eq(get_string_entry(d, "WebBookmarkUUID"), id),
        _ => false,
    }
}

fn sstrip_value(v: &PlistValue, id: &str) -> (r: (PlistValue, bool))
    ensures
        plist_view(r.0) == sstrip(plist_view(*v), id@),
        r.1 == has_safari_target(plist_view(*v), id@),
    decreases v, 3nat,
{
    match v {
        PlistValue::String(s) => (PlistValue::String(s.clone()), false),
        PlistValue::Other(n) => (PlistValue::Other(*n), false),
        PlistValue::Array(items) => {
            let (out, removed) = sstrip_items(items, id, false);
            (PlistValue::Array(out), removed)
        },
        PlistValue::Dict(entries) => {
            let (out, removed) = sstrip_members(entries, id);
            (PlistValue::Dict(out), removed)
        },
    }
}

fn sstrip_items(items: &Vec<PlistValue>, id: &str, children: bool) -> (r: (Vec<PlistValue>, bool))
    ensures
        children ==> plist_views(r.0@) == sstrip_children(plist_views(items@), id@),
        !children ==> plist_views(r.0@) == sstrip_all(plist_views(items@), id@),
        children ==> r.1 == children_have_safari_target(plist_views(items@), id@),
        !children ==> r.1 == any_has_safari_target(plist_views(items@), id@),
    decreases items, 2nat,
{
    let mut out: Vec<PlistValue> = Vec::new();
    let mut removed = false;
    let mut i: usize = 0;
    while i < items.len()
        invariant
            i <= items.len(),
            children ==> plist_views(out@) == sstrip_children(plist_views(items@.take(i as int)), id@),
            !children ==> plist_views(out@) == sstrip_all(plist_views(items@.take(i as int)), id@),
            children ==> removed == children_have_safari_target(plist_views(items@.take(i as int)), id@),
            !children ==> removed == any_has_safari_target(plist_views(items@.take(i as int)), id@),
        decreases items.len() - i,
    {
        proof {
            let t = items@.take(i + 1);
            assert(t.drop_last() == items@.take(i as int));
            assert(t.last() == items@[i as int]);
            let pv = plist_views(items@.take(i as int));
            assert(plist_views(t) == pv.push(plist_view(items@[i as int])));
            assert(pv.push(plist_view(items@[i as int])).drop_last() == pv);
            assert(decreases_to!(items => items@[i as int]));
        }
        if children && plist_is_target(&items[i], id) {
            removed = true;
        } else {
            let (sx, r) = sstrip_value(&items[i], id);
            if r {
                removed = true;
            }
            let ghost before = out@;
            out.push(sx);
            assert(plist_views(out@).drop_last() == plist_views(before)) by {
                assert(out@.drop_last() == before);
            }
            assert(plist_views(out@).last() == plist_view(sx)) by {
                assert(out@.last() == sx);
            }
        }
        i = i + 1;
    }
    assert(items@.take(items.len() as int) == items@);
    (out, removed)
}

fn sstrip_members(entries: &Vec<(String, PlistValue)>, id: &str) -> (r: (Vec<(String, PlistValue)>, bool))
    ensures
        plist_entry_views(r.0@) == sstrip_entries(plist_entry_views(entries@), id@),
        r.1 == entries_have_safari_target(plist_entry_views(entries@), id@),
    decreases entries, 2nat,
{
    let mut out: Vec<(String, PlistValue)> = Vec::new();
    let mut removed = false;
    let mut i: usize = 0;
    while i < entries.len()
        invariant
            i <= entries.len(),
            plist_entry_views(out@) == sstrip_entries(plist_entry_views(entries@.take(i as int)), id@),
            removed == entries_have_safari_target(plist_entry_views(entries@.take(i as int)), id@),
        decreases entries.len() - i,
    {
        let key = &entries[i].0;
        let val = &entries[i].1;
        proof {
            let t = entries@.take(i + 1);
            assert(t.drop_last() == entries@.take(i as int));
            assert(t.last() == entries@[i as int]);
            assert(plist_entry_views(t).drop_last() == plist_entry_views(entries@.take(i as int)));
            assert(decreases_to!(entries => entries@[i as int].1));
        }
        let is_children = str_eq(key.as_str(), "Children");
        let (nv, r) = match val {
            PlistValue::Array(items) => {
                proof {
                    assert(decreases_to!(entries => *items));
                }
                if is_children {
                    let (out_items, r) = sstrip_items(items, id, true);
                    (PlistValue::Array(out_items), r)
                } else {
                    (PlistValue::Array(clone_plist_items(items)), false)
                }
            },
            other => (clone_plist(other), false),
        };
        if r {
            removed = true;
        }
        let ghost before = out@;
        let kc = key.clone();
        let ghost nvg = nv;
        out.push((kc, nv));
        proof {
            assert(out@.drop_last() == before);
            assert(out@.last() == (kc, nvg));
            assert(plist_entry_views(out@) == plist_entry_views(before).push((key@, plist_view(nvg))));
            let t = entries@.take(i + 1);
            assert(plist_entry_views(t).last() == (key@, plist_view(*val)));
        }
        i = i + 1;
    }
    assert(entries@.take(entries.len() as int) == entries@);
    (out, removed)
}

/// Removes every bookmark dictionary whose `WebBookmarkUUID` is
/// `original_id` from the `Children` arrays on the way down; tells whether
/// one was removed.
pub fn remove_safari_bookmark_from_value(value: &mut PlistValue, original_id: &str) -> (removed: bool)
    ensures
        plist_view(*final(value)) == sstrip(plist_view(*old(value)), original_id@),
        removed == has_safari_target(plist_view(*old(value)), original_id@),
{
    let (nv, removed) = sstrip_value(value, original_id);
    *value = nv;
    removed
}


// ---------------------------------------------------------------------------
// Property-list bytes
// ---------------------------------------------------------------------------

#[verifier::external_type_specification]
#[verifier::external_body]
pub struct ExPlistValue(plist::Value);

/// The values of a parsed property list that are not dictionaries, arrays or
/// strings, in the order the tree meets them, with the bytes they were
/// parsed from. Only `plist_bytes_parse` makes one.
pub struct PlistOthers {
    items: Vec<plist::Value>,
    source: Ghost<Seq<u8>>,
}

impl PlistOthers {
    /// The bytes whose parse gave these values.
    pub closed spec fn source(&self) -> Seq<u8> {
        self.source@
    }

    /// How many values there are.
    pub closed spec fn count(&self) -> nat {
        self.items@.len()
    }
}

/// What plist makes of bytes read as a property list of any encoding
/// (`plist::Value::from_reader`): the tree, with every value that is not a
/// dictionary, array or string standing as `Other(i)` for the `i`-th such
/// value in the order the tree is walked (a dictionary's entries in order),
/// or the error's message.
pub uninterp spec fn spec_plist_parse(bytes: Seq<u8>) -> Result<PlistView, Seq<char>>;

/// The XML property list plist writes (`plist::Value::to_writer_xml`) for
/// the tree `v`, each `Other(i)` standing for the `i`-th such value of the
/// property list parsed from `source`, or the error's message.
pub uninterp spec fn spec_plist_xml(source: Seq<u8>, v: PlistView) -> Result<Seq<u8>, Seq<char>>;

/// Every `Other` of the tree is below `n`.
pub open spec fn others_below(v: PlistView, n: nat) -> bool
    decreases v, 2nat,
{
    match v {
        PlistView::Dict(d) => entries_others_below(d, n),
        PlistView::Array(items) => items_others_below(items, n),
        PlistView::Str(_) => true,
        PlistView::Other(i) => i < n,
    }
}

pub open spec fn items_others_below(items: Seq<PlistView>, n: nat) -> bool
    decreases items, 1nat,
{
    if items.len() == 0 {
        true
    } else {
        items_others_below(items.drop_last(), n) && others_below(items.last(), n)
    }
}

pub open spec fn entries_others_below(d: Seq<(Seq<char>, PlistView)>, n: nat) -> bool
    decreases d, 1nat,
{
    if d.len() == 0 {
        true
    } else {
        entries_others_below(d.drop_last(), n) && others_below(d.last().1, n)
    }
}

/// One plist value as a `PlistValue`, the values that are not dictionaries,
/// arrays or strings set aside in `others` and standing as their index.
#[verifier::external_body]
fn plist_to_lib(v: plist::Value, others: &mut Vec<plist::Value>) -> PlistValue {
    match v {
        plist::Value::Dictionary(d) => PlistValue::Dict(d.into_iter().map(|(k, v)| (k, plist_to_lib(v, others))).collect()),
        plist::Value::Array(items) => PlistValue::Array(items.into_iter().map(|v| plist_to_lib(v, others)).collect()),
        plist::Value::String(s) => PlistValue::String(s),
        other => {
            let i = others.len() as u64;
            others.push(other);
            PlistValue::Other(i)
        },
    }
}

/// One `PlistValue` as a plist value, each `Other(i)` taken back from
/// `others`.
#[verifier::external_body]
fn plist_from_lib(v: &PlistValue, others: &Vec<plist::Value>) -> plist::Value
    requires
        others_below(v@, others@.len()),
{
    match v {
        PlistValue::Dict(entries) => plist::Value::Dictionary(entries.iter().map(|(k, v)| (k.clone(), plist_from_lib(v, others))).collect()),
        PlistValue::Array(items) => plist::Value::Array(items.iter().map(|v| plist_from_lib(v, others)).collect()),
        PlistValue::String(s) => plist::Value::String(s.clone()),
        PlistValue::Other(i) => others[*i as usize].clone(),
    }
}

/// Parses bytes as a property list of any encoding with
/// `plist::Value::from_reader`. The tree, or the error's message, is what
/// plist gives for these bytes; its formats are not restated here. The set
/// aside values are one for each `Other` index the tree uses.
#[verifier::external_body]
fn plist_bytes_parse(bytes: &[u8]) -> (r: Result<(PlistValue, PlistOthers), String>)
    ensures
        match r {
            Ok((v, o)) => spec_plist_parse(bytes@) == Ok::<PlistView, Seq<char>>(v@) && o.source() == bytes@
                && others_below(v@, o.count()),
            Err(e) => spec_plist_parse(bytes@) == Err::<PlistView, Seq<char>>(e@),
        },
{
    match plist::Value::from_reader(std::io::Cursor::new(bytes)) {
        Ok(root) => {
            let mut items = Vec::new();
            let v = plist_to_lib(root, &mut items);
            Ok((v, PlistOthers { items, source: Ghost(bytes@) }))
        },
        Err(e) => Err(e.to_string()),
    }
}

/// Writes a tree as an XML property list with `plist::Value::to_writer_xml`,
/// the set-aside values put back in place. The bytes, or the error's
/// message, are what plist writes; its XML layout is not restated here.
#[verifier::external_body]
fn plist_to_xml(v: &PlistValue, others: &PlistOthers) -> (r: Result<Vec<u8>, String>)
    requires
        others_below(v@, others.count()),
    ensures
        match r {
            Ok(b) => spec_plist_xml(others.source(), v@) == Ok::<Seq<u8>, Seq<char>>(b@),
            Err(e) => spec_plist_xml(others.source(), v@) == Err::<Seq<u8>, Seq<char>>(e@),
        },
{
    let mut out: Vec<u8> = Vec::new();
    match plist_from_lib(v, &others.items).to_writer_xml(&mut out) {
        Ok(()) => Ok(out),
        Err(e) => Err(e.to_string()),
    }
}

/// The nodes of Safari's bookmark file, given its bytes: those of the tree
/// when it is a dictionary, none for another tree, and the parse error's
/// message for bytes that are no property list.
pub fn safari_nodes_from_bytes(bytes: &[u8]) -> (r: Result<Vec<ImportNode>, String>)
    ensures
        match spec_plist_parse(bytes@) {
            Ok(PlistView::Dict(d)) => r matches Ok(nodes) && node_views(nodes@) == safari_flatten(d, None),
            Ok(_) => r matches Ok(nodes) && nodes@.len() == 0,
            Err(e) => r matches Err(m) && m@ == e,
        },
{
    match plist_bytes_parse(bytes) {
        Ok((root, _)) => {
            let nodes = safari_import_nodes(&root);
            assert(node_views(nodes@).len() == nodes@.len());
            Ok(nodes)
        },
        Err(e) => Err(e),
    }
}

/// The new bytes of Safari's bookmark file, written as an XML property list,
/// once every bookmark whose `WebBookmarkUUID` is `original_id` is removed
/// from the `Children` arrays: `None` when the tree holds no such bookmark
/// (the file is then left as it is), an error when the bytes are no
/// property list or the tree cannot be written.
pub fn remove_safari_bookmark_from_bytes(bytes: &[u8], original_id: &str) -> (r: Result<Option<Vec<u8>>, String>)
    ensures
        match spec_plist_parse(bytes@) {
            Err(e) => r matches Err(m) && m@ == e,
            Ok(tree) => if has_safari_target(tree, original_id@) {
                match spec_plist_xml(bytes@, sstrip(tree, original_id@)) {
                    Ok(b) => r matches Ok(Some(out)) && out@ == b,
                    Err(e) => r matches Err(m) && m@ == e,
                }
            } else {
                r matches Ok(None)
            },
        },
{
    let (mut tree, others) = match plist_bytes_parse(bytes) {
        Ok(p) => p,
        Err(e) => return Err(e),
    };
    let ghost before = tree@;
    let removed = remove_safari_bookmark_from_value(&mut tree, original_id);
    if !removed {
        return Ok(None);
    }
    proof {
        lemma_sstrip_keeps_others_below(before, original_id@, others.count());
    }
    match plist_to_xml(&tree, &others) {
        Ok(b) => Ok(Some(b)),
        Err(e) => Err(e),
    }
}

// ---------------------------------------------------------------------------
// Laws
// ---------------------------------------------------------------------------

/// After a removal no bookmark with the uuid is left in any `Children`
/// array, and a tree with none is left as it is: removing twice is removing
/// once.
pub proof fn lemma_sstrip_leaves_no_target(v: PlistView, id: Seq<char>)
    ensures
        !has_safari_target(sstrip(v, id), id),
        !has_safari_target(v, id) ==> sstrip(v, id) == v,
    decreases v, 2nat,
{
    match v {
        PlistView::Array(items) => {
            lemma_sstrip_all_leaves_no_target(items, id);
        },
        PlistView::Dict(d) => {
            lemma_sstrip_entries_leaves_no_target(d, id);
        },
        _ => {},
    }
}

proof fn lemma_sstrip_all_leaves_no_target(items: Seq<PlistView>, id: Seq<char>)
    ensures
        !any_has_safari_target(sstrip_all(items, id), id),
        !any_has_safari_target(items, id) ==> sstrip_all(items, id) == items,
    decreases items, 1nat,
{
    if items.len() > 0 {
        lemma_sstrip_all_leaves_no_target(items.drop_last(), id);
        lemma_sstrip_leaves_no_target(items.last(), id);
        let s = sstrip_all(items, id);
        assert(s.drop_last() == sstrip_all(items.drop_last(), id));
        if !any_has_safari_target(items, id) {
            assert(items.drop_last().push(items.last()) == items);
        }
    }
}

proof fn lemma_sstrip_children_leaves_no_target(items: Seq<PlistView>, id: Seq<char>)
    ensures
        !any_has_safari_target(sstrip_children(items, id), id),
        !children_have_safari_target(items, id) ==> sstrip_children(items, id) == items,
    decreases items, 1nat,
{
    if items.len() > 0 {
        lemma_sstrip_children_leaves_no_target(items.drop_last(), id);
        lemma_sstrip_leaves_no_target(items.last(), id);
        if !is_safari_target(items.last(), id) {
            let s = sstrip_children(items, id);
            assert(s.drop_last() == sstrip_children(items.drop_last(), id));
        }
        if !children_have_safari_target(items, id) {
            assert(items.drop_last().push(items.last()) == items);
        }
    }
}

proof fn lemma_no_safari_target_children(items: Seq<PlistView>, id: Seq<char>)
    requires
        !any_has_safari_target(items, id),
        forall|i: int| 0 <= i < items.len() ==> !is_safari_target(#[trigger] items[i], id),
    ensures
        !children_have_safari_target(items, id),
    decreases items.len(),
{
    if items.len() > 0 {
        assert(items.last() == items[items.len() - 1]);
        lemma_no_safari_target_children(items.drop_last(), id);
    }
}

proof fn lemma_sstrip_children_not_targets(items: Seq<PlistView>, id: Seq<char>)
    ensures
        forall|i: int| 0 <= i < sstrip_children(items, id).len() ==> !is_safari_target(#[trigger] sstrip_children(items, id)[i], id),
    decreases items.len(),
{
    if items.len() > 0 {
        lemma_sstrip_children_not_targets(items.drop_last(), id);
        let s = sstrip_children(items, id);
        let p = sstrip_children(items.drop_last(), id);
        if !is_safari_target(items.last(), id) {
            lemma_sstrip_keeps_target_status(items.last(), id);
            assert forall|i: int| 0 <= i < s.len() implies !is_safari_target(#[trigger] s[i], id) by {
                if i < p.len() {
                    assert(s[i] == p[i]);
                }
            }
        }
    }
}

proof fn lemma_sstrip_keeps_target_status(v: PlistView, id: Seq<char>)
    ensures
        is_safari_target(sstrip(v, id), id) == is_safari_target(v, id),
{
    match v {
        PlistView::Dict(d) => {
            reveal_strlit("WebBookmarkUUID");
            reveal_strlit("Children");
            assert("WebBookmarkUUID"@.len() != "Children"@.len());
            lemma_sstrip_entries_entry(d, id, "WebBookmarkUUID"@);
        },
        _ => {},
    }
}

proof fn lemma_sstrip_entries_len(d: Seq<(Seq<char>, PlistView)>, id: Seq<char>)
    ensures
        sstrip_entries(d, id).len() == d.len(),
    decreases d.len(),
{
    if d.len() > 0 {
        lemma_sstrip_entries_len(d.drop_last(), id);
    }
}

proof fn lemma_sstrip_entries_first(d: Seq<(Seq<char>, PlistView)>, id: Seq<char>)
    requires
        d.len() > 0,
    ensures
        sstrip_entries(d, id)[0].0 == d[0].0,
        d[0].0 != "Children"@ ==> sstrip_entries(d, id)[0].1 == d[0].1,
        sstrip_entries(d, id).drop_first() == sstrip_entries(d.drop_first(), id),
    decreases d.len(),
{
    lemma_sstrip_entries_len(d, id);
    if d.len() == 1 {
        assert(d.drop_first().len() == 0);
        assert(d.drop_last().len() == 0);
    } else {
        lemma_sstrip_entries_first(d.drop_last(), id);
        assert(d.drop_last()[0] == d[0]);
        assert(d.drop_first().drop_last() == d.drop_last().drop_first());
        assert(d.drop_first().last() == d.last());
        lemma_sstrip_entries_len(d.drop_last(), id);
        let a = sstrip_entries(d.drop_last(), id);
        assert(sstrip_entries(d, id) == a.push(sstrip_entries(d, id).last()));
        assert(sstrip_entries(d, id)[0] == a[0]);
        assert(sstrip_entries(d, id).drop_first() == a.drop_first().push(sstrip_entries(d, id).last()));
    }
}

/// Entries other than `Children` are kept as they are.
proof fn lemma_sstrip_entries_entry(d: Seq<(Seq<char>, PlistView)>, id: Seq<char>, key: Seq<char>)
    requires
        key != "Children"@,
    ensures
        entry(sstrip_entries(d, id), key) == entry(d, key),
    decreases d.len(),
{
    lemma_sstrip_entries_len(d, id);
    if d.len() > 0 {
        lemma_sstrip_entries_first(d, id);
        if d[0].0 != key {
            lemma_sstrip_entries_entry(d.drop_first(), id, key);
        }
    }
}

proof fn lemma_sstrip_entries_leaves_no_target(d: Seq<(Seq<char>, PlistView)>, id: Seq<char>)
    ensures
        !entries_have_safari_target(sstrip_entries(d, id), id),
        !entries_have_safari_target(d, id) ==> sstrip_entries(d, id) == d,
    decreases d, 1nat,
{
    if d.len() > 0 {
        lemma_sstrip_entries_leaves_no_target(d.drop_last(), id);
        let (k, val) = d.last();
        let s = sstrip_entries(d, id);
        assert(s.drop_last() == sstrip_entries(d.drop_last(), id));
        match val {
            PlistView::Array(items) => {
                if k == "Children"@ {
                    lemma_sstrip_children_leaves_no_target(items, id);
                    lemma_sstrip_children_not_targets(items, id);
                    lemma_no_safari_target_children(sstrip_children(items, id), id);
                }
            },
            _ => {},
        }
        if !entries_have_safari_target(d, id) {
            assert(d.drop_last().push(d.last()) == d);
        }
    }
}


/// Removing bookmarks keeps every set-aside index of the tree.
proof fn lemma_sstrip_keeps_others_below(v: PlistView, id: Seq<char>, n: nat)
    requires
        others_below(v, n),
    ensures
        others_below(sstrip(v, id), n),
    decreases v, 2nat,
{
    match v {
        PlistView::Dict(d) => lemma_sstrip_entries_keeps_others_below(d, id, n),
        PlistView::Array(items) => lemma_sstrip_all_keeps_others_below(items, id, n),
        _ => {},
    }
}

proof fn lemma_sstrip_all_keeps_others_below(items: Seq<PlistView>, id: Seq<char>, n: nat)
    requires
        items_others_below(items, n),
    ensures
        items_others_below(sstrip_all(items, id), n),
    decreases items, 1nat,
{
    if items.len() > 0 {
        lemma_sstrip_all_keeps_others_below(items.drop_last(), id, n);
        lemma_sstrip_keeps_others_below(items.last(), id, n);
        let s = sstrip_all(items, id);
        assert(s.drop_last() == sstrip_all(items.drop_last(), id));
    }
}

proof fn lemma_sstrip_children_keeps_others_below(items: Seq<PlistView>, id: Seq<char>, n: nat)
    requires
        items_others_below(items, n),
    ensures
        items_others_below(sstrip_children(items, id), n),
    decreases items, 1nat,
{
    if items.len() > 0 {
        lemma_sstrip_children_keeps_others_below(items.drop_last(), id, n);
        if !is_safari_target(items.last(), id) {
            lemma_sstrip_keeps_others_below(items.last(), id, n);
            let s = sstrip_children(items, id);
            assert(s.drop_last() == sstrip_children(items.drop_last(), id));
        }
    }
}

proof fn lemma_sstrip_entries_keeps_others_below(d: Seq<(Seq<char>, PlistView)>, id: Seq<char>, n: nat)
    requires
        entries_others_below(d, n),
    ensures
        entries_others_below(sstrip_entries(d, id), n),
    decreases d, 1nat,
{
    if d.len() > 0 {
        lemma_sstrip_entries_keeps_others_below(d.drop_last(), id, n);
        let k = d.last().0;
        let val = d.last().1;
        assert(others_below(val, n));
        let s = sstrip_entries(d, id);
        assert(s.drop_last() == sstrip_entries(d.drop_last(), id));
        match val {
            PlistView::Array(items) => {
                assert(items_others_below(items, n));
                if k == "Children"@ {
                    lemma_sstrip_children_keeps_others_below(items, id, n);
                    assert(others_below(PlistView::Array(sstrip_children(items, id)), n));
                }
            },
            _ => {},
        }
        assert(others_below(s.last().1, n));
    }
}

} // verus!
