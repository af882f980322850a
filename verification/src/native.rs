//! Messages from the browser extension (native messaging): what a message
//! asks for, and the statements that carry it out on the local store.

use vstd::prelude::*;
use crate::json::{get_member, json_view, json_views, lemma_views_index, member, JsonValue, JsonView};
use crate::store_sql::{opt_text, param_view, params_view, SqlParam, SqlStatement};
use crate::url_ops::{clean_url, extract_host, normalize_for_dedupe, spec_clean_url, spec_extract_host, spec_normalize_for_dedupe};

verus! {

// ---------------------------------------------------------------------------
// Reading a message
// ---------------------------------------------------------------------------

/// `Value::get(key)`: the member of an object; nothing for other values.
pub open spec fn field(v: JsonView, key: Seq<char>) -> Option<JsonView> {
    match v {
        JsonView::Object(entries) => member(entries, key),
        _ => None,
    }
}

/// `Value::as_str`: the text of a string value.
pub open spec fn str_of(v: Option<JsonView>) -> Option<Seq<char>> {
    match v {
        Some(JsonView::Str(s)) => Some(s),
        _ => None,
    }
}

pub open spec fn str_field(v: JsonView, key: Seq<char>) -> Option<Seq<char>> {
    str_of(field(v, key))
}

pub open spec fn unwrap_or_empty(o: Option<Seq<char>>) -> Seq<char> {
    match o {
        Some(s) => s,
        None => Seq::empty(),
    }
}

/// The `payload` member of a message (`null` when there is none).
pub open spec fn payload_of(msg: JsonView) -> JsonView {
    match field(msg, "payload"@) {
        Some(p) => p,
        None => JsonView::Null,
    }
}

/// A bookmark a message reports.
#[derive(Debug, Clone, PartialEq, Eq)]
pub struct NativeBookmark {
    pub id: Option<String>,
    /// Empty when the message gives none
    pub url: String,
    pub title: Option<String>,
}

pub struct NativeBookmarkView {
    pub id: Option<Seq<char>>,
    pub url: Seq<char>,
    pub title: Option<Seq<char>>,
}

impl View for NativeBookmark {
    type V = NativeBookmarkView;

    open spec fn view(&self) -> NativeBookmarkView {
        NativeBookmarkView { id: opt_text(self.id), url: self.url@, title: opt_text(self.title) }
    }
}

/// The bookmark an object of a message describes: its `id`, `url` and
/// `title` strings (a missing URL is empty).
pub open spec fn bookmark_of(v: JsonView) -> NativeBookmarkView {
    NativeBookmarkView {
        id: str_field(v, "id"@),
        url: unwrap_or_empty(str_field(v, "url"@)),
        title: str_field(v, "title"@),
    }
}

/// What a message asks for.
#[derive(Debug, Clone, PartialEq, Eq)]
pub enum NativeAction {
    /// Store these bookmarks, each under its URL.
    Upsert(Vec<NativeBookmark>),
    /// Mark a bookmark deleted, found by id or else by URL.
    Delete { id: Option<String>, url: Option<String> },
    /// Change a bookmark's title and/or URL.
    Update { id: String, title: Option<String>, url: Option<String> },
    /// A message of no known type.
    Ignore,
}

pub enum NativeActionView {
    Upsert(Seq<NativeBookmarkView>),
    Delete { id: Option<Seq<char>>, url: Option<Seq<char>> },
    Update { id: Seq<char>, title: Option<Seq<char>>, url: Option<Seq<char>> },
    Ignore,
}

impl View for NativeAction {
    type V = NativeActionView;

    open spec fn view(&self) -> NativeActionView {
        match self {
            NativeAction::Upsert(v) => NativeActionView::Upsert(v@.map_values(|b: NativeBookmark| b@)),
            NativeAction::Delete { id, url } => NativeActionView::Delete { id: opt_text(*id), url: opt_text(*url) },
            NativeAction::Update { id, title, url } => NativeActionView::Update {
                id: id@,
                title: opt_text(*title),
                url: opt_text(*url),
            },
            NativeAction::Ignore => NativeActionView::Ignore,
        }
    }
}

/// The entries of `payload.bookmarks` of a full sync (none when it is not
/// an array).
pub open spec fn full_sync_items(msg: JsonView) -> Seq<JsonView> {
    match field(payload_of(msg), "bookmarks"@) {
        Some(JsonView::Array(items)) => items,
        _ => Seq::empty(),
    }
}

/// What a message asks for, by its `type`: `BookmarkAdded` and
/// `PageCaptured` store the payload's bookmark, `FullSync` every bookmark of
/// `payload.bookmarks`, `BookmarkDeleted` and `BookmarkUpdated` act on the
/// payload's id (and URL); other types are ignored. A message without a
/// string `type` is refused.
pub open spec fn decode_spec(msg: JsonView) -> Result<NativeActionView, Seq<char>> {
    match str_field(msg, "type"@) {
        None => Err("native message missing type"@),
        Some(t) => {
            let p = payload_of(msg);
            Ok(
                if t == "BookmarkAdded"@ || t == "PageCaptured"@ {
                    NativeActionView::Upsert(seq![bookmark_of(p)])
                } else if t == "FullSync"@ {
                    NativeActionView::Upsert(full_sync_items(msg).map_values(|b: JsonView| bookmark_of(b)))
                } else if t == "BookmarkDeleted"@ {
                    NativeActionView::Delete { id: str_field(p, "id"@), url: str_field(p, "url"@) }
                } else if t == "BookmarkUpdated"@ {
                    NativeActionView::Update {
                        id: unwrap_or_empty(str_field(p, "id"@)),
                        title: str_field(p, "title"@),
                        url: str_field(p, "url"@),
                    }
                } else {
                    NativeActionView::Ignore
                },
            )
        },
    }
}

fn field_of<'a>(v: &'a JsonValue, key: &str) -> (r: Option<&'a JsonValue>)
    ensures
        match r {
            Some(x) => field(json_view(*v), key@) == Some(json_view(*x)),
            None => field(json_view(*v), key@) is None,
        },
{
    match v {
        JsonValue::Object(entries) => get_member(entries, key),
        _ => None,
    }
}

fn str_value(v: Option<&JsonValue>) -> (r: Option<String>)
    ensures
        opt_text(r) == str_of(match v {
            Some(x) => Some(json_view(*x)),
            None => None,
        }),
{
    match v {
        Some(JsonValue::String(s)) => Some(s.clone()),
        _ => None,
    }
}

fn str_member(v: &JsonValue, key: &str) -> (r: Option<String>)
    ensures
        opt_text(r) == str_field(json_view(*v), key@),
{
    str_value(field_of(v, key))
}

fn bookmark_from(v: &JsonValue) -> (r: NativeBookmark)
    ensures
        r@ == bookmark_of(json_view(*v)),
{
    let id = str_member(v, "id");
    let url = match str_member(v, "url") {
        Some(u) => u,
        None => String::new(),
    };
    let title = str_member(v, "title");
    NativeBookmark { id, url, title }
}

fn str_eq_lit(a: &str, b: &str) -> (r: bool)
    ensures
        r == (a@ == b@),
{
    crate::text::str_eq(a, b)
}

/// Reads what a message asks for.
pub fn decode_native_message(msg: &JsonValue) -> (r: Result<NativeAction, String>)
    ensures
        match r {
            Ok(a) => decode_spec(json_view(*msg)) == Ok::<NativeActionView, Seq<char>>(a@),
            Err(e) => decode_spec(json_view(*msg)) == Err::<NativeActionView, Seq<char>>(e@),
        },
{
    let t = match str_member(msg, "type") {
        Some(t) => t,
        None => return Err(String::from_str("native message missing type")),
    };
    let null = JsonValue::Null;
    let p: &JsonValue = match field_of(msg, "payload") {
        Some(p) => p,
        None => &null,
    };
    assert(json_view(*p) == payload_of(json_view(*msg)));
    if str_eq_lit(t.as_str(), "BookmarkAdded") || str_eq_lit(t.as_str(), "PageCaptured") {
        let b = bookmark_from(p);
        let v = vec![b];
        assert(v@.map_values(|b: NativeBookmark| b@) =~= seq![bookmark_of(json_view(*p))]);
        Ok(NativeAction::Upsert(v))
    } else if str_eq_lit(t.as_str(), "FullSync") {
        let mut out: Vec<NativeBookmark> = Vec::new();
        let ghost items = full_sync_items(json_view(*msg));
        match field_of(p, "bookmarks") {
            Some(JsonValue::Array(arr)) => {
                assert(items == json_views(arr@));
                let mut i: usize = 0;
                while i < arr.len()
                    invariant
                        i <= arr.len(),
                        items == json_views(arr@),
                        out@.map_values(|b: NativeBookmark| b@) == items.take(i as int).map_values(|b: JsonView| bookmark_of(b)),
                    decreases arr.len() - i,
                {
                    proof {
                        lemma_views_index(arr@, i as int);
                    }
                    let b = bookmark_from(&arr[i]);
                    let ghost before = out@;
                    out.push(b);
                    proof {
                        assert(out@.map_values(|b: NativeBookmark| b@) == before.map_values(|b: NativeBookmark| b@).push(b@));
                        assert(items.take(i + 1) == items.take(i as int).push(items[i as int]));
                        assert(items.take(i + 1).map_values(|b: JsonView| bookmark_of(b)) =~= items.take(i as int).map_values(
                            |b: JsonView| bookmark_of(b),
                        ).push(bookmark_of(items[i as int])));
                    }
                    i = i + 1;
                }
                proof {
                    crate::json::lemma_views_len(arr@);
                    assert(items.take(arr.len() as int) == items);
                }
            },
            _ => {
                assert(items == Seq::<JsonView>::empty());
                assert(out@.map_values(|b: NativeBookmark| b@) =~= Seq::<NativeBookmarkView>::empty());
                assert(items.map_values(|b: JsonView| bookmark_of(b)) =~= Seq::<NativeBookmarkView>::empty());
            },
        }
        Ok(NativeAction::Upsert(out))
    } else if str_eq_lit(t.as_str(), "BookmarkDeleted") {
        Ok(NativeAction::Delete { id: str_member(p, "id"), url: str_member(p, "url") })
    } else if str_eq_lit(t.as_str(), "BookmarkUpdated") {
        let id = match str_member(p, "id") {
            Some(i) => i,
            None => String::new(),
        };
        Ok(NativeAction::Update { id, title: str_member(p, "title"), url: str_member(p, "url") })
    } else {
        Ok(NativeAction::Ignore)
    }
}


// ---------------------------------------------------------------------------
// Carrying a message out
// ---------------------------------------------------------------------------

pub open spec fn upsert_sql() -> Seq<char> {
    "INSERT INTO bookmarks (id, url, canonical_url, title, host, created_at, updated_at, is_deleted) VALUES (?1, ?2, ?3, ?4, ?5, ?6, ?6, 0) ON CONFLICT(url) DO UPDATE SET canonical_url = excluded.canonical_url, title = excluded.title, host = excluded.host, updated_at = excluded.updated_at, is_deleted = 0"@
}

/// The URL a reported bookmark is stored under: cleaned, then in its
/// duplicate-free form.
pub open spec fn stored_url(raw: Seq<char>) -> Seq<char> {
    spec_normalize_for_dedupe(spec_clean_url(raw))
}

/// The statement that stores a reported bookmark under its URL (inserting
/// it, or updating and undeleting the row already there), given the id used
/// when the message gives none and the current time. A bookmark without a
/// URL, or whose URL cleans to nothing, is not stored. Its title defaults to
/// the URL as reported.
pub open spec fn upsert_spec(b: NativeBookmarkView, fresh_id: Seq<char>, now: Seq<char>) -> Option<(Seq<char>, Seq<Option<Seq<char>>>)> {
    if b.url.len() == 0 {
        None
    } else {
        let url = stored_url(b.url);
        if url.len() == 0 {
            None
        } else {
            let id = match b.id {
                Some(i) => if i.len() > 0 { i } else { fresh_id },
                None => fresh_id,
            };
            let title = match b.title {
                Some(t) => t,
                None => b.url,
            };
            Some((upsert_sql(), seq![Some(id), Some(url), Some(url), Some(title), Some(spec_extract_host(url)), Some(now)]))
        }
    }
}

fn text_of(s: &String) -> (r: SqlParam)
    ensures
        param_view(r) == Some(s@),
{
    SqlParam::Text(s.clone())
}

fn text_lit(s: &str) -> (r: SqlParam)
    ensures
        param_view(r) == Some(s@),
{
    SqlParam::Text(String::from_str(s))
}

/// The statement that stores a reported bookmark, for a given fresh id and
/// time.
pub fn upsert_statement_with(b: &NativeBookmark, fresh_id: &str, now: &str) -> (r: Option<SqlStatement>)
    ensures
        match r {
            Some(s) => upsert_spec(b@, fresh_id@, now@) == Some((s.sql@, params_view(s.params@))),
            None => upsert_spec(b@, fresh_id@, now@) is None,
        },
{
    if b.url.as_str().is_empty() {
        return None;
    }
    let cleaned = clean_url(b.url.as_str());
    let url = normalize_for_dedupe(cleaned.as_str());
    if url.as_str().is_empty() {
        return None;
    }
    let id = match &b.id {
        Some(i) => if i.as_str().is_empty() { String::from_str(fresh_id) } else { i.clone() },
        None => String::from_str(fresh_id),
    };
    let title = match &b.title {
        Some(t) => t.clone(),
        None => b.url.clone(),
    };
    let host = extract_host(url.as_str());
    let ps = vec![text_of(&id), text_of(&url), text_of(&url), text_of(&title), text_of(&host), text_lit(now)];
    assert(params_view(ps@) =~= seq![Some(id@), Some(url@), Some(url@), Some(title@), Some(host@), Some(now@)]);
    Some(SqlStatement {
        sql: String::from_str("INSERT INTO bookmarks (id, url, canonical_url, title, host, created_at, updated_at, is_deleted) VALUES (?1, ?2, ?3, ?4, ?5, ?6, ?6, 0) ON CONFLICT(url) DO UPDATE SET canonical_url = excluded.canonical_url, title = excluded.title, host = excluded.host, updated_at = excluded.updated_at, is_deleted = 0"),
        params: ps,
    })
}

/// The same report is stored the same way whatever fresh id and time are
/// used: under the same URL, with the same title and host, and under the
/// reported id when it gives a non-empty one. So reporting a page twice
/// updates the one row of its URL.
pub proof fn lemma_upsert_same_report(b: NativeBookmarkView, f1: Seq<char>, n1: Seq<char>, f2: Seq<char>, n2: Seq<char>)
    ensures
        upsert_spec(b, f1, n1) is Some <==> is_storable(b),
        upsert_spec(b, f1, n1) is Some <==> upsert_spec(b, f2, n2) is Some,
        upsert_spec(b, f1, n1) is Some ==> {
            let p1 = (upsert_spec(b, f1, n1)->0).1;
            let p2 = (upsert_spec(b, f2, n2)->0).1;
            &&& p1[1] == p2[1]
            &&& p1[2] == p2[2]
            &&& p1[3] == p2[3]
            &&& p1[4] == p2[4]
            &&& (nonempty(b.id) is Some ==> p1[0] == p2[0] && p1[0] == b.id)
        },
{
}

/// Whether a reported bookmark gets stored at all (the same whatever id and
/// time are used).
pub open spec fn is_storable(b: NativeBookmarkView) -> bool {
    b.url.len() > 0 && stored_url(b.url).len() > 0
}

/// The statements that store a list of reported bookmarks at time `now`,
/// the `i`-th one under `fresh_ids[i]` when it brings no id of its own: one
/// for each bookmark that can be stored, in order.
pub open spec fn upserts_spec(bs: Seq<NativeBookmark>, fresh_ids: Seq<String>, now: Seq<char>) -> Seq<(Seq<char>, Seq<Option<Seq<char>>>)>
    decreases bs.len(),
{
    if bs.len() == 0 {
        Seq::empty()
    } else {
        let prev = upserts_spec(bs.drop_last(), fresh_ids.take(bs.len() - 1), now);
        match upsert_spec(bs.last()@, fresh_ids[bs.len() - 1]@, now) {
            Some(x) => prev.push(x),
            None => prev,
        }
    }
}

/// The statements a list of reported bookmarks gives at time `now`, each
/// bookmark with its own fresh id at hand: one for each bookmark that can be
/// stored, in order, the others giving none.
pub fn upsert_statements(bookmarks: &Vec<NativeBookmark>, fresh_ids: &Vec<String>, now: &str) -> (r: Vec<SqlStatement>)
    requires
        fresh_ids.len() == bookmarks.len(),
    ensures
        stmt_views(r@) == upserts_spec(bookmarks@, fresh_ids@, now@),
{
    let mut out: Vec<SqlStatement> = Vec::new();
    let mut i: usize = 0;
    assert(stmt_views(out@) =~= upserts_spec(bookmarks@.take(0), fresh_ids@.take(0), now@));
    while i < bookmarks.len()
        invariant
            i <= bookmarks.len(),
            fresh_ids.len() == bookmarks.len(),
            stmt_views(out@) == upserts_spec(bookmarks@.take(i as int), fresh_ids@.take(i as int), now@),
        decreases bookmarks.len() - i,
    {
        proof {
            let bt = bookmarks@.take(i + 1);
            assert(bt.drop_last() =~= bookmarks@.take(i as int));
            assert(bt.last() == bookmarks@[i as int]);
            assert(fresh_ids@.take(i + 1).take(i as int) =~= fresh_ids@.take(i as int));
            assert(fresh_ids@.take(i + 1)[i as int] == fresh_ids@[i as int]);
        }
        let ghost before = out@;
        match upsert_statement_with(&bookmarks[i], fresh_ids[i].as_str(), now) {
            Some(s) => {
                out.push(s);
                assert(stmt_views(out@) =~= stmt_views(before).push((s.sql@, params_view(s.params@))));
            },
            None => {},
        }
        i = i + 1;
    }
    assert(bookmarks@.take(bookmarks.len() as int) =~= bookmarks@);
    assert(fresh_ids@.take(bookmarks.len() as int) =~= fresh_ids@);
    out
}

pub open spec fn delete_by_id_sql() -> Seq<char> {
    "UPDATE bookmarks SET is_deleted = 1, updated_at = ?1 WHERE id = ?2"@
}

pub open spec fn delete_by_url_sql() -> Seq<char> {
    "UPDATE bookmarks SET is_deleted = 1, updated_at = ?1 WHERE url = ?2"@
}

pub open spec fn nonempty(o: Option<Seq<char>>) -> Option<Seq<char>> {
    match o {
        Some(s) => if s.len() > 0 { Some(s) } else { None },
        None => None,
    }
}

/// A deletion marks the row of the given id deleted; when that touches no
/// row it marks the row of the given URL. Empty ids and URLs are not used.
pub open spec fn delete_spec(id: Option<Seq<char>>, url: Option<Seq<char>>, now: Seq<char>) -> (Option<(Seq<char>, Seq<Option<Seq<char>>>)>, Option<(Seq<char>, Seq<Option<Seq<char>>>)>) {
    (
        match nonempty(id) {
            Some(i) => Some((delete_by_id_sql(), seq![Some(now), Some(i)])),
            None => None,
        },
        match nonempty(url) {
            Some(u) => Some((delete_by_url_sql(), seq![Some(now), Some(u)])),
            None => None,
        },
    )
}

pub open spec fn opt_stmt_view(o: Option<SqlStatement>) -> Option<(Seq<char>, Seq<Option<Seq<char>>>)> {
    match o {
        Some(s) => Some((s.sql@, params_view(s.params@))),
        None => None,
    }
}

/// The two statements of a deletion at time `now`: by id, and by URL (run
/// only when the first touched no row).
pub fn delete_statements(id: &Option<String>, url: &Option<String>, now: &str) -> (r: (Option<SqlStatement>, Option<SqlStatement>))
    ensures
        (opt_stmt_view(r.0), opt_stmt_view(r.1)) == delete_spec(opt_text(*id), opt_text(*url), now@),
{
    let by_id = match id {
        Some(i) => if i.as_str().is_empty() {
            None
        } else {
            let ps = vec![text_lit(now), text_of(i)];
            assert(params_view(ps@) =~= seq![Some(now@), Some(i@)]);
            Some(SqlStatement { sql: String::from_str("UPDATE bookmarks SET is_deleted = 1, updated_at = ?1 WHERE id = ?2"), params: ps })
        },
        None => None,
    };
    let by_url = match url {
        Some(u) => if u.as_str().is_empty() {
            None
        } else {
            let ps = vec![text_lit(now), text_of(u)];
            assert(params_view(ps@) =~= seq![Some(now@), Some(u@)]);
            Some(SqlStatement { sql: String::from_str("UPDATE bookmarks SET is_deleted = 1, updated_at = ?1 WHERE url = ?2"), params: ps })
        },
        None => None,
    };
    (by_id, by_url)
}


/// The URL fallback of a deletion runs only when the deletion by id touched
/// no row.
pub fn needs_url_fallback(rows_deleted_by_id: usize) -> (r: bool)
    ensures
        r == (rows_deleted_by_id == 0),
{
    rows_deleted_by_id == 0
}

pub open spec fn update_title_sql() -> Seq<char> {
    "UPDATE bookmarks SET title = ?1, updated_at = ?2 WHERE id = ?3"@
}

pub open spec fn update_url_sql() -> Seq<char> {
    "UPDATE bookmarks SET url = ?1, canonical_url = ?2, host = ?3, updated_at = ?4 WHERE id = ?5"@
}

/// An update of the bookmark `id` at time `now`: its title when one is
/// given, its URL (cleaned, with the host it gives) when a non-empty one is
/// given; nothing for an empty id.
pub open spec fn update_spec(id: Seq<char>, title: Option<Seq<char>>, url: Option<Seq<char>>, now: Seq<char>) -> Seq<(Seq<char>, Seq<Option<Seq<char>>>)> {
    if id.len() == 0 {
        Seq::empty()
    } else {
        let t = match title {
            Some(t) => seq![(update_title_sql(), seq![Some(t), Some(now), Some(id)])],
            None => Seq::empty(),
        };
        let u = match nonempty(url) {
            Some(u) => {
                let c = spec_clean_url(u);
                seq![(update_url_sql(), seq![Some(c), Some(c), Some(spec_extract_host(c)), Some(now), Some(id)])]
            },
            None => Seq::empty(),
        };
        t + u
    }
}

pub open spec fn stmt_views(s: Seq<SqlStatement>) -> Seq<(Seq<char>, Seq<Option<Seq<char>>>)> {
    s.map_values(|x: SqlStatement| (x.sql@, params_view(x.params@)))
}

/// The statements of an update at time `now`.
pub fn update_statements(id: &str, title: &Option<String>, url: &Option<String>, now: &str) -> (r: Vec<SqlStatement>)
    ensures
        stmt_views(r@) == update_spec(id@, opt_text(*title), opt_text(*url), now@),
{
    let mut out: Vec<SqlStatement> = Vec::new();
    if id.is_empty() {
        assert(stmt_views(out@) =~= Seq::<(Seq<char>, Seq<Option<Seq<char>>>)>::empty());
        return out;
    }
    let ghost tpart: Seq<(Seq<char>, Seq<Option<Seq<char>>>)> = match opt_text(*title) {
        Some(t) => seq![(update_title_sql(), seq![Some(t), Some(now@), Some(id@)])],
        None => Seq::empty(),
    };
    match title {
        Some(t) => {
            let ps = vec![text_of(t), text_lit(now), text_lit(id)];
            assert(params_view(ps@) =~= seq![Some(t@), Some(now@), Some(id@)]);
            out.push(SqlStatement { sql: String::from_str("UPDATE bookmarks SET title = ?1, updated_at = ?2 WHERE id = ?3"), params: ps });
        },
        None => {},
    }
    assert(stmt_views(out@) =~= tpart);
    let ghost before = out@;
    match url {
        Some(u) => if !u.as_str().is_empty() {
            let c = clean_url(u.as_str());
            let host = extract_host(c.as_str());
            let ps = vec![text_of(&c), text_of(&c), text_of(&host), text_lit(now), text_lit(id)];
            assert(params_view(ps@) =~= seq![Some(c@), Some(c@), Some(host@), Some(now@), Some(id@)]);
            out.push(SqlStatement {
                sql: String::from_str("UPDATE bookmarks SET url = ?1, canonical_url = ?2, host = ?3, updated_at = ?4 WHERE id = ?5"),
                params: ps,
            });
            assert(stmt_views(out@) =~= stmt_views(before).push((update_url_sql(), seq![Some(c@), Some(c@), Some(host@), Some(now@), Some(id@)])));
        },
        None => {},
    }
    proof {
        let u_part: Seq<(Seq<char>, Seq<Option<Seq<char>>>)> = match nonempty(opt_text(*url)) {
            Some(u) => {
                let c = spec_clean_url(u);
                seq![(update_url_sql(), seq![Some(c), Some(c), Some(spec_extract_host(c)), Some(now@), Some(id@)])]
            },
            None => Seq::empty(),
        };
        assert(stmt_views(out@) =~= tpart + u_part);
    }
    out
}



/// An upsert message changed the store when it gave a statement to run.
pub fn upsert_changed(statements_run: usize) -> (r: bool)
    ensures
        r == (statements_run > 0),
{
    statements_run > 0
}

/// A deletion changed the store when the deletion by id, or the URL
/// fallback run after it, touched a row.
pub fn deletion_changed(rows_by_id: usize, rows_by_url: usize) -> (r: bool)
    ensures
        r == (rows_by_id > 0 || rows_by_url > 0),
{
    rows_by_id > 0 || rows_by_url > 0
}

/// A message changed the store when any of its statements touched a row.
pub fn any_rows_changed(affected: &Vec<usize>) -> (r: bool)
    ensures
        r == exists|i: int| 0 <= i < affected@.len() && #[trigger] affected@[i] > 0,
{
    let mut i: usize = 0;
    while i < affected.len()
        invariant
            i <= affected.len(),
            forall|k: int| 0 <= k < i ==> #[trigger] affected@[k] == 0,
        decreases affected.len() - i,
    {
        if affected[i] > 0 {
            return true;
        }
        i = i + 1;
    }
    false
}

} // verus!
