//! What the application's commands decide: the events they record, the
//! statements behind their lookups, and what they report back.

use vstd::prelude::*;
use crate::models::{BookmarkPayload, EventLog, SyncEvent};
use crate::store_sql::{params_view, SqlParam, SqlStatement};
use crate::url_ops::{clean_url, spec_clean_url};

verus! {

/// An event recorded by this device's own commands: the given change, under
/// the device name `local`, with the given event id and time.
pub open spec fn is_local_event(e: EventLog, event: SyncEvent, event_id: Seq<char>, now_ts: i64) -> bool {
    &&& e.event == event
    &&& e.device_id@ == "local"@
    &&& e.event_id@ == event_id
    &&& e.timestamp == now_ts
}

/// Records a change made here under the given (fresh) event id, at the given
/// time in milliseconds.
pub fn local_event(event: SyncEvent, event_id: String, now_ts: i64) -> (r: EventLog)
    ensures
        is_local_event(r, event, event_id@, now_ts),
{
    EventLog { event_id, device_id: String::from_str("local"), timestamp: now_ts, event }
}

/// A new folder under the given (fresh) folder id, recorded under the given
/// event id and time.
pub fn new_folder_event(name: String, parent_id: Option<String>, folder_id: String, event_id: String, now_ts: i64) -> (r: EventLog)
    ensures
        is_local_event(r, SyncEvent::FolderAdded { id: folder_id, parent_id, name }, event_id@, now_ts),
{
    local_event(SyncEvent::FolderAdded { id: folder_id, parent_id, name }, event_id, now_ts)
}

/// A new tag under the given (fresh) tag id, recorded under the given event
/// id and time.
pub fn new_tag_event(name: String, tag_id: String, event_id: String, now_ts: i64) -> (r: EventLog)
    ensures
        is_local_event(r, SyncEvent::TagAdded { id: tag_id, name }, event_id@, now_ts),
{
    local_event(SyncEvent::TagAdded { id: tag_id, name }, event_id, now_ts)
}

/// A bookmark added by hand is stored under its cleaned URL.
pub fn prepare_added_bookmark(payload: BookmarkPayload) -> (r: BookmarkPayload)
    ensures
        r.url@ == spec_clean_url(payload.url@),
        r.id == payload.id,
        r.title == payload.title,
        r.description == payload.description,
        r.favicon_url == payload.favicon_url,
        r.host == payload.host,
        r.created_at == payload.created_at,
        r.tags == payload.tags,
{
    let mut p = payload;
    p.url = clean_url(p.url.as_str());
    p
}

fn one_text(s: &str) -> (r: Vec<SqlParam>)
    ensures
        params_view(r@) == seq![Some(s@)],
{
    let v = vec![SqlParam::Text(String::from_str(s))];
    assert(params_view(v@) =~= seq![Some(s@)]);
    v
}

/// The tag a new tag event ended up as: a tag of that name may have existed
/// already (its insert then did nothing), and its id is looked up by the new
/// tag's id.
pub fn tag_id_lookup_statement(new_tag_id: &str) -> (r: SqlStatement)
    ensures
        r.sql@ == "SELECT id FROM tags WHERE name = (SELECT name FROM tags WHERE id = ?1)"@,
        params_view(r.params@) == seq![Some(new_tag_id@)],
{
    SqlStatement {
        sql: String::from_str("SELECT id FROM tags WHERE name = (SELECT name FROM tags WHERE id = ?1)"),
        params: one_text(new_tag_id),
    }
}

/// The id a tag is linked under: the one found, else the new tag's.
pub fn actual_tag_id(found: Option<String>, new_tag_id: String) -> (r: String)
    ensures
        r@ == match found {
            Some(f) => f@,
            None => new_tag_id@,
        },
{
    match found {
        Some(f) => f,
        None => new_tag_id,
    }
}

/// The lookup of a tag by name, before it is taken off a bookmark.
pub fn tag_by_name_statement(tag_name: &str) -> (r: SqlStatement)
    ensures
        r.sql@ == "SELECT id FROM tags WHERE name = ?1 LIMIT 1"@,
        params_view(r.params@) == seq![Some(tag_name@)],
{
    SqlStatement { sql: String::from_str("SELECT id FROM tags WHERE name = ?1 LIMIT 1"), params: one_text(tag_name) }
}

/// The lookup of the title of a live bookmark under a URL; `None` when the
/// URL cleans to nothing (no bookmark can have it).
pub fn bookmark_exists_statement(url: &str) -> (r: Option<SqlStatement>)
    ensures
        spec_clean_url(url@).len() == 0 <==> r is None,
        r matches Some(s) ==> s.sql@ == "SELECT title FROM bookmarks WHERE canonical_url = ?1 AND is_deleted = 0 LIMIT 1"@
            && params_view(s.params@) == seq![Some(spec_clean_url(url@))],
{
    let cleaned = clean_url(url);
    if cleaned.as_str().is_empty() {
        return None;
    }
    Some(
        SqlStatement {
            sql: String::from_str("SELECT title FROM bookmarks WHERE canonical_url = ?1 AND is_deleted = 0 LIMIT 1"),
            params: one_text(cleaned.as_str()),
        },
    )
}

/// Whether a URL is bookmarked, and the stored title if so.
#[derive(Debug, Clone, PartialEq, Eq)]
pub struct BookmarkExistsResult {
    pub exists: bool,
    pub title: Option<String>,
}

/// The answer from the row found: a live bookmark's title, or not found.
pub fn bookmark_exists_result(row: Option<Option<String>>) -> (r: BookmarkExistsResult)
    ensures
        r.exists == row is Some,
        r.title == match row {
            Some(t) => t,
            None => None,
        },
{
    match row {
        Some(title) => BookmarkExistsResult { exists: true, title },
        None => BookmarkExistsResult { exists: false, title: None },
    }
}

/// The check after a folder was deleted: it is an error when the folder is
/// still visible.
pub open spec fn delete_folder_error(id: Seq<char>) -> Seq<char> {
    "删除失败：文件夹 "@ + id + " 仍存在"@
}

pub fn delete_folder_outcome(id: &str, visible_after: i64) -> (r: Result<(), String>)
    ensures
        visible_after > 0 <==> r is Err,
        r matches Err(e) ==> e@ == delete_folder_error(id@),
{
    if visible_after > 0 {
        let mut e = String::from_str("删除失败：文件夹 ");
        e.append(id);
        e.append(" 仍存在");
        return Err(e);
    }
    Ok(())
}

/// The number of visible (not deleted) folders with the given id.
pub fn visible_folder_count_statement(id: &str) -> (r: SqlStatement)
    ensures
        r.sql@ == "SELECT COUNT(*) FROM folders WHERE id = ?1 AND is_deleted = 0"@,
        params_view(r.params@) == seq![Some(id@)],
{
    SqlStatement { sql: String::from_str("SELECT COUNT(*) FROM folders WHERE id = ?1 AND is_deleted = 0"), params: one_text(id) }
}

/// The greeting of the starter command.
pub fn greet(name: &str) -> (r: String)
    ensures
        r@ == "Hello, "@ + name@ + "! You've been greeted from Rust!"@,
{
    let mut s = String::from_str("Hello, ");
    s.append(name);
    s.append("! You've been greeted from Rust!");
    s
}

} // verus!
