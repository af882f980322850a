use bookmark_sync::json::JsonValue;
use bookmark_sync::models::{BookmarkPayload, EventLog, SiteMetadata, SyncEvent};
use bookmark_sync::native::{
    any_rows_changed, decode_native_message, delete_statements, needs_url_fallback, update_statements,
    upsert_statements, NativeAction, NativeBookmark,
};
use bookmark_sync::search::{build_search_query, map_bookmark_row, BookmarkRow, SqlDialect};
use bookmark_sync::store::BookmarkStore;
use bookmark_sync::store_sql::{
    applied_events, applied_marker_statement, apply_metadata_statement, bookmark_deleted_flag_statement, create_tables,
    event_statement, folder_deleted_flag_statement, folders_need_is_deleted_column, is_logically_deleted,
    legacy_event_statement, mark_pending_push_statement, resolve_bookmark_id_for_url, resolve_bookmark_id_statement,
    should_apply_event, SqlParam, SqlStatement,
};
use bookmark_sync::store_sql::{create_legacy_tables, legacy_list_sql, legacy_search_sql};
use rusqlite::{params_from_iter, Connection};

fn values(s: &SqlStatement) -> Vec<Option<String>> {
    s.params
        .iter()
        .map(|p| match p {
            SqlParam::Text(t) => Some(t.clone()),
            SqlParam::Null => None,
        })
        .collect()
}

fn exec(conn: &Connection, s: &SqlStatement) -> usize {
    conn.execute(&s.sql, params_from_iter(values(s).iter())).expect("execute")
}

fn apply(conn: &Connection, log: &EventLog) {
    if let Some(s) = event_statement(SqlDialect::Sqlite, &log.event) {
        exec(conn, &s);
    }
}

fn apply_if_new(conn: &Connection, log: &EventLog) -> bool {
    let marker = applied_marker_statement(SqlDialect::Sqlite, log);
    let inserted = exec(conn, &marker);
    if !should_apply_event(inserted) {
        return false;
    }
    apply(conn, log);
    true
}

fn setup_conn() -> Connection {
    let conn = Connection::open_in_memory().expect("open in-memory db");
    conn.execute_batch(&create_tables(SqlDialect::Sqlite)).expect("create tables");
    conn
}

fn log(id: &str, ts: i64, event: SyncEvent) -> EventLog {
    EventLog { event_id: id.into(), device_id: "test".into(), timestamp: ts, event }
}

#[test]
fn bookmark_store_trait_should_exist() {
    fn _assert(_s: &dyn BookmarkStore) {}
}

#[test]
fn bookmark_untagged_should_remove_relation() {
    let conn = setup_conn();
    conn.execute(
        "INSERT INTO bookmarks (id, url, canonical_url, title, host, created_at) VALUES (?1, ?2, ?3, ?4, ?5, ?6)",
        ["b1", "https://example.com", "https://example.com", "Example", "example.com", "2026-03-02T00:00:00Z"],
    )
    .expect("seed bookmark");
    apply(&conn, &log("e1", 1, SyncEvent::TagAdded { id: "t1".into(), name: "工作".into() }));
    apply(&conn, &log("e2", 2, SyncEvent::BookmarkTagged { bookmark_id: "b1".into(), tag_id: "t1".into() }));
    apply(&conn, &log("e3", 3, SyncEvent::BookmarkUntagged { bookmark_id: "b1".into(), tag_id: "t1".into() }));
    let count: i64 = conn
        .query_row(
            "SELECT COUNT(*) FROM bookmark_tags WHERE bookmark_id = ?1 AND tag_id = ?2",
            ["b1", "t1"],
            |r| r.get(0),
        )
        .expect("count relations");
    assert_eq!(count, 0);
}

#[test]
fn folder_deleted_event_should_mark_folder_deleted() {
    let conn = setup_conn();
    conn.execute(
        "INSERT INTO folders (id, parent_id, name) VALUES (?1, ?2, ?3)",
        [Some("f1"), None, Some("工作")],
    )
    .expect("seed folder");
    apply(&conn, &log("e4", 4, SyncEvent::FolderDeleted { id: "f1".into() }));
    let deleted: i64 = conn
        .query_row("SELECT is_deleted FROM folders WHERE id = ?1", ["f1"], |r| r.get(0))
        .expect("query folder is_deleted");
    assert_eq!(deleted, 1);
}

fn payload(id: &str, url: &str, title: &str) -> BookmarkPayload {
    BookmarkPayload {
        id: id.into(),
        url: url.into(),
        title: Some(title.into()),
        description: None,
        favicon_url: None,
        host: Some("example.com".into()),
        created_at: "2026-03-02T00:00:00Z".into(),
        tags: None,
    }
}

#[test]
fn events_are_applied_once_and_readd_undeletes() {
    let conn = setup_conn();
    let add = log("e1", 1, SyncEvent::BookmarkAdded(payload("b1", "https://example.com", "First")));
    assert!(apply_if_new(&conn, &add));
    assert!(!apply_if_new(&conn, &add));
    apply(&conn, &log("e2", 2, SyncEvent::BookmarkDeleted { id: "b1".into() }));
    let readd = log("e3", 3, SyncEvent::BookmarkAdded(payload("b9", "https://example.com", "Again")));
    assert!(apply_if_new(&conn, &readd));
    let (id, title, deleted): (String, String, i64) = conn
        .query_row("SELECT id, title, is_deleted FROM bookmarks WHERE canonical_url = ?1", ["https://example.com"], |r| {
            Ok((r.get(0)?, r.get(1)?, r.get(2)?))
        })
        .expect("row");
    assert_eq!((id.as_str(), title.as_str(), deleted), ("b1", "Again", 0));
}

#[test]
fn folder_events_add_rename_and_link() {
    let conn = setup_conn();
    apply(&conn, &log("e1", 1, SyncEvent::FolderAdded { id: "f1".into(), parent_id: None, name: "Work".into() }));
    apply(&conn, &log("e2", 2, SyncEvent::FolderRenamed { id: "f1".into(), name: "Job".into() }));
    apply(&conn, &log("e3", 3, SyncEvent::BookmarkAdded(payload("b1", "https://example.com", "E"))));
    apply(&conn, &log("e4", 4, SyncEvent::BookmarkAddedToFolder { bookmark_id: "b1".into(), folder_id: "f1".into() }));
    let name: String = conn.query_row("SELECT name FROM folders WHERE id = 'f1'", [], |r| r.get(0)).unwrap();
    assert_eq!(name, "Job");
    let links: i64 = conn.query_row("SELECT COUNT(*) FROM folder_bookmarks", [], |r| r.get(0)).unwrap();
    assert_eq!(links, 1);
    apply(&conn, &log("e5", 5, SyncEvent::BookmarkRemovedFromFolder { bookmark_id: "b1".into(), folder_id: "f1".into() }));
    let links: i64 = conn.query_row("SELECT COUNT(*) FROM folder_bookmarks", [], |r| r.get(0)).unwrap();
    assert_eq!(links, 0);
    assert!(event_statement(SqlDialect::Sqlite, &SyncEvent::TagDeleted { id: "t".into() }).is_none());
}

#[test]
fn postgres_statements_use_dollar_parameters() {
    let s = event_statement(SqlDialect::Postgres, &SyncEvent::FolderRenamed { id: "f".into(), name: "n".into() }).unwrap();
    assert_eq!(s.sql, "UPDATE folders SET name = $2 WHERE id = $1");
    assert_eq!(values(&s), vec![Some("f".to_string()), Some("n".to_string())]);
    let b = event_statement(SqlDialect::Postgres, &SyncEvent::BookmarkAdded(payload("b", "u", "t"))).unwrap();
    assert!(b.sql.contains("is_deleted = FALSE"));
    assert_eq!(b.params.len(), 7);
    assert_eq!(b.params[3], SqlParam::Null);
}

#[test]
fn replay_keeps_only_newly_applied_events() {
    let logs = vec![
        log("a", 1, SyncEvent::FolderDeleted { id: "1".into() }),
        log("b", 2, SyncEvent::FolderDeleted { id: "2".into() }),
        log("c", 3, SyncEvent::FolderDeleted { id: "3".into() }),
    ];
    let kept = applied_events(logs, &vec![1, 0, 1]);
    let ids: Vec<&str> = kept.iter().map(|e| e.event_id.as_str()).collect();
    assert_eq!(ids, vec!["a", "c"]);
}

#[test]
fn resolve_bookmark_id_should_use_existing_row_when_canonical_url_exists() {
    let conn = Connection::open_in_memory().expect("open memory db");
    conn.execute_batch("CREATE TABLE bookmarks (id TEXT PRIMARY KEY, url TEXT NOT NULL, canonical_url TEXT UNIQUE NOT NULL);")
        .expect("create table");
    conn.execute(
        "INSERT INTO bookmarks (id, url, canonical_url) VALUES (?1, ?2, ?3)",
        ["existing-id", "https://juejin.cn/post/1", "https://juejin.cn/post/1"],
    )
    .expect("seed bookmark");
    let lookup = |url: &str| -> Option<String> {
        let s = resolve_bookmark_id_statement(SqlDialect::Sqlite, url);
        conn.query_row(&s.sql, params_from_iter(values(&s).iter()), |r| r.get::<_, String>(0)).ok()
    };
    let resolved = resolve_bookmark_id_for_url(lookup("https://juejin.cn/post/1"), "new-import-id");
    assert_eq!(resolved, "existing-id");
    let fresh = resolve_bookmark_id_for_url(lookup("https://juejin.cn/post/2"), "new-import-id");
    assert_eq!(fresh, "new-import-id");
}

#[test]
fn apply_metadata_should_update_row_by_canonical_url() {
    let conn = Connection::open_in_memory().expect("open memory db");
    conn.execute_batch(
        "CREATE TABLE bookmarks (id TEXT PRIMARY KEY, url TEXT NOT NULL, canonical_url TEXT UNIQUE NOT NULL, title TEXT, favicon_url TEXT, updated_at DATETIME DEFAULT CURRENT_TIMESTAMP);",
    )
    .expect("create table");
    conn.execute(
        "INSERT INTO bookmarks (id, url, canonical_url, title) VALUES (?1, ?2, ?3, ?4)",
        ["existing-id", "https://juejin.cn/post/1?utm_source=x", "https://juejin.cn/post/1", "Loading..."],
    )
    .expect("seed bookmark");
    let meta = SiteMetadata {
        title: Some("Juejin Title".to_string()),
        favicon_url: Some("https://juejin.cn/favicon.ico".to_string()),
    };
    let updated = exec(&conn, &apply_metadata_statement(SqlDialect::Sqlite, "https://juejin.cn/post/1", &meta));
    assert_eq!(updated, 1);
    let title: String = conn
        .query_row("SELECT title FROM bookmarks WHERE canonical_url = ?1", ["https://juejin.cn/post/1"], |r| r.get(0))
        .expect("query title");
    assert_eq!(title, "Juejin Title");
}

fn deleted_flag(conn: &Connection, s: &SqlStatement) -> bool {
    let flag: Option<i64> = conn.query_row(&s.sql, params_from_iter(values(s).iter()), |r| r.get(0)).ok();
    is_logically_deleted(flag)
}

#[test]
fn import_should_skip_logically_deleted_bookmark() {
    let conn = Connection::open_in_memory().expect("open memory db");
    conn.execute_batch("CREATE TABLE bookmarks (id TEXT PRIMARY KEY, canonical_url TEXT UNIQUE NOT NULL, is_deleted BOOLEAN DEFAULT 0);")
        .expect("create table");
    conn.execute("INSERT INTO bookmarks (id, canonical_url, is_deleted) VALUES (?1, ?2, 1)", ["b1", "https://example.com/a"])
        .expect("seed bookmark");
    let skipped = deleted_flag(&conn, &bookmark_deleted_flag_statement(SqlDialect::Sqlite, "https://example.com/a"));
    assert!(skipped);
    assert!(!deleted_flag(&conn, &bookmark_deleted_flag_statement(SqlDialect::Sqlite, "https://example.com/b")));
}

#[test]
fn import_should_skip_logically_deleted_folder() {
    let conn = Connection::open_in_memory().expect("open memory db");
    conn.execute_batch("CREATE TABLE folders (id TEXT PRIMARY KEY, name TEXT NOT NULL, is_deleted BOOLEAN DEFAULT 0);")
        .expect("create table");
    conn.execute("INSERT INTO folders (id, name, is_deleted) VALUES (?1, ?2, 1)", ["chrome-123", "工作"])
        .expect("seed folder");
    let skipped = deleted_flag(&conn, &folder_deleted_flag_statement(SqlDialect::Sqlite, "chrome-123"));
    assert!(skipped);
}

#[test]
fn settings_round_trip_through_the_store() {
    let conn = setup_conn();
    exec(&conn, &mark_pending_push_statement(SqlDialect::Sqlite, true));
    exec(&conn, &mark_pending_push_statement(SqlDialect::Sqlite, false));
    let v: String = conn
        .query_row("SELECT value FROM app_settings WHERE key = 'event_sync_pending_push'", [], |r| r.get(0))
        .unwrap();
    assert_eq!(v, "0");
}

#[test]
fn missing_folder_column_is_detected() {
    assert!(folders_need_is_deleted_column(&vec!["id".to_string(), "name".to_string()]));
    assert!(!folders_need_is_deleted_column(&vec!["id".to_string(), "is_deleted".to_string()]));
    assert!(create_tables(SqlDialect::Postgres).contains("is_deleted BOOLEAN DEFAULT FALSE"));
    assert!(!create_tables(SqlDialect::Postgres).contains("fts5"));
}

#[test]
fn first_version_writes_whole_bookmarks() {
    let s = legacy_event_statement(&SyncEvent::BookmarkUpdated(payload("b", "https://x.org", "X"))).unwrap();
    assert!(s.sql.starts_with("INSERT INTO bookmarks"));
    assert_eq!(values(&s)[2], Some("https://x.org".to_string()));
    assert!(legacy_event_statement(&SyncEvent::TagAdded { id: "t".into(), name: "n".into() }).is_none());
}

// ---------------------------------------------------------------------------
// Messages from the browser extension
// ---------------------------------------------------------------------------

fn js(t: &str) -> JsonValue {
    JsonValue::String(t.to_string())
}

fn obj(entries: Vec<(&str, JsonValue)>) -> JsonValue {
    JsonValue::Object(entries.into_iter().map(|(k, v)| (k.to_string(), v)).collect())
}

fn native_conn() -> Connection {
    let conn = Connection::open_in_memory().expect("open in-memory db");
    conn.execute_batch(
        "CREATE TABLE bookmarks (
            id TEXT PRIMARY KEY,
            url TEXT UNIQUE NOT NULL,
            canonical_url TEXT UNIQUE NOT NULL,
            title TEXT,
            description TEXT,
            favicon_url TEXT,
            host TEXT,
            created_at DATETIME DEFAULT CURRENT_TIMESTAMP,
            updated_at DATETIME DEFAULT CURRENT_TIMESTAMP,
            is_deleted BOOLEAN DEFAULT 0
        );",
    )
    .expect("create schema");
    conn
}

fn apply_native(conn: &Connection, msg: &JsonValue) -> Result<bool, String> {
    match decode_native_message(msg)? {
        NativeAction::Upsert(bookmarks) => {
            let fresh_ids: Vec<String> = bookmarks.iter().map(|_| uuid::Uuid::new_v4().to_string()).collect();
            let statements = upsert_statements(&bookmarks, &fresh_ids, &chrono::Utc::now().to_rfc3339());
            for s in &statements {
                exec(conn, s);
            }
            Ok(!statements.is_empty())
        },
        NativeAction::Delete { id, url } => {
            let (by_id, by_url) = delete_statements(&id, &url, &chrono::Utc::now().to_rfc3339());
            let mut affected = 0;
            if let Some(s) = by_id {
                affected += exec(conn, &s);
            }
            if needs_url_fallback(affected) {
                if let Some(s) = by_url {
                    affected += exec(conn, &s);
                }
            }
            Ok(affected > 0)
        },
        NativeAction::Update { id, title, url } => {
            let affected: Vec<usize> = update_statements(&id, &title, &url, &chrono::Utc::now().to_rfc3339()).iter().map(|s| exec(conn, s)).collect();
            Ok(any_rows_changed(&affected))
        },
        NativeAction::Ignore => Ok(false),
    }
}

#[test]
fn full_sync_upserts_and_recovers_deleted_rows() {
    let conn = native_conn();
    conn.execute(
        "INSERT INTO bookmarks (id,url,canonical_url,title,host,is_deleted) VALUES (?1,?2,?3,?4,?5,1)",
        ["old-id", "https://example.com", "https://example.com", "old", "example.com"],
    )
    .expect("seed row");
    let msg = obj(vec![
        ("type", js("FullSync")),
        (
            "payload",
            obj(vec![(
                "bookmarks",
                JsonValue::Array(vec![
                    obj(vec![("id", js("new-id")), ("url", js("https://example.com")), ("title", js("new title"))]),
                    obj(vec![("id", js("v2ex-id")), ("url", js("https://v2ex.com")), ("title", js("v2ex"))]),
                ]),
            )]),
        ),
    ]);
    let changed = apply_native(&conn, &msg).expect("apply full sync");
    assert!(changed);
    let row: (String, String, i64) = conn
        .query_row("SELECT id, title, is_deleted FROM bookmarks WHERE url = ?1", ["https://example.com"], |r| {
            Ok((r.get(0)?, r.get(1)?, r.get(2)?))
        })
        .expect("fetch updated row");
    assert_eq!(row.0, "old-id");
    assert_eq!(row.1, "new title");
    assert_eq!(row.2, 0);
    let count: i64 = conn.query_row("SELECT COUNT(*) FROM bookmarks", [], |r| r.get(0)).expect("count rows");
    assert_eq!(count, 2);
}

#[test]
fn page_captured_is_idempotent_by_url() {
    let conn = native_conn();
    let msg = obj(vec![
        ("type", js("PageCaptured")),
        ("payload", obj(vec![("id", js("tab-1")), ("url", js("https://news.ycombinator.com")), ("title", js("HN"))])),
    ]);
    assert!(apply_native(&conn, &msg).expect("first capture"));
    assert!(apply_native(&conn, &msg).expect("second capture"));
    let count: i64 = conn
        .query_row("SELECT COUNT(*) FROM bookmarks WHERE url = ?1", ["https://news.ycombinator.com"], |r| r.get(0))
        .expect("count dedup rows");
    assert_eq!(count, 1);
}

#[test]
fn bookmark_deleted_marks_row_deleted() {
    let conn = native_conn();
    let added = obj(vec![
        ("type", js("BookmarkAdded")),
        ("payload", obj(vec![("id", js("b-1")), ("url", js("https://rust-lang.org")), ("title", js("Rust"))])),
    ]);
    assert!(apply_native(&conn, &added).expect("insert added"));
    let deleted = obj(vec![("type", js("BookmarkDeleted")), ("payload", obj(vec![("id", js("b-1"))]))]);
    assert!(apply_native(&conn, &deleted).expect("mark deleted"));
    let deleted_flag: i64 = conn
        .query_row("SELECT is_deleted FROM bookmarks WHERE id = ?1", ["b-1"], |r| r.get(0))
        .expect("read delete flag");
    assert_eq!(deleted_flag, 1);
}

#[test]
fn native_message_without_type_is_refused() {
    let msg = obj(vec![("payload", obj(vec![]))]);
    assert_eq!(decode_native_message(&msg), Err("native message missing type".to_string()));
    let other = obj(vec![("type", js("Ping"))]);
    assert_eq!(decode_native_message(&other), Ok(NativeAction::Ignore));
}

#[test]
fn native_delete_falls_back_to_url_and_update_cleans_url() {
    let conn = native_conn();
    let added = obj(vec![
        ("type", js("BookmarkAdded")),
        ("payload", obj(vec![("url", js("https://example.org/?utm_source=x"))])),
    ]);
    assert!(apply_native(&conn, &added).unwrap());
    let (url, title): (String, String) = conn.query_row("SELECT url, title FROM bookmarks", [], |r| Ok((r.get(0)?, r.get(1)?))).unwrap();
    assert_eq!(url, "https://example.org");
    assert_eq!(title, "https://example.org/?utm_source=x");
    let id: String = conn.query_row("SELECT id FROM bookmarks", [], |r| r.get(0)).unwrap();
    assert_eq!(id.len(), 36);
    let update = obj(vec![
        ("type", js("BookmarkUpdated")),
        ("payload", obj(vec![("id", js(&id)), ("title", js("Org")), ("url", js("https://example.org/a?gclid=1#"))])),
    ]);
    assert!(apply_native(&conn, &update).unwrap());
    let (url, host, title): (String, String, String) =
        conn.query_row("SELECT url, host, title FROM bookmarks", [], |r| Ok((r.get(0)?, r.get(1)?, r.get(2)?))).unwrap();
    assert_eq!((url.as_str(), host.as_str(), title.as_str()), ("https://example.org/a", "example.org", "Org"));
    let by_url = obj(vec![
        ("type", js("BookmarkDeleted")),
        ("payload", obj(vec![("id", js("missing")), ("url", js("https://example.org/a"))])),
    ]);
    assert!(apply_native(&conn, &by_url).unwrap());
    let empty_update = obj(vec![("type", js("BookmarkUpdated")), ("payload", obj(vec![("title", js("x"))]))]);
    assert!(!apply_native(&conn, &empty_update).unwrap());
    let nothing = NativeBookmark { id: None, url: String::new(), title: None };
    assert!(upsert_statements(&vec![nothing], &vec!["fresh".to_string()], "now").is_empty());
}

#[test]
fn first_version_schema_accepts_its_own_statements() {
    let conn = Connection::open_in_memory().unwrap();
    conn.execute_batch(&create_legacy_tables()).unwrap();
    let add = legacy_event_statement(&SyncEvent::BookmarkAdded(payload("b1", "https://rust-lang.org", "Rust language"))).unwrap();
    exec(&conn, &add);
    let n: i64 = conn.query_row(&legacy_list_sql().replace("SELECT id, url, title, description, favicon_url, host, created_at", "SELECT COUNT(*)"), [], |r| r.get(0)).unwrap();
    assert_eq!(n, 1);
    let found: String = conn.query_row(&legacy_search_sql(), ["rust"], |r| r.get(0)).unwrap();
    assert_eq!(found, "b1");
    exec(&conn, &legacy_event_statement(&SyncEvent::BookmarkDeleted { id: "b1".into() }).unwrap());
    assert!(conn.query_row(&legacy_search_sql(), ["rust"], |r| r.get::<_, String>(0)).is_err());
}

#[test]
fn sqlite_store_should_get_bookmarks_empty() {
    let conn = setup_conn();
    let q = build_search_query(SqlDialect::Sqlite, "");
    let mut stmt = conn.prepare(&q.sql).expect("prepare");
    let res: Vec<BookmarkPayload> = stmt
        .query_map(params_from_iter(q.params.iter()), |row| {
            Ok(map_bookmark_row(BookmarkRow {
                id: row.get(0)?,
                url: row.get(1)?,
                title: row.get(2)?,
                description: row.get(3)?,
                favicon_url: row.get(4)?,
                host: row.get(5)?,
                created_at: row.get(6)?,
                tag_list: row.get(7)?,
            }))
        })
        .expect("get")
        .filter_map(|r| r.ok())
        .collect();
    assert!(res.is_empty());
}
