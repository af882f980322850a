use bookmark_sync::commands::{
    actual_tag_id, bookmark_exists_result, bookmark_exists_statement, delete_folder_outcome, greet, local_event,
    new_folder_event, new_tag_event, prepare_added_bookmark,
};
use bookmark_sync::config::DataSourceKind;
use bookmark_sync::import::{folder_link, import_applied, import_candidate, import_deleted_flag_statement, import_event_with, ImportCandidate};
use bookmark_sync::metadata::{extract_metadata, metadata_from_parts};
use bookmark_sync::models::{BookmarkPayload, SyncEvent};
use bookmark_sync::scanner::ImportNode;
use bookmark_sync::settings::{
    browser_auto_sync_settings, browser_auto_sync_writes, delete_sync_setting, device_id_or_new, event_auto_sync_settings,
    event_auto_sync_writes, git_sync_repo_dir, pending_push_setting, str_eq_ignore_ascii_case, ui_appearance_settings,
    ui_appearance_writes,
};
use bookmark_sync::sync_flow::{
    after_push, plan_sync, repo_legacy_action, require_git_repo, segments_to_copy, sync_repo_dir,
    RepoLegacyAction,
    SyncMode, SyncPlan,
};
use bookmark_sync::url_ops::{clean_url, extract_host, normalize_for_dedupe, resolve_url};

fn some(s: &str) -> Option<String> {
    Some(s.to_string())
}

#[test]
fn clean_url_strips_tracking_parameters_only() {
    assert_eq!(clean_url("https://example.com/a?utm_source=x&id=3&fbclid=y"), "https://example.com/a?id=3");
    assert_eq!(clean_url("https://example.com/a?utm_source=x"), "https://example.com/a");
    assert_eq!(clean_url("https://example.com/a#"), "https://example.com/a");
    assert_eq!(clean_url("https://example.com/a#top"), "https://example.com/a#top");
    assert_eq!(clean_url("not a url"), "not a url");
}

#[test]
fn hosts_and_dedupe_forms() {
    assert_eq!(extract_host("https://sub.example.com:8080/x"), "sub.example.com");
    assert_eq!(extract_host("nope"), "");
    assert_eq!(normalize_for_dedupe("https://example.com/"), "https://example.com");
    assert_eq!(normalize_for_dedupe("https://example.com/?q=1"), "https://example.com/?q=1");
    assert_eq!(normalize_for_dedupe("https://example.com/a/"), "https://example.com/a/");
}

#[test]
fn relative_links_are_resolved_against_the_page() {
    assert_eq!(resolve_url("https://example.com/a/b", "/favicon.png"), "https://example.com/favicon.png");
    assert_eq!(resolve_url("https://example.com/a/b", "icon.png"), "https://example.com/a/icon.png");
    assert_eq!(resolve_url("https://example.com/", "https://cdn.example.net/i.png"), "https://cdn.example.net/i.png");
    assert_eq!(resolve_url("not a url", "icon.png"), "icon.png");
}

#[test]
fn metadata_prefers_title_then_og_title_and_guesses_the_icon() {
    let html = "<html><head><title>  Rust Lang </title><link rel=\"shortcut icon\" href=\"/f.ico\"></head></html>";
    let m = extract_metadata("https://www.rust-lang.org/learn", html);
    assert_eq!(m.title, some("Rust Lang"));
    assert_eq!(m.favicon_url, some("https://www.rust-lang.org/f.ico"));
    let og = "<html><head><meta property=\"og:title\" content=\" OG \"></head><body></body></html>";
    let m = extract_metadata("https://example.com/x", og);
    assert_eq!(m.title, some("OG"));
    assert_eq!(m.favicon_url, some("https://example.com/favicon.ico"));
    let m = metadata_from_parts("not a url", &vec![], &vec![None], &vec![None, some("a.png")]);
    assert_eq!(m.title, None);
    assert_eq!(m.favicon_url, some("a.png"));
    let m = metadata_from_parts("not a url", &vec![], &vec![], &vec![]);
    assert_eq!(m.favicon_url, None);
}

#[test]
fn auto_sync_settings_have_defaults_and_a_minimum_interval() {
    let b = browser_auto_sync_settings(&None, &some("0"), &some("0"));
    assert!(b.startup_enabled);
    assert!(!b.interval_enabled);
    assert_eq!(b.interval_minutes, 1);
    let b = browser_auto_sync_settings(&some("1"), &None, &some("abc"));
    assert_eq!(b.interval_minutes, 5);
    let e = event_auto_sync_settings(&None, &None, &some("+15"), &some("yes"));
    assert!(e.startup_pull_enabled && e.interval_enabled);
    assert_eq!(e.interval_minutes, 15);
    assert!(!e.close_push_enabled);
    let w = browser_auto_sync_writes(true, false, 0);
    assert_eq!(
        w,
        vec![
            ("browser_auto_sync_startup".to_string(), "1".to_string()),
            ("browser_auto_sync_interval_enabled".to_string(), "0".to_string()),
            ("browser_auto_sync_interval_minutes".to_string(), "1".to_string()),
        ]
    );
    let w = event_auto_sync_writes(false, true, 30, true);
    assert_eq!(w[2], ("event_sync_interval_minutes".to_string(), "30".to_string()));
    assert_eq!(w[3], ("event_sync_close_push".to_string(), "1".to_string()));
}

#[test]
fn appearance_settings_are_clamped_and_normalised() {
    let u = ui_appearance_settings(None, &None, None, &some("95"));
    assert_eq!(u.theme_mode, "system");
    assert!(!u.background_enabled);
    assert_eq!(u.background_overlay_opacity, 90);
    let u = ui_appearance_settings(some("dark"), &some("1"), some("data:x"), &None);
    assert_eq!(u.background_overlay_opacity, 45);
    assert_eq!(u.background_image_data_url, some("data:x"));
    let (w, remove) = ui_appearance_writes("neon", true, &None, 120);
    assert!(remove);
    assert_eq!(
        w,
        vec![
            ("ui_theme_mode".to_string(), "system".to_string()),
            ("ui_background_enabled".to_string(), "1".to_string()),
            ("ui_background_overlay_opacity".to_string(), "90".to_string()),
        ]
    );
    let (w, remove) = ui_appearance_writes("light", false, &some("data:y"), 10);
    assert!(!remove);
    assert_eq!(w.len(), 4);
    assert_eq!(w[2], ("ui_background_image_data_url".to_string(), "data:y".to_string()));
}

#[test]
fn delete_sync_and_other_switches() {
    assert!(!delete_sync_setting(&None));
    assert!(delete_sync_setting(&some("1")));
    assert!(delete_sync_setting(&some("TrUe")));
    assert!(!delete_sync_setting(&some("yes")));
    assert!(str_eq_ignore_ascii_case("ABC-é", "abc-é"));
    assert!(!str_eq_ignore_ascii_case("É", "é"));
    assert!(!pending_push_setting(&None));
    assert!(pending_push_setting(&some("1")));
    assert_eq!(git_sync_repo_dir(None), "");
    assert_eq!(device_id_or_new(some("dev-1"), "fresh".into()), ("dev-1".to_string(), false));
    assert_eq!(device_id_or_new(None, "fresh".into()), ("fresh".to_string(), true));
}

#[test]
fn sync_needs_sqlite_a_repo_and_plans_its_halves() {
    assert_eq!(sync_repo_dir(DataSourceKind::Postgres, some("/r")), Err("Git 同步仅支持 SQLite 数据源".to_string()));
    assert_eq!(sync_repo_dir(DataSourceKind::Sqlite, None), Err("请先设置 Git 仓库目录".to_string()));
    assert_eq!(sync_repo_dir(DataSourceKind::Sqlite, some("/r")), Ok("/r".to_string()));
    assert_eq!(require_git_repo(false), Err("Git 仓库目录无效".to_string()));
    assert!(require_git_repo(true).is_ok());
    assert_eq!(plan_sync(SyncMode::PullOnly, false), SyncPlan { pull: true, push: false });
    assert_eq!(plan_sync(SyncMode::PullOnly, true), SyncPlan { pull: true, push: true });
    assert_eq!(plan_sync(SyncMode::PushOnly, false), SyncPlan { pull: false, push: true });
    assert_eq!(plan_sync(SyncMode::Incremental, false), SyncPlan { pull: true, push: true });
    assert_eq!(after_push(Ok(())), (false, Ok(())));
    assert_eq!(after_push(Err("push failed".to_string())), (true, Err("push failed".to_string())));
    assert_eq!(repo_legacy_action(true), RepoLegacyAction::Remove);
    assert_eq!(repo_legacy_action(false), RepoLegacyAction::RenameToFirstSegment);
    let local = vec!["events-000001.ndjson".to_string(), "events-000002.ndjson".to_string()];
    assert_eq!(segments_to_copy(&local, &vec![true, false]), vec!["events-000002.ndjson".to_string()]);
}

fn node(id: &str, parent: Option<&str>, url: Option<&str>, folder: bool) -> ImportNode {
    ImportNode {
        original_id: id.to_string(),
        parent_original_id: parent.map(|p| p.to_string()),
        title: "T".to_string(),
        url: url.map(|u| u.to_string()),
        is_folder: folder,
        browser: "Chrome".to_string(),
    }
}

#[test]
fn import_nodes_become_stable_folders_and_clean_bookmarks() {
    let f = import_candidate(&node("1", None, None, true));
    assert_eq!(f, ImportCandidate::Folder { stable_id: "chrome-1".to_string(), parent_id: None, name: "T".to_string() });
    let b = import_candidate(&node("2", Some("1"), Some("https://example.com/p?utm_medium=m"), false));
    assert_eq!(
        b,
        ImportCandidate::Bookmark {
            stable_id: "chrome-2".to_string(),
            parent_id: some("chrome-1"),
            url: "https://example.com/p".to_string(),
            title: "T".to_string(),
            host: some("example.com"),
        }
    );
    assert_eq!(import_candidate(&node("3", None, Some(""), false)), ImportCandidate::Skip);
    assert_eq!(import_candidate(&node("4", None, None, false)), ImportCandidate::Skip);
    assert_eq!(folder_link(&b), some("chrome-1"));
    assert_eq!(folder_link(&f), None);
    let e = import_event_with(&b, "Chrome", "ev", 7, "2026-01-01T00:00:00Z").unwrap();
    assert_eq!(e.device_id, "Chrome_import");
    assert_eq!(e.timestamp, 7);
    match e.event {
        SyncEvent::BookmarkAdded(p) => {
            assert_eq!(p.id, "chrome-2");
            assert_eq!(p.title, some("T"));
            assert_eq!(p.created_at, "2026-01-01T00:00:00Z");
            assert_eq!(p.description, None);
        },
        other => panic!("unexpected {other:?}"),
    }
    assert!(import_event_with(&ImportCandidate::Skip, "Chrome", "ev", 7, "t").is_none());
    assert!(import_event_with(&f, "Chrome", "ev", 7, "t").is_some());
    assert!(import_deleted_flag_statement(&ImportCandidate::Skip).is_none());
    let fq = import_deleted_flag_statement(&f).unwrap();
    assert_eq!(fq.sql, "SELECT is_deleted FROM folders WHERE id = ?1 LIMIT 1");
    let bq = import_deleted_flag_statement(&b).unwrap();
    assert_eq!(bq.sql, "SELECT is_deleted FROM bookmarks WHERE canonical_url = ?1 LIMIT 1");
    assert_eq!(import_applied(&b, true), (true, some("chrome-1")));
    assert_eq!(import_applied(&b, false), (false, None));
    assert_eq!(import_applied(&f, true), (false, None));
}

fn payload(url: &str) -> BookmarkPayload {
    BookmarkPayload {
        id: "b".into(),
        url: url.into(),
        title: None,
        description: None,
        favicon_url: None,
        host: None,
        created_at: "c".into(),
        tags: None,
    }
}

#[test]
fn commands_record_local_events() {
    let e = local_event(SyncEvent::FolderDeleted { id: "f".into() }, "ev-1".into(), 42);
    assert_eq!(e.device_id, "local");
    assert_eq!(e.event, SyncEvent::FolderDeleted { id: "f".into() });
    assert_eq!(e.event_id, "ev-1");
    assert_eq!(e.timestamp, 42);
    let f = new_folder_event("Work".into(), None, "fo-1".into(), "ev-2".into(), 43);
    assert_eq!(f.event, SyncEvent::FolderAdded { id: "fo-1".into(), parent_id: None, name: "Work".into() });
    assert_eq!((f.event_id.as_str(), f.timestamp), ("ev-2", 43));
    let t = new_tag_event("rust".into(), "tg-1".into(), "ev-3".into(), 44);
    assert_eq!(t.event, SyncEvent::TagAdded { id: "tg-1".into(), name: "rust".into() });
    assert_eq!((t.device_id.as_str(), t.event_id.as_str(), t.timestamp), ("local", "ev-3", 44));
    assert_eq!(prepare_added_bookmark(payload("https://a.org/?ref=x")).url, "https://a.org/");
    assert_eq!(actual_tag_id(some("old"), "new".into()), "old");
    assert_eq!(actual_tag_id(None, "new".into()), "new");
    assert!(bookmark_exists_statement("").is_none());
    assert!(bookmark_exists_statement("https://a.org/?utm_term=1").unwrap().sql.contains("is_deleted = 0"));
    let r = bookmark_exists_result(Some(some("A")));
    assert!(r.exists);
    assert_eq!(r.title, some("A"));
    assert!(!bookmark_exists_result(None).exists);
    assert_eq!(delete_folder_outcome("f1", 1), Err("删除失败：文件夹 f1 仍存在".to_string()));
    assert!(delete_folder_outcome("f1", 0).is_ok());
    assert_eq!(greet("Ann"), "Hello, Ann! You've been greeted from Rust!");
}

#[test]
fn settings_written_are_read_back() {
    let w = browser_auto_sync_writes(false, true, 0);
    let read = browser_auto_sync_settings(&Some(w[0].1.clone()), &Some(w[1].1.clone()), &Some(w[2].1.clone()));
    assert!(!read.startup_enabled);
    assert!(read.interval_enabled);
    assert_eq!(read.interval_minutes, 1);
    let w = event_auto_sync_writes(true, false, 4_000_000_000, false);
    let read = event_auto_sync_settings(&Some(w[0].1.clone()), &Some(w[1].1.clone()), &Some(w[2].1.clone()), &Some(w[3].1.clone()));
    assert!(read.startup_pull_enabled && !read.interval_enabled && !read.close_push_enabled);
    assert_eq!(read.interval_minutes, 4_000_000_000);
    let (w, _) = ui_appearance_writes("dark", true, &None, 77);
    let read = ui_appearance_settings(Some(w[0].1.clone()), &Some(w[1].1.clone()), None, &Some(w[2].1.clone()));
    assert_eq!(read.theme_mode, "dark");
    assert!(read.background_enabled);
    assert_eq!(read.background_overlay_opacity, 77);
}
