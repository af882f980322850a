use bookmark_sync::search::{
    bookmark_select_sql, bookmark_select_sql_for, build_search_query, list_bookmarks_sql, map_bookmark_row,
    map_bookmark_row_all_tags, parse_tag_list, search_clause_for_param, search_clause_for_param_pg, tokenize_search_query,
    BookmarkRow, SqlDialect,
};

#[test]
fn tokenize_search_query_should_split_by_whitespace_and_dedup() {
    let tokens = tokenize_search_query("  rust   tag:work   rust  ");
    assert_eq!(tokens, vec!["rust".to_string(), "tag:work".to_string()]);
}

#[test]
fn search_clause_should_not_match_raw_url_path() {
    let clause = search_clause_for_param(1);
    assert!(!clause.contains("b.url LIKE"));
    assert!(clause.contains("b.title LIKE"));
    assert!(clause.contains("b.host LIKE"));
    assert!(clause.contains("t.name LIKE"));
}

#[test]
fn pg_search_sql_should_use_string_agg() {
    let sql = bookmark_select_sql();
    assert!(sql.contains("STRING_AGG"));
}

#[test]
fn tokenize_lowercases_and_drops_repeats_after_lowercasing() {
    let tokens = tokenize_search_query("Rust RUST rust\tGo");
    assert_eq!(tokens, vec!["rust".to_string(), "go".to_string()]);
    assert!(tokenize_search_query("   \n ").is_empty());
}

#[test]
fn search_clause_numbers_its_parameter_from_one() {
    let c = search_clause_for_param(0);
    assert_eq!(
        c,
        "(b.title LIKE ?1 OR b.host LIKE ?1 OR EXISTS (SELECT 1 FROM tags t JOIN bookmark_tags bt ON t.id = bt.tag_id WHERE bt.bookmark_id = b.id AND t.name LIKE ?1))"
    );
    let pg = search_clause_for_param_pg(9);
    assert!(pg.contains("b.title ILIKE $10"));
    assert!(pg.contains("t.name ILIKE $10"));
}

#[test]
fn sqlite_select_uses_group_concat() {
    let sql = bookmark_select_sql_for(SqlDialect::Sqlite);
    assert!(sql.contains("GROUP_CONCAT(t.name)"));
    assert!(!sql.contains("STRING_AGG"));
}

#[test]
fn search_query_binds_one_pattern_per_token() {
    let q = build_search_query(SqlDialect::Sqlite, "Rust tag:work rust");
    assert_eq!(q.params, vec!["%rust%".to_string(), "%tag:work%".to_string()]);
    assert!(q.sql.contains("?1"));
    assert!(q.sql.contains("?2"));
    assert!(!q.sql.contains("?3"));
    assert!(q.sql.contains(" AND (b.title LIKE ?2"));
    assert!(q.sql.ends_with(" ORDER BY b.created_at DESC"));
}

#[test]
fn empty_search_lists_all_live_bookmarks() {
    let q = build_search_query(SqlDialect::Postgres, "   ");
    assert!(q.params.is_empty());
    assert_eq!(q.sql, list_bookmarks_sql(SqlDialect::Postgres));
    assert!(q.sql.contains("WHERE b.is_deleted = FALSE ORDER BY b.created_at DESC"));
}

fn row(tags: Option<&str>) -> BookmarkRow {
    BookmarkRow {
        id: "b1".to_string(),
        url: "https://example.com".to_string(),
        title: Some("Example".to_string()),
        description: None,
        favicon_url: None,
        host: Some("example.com".to_string()),
        created_at: "2026-03-02T00:00:00Z".to_string(),
        tag_list: tags.map(|t| t.to_string()),
    }
}

#[test]
fn tag_list_keeps_non_empty_names() {
    assert_eq!(parse_tag_list(&Some("a,,b,".to_string())), Some(vec!["a".to_string(), "b".to_string()]));
    assert_eq!(parse_tag_list(&None), None);
    let b = map_bookmark_row(row(Some("work,rust")));
    assert_eq!(b.tags, Some(vec!["work".to_string(), "rust".to_string()]));
    assert_eq!(b.id, "b1");
    assert_eq!(b.host, Some("example.com".to_string()));
}

#[test]
fn all_tags_row_mapping_keeps_empty_pieces() {
    let b = map_bookmark_row_all_tags(row(Some("a,,b")));
    assert_eq!(b.tags, Some(vec!["a".to_string(), "".to_string(), "b".to_string()]));
    let none = map_bookmark_row_all_tags(row(None));
    assert_eq!(none.tags, None);
}
