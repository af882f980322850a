use bookmark_sync::config::{
    build_dsn, config_after_switch, config_path, plan_config_switch, sqlite_only_sync_guard, validate_pg_config, AppConfig,
    DataSourceKind,
};

#[test]
fn build_dsn_should_format_connection_string() {
    let dsn = build_dsn("127.0.0.1", 5432, "bookmark_sync", "bookmark", "secret", "prefer");
    assert!(dsn.contains("host=127.0.0.1"));
    assert!(dsn.contains("port=5432"));
    assert!(dsn.contains("dbname=bookmark_sync"));
}

#[test]
fn sqlite_only_sync_should_block_pg() {
    let res = sqlite_only_sync_guard(DataSourceKind::Postgres);
    assert!(res.is_err());
}

#[test]
fn switch_should_reject_invalid_pg_config() {
    let mut cfg = AppConfig::default();
    cfg.data_source = DataSourceKind::Postgres;
    cfg.postgres.host = "".into();
    let err = validate_pg_config(&cfg).unwrap_err();
    assert!(err.contains("postgres host"));
}

#[test]
fn dsn_is_exact() {
    let dsn = build_dsn("db.local", 6543, "bm", "me", "pw", "require");
    assert_eq!(dsn, "host=db.local port=6543 dbname=bm user=me password=pw sslmode=require");
}

#[test]
fn sync_guard_allows_sqlite_and_names_the_reason_for_pg() {
    assert!(sqlite_only_sync_guard(DataSourceKind::Sqlite).is_ok());
    assert_eq!(sqlite_only_sync_guard(DataSourceKind::Postgres).unwrap_err(), "Git 同步仅支持 SQLite 数据源");
}

#[test]
fn default_config_is_local_sqlite() {
    let cfg = AppConfig::default();
    assert_eq!(cfg.data_source, DataSourceKind::Sqlite);
    assert_eq!(cfg.postgres.host, "127.0.0.1");
    assert_eq!(cfg.postgres.port, 5432);
    assert_eq!(cfg.postgres.db, "bookmark_sync");
    assert_eq!(cfg.postgres.user, "bookmark");
    assert_eq!(cfg.postgres.password, "");
    assert_eq!(cfg.postgres.sslmode, "prefer");
}

#[test]
fn pg_checks_come_in_order() {
    let mut cfg = AppConfig::default();
    cfg.postgres.db = "  ".into();
    cfg.postgres.user = "".into();
    assert_eq!(validate_pg_config(&cfg).unwrap_err(), "postgres db 不能为空");
    cfg.postgres.db = "x".into();
    assert_eq!(validate_pg_config(&cfg).unwrap_err(), "postgres user 不能为空");
    cfg.postgres.user = "u".into();
    assert!(validate_pg_config(&cfg).is_ok());
}

#[test]
fn config_file_lives_in_the_config_dir() {
    assert_eq!(config_path("/home/me/.config/app"), "/home/me/.config/app/config.json");
}

#[test]
fn switch_plan_tests_pg_connection_only() {
    let mut cfg = AppConfig::default();
    assert_eq!(plan_config_switch(&cfg), Ok(false));
    cfg.data_source = DataSourceKind::Postgres;
    assert_eq!(plan_config_switch(&cfg), Ok(true));
    cfg.postgres.host = " ".into();
    assert_eq!(plan_config_switch(&cfg), Err("postgres host 不能为空".to_string()));
}

#[test]
fn set_app_config_should_keep_sqlite_on_pg_connection_failure() {
    let cfg = AppConfig::default();
    let mut next = cfg.clone();
    next.data_source = DataSourceKind::Postgres;
    next.postgres.host = "127.0.0.1".into();
    next.postgres.port = 1;
    let (current, res) = config_after_switch(cfg.clone(), next.clone(), Err("connection refused".to_string()));
    let err = res.unwrap_err();
    assert!(!err.is_empty());
    assert_eq!(current.data_source, DataSourceKind::Sqlite);
    let (after_ok, ok) = config_after_switch(cfg, next, Ok(()));
    assert!(ok.is_ok());
    assert_eq!(after_ok.data_source, DataSourceKind::Postgres);
}
