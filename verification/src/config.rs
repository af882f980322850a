//! Which store the application uses, PostgreSQL connection settings, and the
//! checks a switch of store must pass.

use vstd::prelude::*;
use crate::text::{decimal, is_blank, str_is_blank, u64_to_decimal};

verus! {

/// The store the application reads and writes.
#[derive(Debug, Clone, Copy, PartialEq, Eq, Structural)]
pub enum DataSourceKind {
    Sqlite,
    Postgres,
}

/// Connection settings of a PostgreSQL store.
#[derive(Debug, Clone, PartialEq, Eq)]
pub struct PostgresConfig {
    pub host: String,
    pub port: u16,
    pub db: String,
    pub user: String,
    pub password: String,
    pub sslmode: String,
}

/// The application's configuration file.
#[derive(Debug, Clone, PartialEq, Eq)]
pub struct AppConfig {
    pub data_source: DataSourceKind,
    pub postgres: PostgresConfig,
}

/// The configuration written on first start: SQLite, and a local
/// PostgreSQL database `bookmark_sync` for user `bookmark`.
pub open spec fn is_default_config(c: AppConfig) -> bool {
    &&& c.data_source == DataSourceKind::Sqlite
    &&& c.postgres.host@ == "127.0.0.1"@
    &&& c.postgres.port == 5432
    &&& c.postgres.db@ == "bookmark_sync"@
    &&& c.postgres.user@ == "bookmark"@
    &&& c.postgres.password@ == ""@
    &&& c.postgres.sslmode@ == "prefer"@
}

impl Default for AppConfig {
    fn default() -> (r: Self)
        ensures
            is_default_config(r),
    {
        AppConfig {
            data_source: DataSourceKind::Sqlite,
            postgres: PostgresConfig {
                host: String::from_str("127.0.0.1"),
                port: 5432,
                db: String::from_str("bookmark_sync"),
                user: String::from_str("bookmark"),
                password: String::from_str(""),
                sslmode: String::from_str("prefer"),
            },
        }
    }
}

/// `Path::join` of a relative name onto a directory: a `/` is put between
/// them unless the directory is empty or already ends with one.
pub open spec fn path_join(dir: Seq<char>, name: Seq<char>) -> Seq<char> {
    if dir.len() == 0 || dir.last() == '/' {
        dir + name
    } else {
        dir + seq!['/'] + name
    }
}

/// Where the configuration lives in a directory: `config.json` in it.
pub fn config_path(dir: &str) -> (r: String)
    ensures
        r@ == path_join(dir@, "config.json"@),
{
    let mut s = String::from_str(dir);
    let dv = crate::text::chars_of(dir);
    if dv.len() > 0 && dv[dv.len() - 1] != '/' {
        s.append("/");
        proof {
            reveal_strlit("/");
            assert("/"@ == seq!['/']);
        }
    }
    s.append("config.json");
    s
}

/// Why a PostgreSQL configuration cannot be used: the first of host,
/// database and user that is blank.
pub open spec fn pg_config_error(c: AppConfig) -> Option<Seq<char>> {
    if is_blank(c.postgres.host@) {
        Some("postgres host 不能为空"@)
    } else if is_blank(c.postgres.db@) {
        Some("postgres db 不能为空"@)
    } else if is_blank(c.postgres.user@) {
        Some("postgres user 不能为空"@)
    } else {
        None
    }
}

/// Checks that host, database and user are not blank.
pub fn validate_pg_config(cfg: &AppConfig) -> (r: Result<(), String>)
    ensures
        match pg_config_error(*cfg) {
            None => r is Ok,
            Some(m) => r matches Err(e) && e@ == m,
        },
{
    if str_is_blank(cfg.postgres.host.as_str()) {
        return Err(String::from_str("postgres host 不能为空"));
    }
    if str_is_blank(cfg.postgres.db.as_str()) {
        return Err(String::from_str("postgres db 不能为空"));
    }
    if str_is_blank(cfg.postgres.user.as_str()) {
        return Err(String::from_str("postgres user 不能为空"));
    }
    Ok(())
}

/// Git synchronisation is for the SQLite store only.
pub fn sqlite_only_sync_guard(kind: DataSourceKind) -> (r: Result<(), String>)
    ensures
        kind == DataSourceKind::Sqlite ==> r is Ok,
        kind == DataSourceKind::Postgres ==> (r matches Err(e) && e@ == "Git 同步仅支持 SQLite 数据源"@),
{
    match kind {
        DataSourceKind::Sqlite => Ok(()),
        DataSourceKind::Postgres => Err(String::from_str("Git 同步仅支持 SQLite 数据源")),
    }
}

/// The libpq connection string of the given settings.
pub open spec fn dsn(host: Seq<char>, port: u16, db: Seq<char>, user: Seq<char>, password: Seq<char>, sslmode: Seq<char>) -> Seq<char> {
    "host="@ + host + " port="@ + decimal(port as nat) + " dbname="@ + db + " user="@ + user + " password="@
        + password + " sslmode="@ + sslmode
}

pub fn build_dsn(host: &str, port: u16, db: &str, user: &str, password: &str, sslmode: &str) -> (r: String)
    ensures
        r@ == dsn(host@, port, db@, user@, password@, sslmode@),
{
    let mut s = String::from_str("host=");
    s.append(host);
    s.append(" port=");
    let p = u64_to_decimal(port as u64);
    s.append(p.as_str());
    s.append(" dbname=");
    s.append(db);
    s.append(" user=");
    s.append(user);
    s.append(" password=");
    s.append(password);
    s.append(" sslmode=");
    s.append(sslmode);
    s
}


/// Before a switch of store: a PostgreSQL configuration must pass the
/// checks, and then its connection is tested (`Ok(true)`); a switch to
/// SQLite needs neither (`Ok(false)`).
pub fn plan_config_switch(next: &AppConfig) -> (r: Result<bool, String>)
    ensures
        next.data_source == DataSourceKind::Sqlite ==> r == Ok::<bool, String>(false),
        next.data_source == DataSourceKind::Postgres ==> match pg_config_error(*next) {
            None => r == Ok::<bool, String>(true),
            Some(m) => r matches Err(e) && e@ == m,
        },
{
    match next.data_source {
        DataSourceKind::Sqlite => Ok(false),
        DataSourceKind::Postgres => match validate_pg_config(next) {
            Ok(()) => Ok(true),
            Err(e) => Err(e),
        },
    }
}

/// The configuration in force after a switch was attempted: the new one when
/// every step succeeded, else the old one, unchanged, with the error.
pub fn config_after_switch(current: AppConfig, next: AppConfig, outcome: Result<(), String>) -> (r: (AppConfig, Result<(), String>))
    ensures
        outcome is Ok ==> r.0 == next,
        outcome is Err ==> r.0 == current,
        r.1 == outcome,
{
    if outcome.is_ok() {
        (next, outcome)
    } else {
        (current, outcome)
    }
}

} // verus!
