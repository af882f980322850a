//! The statements the stores run, with the values bound to them: how each
//! event is applied, how an event is recorded as applied, settings, the
//! lookups the importer makes, and the schema.

use vstd::prelude::*;
use crate::models::{BookmarkPayload, EventLog, SiteMetadata, SyncEvent};
use crate::search::SqlDialect;
use crate::text::{contains_str, decimal, views};

verus! {

/// A value bound to a statement parameter: text or SQL `NULL`.
#[derive(Debug, Clone, PartialEq, Eq)]
pub enum SqlParam {
    Text(String),
    Null,
}

/// A statement and the values bound to `?1`, `?2`, ... (`$1`, `$2`, ...).
#[derive(Debug, Clone, PartialEq, Eq)]
pub struct SqlStatement {
    pub sql: String,
    pub params: Vec<SqlParam>,
}

/// A parameter as a value: `None` is `NULL`.
pub open spec fn param_view(p: SqlParam) -> Option<Seq<char>> {
    match p {
        SqlParam::Text(s) => Some(s@),
        SqlParam::Null => None,
    }
}

pub open spec fn params_view(ps: Seq<SqlParam>) -> Seq<Option<Seq<char>>> {
    ps.map_values(|p: SqlParam| param_view(p))
}

/// A statement as its text and its parameter values.
pub open spec fn stmt_view(s: SqlStatement) -> (Seq<char>, Seq<Option<Seq<char>>>) {
    (s.sql@, params_view(s.params@))
}

pub open spec fn opt_text(o: Option<String>) -> Option<Seq<char>> {
    match o {
        Some(s) => Some(s@),
        None => None,
    }
}

fn text(s: &String) -> (r: SqlParam)
    ensures
        param_view(r) == Some(s@),
{
    SqlParam::Text(s.clone())
}

fn text_str(s: &str) -> (r: SqlParam)
    ensures
        param_view(r) == Some(s@),
{
    SqlParam::Text(String::from_str(s))
}

fn opt_param(o: &Option<String>) -> (r: SqlParam)
    ensures
        param_view(r) == opt_text(*o),
{
    match o {
        Some(s) => SqlParam::Text(s.clone()),
        None => SqlParam::Null,
    }
}

fn statement(sql: &str, params: Vec<SqlParam>) -> (r: SqlStatement)
    ensures
        r.sql@ == sql@,
        r.params@ == params@,
{
    SqlStatement { sql: String::from_str(sql), params }
}

proof fn lemma_params_view_1(a: SqlParam)
    ensures
        params_view(seq![a]) == seq![param_view(a)],
{
    assert(params_view(seq![a]) =~= seq![param_view(a)]);
}

proof fn lemma_params_view_2(a: SqlParam, b: SqlParam)
    ensures
        params_view(seq![a, b]) == seq![param_view(a), param_view(b)],
{
    assert(params_view(seq![a, b]) =~= seq![param_view(a), param_view(b)]);
}

proof fn lemma_params_view_3(a: SqlParam, b: SqlParam, c: SqlParam)
    ensures
        params_view(seq![a, b, c]) == seq![param_view(a), param_view(b), param_view(c)],
{
    assert(params_view(seq![a, b, c]) =~= seq![param_view(a), param_view(b), param_view(c)]);
}

// ---------------------------------------------------------------------------
// Applying events
// ---------------------------------------------------------------------------

/// The statement text that applies an event, by dialect (`None`: the event
/// changes nothing in the store).
pub open spec fn event_sql(d: SqlDialect, ev: SyncEvent) -> Option<Seq<char>> {
    let sqlite = d == SqlDialect::Sqlite;
    match ev {
        SyncEvent::BookmarkAdded(_) => Some(if sqlite {
            "INSERT INTO bookmarks (id, url, canonical_url, title, description, favicon_url, host, created_at) VALUES (?1, ?2, ?2, ?3, ?4, ?5, ?6, ?7) ON CONFLICT(canonical_url) DO UPDATE SET title = excluded.title, is_deleted = 0, updated_at = CURRENT_TIMESTAMP"@
        } else {
            "INSERT INTO bookmarks (id, url, canonical_url, title, description, favicon_url, host, created_at) VALUES ($1, $2, $2, $3, $4, $5, $6, $7) ON CONFLICT (canonical_url) DO UPDATE SET title = EXCLUDED.title, is_deleted = FALSE, updated_at = CURRENT_TIMESTAMP"@
        }),
        SyncEvent::FolderAdded { .. } => Some(if sqlite {
            "INSERT INTO folders (id, parent_id, name) VALUES (?1, ?2, ?3) ON CONFLICT(id) DO UPDATE SET name = excluded.name, parent_id = excluded.parent_id"@
        } else {
            "INSERT INTO folders (id, parent_id, name) VALUES ($1, $2, $3) ON CONFLICT (id) DO UPDATE SET name = EXCLUDED.name, parent_id = EXCLUDED.parent_id"@
        }),
        SyncEvent::BookmarkDeleted { .. } => Some(if sqlite {
            "UPDATE bookmarks SET is_deleted = 1, updated_at = CURRENT_TIMESTAMP WHERE id = ?1"@
        } else {
            "UPDATE bookmarks SET is_deleted = TRUE, updated_at = CURRENT_TIMESTAMP WHERE id = $1"@
        }),
        SyncEvent::BookmarkUpdated(_) => Some(if sqlite {
            "UPDATE bookmarks SET title = ?1, url = ?2, updated_at = CURRENT_TIMESTAMP WHERE id = ?3"@
        } else {
            "UPDATE bookmarks SET title = $1, url = $2, updated_at = CURRENT_TIMESTAMP WHERE id = $3"@
        }),
        SyncEvent::TagAdded { .. } => Some(if sqlite {
            "INSERT INTO tags (id, name) VALUES (?1, ?2) ON CONFLICT(name) DO NOTHING"@
        } else {
            "INSERT INTO tags (id, name) VALUES ($1, $2) ON CONFLICT (name) DO NOTHING"@
        }),
        SyncEvent::BookmarkTagged { .. } => Some(if sqlite {
            "INSERT INTO bookmark_tags (bookmark_id, tag_id) VALUES (?1, ?2) ON CONFLICT DO NOTHING"@
        } else {
            "INSERT INTO bookmark_tags (bookmark_id, tag_id) VALUES ($1, $2) ON CONFLICT DO NOTHING"@
        }),
        SyncEvent::BookmarkUntagged { .. } => Some(if sqlite {
            "DELETE FROM bookmark_tags WHERE bookmark_id = ?1 AND tag_id = ?2"@
        } else {
            "DELETE FROM bookmark_tags WHERE bookmark_id = $1 AND tag_id = $2"@
        }),
        SyncEvent::FolderRenamed { .. } => Some(if sqlite {
            "UPDATE folders SET name = ?2 WHERE id = ?1"@
        } else {
            "UPDATE folders SET name = $2 WHERE id = $1"@
        }),
        SyncEvent::FolderDeleted { .. } => Some(if sqlite {
            "UPDATE folders SET is_deleted = 1 WHERE id = ?1"@
        } else {
            "UPDATE folders SET is_deleted = TRUE WHERE id = $1"@
        }),
        SyncEvent::BookmarkAddedToFolder { .. } => Some(if sqlite {
            "INSERT INTO folder_bookmarks (folder_id, bookmark_id) VALUES (?1, ?2) ON CONFLICT DO NOTHING"@
        } else {
            "INSERT INTO folder_bookmarks (folder_id, bookmark_id) VALUES ($1, $2) ON CONFLICT DO NOTHING"@
        }),
        SyncEvent::BookmarkRemovedFromFolder { .. } => Some(if sqlite {
            "DELETE FROM folder_bookmarks WHERE folder_id = ?1 AND bookmark_id = ?2"@
        } else {
            "DELETE FROM folder_bookmarks WHERE folder_id = $1 AND bookmark_id = $2"@
        }),
        SyncEvent::TagDeleted { .. } => None,
    }
}

/// The values bound to the statement that applies an event (the same in
/// both dialects).
pub open spec fn event_params(ev: SyncEvent) -> Seq<Option<Seq<char>>> {
    match ev {
        SyncEvent::BookmarkAdded(b) => seq![
            Some(b.id@), Some(b.url@), opt_text(b.title), opt_text(b.description),
            opt_text(b.favicon_url), opt_text(b.host), Some(b.created_at@)
        ],
        SyncEvent::FolderAdded { id, parent_id, name } => seq![Some(id@), opt_text(parent_id), Some(name@)],
        SyncEvent::BookmarkDeleted { id } => seq![Some(id@)],
        SyncEvent::BookmarkUpdated(b) => seq![opt_text(b.title), Some(b.url@), Some(b.id@)],
        SyncEvent::TagAdded { id, name } => seq![Some(id@), Some(name@)],
        SyncEvent::BookmarkTagged { bookmark_id, tag_id } => seq![Some(bookmark_id@), Some(tag_id@)],
        SyncEvent::BookmarkUntagged { bookmark_id, tag_id } => seq![Some(bookmark_id@), Some(tag_id@)],
        SyncEvent::FolderRenamed { id, name } => seq![Some(id@), Some(name@)],
        SyncEvent::FolderDeleted { id } => seq![Some(id@)],
        SyncEvent::BookmarkAddedToFolder { bookmark_id, folder_id } => seq![Some(folder_id@), Some(bookmark_id@)],
        SyncEvent::BookmarkRemovedFromFolder { bookmark_id, folder_id } => seq![Some(folder_id@), Some(bookmark_id@)],
        SyncEvent::TagDeleted { .. } => Seq::empty(),
    }
}

// ---------------------------------------------------------------------------
// What an update of the bookmarks table does
// ---------------------------------------------------------------------------

/// The placeholder of the `k`-th bound value: `?k` in SQLite, `$k` in
/// PostgreSQL.
pub open spec fn placeholder(d: SqlDialect, k: nat) -> Seq<char> {
    (if d == SqlDialect::Sqlite { seq!['?'] } else { seq!['$'] }) + decimal(k)
}

/// `part` stands somewhere in `s`.
pub open spec fn occurs_in(s: Seq<char>, part: Seq<char>) -> bool {
    exists|i: int| 0 <= i && i + part.len() <= s.len() && #[trigger] s.subrange(i, i + part.len()) == part
}

/// `s` ends with `t`.
pub open spec fn ends_with(s: Seq<char>, t: Seq<char>) -> bool {
    s.len() >= t.len() && s.skip(s.len() - t.len()) == t
}

/// The SET list of an UPDATE assigns column `col` the `k`-th bound value:
/// ` col = <placeholder>`, followed by the next assignment's `,` or by the
/// ` WHERE` that ends the list.
pub open spec fn assigns_column(d: SqlDialect, sql: Seq<char>, col: Seq<char>, k: nat) -> bool {
    ||| occurs_in(sql, " "@ + col + " = "@ + placeholder(d, k) + ","@)
    ||| occurs_in(sql, " "@ + col + " = "@ + placeholder(d, k) + " WHERE"@)
}

/// `sql` is an UPDATE of `table` whose only condition is `id = ` a bound
/// value equal to `id`: it changes the row with that id.
pub open spec fn updates_row(d: SqlDialect, table: Seq<char>, sql: Seq<char>, params: Seq<Option<Seq<char>>>, id: Seq<char>) -> bool {
    &&& sql.len() >= table.len() + 12 && sql.take(table.len() + 12 as int) == "UPDATE "@ + table + " SET "@
    &&& exists|w: nat| 1 <= w <= params.len() && params[w - 1] == Some(id) && #[trigger] ends_with(sql, " WHERE id = "@ + placeholder(d, w))
}

/// Running `sql` with the bound values `params` sets column `col` of the
/// row of `table` whose id is `id` to `value`: it updates that row, and its
/// SET list assigns `col` a bound value equal to `value`.
pub open spec fn sets_column(
    d: SqlDialect,
    table: Seq<char>,
    sql: Seq<char>,
    params: Seq<Option<Seq<char>>>,
    id: Seq<char>,
    col: Seq<char>,
    value: Option<Seq<char>>,
) -> bool {
    &&& updates_row(d, table, sql, params, id)
    &&& exists|k: nat| 1 <= k <= params.len() && params[k - 1] == value && #[trigger] assigns_column(d, sql, col, k)
}

/// The literal true: `1` in SQLite, `TRUE` in PostgreSQL.
pub open spec fn true_literal(d: SqlDialect) -> Seq<char> {
    if d == SqlDialect::Sqlite { "1"@ } else { "TRUE"@ }
}

/// Running `sql` with `params` sets the flag `col` of the row of `table`
/// whose id is `id` to true.
pub open spec fn sets_flag(d: SqlDialect, table: Seq<char>, sql: Seq<char>, params: Seq<Option<Seq<char>>>, id: Seq<char>, col: Seq<char>) -> bool {
    &&& updates_row(d, table, sql, params, id)
    &&& {
        ||| occurs_in(sql, " "@ + col + " = "@ + true_literal(d) + ","@)
        ||| occurs_in(sql, " "@ + col + " = "@ + true_literal(d) + " WHERE"@)
    }
}

/// Applying an update of a bookmark sets the title and the URL of the row
/// with the bookmark's id to the event's title and URL.
pub proof fn lemma_bookmark_update_sets_title_and_url(d: SqlDialect, b: BookmarkPayload)
    ensures
        event_sql(d, SyncEvent::BookmarkUpdated(b)) matches Some(sql) && {
            let ps = event_params(SyncEvent::BookmarkUpdated(b));
            &&& sets_column(d, "bookmarks"@, sql, ps, b.id@, "title"@, opt_text(b.title))
            &&& sets_column(d, "bookmarks"@, sql, ps, b.id@, "url"@, Some(b.url@))
        },
{
    let ev = SyncEvent::BookmarkUpdated(b);
    let sql = event_sql(d, ev)->0;
    let ps = event_params(ev);
    reveal_strlit("UPDATE bookmarks SET title = ?1, url = ?2, updated_at = CURRENT_TIMESTAMP WHERE id = ?3");
    reveal_strlit("UPDATE bookmarks SET title = $1, url = $2, updated_at = CURRENT_TIMESTAMP WHERE id = $3");
    lemma_update_pieces();
    reveal_strlit("title");
    reveal_strlit("url");
    reveal_strlit("bookmarks");
    assert(sql.take(21) =~= "UPDATE "@ + "bookmarks"@ + " SET "@);
    let w = " WHERE id = "@ + placeholder(d, 3);
    assert(sql.skip(sql.len() - w.len()) =~= w);
    assert(ends_with(sql, w));
    let t = " "@ + "title"@ + " = "@ + placeholder(d, 1) + ","@;
    assert(sql.subrange(20, 20 + t.len() as int) =~= t);
    assert(assigns_column(d, sql, "title"@, 1));
    let u = " "@ + "url"@ + " = "@ + placeholder(d, 2) + ","@;
    assert(sql.subrange(32, 32 + u.len() as int) =~= u);
    assert(assigns_column(d, sql, "url"@, 2));
    assert(ps[2] == Some(b.id@));
    assert(ps[0] == opt_text(b.title));
    assert(ps[1] == Some(b.url@));
}

proof fn lemma_update_pieces()
    ensures
        "UPDATE "@ == seq!['U', 'P', 'D', 'A', 'T', 'E', ' '],
        " SET "@ == seq![' ', 'S', 'E', 'T', ' '],
        " WHERE id = "@ == seq![' ', 'W', 'H', 'E', 'R', 'E', ' ', 'i', 'd', ' ', '=', ' '],
        " WHERE"@ == seq![' ', 'W', 'H', 'E', 'R', 'E'],
        " "@ == seq![' '],
        " = "@ == seq![' ', '=', ' '],
        ","@ == seq![','],
        "1"@ == seq!['1'],
        "TRUE"@ == seq!['T', 'R', 'U', 'E'],
        decimal(1) == seq!['1'],
        decimal(2) == seq!['2'],
        decimal(3) == seq!['3'],
{
    reveal_strlit("UPDATE ");
    reveal_strlit(" SET ");
    reveal_strlit(" WHERE id = ");
    reveal_strlit(" WHERE");
    reveal_strlit(" ");
    reveal_strlit(" = ");
    reveal_strlit(",");
    reveal_strlit("1");
    reveal_strlit("TRUE");
    assert(" WHERE"@ =~= seq![' ', 'W', 'H', 'E', 'R', 'E']);
    assert(decimal(1) == seq!['1']);
    assert(decimal(2) == seq!['2']);
    assert(decimal(3) == seq!['3']);
}

/// Deleting a tag changes nothing in the store: it gives no statement.
pub proof fn lemma_tag_delete_gives_nothing(d: SqlDialect, id: String)
    ensures
        event_sql(d, SyncEvent::TagDeleted { id }) is None,
        event_params(SyncEvent::TagDeleted { id }).len() == 0,
{
}

/// Applying a deletion of a bookmark marks the row with its id deleted.
pub proof fn lemma_bookmark_delete_marks_row(d: SqlDialect, id: String)
    ensures
        event_sql(d, SyncEvent::BookmarkDeleted { id }) matches Some(sql)
            && sets_flag(d, "bookmarks"@, sql, event_params(SyncEvent::BookmarkDeleted { id }), id@, "is_deleted"@),
{
    let ev = SyncEvent::BookmarkDeleted { id };
    let sql = event_sql(d, ev)->0;
    reveal_strlit("UPDATE bookmarks SET is_deleted = 1, updated_at = CURRENT_TIMESTAMP WHERE id = ?1");
    reveal_strlit("UPDATE bookmarks SET is_deleted = TRUE, updated_at = CURRENT_TIMESTAMP WHERE id = $1");
    lemma_update_pieces();
    reveal_strlit("bookmarks");
    reveal_strlit("is_deleted");
    assert(sql.take(21) =~= "UPDATE "@ + "bookmarks"@ + " SET "@);
    let w = " WHERE id = "@ + placeholder(d, 1);
    assert(sql.skip(sql.len() - w.len()) =~= w);
    assert(ends_with(sql, w));
    let t = " "@ + "is_deleted"@ + " = "@ + true_literal(d) + ","@;
    assert(sql.subrange(20, 20 + t.len() as int) =~= t);
}

/// Applying a rename of a folder sets the name of the row with its id.
pub proof fn lemma_folder_rename_sets_name(d: SqlDialect, id: String, name: String)
    ensures
        event_sql(d, SyncEvent::FolderRenamed { id, name }) matches Some(sql)
            && sets_column(d, "folders"@, sql, event_params(SyncEvent::FolderRenamed { id, name }), id@, "name"@, Some(name@)),
{
    let ev = SyncEvent::FolderRenamed { id, name };
    let sql = event_sql(d, ev)->0;
    let ps = event_params(ev);
    reveal_strlit("UPDATE folders SET name = ?2 WHERE id = ?1");
    reveal_strlit("UPDATE folders SET name = $2 WHERE id = $1");
    lemma_update_pieces();
    reveal_strlit("folders");
    reveal_strlit("name");
    assert(sql.take(19) =~= "UPDATE "@ + "folders"@ + " SET "@);
    let w = " WHERE id = "@ + placeholder(d, 1);
    assert(sql.skip(sql.len() - w.len()) =~= w);
    assert(ends_with(sql, w));
    let t = " "@ + "name"@ + " = "@ + placeholder(d, 2) + " WHERE"@;
    assert(sql.subrange(18, 18 + t.len() as int) =~= t);
    assert(assigns_column(d, sql, "name"@, 2));
    assert(ps[0] == Some(id@));
    assert(ps[1] == Some(name@));
}

/// Applying a deletion of a folder marks the row with its id deleted.
pub proof fn lemma_folder_delete_marks_row(d: SqlDialect, id: String)
    ensures
        event_sql(d, SyncEvent::FolderDeleted { id }) matches Some(sql)
            && sets_flag(d, "folders"@, sql, event_params(SyncEvent::FolderDeleted { id }), id@, "is_deleted"@),
{
    let ev = SyncEvent::FolderDeleted { id };
    let sql = event_sql(d, ev)->0;
    reveal_strlit("UPDATE folders SET is_deleted = 1 WHERE id = ?1");
    reveal_strlit("UPDATE folders SET is_deleted = TRUE WHERE id = $1");
    lemma_update_pieces();
    reveal_strlit("folders");
    reveal_strlit("is_deleted");
    assert(sql.take(19) =~= "UPDATE "@ + "folders"@ + " SET "@);
    let w = " WHERE id = "@ + placeholder(d, 1);
    assert(sql.skip(sql.len() - w.len()) =~= w);
    assert(ends_with(sql, w));
    let t = " "@ + "is_deleted"@ + " = "@ + true_literal(d) + " WHERE"@;
    assert(sql.subrange(18, 18 + t.len() as int) =~= t);
}

// ---------------------------------------------------------------------------
// What an insert does
// ---------------------------------------------------------------------------

/// `items` written one after another, `sep` between each two.
pub open spec fn joined(items: Seq<Seq<char>>, sep: Seq<char>) -> Seq<char>
    decreases items.len(),
{
    if items.len() == 0 {
        Seq::empty()
    } else if items.len() == 1 {
        items[0]
    } else {
        joined(items.drop_last(), sep) + sep + items.last()
    }
}

/// `sql` begins `INSERT INTO table (c1, ..., cn) VALUES (v1, ..., vn)`:
/// column `cj` of the new row gets the value `vj`.
pub open spec fn insert_shape(sql: Seq<char>, table: Seq<char>, cols: Seq<Seq<char>>, vals: Seq<Seq<char>>) -> bool {
    let head = "INSERT INTO "@ + table + " ("@ + joined(cols, ", "@) + ") VALUES ("@ + joined(vals, ", "@) + ")"@;
    &&& cols.len() == vals.len()
    &&& sql.len() >= head.len() && sql.take(head.len() as int) == head
}

/// The value written `v` is the placeholder of a bound value equal to
/// `value`.
pub open spec fn binds(d: SqlDialect, v: Seq<char>, params: Seq<Option<Seq<char>>>, value: Option<Seq<char>>) -> bool {
    exists|k: nat| 1 <= k <= params.len() && params[k - 1] == value && v == #[trigger] placeholder(d, k)
}

/// Running `sql` with `params` inserts into `table` a row whose column `col`
/// holds `value`.
pub open spec fn inserts_column(
    d: SqlDialect,
    table: Seq<char>,
    sql: Seq<char>,
    params: Seq<Option<Seq<char>>>,
    col: Seq<char>,
    value: Option<Seq<char>>,
) -> bool {
    exists|cols: Seq<Seq<char>>, vals: Seq<Seq<char>>| #[trigger] insert_shape(sql, table, cols, vals)
        && exists|j: int| 0 <= j < cols.len() && #[trigger] cols[j] == col && binds(d, vals[j], params, value)
}

proof fn lemma_insert_pieces()
    ensures
        "INSERT INTO "@ =~= seq!['I', 'N', 'S', 'E', 'R', 'T', ' ', 'I', 'N', 'T', 'O', ' '],
        " ("@ =~= seq![' ', '('],
        ", "@ =~= seq![',', ' '],
        ") VALUES ("@ =~= seq![')', ' ', 'V', 'A', 'L', 'U', 'E', 'S', ' ', '('],
        ")"@ =~= seq![')'],
        decimal(1) == seq!['1'],
        decimal(2) == seq!['2'],
        decimal(3) == seq!['3'],
        decimal(4) == seq!['4'],
        decimal(5) == seq!['5'],
        decimal(6) == seq!['6'],
        decimal(7) == seq!['7'],
{
    reveal_strlit("INSERT INTO ");
    reveal_strlit(" (");
    reveal_strlit(", ");
    reveal_strlit(") VALUES (");
    reveal_strlit(")");
    assert(decimal(1) == seq!['1']);
    assert(decimal(2) == seq!['2']);
    assert(decimal(3) == seq!['3']);
    assert(decimal(4) == seq!['4']);
    assert(decimal(5) == seq!['5']);
    assert(decimal(6) == seq!['6']);
    assert(decimal(7) == seq!['7']);
}

proof fn lemma_inserts_from_shape(
    d: SqlDialect,
    table: Seq<char>,
    sql: Seq<char>,
    params: Seq<Option<Seq<char>>>,
    cols: Seq<Seq<char>>,
    vals: Seq<Seq<char>>,
    j: int,
    k: nat,
)
    requires
        insert_shape(sql, table, cols, vals),
        0 <= j < cols.len(),
        1 <= k <= params.len(),
        vals[j] == placeholder(d, k),
    ensures
        inserts_column(d, table, sql, params, cols[j], params[k - 1]),
{
    assert(binds(d, vals[j], params, params[k - 1]));
}

/// Applying an added bookmark inserts a row holding its id, its URL (also
/// as the canonical URL that dedupes it), title, description, icon URL,
/// host and creation time.
#[verifier::spinoff_prover]
#[verifier::rlimit(50)]
pub proof fn lemma_bookmark_add_inserts_row(d: SqlDialect, b: BookmarkPayload)
    ensures
        event_sql(d, SyncEvent::BookmarkAdded(b)) matches Some(sql) && {
            let ps = event_params(SyncEvent::BookmarkAdded(b));
            &&& inserts_column(d, "bookmarks"@, sql, ps, "id"@, Some(b.id@))
            &&& inserts_column(d, "bookmarks"@, sql, ps, "url"@, Some(b.url@))
            &&& inserts_column(d, "bookmarks"@, sql, ps, "canonical_url"@, Some(b.url@))
            &&& inserts_column(d, "bookmarks"@, sql, ps, "title"@, opt_text(b.title))
            &&& inserts_column(d, "bookmarks"@, sql, ps, "description"@, opt_text(b.description))
            &&& inserts_column(d, "bookmarks"@, sql, ps, "favicon_url"@, opt_text(b.favicon_url))
            &&& inserts_column(d, "bookmarks"@, sql, ps, "host"@, opt_text(b.host))
            &&& inserts_column(d, "bookmarks"@, sql, ps, "created_at"@, Some(b.created_at@))
        },
{
    let ev = SyncEvent::BookmarkAdded(b);
    let sql = event_sql(d, ev)->0;
    let ps = event_params(ev);
    reveal_strlit("INSERT INTO bookmarks (id, url, canonical_url, title, description, favicon_url, host, created_at) VALUES (?1, ?2, ?2, ?3, ?4, ?5, ?6, ?7) ON CONFLICT(canonical_url) DO UPDATE SET title = excluded.title, is_deleted = 0, updated_at = CURRENT_TIMESTAMP");
    reveal_strlit("INSERT INTO bookmarks (id, url, canonical_url, title, description, favicon_url, host, created_at) VALUES ($1, $2, $2, $3, $4, $5, $6, $7) ON CONFLICT (canonical_url) DO UPDATE SET title = EXCLUDED.title, is_deleted = FALSE, updated_at = CURRENT_TIMESTAMP");
    lemma_insert_pieces();
    reveal_strlit("bookmarks");
    reveal_strlit("id");
    reveal_strlit("url");
    reveal_strlit("canonical_url");
    reveal_strlit("title");
    reveal_strlit("description");
    reveal_strlit("favicon_url");
    reveal_strlit("host");
    reveal_strlit("created_at");
    let cols = seq!["id"@, "url"@, "canonical_url"@, "title"@, "description"@, "favicon_url"@, "host"@, "created_at"@];
    let vals = seq![
        placeholder(d, 1), placeholder(d, 2), placeholder(d, 2), placeholder(d, 3),
        placeholder(d, 4), placeholder(d, 5), placeholder(d, 6), placeholder(d, 7)
    ];
    reveal_with_fuel(joined, 9);
    let head = "INSERT INTO "@ + "bookmarks"@ + " ("@ + joined(cols, ", "@) + ") VALUES ("@ + joined(vals, ", "@) + ")"@;
    assert(sql.take(head.len() as int) =~= head);
    assert(insert_shape(sql, "bookmarks"@, cols, vals));
    lemma_inserts_from_shape(d, "bookmarks"@, sql, ps, cols, vals, 0, 1);
    lemma_inserts_from_shape(d, "bookmarks"@, sql, ps, cols, vals, 1, 2);
    lemma_inserts_from_shape(d, "bookmarks"@, sql, ps, cols, vals, 2, 2);
    lemma_inserts_from_shape(d, "bookmarks"@, sql, ps, cols, vals, 3, 3);
    lemma_inserts_from_shape(d, "bookmarks"@, sql, ps, cols, vals, 4, 4);
    lemma_inserts_from_shape(d, "bookmarks"@, sql, ps, cols, vals, 5, 5);
    lemma_inserts_from_shape(d, "bookmarks"@, sql, ps, cols, vals, 6, 6);
    lemma_inserts_from_shape(d, "bookmarks"@, sql, ps, cols, vals, 7, 7);
}

/// Applying an added folder inserts a row holding its id, its parent's id
/// (none at the top) and its name.
pub proof fn lemma_folder_add_inserts_row(d: SqlDialect, id: String, parent_id: Option<String>, name: String)
    ensures
        event_sql(d, SyncEvent::FolderAdded { id, parent_id, name }) matches Some(sql) && {
            let ps = event_params(SyncEvent::FolderAdded { id, parent_id, name });
            &&& inserts_column(d, "folders"@, sql, ps, "id"@, Some(id@))
            &&& inserts_column(d, "folders"@, sql, ps, "parent_id"@, opt_text(parent_id))
            &&& inserts_column(d, "folders"@, sql, ps, "name"@, Some(name@))
        },
{
    let ev = SyncEvent::FolderAdded { id, parent_id, name };
    let sql = event_sql(d, ev)->0;
    let ps = event_params(ev);
    reveal_strlit("INSERT INTO folders (id, parent_id, name) VALUES (?1, ?2, ?3) ON CONFLICT(id) DO UPDATE SET name = excluded.name, parent_id = excluded.parent_id");
    reveal_strlit("INSERT INTO folders (id, parent_id, name) VALUES ($1, $2, $3) ON CONFLICT (id) DO UPDATE SET name = EXCLUDED.name, parent_id = EXCLUDED.parent_id");
    reveal_strlit("folders");
    reveal_strlit("id");
    reveal_strlit("parent_id");
    reveal_strlit("name");
    lemma_insert_pieces();
    let cols = seq!["id"@, "parent_id"@, "name"@];
    let vals = seq![placeholder(d, 1), placeholder(d, 2), placeholder(d, 3)];
    reveal_with_fuel(joined, 4);
    let head = "INSERT INTO "@ + "folders"@ + " ("@ + joined(cols, ", "@) + ") VALUES ("@ + joined(vals, ", "@) + ")"@;
    assert(sql.take(head.len() as int) =~= head);
    assert(insert_shape(sql, "folders"@, cols, vals));
    lemma_inserts_from_shape(d, "folders"@, sql, ps, cols, vals, 0, 1);
    lemma_inserts_from_shape(d, "folders"@, sql, ps, cols, vals, 1, 2);
    lemma_inserts_from_shape(d, "folders"@, sql, ps, cols, vals, 2, 3);
}

/// Applying an added tag inserts a row holding its id and name.
pub proof fn lemma_tag_add_inserts_row(d: SqlDialect, id: String, name: String)
    ensures
        event_sql(d, SyncEvent::TagAdded { id, name }) matches Some(sql) && {
            let ps = event_params(SyncEvent::TagAdded { id, name });
            &&& inserts_column(d, "tags"@, sql, ps, "id"@, Some(id@))
            &&& inserts_column(d, "tags"@, sql, ps, "name"@, Some(name@))
        },
{
    let ev = SyncEvent::TagAdded { id, name };
    let sql = event_sql(d, ev)->0;
    let ps = event_params(ev);
    reveal_strlit("INSERT INTO tags (id, name) VALUES (?1, ?2) ON CONFLICT(name) DO NOTHING");
    reveal_strlit("INSERT INTO tags (id, name) VALUES ($1, $2) ON CONFLICT (name) DO NOTHING");
    reveal_strlit("tags");
    reveal_strlit("id");
    reveal_strlit("name");
    lemma_insert_pieces();
    let cols = seq!["id"@, "name"@];
    let vals = seq![placeholder(d, 1), placeholder(d, 2)];
    reveal_with_fuel(joined, 3);
    let head = "INSERT INTO "@ + "tags"@ + " ("@ + joined(cols, ", "@) + ") VALUES ("@ + joined(vals, ", "@) + ")"@;
    assert(sql.take(head.len() as int) =~= head);
    assert(insert_shape(sql, "tags"@, cols, vals));
    lemma_inserts_from_shape(d, "tags"@, sql, ps, cols, vals, 0, 1);
    lemma_inserts_from_shape(d, "tags"@, sql, ps, cols, vals, 1, 2);
}

/// Tagging a bookmark inserts the link of that bookmark to that tag.
pub proof fn lemma_bookmark_tag_inserts_link(d: SqlDialect, bookmark_id: String, tag_id: String)
    ensures
        event_sql(d, SyncEvent::BookmarkTagged { bookmark_id, tag_id }) matches Some(sql) && {
            let ps = event_params(SyncEvent::BookmarkTagged { bookmark_id, tag_id });
            &&& inserts_column(d, "bookmark_tags"@, sql, ps, "bookmark_id"@, Some(bookmark_id@))
            &&& inserts_column(d, "bookmark_tags"@, sql, ps, "tag_id"@, Some(tag_id@))
        },
{
    let ev = SyncEvent::BookmarkTagged { bookmark_id, tag_id };
    let sql = event_sql(d, ev)->0;
    let ps = event_params(ev);
    reveal_strlit("INSERT INTO bookmark_tags (bookmark_id, tag_id) VALUES (?1, ?2) ON CONFLICT DO NOTHING");
    reveal_strlit("INSERT INTO bookmark_tags (bookmark_id, tag_id) VALUES ($1, $2) ON CONFLICT DO NOTHING");
    reveal_strlit("bookmark_tags");
    reveal_strlit("bookmark_id");
    reveal_strlit("tag_id");
    lemma_insert_pieces();
    let cols = seq!["bookmark_id"@, "tag_id"@];
    let vals = seq![placeholder(d, 1), placeholder(d, 2)];
    reveal_with_fuel(joined, 3);
    let head = "INSERT INTO "@ + "bookmark_tags"@ + " ("@ + joined(cols, ", "@) + ") VALUES ("@ + joined(vals, ", "@) + ")"@;
    assert(sql.take(head.len() as int) =~= head);
    assert(insert_shape(sql, "bookmark_tags"@, cols, vals));
    lemma_inserts_from_shape(d, "bookmark_tags"@, sql, ps, cols, vals, 0, 1);
    lemma_inserts_from_shape(d, "bookmark_tags"@, sql, ps, cols, vals, 1, 2);
}

/// Putting a bookmark in a folder inserts the link of that folder to that
/// bookmark.
pub proof fn lemma_folder_link_inserts_link(d: SqlDialect, bookmark_id: String, folder_id: String)
    ensures
        event_sql(d, SyncEvent::BookmarkAddedToFolder { bookmark_id, folder_id }) matches Some(sql) && {
            let ps = event_params(SyncEvent::BookmarkAddedToFolder { bookmark_id, folder_id });
            &&& inserts_column(d, "folder_bookmarks"@, sql, ps, "folder_id"@, Some(folder_id@))
            &&& inserts_column(d, "folder_bookmarks"@, sql, ps, "bookmark_id"@, Some(bookmark_id@))
        },
{
    let ev = SyncEvent::BookmarkAddedToFolder { bookmark_id, folder_id };
    let sql = event_sql(d, ev)->0;
    let ps = event_params(ev);
    reveal_strlit("INSERT INTO folder_bookmarks (folder_id, bookmark_id) VALUES (?1, ?2) ON CONFLICT DO NOTHING");
    reveal_strlit("INSERT INTO folder_bookmarks (folder_id, bookmark_id) VALUES ($1, $2) ON CONFLICT DO NOTHING");
    reveal_strlit("folder_bookmarks");
    reveal_strlit("folder_id");
    reveal_strlit("bookmark_id");
    lemma_insert_pieces();
    let cols = seq!["folder_id"@, "bookmark_id"@];
    let vals = seq![placeholder(d, 1), placeholder(d, 2)];
    reveal_with_fuel(joined, 3);
    let head = "INSERT INTO "@ + "folder_bookmarks"@ + " ("@ + joined(cols, ", "@) + ") VALUES ("@ + joined(vals, ", "@) + ")"@;
    assert(sql.take(head.len() as int) =~= head);
    assert(insert_shape(sql, "folder_bookmarks"@, cols, vals));
    lemma_inserts_from_shape(d, "folder_bookmarks"@, sql, ps, cols, vals, 0, 1);
    lemma_inserts_from_shape(d, "folder_bookmarks"@, sql, ps, cols, vals, 1, 2);
}

// ---------------------------------------------------------------------------
// What a deletion of links does
// ---------------------------------------------------------------------------

/// `DELETE FROM table WHERE c1 = p1 AND c2 = p2`.
pub open spec fn delete_where_text(table: Seq<char>, c1: Seq<char>, p1: Seq<char>, c2: Seq<char>, p2: Seq<char>) -> Seq<char> {
    "DELETE FROM "@ + table + " WHERE "@ + c1 + " = "@ + p1 + " AND "@ + c2 + " = "@ + p2
}

/// Running `sql` with `params` deletes from `table` exactly the rows whose
/// column `c1` holds `v1` and whose column `c2` holds `v2`.
pub open spec fn deletes_rows_where(
    d: SqlDialect,
    table: Seq<char>,
    sql: Seq<char>,
    params: Seq<Option<Seq<char>>>,
    c1: Seq<char>,
    v1: Seq<char>,
    c2: Seq<char>,
    v2: Seq<char>,
) -> bool {
    exists|k1: nat, k2: nat|
        1 <= k1 <= params.len() && 1 <= k2 <= params.len() && params[k1 - 1] == Some(v1) && params[k2 - 1] == Some(v2)
            && sql == #[trigger] delete_where_text(table, c1, placeholder(d, k1), c2, placeholder(d, k2))
}

proof fn lemma_delete_pieces()
    ensures
        "DELETE FROM "@ =~= seq!['D', 'E', 'L', 'E', 'T', 'E', ' ', 'F', 'R', 'O', 'M', ' '],
        " WHERE "@ =~= seq![' ', 'W', 'H', 'E', 'R', 'E', ' '],
        " = "@ =~= seq![' ', '=', ' '],
        " AND "@ =~= seq![' ', 'A', 'N', 'D', ' '],
        decimal(1) == seq!['1'],
        decimal(2) == seq!['2'],
{
    reveal_strlit("DELETE FROM ");
    reveal_strlit(" WHERE ");
    reveal_strlit(" = ");
    reveal_strlit(" AND ");
    assert(decimal(1) == seq!['1']);
    assert(decimal(2) == seq!['2']);
}

/// Untagging a bookmark deletes exactly the link of that bookmark to that
/// tag.
pub proof fn lemma_bookmark_untag_deletes_link(d: SqlDialect, bookmark_id: String, tag_id: String)
    ensures
        event_sql(d, SyncEvent::BookmarkUntagged { bookmark_id, tag_id }) matches Some(sql) && deletes_rows_where(
            d,
            "bookmark_tags"@,
            sql,
            event_params(SyncEvent::BookmarkUntagged { bookmark_id, tag_id }),
            "bookmark_id"@,
            bookmark_id@,
            "tag_id"@,
            tag_id@,
        ),
{
    let sql = event_sql(d, SyncEvent::BookmarkUntagged { bookmark_id, tag_id })->0;
    reveal_strlit("DELETE FROM bookmark_tags WHERE bookmark_id = ?1 AND tag_id = ?2");
    reveal_strlit("DELETE FROM bookmark_tags WHERE bookmark_id = $1 AND tag_id = $2");
    reveal_strlit("bookmark_tags");
    reveal_strlit("bookmark_id");
    reveal_strlit("tag_id");
    lemma_delete_pieces();
    assert(sql =~= delete_where_text("bookmark_tags"@, "bookmark_id"@, placeholder(d, 1), "tag_id"@, placeholder(d, 2)));
}

/// Taking a bookmark out of a folder deletes exactly the link of that
/// folder to that bookmark.
pub proof fn lemma_folder_unlink_deletes_link(d: SqlDialect, bookmark_id: String, folder_id: String)
    ensures
        event_sql(d, SyncEvent::BookmarkRemovedFromFolder { bookmark_id, folder_id }) matches Some(sql) && deletes_rows_where(
            d,
            "folder_bookmarks"@,
            sql,
            event_params(SyncEvent::BookmarkRemovedFromFolder { bookmark_id, folder_id }),
            "folder_id"@,
            folder_id@,
            "bookmark_id"@,
            bookmark_id@,
        ),
{
    let sql = event_sql(d, SyncEvent::BookmarkRemovedFromFolder { bookmark_id, folder_id })->0;
    reveal_strlit("DELETE FROM folder_bookmarks WHERE folder_id = ?1 AND bookmark_id = ?2");
    reveal_strlit("DELETE FROM folder_bookmarks WHERE folder_id = $1 AND bookmark_id = $2");
    reveal_strlit("folder_bookmarks");
    reveal_strlit("folder_id");
    reveal_strlit("bookmark_id");
    lemma_delete_pieces();
    assert(sql =~= delete_where_text("folder_bookmarks"@, "folder_id"@, placeholder(d, 1), "bookmark_id"@, placeholder(d, 2)));
}

fn payload_params(b: &BookmarkPayload) -> (r: Vec<SqlParam>)
    ensures
        params_view(r@) == seq![
            Some(b.id@), Some(b.url@), opt_text(b.title), opt_text(b.description),
            opt_text(b.favicon_url), opt_text(b.host), Some(b.created_at@)
        ],
{
    let mut v: Vec<SqlParam> = Vec::new();
    v.push(text(&b.id));
    v.push(text(&b.url));
    v.push(opt_param(&b.title));
    v.push(opt_param(&b.description));
    v.push(opt_param(&b.favicon_url));
    v.push(opt_param(&b.host));
    v.push(text(&b.created_at));
    assert(params_view(v@) =~= seq![
        Some(b.id@), Some(b.url@), opt_text(b.title), opt_text(b.description),
        opt_text(b.favicon_url), opt_text(b.host), Some(b.created_at@)
    ]);
    v
}

fn two(a: &String, b: &String) -> (r: Vec<SqlParam>)
    ensures
        params_view(r@) == seq![Some(a@), Some(b@)],
{
    let pa = text(a);
    let pb = text(b);
    proof {
        lemma_params_view_2(pa, pb);
    }
    vec![pa, pb]
}

fn one(a: &String) -> (r: Vec<SqlParam>)
    ensures
        params_view(r@) == seq![Some(a@)],
{
    let pa = text(a);
    proof {
        lemma_params_view_1(pa);
    }
    vec![pa]
}

/// The statement that applies an event to a store of the given dialect
/// (`None` for an event that changes nothing there).
pub fn event_statement(d: SqlDialect, ev: &SyncEvent) -> (r: Option<SqlStatement>)
    ensures
        match r {
            Some(s) => event_sql(d, *ev) == Some(s.sql@) && params_view(s.params@) == event_params(*ev),
            None => event_sql(d, *ev) is None,
        },
{
    let sqlite = match d {
        SqlDialect::Sqlite => true,
        SqlDialect::Postgres => false,
    };
    match ev {
        SyncEvent::BookmarkAdded(b) => {
            let ps = payload_params(b);
            Some(if sqlite {
                statement("INSERT INTO bookmarks (id, url, canonical_url, title, description, favicon_url, host, created_at) VALUES (?1, ?2, ?2, ?3, ?4, ?5, ?6, ?7) ON CONFLICT(canonical_url) DO UPDATE SET title = excluded.title, is_deleted = 0, updated_at = CURRENT_TIMESTAMP", ps)
            } else {
                statement("INSERT INTO bookmarks (id, url, canonical_url, title, description, favicon_url, host, created_at) VALUES ($1, $2, $2, $3, $4, $5, $6, $7) ON CONFLICT (canonical_url) DO UPDATE SET title = EXCLUDED.title, is_deleted = FALSE, updated_at = CURRENT_TIMESTAMP", ps)
            })
        },
        SyncEvent::FolderAdded { id, parent_id, name } => {
            let a = text(id);
            let b = opt_param(parent_id);
            let c = text(name);
            proof {
                lemma_params_view_3(a, b, c);
            }
            let ps = vec![a, b, c];
            Some(if sqlite {
                statement("INSERT INTO folders (id, parent_id, name) VALUES (?1, ?2, ?3) ON CONFLICT(id) DO UPDATE SET name = excluded.name, parent_id = excluded.parent_id", ps)
            } else {
                statement("INSERT INTO folders (id, parent_id, name) VALUES ($1, $2, $3) ON CONFLICT (id) DO UPDATE SET name = EXCLUDED.name, parent_id = EXCLUDED.parent_id", ps)
            })
        },
        SyncEvent::BookmarkDeleted { id } => {
            let ps = one(id);
            Some(if sqlite {
                statement("UPDATE bookmarks SET is_deleted = 1, updated_at = CURRENT_TIMESTAMP WHERE id = ?1", ps)
            } else {
                statement("UPDATE bookmarks SET is_deleted = TRUE, updated_at = CURRENT_TIMESTAMP WHERE id = $1", ps)
            })
        },
        SyncEvent::BookmarkUpdated(b) => {
            let a = opt_param(&b.title);
            let u = text(&b.url);
            let i = text(&b.id);
            proof {
                lemma_params_view_3(a, u, i);
            }
            let ps = vec![a, u, i];
            Some(if sqlite {
                statement("UPDATE bookmarks SET title = ?1, url = ?2, updated_at = CURRENT_TIMESTAMP WHERE id = ?3", ps)
            } else {
                statement("UPDATE bookmarks SET title = $1, url = $2, updated_at = CURRENT_TIMESTAMP WHERE id = $3", ps)
            })
        },
        SyncEvent::TagAdded { id, name } => {
            let ps = two(id, name);
            Some(if sqlite {
                statement("INSERT INTO tags (id, name) VALUES (?1, ?2) ON CONFLICT(name) DO NOTHING", ps)
            } else {
                statement("INSERT INTO tags (id, name) VALUES ($1, $2) ON CONFLICT (name) DO NOTHING", ps)
            })
        },
        SyncEvent::BookmarkTagged { bookmark_id, tag_id } => {
            let ps = two(bookmark_id, tag_id);
            Some(if sqlite {
                statement("INSERT INTO bookmark_tags (bookmark_id, tag_id) VALUES (?1, ?2) ON CONFLICT DO NOTHING", ps)
            } else {
                statement("INSERT INTO bookmark_tags (bookmark_id, tag_id) VALUES ($1, $2) ON CONFLICT DO NOTHING", ps)
            })
        },
        SyncEvent::BookmarkUntagged { bookmark_id, tag_id } => {
            let ps = two(bookmark_id, tag_id);
            Some(if sqlite {
                statement("DELETE FROM bookmark_tags WHERE bookmark_id = ?1 AND tag_id = ?2", ps)
            } else {
                statement("DELETE FROM bookmark_tags WHERE bookmark_id = $1 AND tag_id = $2", ps)
            })
        },
        SyncEvent::FolderRenamed { id, name } => {
            let ps = two(id, name);
            Some(if sqlite {
                statement("UPDATE folders SET name = ?2 WHERE id = ?1", ps)
            } else {
                statement("UPDATE folders SET name = $2 WHERE id = $1", ps)
            })
        },
        SyncEvent::FolderDeleted { id } => {
            let ps = one(id);
            Some(if sqlite {
                statement("UPDATE folders SET is_deleted = 1 WHERE id = ?1", ps)
            } else {
                statement("UPDATE folders SET is_deleted = TRUE WHERE id = $1", ps)
            })
        },
        SyncEvent::BookmarkAddedToFolder { bookmark_id, folder_id } => {
            let ps = two(folder_id, bookmark_id);
            Some(if sqlite {
                statement("INSERT INTO folder_bookmarks (folder_id, bookmark_id) VALUES (?1, ?2) ON CONFLICT DO NOTHING", ps)
            } else {
                statement("INSERT INTO folder_bookmarks (folder_id, bookmark_id) VALUES ($1, $2) ON CONFLICT DO NOTHING", ps)
            })
        },
        SyncEvent::BookmarkRemovedFromFolder { bookmark_id, folder_id } => {
            let ps = two(folder_id, bookmark_id);
            Some(if sqlite {
                statement("DELETE FROM folder_bookmarks WHERE folder_id = ?1 AND bookmark_id = ?2", ps)
            } else {
                statement("DELETE FROM folder_bookmarks WHERE folder_id = $1 AND bookmark_id = $2", ps)
            })
        },
        SyncEvent::TagDeleted { .. } => None,
    }
}

// ---------------------------------------------------------------------------
// Applying an event once
// ---------------------------------------------------------------------------

/// The statement that records an event id as applied; it inserts no row
/// when the id is already there.
pub open spec fn applied_marker_sql(d: SqlDialect) -> Seq<char> {
    match d {
        SqlDialect::Sqlite => "INSERT INTO applied_event_ids (event_id) VALUES (?1) ON CONFLICT(event_id) DO NOTHING"@,
        SqlDialect::Postgres => "INSERT INTO applied_event_ids (event_id) VALUES ($1) ON CONFLICT (event_id) DO NOTHING"@,
    }
}

pub fn applied_marker_statement(d: SqlDialect, log: &EventLog) -> (r: SqlStatement)
    ensures
        r.sql@ == applied_marker_sql(d),
        params_view(r.params@) == seq![Some(log.event_id@)],
{
    let ps = one(&log.event_id);
    match d {
        SqlDialect::Sqlite => statement("INSERT INTO applied_event_ids (event_id) VALUES (?1) ON CONFLICT(event_id) DO NOTHING", ps),
        SqlDialect::Postgres => statement("INSERT INTO applied_event_ids (event_id) VALUES ($1) ON CONFLICT (event_id) DO NOTHING", ps),
    }
}

/// The marker of an event inserts a row of `applied_event_ids` holding the
/// event's id (a second insert of the same id adds no row).
pub proof fn lemma_applied_marker_inserts_id(d: SqlDialect, event_id: Seq<char>)
    ensures
        inserts_column(d, "applied_event_ids"@, applied_marker_sql(d), seq![Some(event_id)], "event_id"@, Some(event_id)),
{
    let sql = applied_marker_sql(d);
    let ps = seq![Some(event_id)];
    reveal_strlit("INSERT INTO applied_event_ids (event_id) VALUES (?1) ON CONFLICT(event_id) DO NOTHING");
    reveal_strlit("INSERT INTO applied_event_ids (event_id) VALUES ($1) ON CONFLICT (event_id) DO NOTHING");
    reveal_strlit("applied_event_ids");
    reveal_strlit("event_id");
    lemma_insert_pieces();
    let cols = seq!["event_id"@];
    let vals = seq![placeholder(d, 1)];
    reveal_with_fuel(joined, 2);
    let head = "INSERT INTO "@ + "applied_event_ids"@ + " ("@ + joined(cols, ", "@) + ") VALUES ("@ + joined(vals, ", "@) + ")"@;
    assert(sql.take(head.len() as int) =~= head);
    assert(insert_shape(sql, "applied_event_ids"@, cols, vals));
    lemma_inserts_from_shape(d, "applied_event_ids"@, sql, ps, cols, vals, 0, 1);
}

/// After the marker insert: an event is applied exactly when the marker
/// inserted a row, that is when it had not been applied before.
pub fn should_apply_event(marker_rows_inserted: usize) -> (r: bool)
    ensures
        r == (marker_rows_inserted != 0),
{
    marker_rows_inserted != 0
}

/// What a replay keeps for the local log: the events of `logs` (in order)
/// whose marker insert reported a row.
pub open spec fn newly_applied(logs: Seq<EventLog>, inserted: Seq<usize>) -> Seq<EventLog>
    decreases logs.len(),
{
    if logs.len() == 0 || inserted.len() < logs.len() {
        Seq::empty()
    } else {
        let prev = newly_applied(logs.drop_last(), inserted.take(logs.len() - 1));
        if inserted[logs.len() - 1] != 0 {
            prev.push(logs.last())
        } else {
            prev
        }
    }
}

/// The events of a replay that were applied now and go to the local log:
/// those whose marker insert reported a row, in order.
pub fn applied_events(logs: Vec<EventLog>, inserted: &Vec<usize>) -> (r: Vec<EventLog>)
    requires
        inserted@.len() == logs@.len(),
    ensures
        r@ == newly_applied(logs@, inserted@),
{
    let total: usize = logs.len();
    let ghost orig = logs@;
    let mut rest = logs;
    let mut out: Vec<EventLog> = Vec::new();
    let mut i: usize = 0;
    while rest.len() > 0
        invariant
            i <= orig.len(),
            inserted@.len() == orig.len(),
            rest@ == orig.skip(i as int),
            rest@.len() + i == orig.len(),
            orig.len() == total,
            out@ == newly_applied(orig.take(i as int), inserted@.take(i as int)),
        decreases rest.len(),
    {
        let e = rest.remove(0);
        proof {
            let t = orig.take(i + 1);
            assert(t.drop_last() == orig.take(i as int));
            assert(t.last() == e);
            assert(inserted@.take(i + 1).take(i as int) == inserted@.take(i as int));
            assert(inserted@.take(i + 1)[i as int] == inserted@[i as int]);
            assert(rest@ == orig.skip(i + 1));
        }
        if inserted[i] != 0 {
            out.push(e);
        }
        i = i + 1;
    }
    assert(orig.take(i as int) == orig);
    assert(inserted@.take(i as int) == inserted@);
    out
}

/// The ids of a batch of events.
pub open spec fn event_ids(logs: Seq<EventLog>) -> Seq<Seq<char>> {
    logs.map_values(|e: EventLog| e.event_id@)
}

/// What the marker inserts report on a store that already records the ids
/// `seen` (the marker table keeps each id once): a row for each event whose
/// id is neither recorded nor taken by an earlier event of the batch.
pub open spec fn marker_rows(seen: Set<Seq<char>>, logs: Seq<EventLog>) -> Seq<usize>
    decreases logs.len(),
{
    if logs.len() == 0 {
        Seq::empty()
    } else {
        let id = logs.last().event_id@;
        let fresh = !seen.contains(id) && !event_ids(logs.drop_last()).contains(id);
        marker_rows(seen, logs.drop_last()).push(if fresh { 1usize } else { 0usize })
    }
}

proof fn lemma_marker_rows_len(seen: Set<Seq<char>>, logs: Seq<EventLog>)
    ensures
        marker_rows(seen, logs).len() == logs.len(),
    decreases logs.len(),
{
    if logs.len() > 0 {
        lemma_marker_rows_len(seen, logs.drop_last());
    }
}

proof fn lemma_newly_applied_props(seen: Set<Seq<char>>, logs: Seq<EventLog>)
    ensures
        forall|i: int| 0 <= i < newly_applied(logs, marker_rows(seen, logs)).len() ==> !seen.contains(
            #[trigger] newly_applied(logs, marker_rows(seen, logs))[i].event_id@,
        ),
        forall|i: int| 0 <= i < newly_applied(logs, marker_rows(seen, logs)).len() ==> event_ids(logs).contains(
            #[trigger] newly_applied(logs, marker_rows(seen, logs))[i].event_id@,
        ),
        forall|i: int, j: int|
            0 <= i < j < newly_applied(logs, marker_rows(seen, logs)).len() ==> #[trigger] newly_applied(logs, marker_rows(seen, logs))[i].event_id@
                != #[trigger] newly_applied(logs, marker_rows(seen, logs))[j].event_id@,
    decreases logs.len(),
{
    lemma_marker_rows_len(seen, logs);
    if logs.len() > 0 {
        let prev_logs = logs.drop_last();
        lemma_newly_applied_props(seen, prev_logs);
        lemma_marker_rows_len(seen, prev_logs);
        let rows = marker_rows(seen, logs);
        assert(rows.take(logs.len() - 1) == marker_rows(seen, prev_logs));
        let prev = newly_applied(prev_logs, marker_rows(seen, prev_logs));
        let cur = newly_applied(logs, rows);
        let id = logs.last().event_id@;
        assert(event_ids(logs) == event_ids(prev_logs).push(id));
        assert forall|i: int| 0 <= i < prev.len() implies event_ids(logs).contains(#[trigger] prev[i].event_id@) by {
            let k = choose|k: int| 0 <= k < event_ids(prev_logs).len() && event_ids(prev_logs)[k] == prev[i].event_id@;
            assert(event_ids(logs)[k] == event_ids(prev_logs)[k]);
        }
        if rows[logs.len() - 1] != 0 {
            assert(cur == prev.push(logs.last()));
            assert(event_ids(logs)[logs.len() - 1] == id);
            assert forall|i: int| 0 <= i < prev.len() implies #[trigger] prev[i].event_id@ != id by {
                assert(event_ids(prev_logs).contains(prev[i].event_id@));
            }
        } else {
            assert(cur == prev);
        }
    }
}

/// Replaying a batch applies each event at most once and none that the
/// store had recorded; replaying the same batch again applies nothing.
/// This holds of every store whose marker inserts report as `marker_rows`
/// says (a table with the event id as its key and inserts that do nothing on
/// a conflict, as `applied_marker_sql` is written).
pub proof fn lemma_replay_applies_once(seen: Set<Seq<char>>, logs: Seq<EventLog>)
    ensures
        forall|i: int| 0 <= i < newly_applied(logs, marker_rows(seen, logs)).len() ==> !seen.contains(
            #[trigger] newly_applied(logs, marker_rows(seen, logs))[i].event_id@,
        ),
        forall|i: int, j: int|
            0 <= i < j < newly_applied(logs, marker_rows(seen, logs)).len() ==> #[trigger] newly_applied(logs, marker_rows(seen, logs))[i].event_id@
                != #[trigger] newly_applied(logs, marker_rows(seen, logs))[j].event_id@,
        newly_applied(logs, marker_rows(seen + event_ids(logs).to_set(), logs)).len() == 0,
{
    lemma_newly_applied_props(seen, logs);
    let all = seen + event_ids(logs).to_set();
    lemma_newly_applied_props(all, logs);
    let again = newly_applied(logs, marker_rows(all, logs));
    if again.len() > 0 {
        let x = again[0].event_id@;
        assert(event_ids(logs).contains(x));
        assert(event_ids(logs).to_set().contains(x));
        assert(all.contains(x));
    }
}

// ---------------------------------------------------------------------------
// Settings
// ---------------------------------------------------------------------------

pub open spec fn get_setting_sql(d: SqlDialect) -> Seq<char> {
    match d {
        SqlDialect::Sqlite => "SELECT value FROM app_settings WHERE key = ?1 LIMIT 1"@,
        SqlDialect::Postgres => "SELECT value FROM app_settings WHERE key = $1 LIMIT 1"@,
    }
}

pub open spec fn set_setting_sql(d: SqlDialect) -> Seq<char> {
    match d {
        SqlDialect::Sqlite => "INSERT INTO app_settings (key, value) VALUES (?1, ?2) ON CONFLICT(key) DO UPDATE SET value = excluded.value"@,
        SqlDialect::Postgres => "INSERT INTO app_settings (key, value) VALUES ($1, $2) ON CONFLICT (key) DO UPDATE SET value = EXCLUDED.value"@,
    }
}

/// The lookup of one setting.
pub fn get_setting_statement(d: SqlDialect, key: &str) -> (r: SqlStatement)
    ensures
        r.sql@ == get_setting_sql(d),
        params_view(r.params@) == seq![Some(key@)],
{
    let p = text_str(key);
    proof {
        lemma_params_view_1(p);
    }
    match d {
        SqlDialect::Sqlite => statement("SELECT value FROM app_settings WHERE key = ?1 LIMIT 1", vec![p]),
        SqlDialect::Postgres => statement("SELECT value FROM app_settings WHERE key = $1 LIMIT 1", vec![p]),
    }
}

/// The write of one setting (inserted, or its value replaced).
pub fn set_setting_statement(d: SqlDialect, key: &str, value: &str) -> (r: SqlStatement)
    ensures
        r.sql@ == set_setting_sql(d),
        params_view(r.params@) == seq![Some(key@), Some(value@)],
{
    let k = text_str(key);
    let v = text_str(value);
    proof {
        lemma_params_view_2(k, v);
    }
    match d {
        SqlDialect::Sqlite => statement("INSERT INTO app_settings (key, value) VALUES (?1, ?2) ON CONFLICT(key) DO UPDATE SET value = excluded.value", vec![k, v]),
        SqlDialect::Postgres => statement("INSERT INTO app_settings (key, value) VALUES ($1, $2) ON CONFLICT (key) DO UPDATE SET value = EXCLUDED.value", vec![k, v]),
    }
}

/// The flag that remembers a push still owed: `"1"` or `"0"` under
/// `event_sync_pending_push`.
pub fn mark_pending_push_statement(d: SqlDialect, pending: bool) -> (r: SqlStatement)
    ensures
        r.sql@ == set_setting_sql(d),
        params_view(r.params@) == seq![Some("event_sync_pending_push"@), Some(if pending { "1"@ } else { "0"@ })],
{
    set_setting_statement(d, "event_sync_pending_push", if pending { "1" } else { "0" })
}

// ---------------------------------------------------------------------------
// Lookups by URL and id
// ---------------------------------------------------------------------------

pub open spec fn resolve_id_sql(d: SqlDialect) -> Seq<char> {
    match d {
        SqlDialect::Sqlite => "SELECT id FROM bookmarks WHERE canonical_url = ?1 LIMIT 1"@,
        SqlDialect::Postgres => "SELECT id FROM bookmarks WHERE canonical_url = $1 LIMIT 1"@,
    }
}

/// The lookup of the bookmark stored under a cleaned URL.
pub fn resolve_bookmark_id_statement(d: SqlDialect, cleaned_url: &str) -> (r: SqlStatement)
    ensures
        r.sql@ == resolve_id_sql(d),
        params_view(r.params@) == seq![Some(cleaned_url@)],
{
    let p = text_str(cleaned_url);
    proof {
        lemma_params_view_1(p);
    }
    match d {
        SqlDialect::Sqlite => statement("SELECT id FROM bookmarks WHERE canonical_url = ?1 LIMIT 1", vec![p]),
        SqlDialect::Postgres => statement("SELECT id FROM bookmarks WHERE canonical_url = $1 LIMIT 1", vec![p]),
    }
}

/// The id a URL resolves to: the stored row's, or the fallback when there is
/// no row (or the lookup failed).
pub fn resolve_bookmark_id_for_url(found: Option<String>, fallback_id: &str) -> (r: String)
    ensures
        r@ == match found {
            Some(id) => id@,
            None => fallback_id@,
        },
{
    match found {
        Some(id) => id,
        None => String::from_str(fallback_id),
    }
}

pub open spec fn metadata_update_sql(d: SqlDialect) -> Seq<char> {
    match d {
        SqlDialect::Sqlite => "UPDATE bookmarks SET title = ?1, favicon_url = ?2, updated_at = CURRENT_TIMESTAMP WHERE canonical_url = ?3"@,
        SqlDialect::Postgres => "UPDATE bookmarks SET title = $1, favicon_url = $2, updated_at = CURRENT_TIMESTAMP WHERE canonical_url = $3"@,
    }
}

/// Writes fetched page metadata onto the bookmark of a canonical URL.
pub fn apply_metadata_statement(d: SqlDialect, canonical_url: &str, meta: &SiteMetadata) -> (r: SqlStatement)
    ensures
        r.sql@ == metadata_update_sql(d),
        params_view(r.params@) == seq![opt_text(meta.title), opt_text(meta.favicon_url), Some(canonical_url@)],
{
    let a = opt_param(&meta.title);
    let b = opt_param(&meta.favicon_url);
    let c = text_str(canonical_url);
    proof {
        lemma_params_view_3(a, b, c);
    }
    match d {
        SqlDialect::Sqlite => statement("UPDATE bookmarks SET title = ?1, favicon_url = ?2, updated_at = CURRENT_TIMESTAMP WHERE canonical_url = ?3", vec![a, b, c]),
        SqlDialect::Postgres => statement("UPDATE bookmarks SET title = $1, favicon_url = $2, updated_at = CURRENT_TIMESTAMP WHERE canonical_url = $3", vec![a, b, c]),
    }
}

pub open spec fn bookmark_deleted_flag_sql(d: SqlDialect) -> Seq<char> {
    match d {
        SqlDialect::Sqlite => "SELECT is_deleted FROM bookmarks WHERE canonical_url = ?1 LIMIT 1"@,
        SqlDialect::Postgres => "SELECT is_deleted FROM bookmarks WHERE canonical_url = $1 LIMIT 1"@,
    }
}

pub open spec fn folder_deleted_flag_sql(d: SqlDialect) -> Seq<char> {
    match d {
        SqlDialect::Sqlite => "SELECT is_deleted FROM folders WHERE id = ?1 LIMIT 1"@,
        SqlDialect::Postgres => "SELECT is_deleted FROM folders WHERE id = $1 LIMIT 1"@,
    }
}

/// The lookup of the deletion flag of the bookmark under a canonical URL.
pub fn bookmark_deleted_flag_statement(d: SqlDialect, canonical_url: &str) -> (r: SqlStatement)
    ensures
        r.sql@ == bookmark_deleted_flag_sql(d),
        params_view(r.params@) == seq![Some(canonical_url@)],
{
    let p = text_str(canonical_url);
    proof {
        lemma_params_view_1(p);
    }
    match d {
        SqlDialect::Sqlite => statement("SELECT is_deleted FROM bookmarks WHERE canonical_url = ?1 LIMIT 1", vec![p]),
        SqlDialect::Postgres => statement("SELECT is_deleted FROM bookmarks WHERE canonical_url = $1 LIMIT 1", vec![p]),
    }
}

/// The lookup of the deletion flag of a folder.
pub fn folder_deleted_flag_statement(d: SqlDialect, folder_id: &str) -> (r: SqlStatement)
    ensures
        r.sql@ == folder_deleted_flag_sql(d),
        params_view(r.params@) == seq![Some(folder_id@)],
{
    let p = text_str(folder_id);
    proof {
        lemma_params_view_1(p);
    }
    match d {
        SqlDialect::Sqlite => statement("SELECT is_deleted FROM folders WHERE id = ?1 LIMIT 1", vec![p]),
        SqlDialect::Postgres => statement("SELECT is_deleted FROM folders WHERE id = $1 LIMIT 1", vec![p]),
    }
}

/// A SQLite deletion flag read back: logically deleted only when the row
/// exists with flag 1 (no row, or a failed read, counts as not deleted).
pub fn is_logically_deleted(flag: Option<i64>) -> (r: bool)
    ensures
        r == (flag == Some(1i64)),
{
    match flag {
        Some(v) => v == 1,
        None => false,
    }
}

// ---------------------------------------------------------------------------
// Schema
// ---------------------------------------------------------------------------

/// The SQLite schema: the tables, the full-text index over title, URL and
/// host, and the triggers that keep that index in step.
pub open spec fn sqlite_schema() -> Seq<char> {
    "CREATE TABLE IF NOT EXISTS event_cursors (id INTEGER PRIMARY KEY, last_event_id TEXT NOT NULL, updated_at DATETIME DEFAULT CURRENT_TIMESTAMP);
CREATE TABLE IF NOT EXISTS bookmarks (id TEXT PRIMARY KEY, url TEXT NOT NULL, canonical_url TEXT UNIQUE NOT NULL, title TEXT, description TEXT, favicon_url TEXT, host TEXT, created_at DATETIME DEFAULT CURRENT_TIMESTAMP, updated_at DATETIME DEFAULT CURRENT_TIMESTAMP, is_deleted BOOLEAN DEFAULT 0);
CREATE TABLE IF NOT EXISTS tags (id TEXT PRIMARY KEY, name TEXT UNIQUE NOT NULL, created_at DATETIME DEFAULT CURRENT_TIMESTAMP);
CREATE TABLE IF NOT EXISTS bookmark_tags (bookmark_id TEXT NOT NULL, tag_id TEXT NOT NULL, PRIMARY KEY (bookmark_id, tag_id), FOREIGN KEY (bookmark_id) REFERENCES bookmarks(id) ON DELETE CASCADE, FOREIGN KEY (tag_id) REFERENCES tags(id) ON DELETE CASCADE);
CREATE TABLE IF NOT EXISTS folders (id TEXT PRIMARY KEY, parent_id TEXT, name TEXT NOT NULL, is_deleted BOOLEAN DEFAULT 0, created_at DATETIME DEFAULT CURRENT_TIMESTAMP, FOREIGN KEY (parent_id) REFERENCES folders(id) ON DELETE CASCADE);
CREATE TABLE IF NOT EXISTS folder_bookmarks (folder_id TEXT NOT NULL, bookmark_id TEXT NOT NULL, PRIMARY KEY (folder_id, bookmark_id), FOREIGN KEY (folder_id) REFERENCES folders(id) ON DELETE CASCADE, FOREIGN KEY (bookmark_id) REFERENCES bookmarks(id) ON DELETE CASCADE);
CREATE TABLE IF NOT EXISTS app_settings (key TEXT PRIMARY KEY, value TEXT NOT NULL);
CREATE TABLE IF NOT EXISTS applied_event_ids (event_id TEXT PRIMARY KEY);
CREATE VIRTUAL TABLE IF NOT EXISTS bookmarks_fts USING fts5(title, url, host, content='bookmarks', content_rowid='rowid');
DROP TRIGGER IF EXISTS bookmarks_ai;
CREATE TRIGGER bookmarks_ai AFTER INSERT ON bookmarks BEGIN INSERT INTO bookmarks_fts(rowid, title, url, host) VALUES (new.rowid, new.title, new.url, new.host); END;
DROP TRIGGER IF EXISTS bookmarks_ad;
CREATE TRIGGER bookmarks_ad AFTER DELETE ON bookmarks BEGIN INSERT INTO bookmarks_fts(bookmarks_fts, rowid, title, url, host) VALUES ('delete', old.rowid, old.title, old.url, old.host); END;
DROP TRIGGER IF EXISTS bookmarks_au;
CREATE TRIGGER bookmarks_au AFTER UPDATE ON bookmarks BEGIN INSERT INTO bookmarks_fts(bookmarks_fts, rowid, title, url, host) VALUES ('delete', old.rowid, old.title, old.url, old.host); INSERT INTO bookmarks_fts(rowid, title, url, host) VALUES (new.rowid, new.title, new.url, new.host); END;
"@
}

/// The PostgreSQL schema: the same tables without the full-text index.
pub open spec fn postgres_schema() -> Seq<char> {
    "CREATE TABLE IF NOT EXISTS event_cursors (id INTEGER PRIMARY KEY, last_event_id TEXT NOT NULL, updated_at TIMESTAMP DEFAULT CURRENT_TIMESTAMP);
CREATE TABLE IF NOT EXISTS bookmarks (id TEXT PRIMARY KEY, url TEXT NOT NULL, canonical_url TEXT UNIQUE NOT NULL, title TEXT, description TEXT, favicon_url TEXT, host TEXT, created_at TIMESTAMP DEFAULT CURRENT_TIMESTAMP, updated_at TIMESTAMP DEFAULT CURRENT_TIMESTAMP, is_deleted BOOLEAN DEFAULT FALSE);
CREATE TABLE IF NOT EXISTS tags (id TEXT PRIMARY KEY, name TEXT UNIQUE NOT NULL, created_at TIMESTAMP DEFAULT CURRENT_TIMESTAMP);
CREATE TABLE IF NOT EXISTS bookmark_tags (bookmark_id TEXT NOT NULL, tag_id TEXT NOT NULL, PRIMARY KEY (bookmark_id, tag_id));
CREATE TABLE IF NOT EXISTS folders (id TEXT PRIMARY KEY, parent_id TEXT, name TEXT NOT NULL, is_deleted BOOLEAN DEFAULT FALSE, created_at TIMESTAMP DEFAULT CURRENT_TIMESTAMP);
CREATE TABLE IF NOT EXISTS folder_bookmarks (folder_id TEXT NOT NULL, bookmark_id TEXT NOT NULL, PRIMARY KEY (folder_id, bookmark_id));
CREATE TABLE IF NOT EXISTS app_settings (key TEXT PRIMARY KEY, value TEXT NOT NULL);
CREATE TABLE IF NOT EXISTS applied_event_ids (event_id TEXT PRIMARY KEY);
"@
}

pub open spec fn schema_sql(d: SqlDialect) -> Seq<char> {
    match d {
        SqlDialect::Sqlite => sqlite_schema(),
        SqlDialect::Postgres => postgres_schema(),
    }
}

/// The batch that creates the schema of a store (run on every start; every
/// statement leaves an existing schema as it is).
pub fn create_tables(d: SqlDialect) -> (r: String)
    ensures
        r@ == schema_sql(d),
{
    match d {
        SqlDialect::Sqlite => String::from_str("CREATE TABLE IF NOT EXISTS event_cursors (id INTEGER PRIMARY KEY, last_event_id TEXT NOT NULL, updated_at DATETIME DEFAULT CURRENT_TIMESTAMP);
CREATE TABLE IF NOT EXISTS bookmarks (id TEXT PRIMARY KEY, url TEXT NOT NULL, canonical_url TEXT UNIQUE NOT NULL, title TEXT, description TEXT, favicon_url TEXT, host TEXT, created_at DATETIME DEFAULT CURRENT_TIMESTAMP, updated_at DATETIME DEFAULT CURRENT_TIMESTAMP, is_deleted BOOLEAN DEFAULT 0);
CREATE TABLE IF NOT EXISTS tags (id TEXT PRIMARY KEY, name TEXT UNIQUE NOT NULL, created_at DATETIME DEFAULT CURRENT_TIMESTAMP);
CREATE TABLE IF NOT EXISTS bookmark_tags (bookmark_id TEXT NOT NULL, tag_id TEXT NOT NULL, PRIMARY KEY (bookmark_id, tag_id), FOREIGN KEY (bookmark_id) REFERENCES bookmarks(id) ON DELETE CASCADE, FOREIGN KEY (tag_id) REFERENCES tags(id) ON DELETE CASCADE);
CREATE TABLE IF NOT EXISTS folders (id TEXT PRIMARY KEY, parent_id TEXT, name TEXT NOT NULL, is_deleted BOOLEAN DEFAULT 0, created_at DATETIME DEFAULT CURRENT_TIMESTAMP, FOREIGN KEY (parent_id) REFERENCES folders(id) ON DELETE CASCADE);
CREATE TABLE IF NOT EXISTS folder_bookmarks (folder_id TEXT NOT NULL, bookmark_id TEXT NOT NULL, PRIMARY KEY (folder_id, bookmark_id), FOREIGN KEY (folder_id) REFERENCES folders(id) ON DELETE CASCADE, FOREIGN KEY (bookmark_id) REFERENCES bookmarks(id) ON DELETE CASCADE);
CREATE TABLE IF NOT EXISTS app_settings (key TEXT PRIMARY KEY, value TEXT NOT NULL);
CREATE TABLE IF NOT EXISTS applied_event_ids (event_id TEXT PRIMARY KEY);
CREATE VIRTUAL TABLE IF NOT EXISTS bookmarks_fts USING fts5(title, url, host, content='bookmarks', content_rowid='rowid');
DROP TRIGGER IF EXISTS bookmarks_ai;
CREATE TRIGGER bookmarks_ai AFTER INSERT ON bookmarks BEGIN INSERT INTO bookmarks_fts(rowid, title, url, host) VALUES (new.rowid, new.title, new.url, new.host); END;
DROP TRIGGER IF EXISTS bookmarks_ad;
CREATE TRIGGER bookmarks_ad AFTER DELETE ON bookmarks BEGIN INSERT INTO bookmarks_fts(bookmarks_fts, rowid, title, url, host) VALUES ('delete', old.rowid, old.title, old.url, old.host); END;
DROP TRIGGER IF EXISTS bookmarks_au;
CREATE TRIGGER bookmarks_au AFTER UPDATE ON bookmarks BEGIN INSERT INTO bookmarks_fts(bookmarks_fts, rowid, title, url, host) VALUES ('delete', old.rowid, old.title, old.url, old.host); INSERT INTO bookmarks_fts(rowid, title, url, host) VALUES (new.rowid, new.title, new.url, new.host); END;
"),
        SqlDialect::Postgres => String::from_str("CREATE TABLE IF NOT EXISTS event_cursors (id INTEGER PRIMARY KEY, last_event_id TEXT NOT NULL, updated_at TIMESTAMP DEFAULT CURRENT_TIMESTAMP);
CREATE TABLE IF NOT EXISTS bookmarks (id TEXT PRIMARY KEY, url TEXT NOT NULL, canonical_url TEXT UNIQUE NOT NULL, title TEXT, description TEXT, favicon_url TEXT, host TEXT, created_at TIMESTAMP DEFAULT CURRENT_TIMESTAMP, updated_at TIMESTAMP DEFAULT CURRENT_TIMESTAMP, is_deleted BOOLEAN DEFAULT FALSE);
CREATE TABLE IF NOT EXISTS tags (id TEXT PRIMARY KEY, name TEXT UNIQUE NOT NULL, created_at TIMESTAMP DEFAULT CURRENT_TIMESTAMP);
CREATE TABLE IF NOT EXISTS bookmark_tags (bookmark_id TEXT NOT NULL, tag_id TEXT NOT NULL, PRIMARY KEY (bookmark_id, tag_id));
CREATE TABLE IF NOT EXISTS folders (id TEXT PRIMARY KEY, parent_id TEXT, name TEXT NOT NULL, is_deleted BOOLEAN DEFAULT FALSE, created_at TIMESTAMP DEFAULT CURRENT_TIMESTAMP);
CREATE TABLE IF NOT EXISTS folder_bookmarks (folder_id TEXT NOT NULL, bookmark_id TEXT NOT NULL, PRIMARY KEY (folder_id, bookmark_id));
CREATE TABLE IF NOT EXISTS app_settings (key TEXT PRIMARY KEY, value TEXT NOT NULL);
CREATE TABLE IF NOT EXISTS applied_event_ids (event_id TEXT PRIMARY KEY);
"),
    }
}

/// Databases made before folders could be deleted lack the `is_deleted`
/// column: it is added when `PRAGMA table_info(folders)` does not list it.
pub fn folders_need_is_deleted_column(column_names: &Vec<String>) -> (r: bool)
    ensures
        r == !views(column_names@).contains("is_deleted"@),
{
    !contains_str(column_names, "is_deleted")
}

/// The statement that adds the missing column.
pub fn add_folders_is_deleted_column_sql() -> (r: String)
    ensures
        r@ == "ALTER TABLE folders ADD COLUMN is_deleted BOOLEAN DEFAULT 0"@,
{
    String::from_str("ALTER TABLE folders ADD COLUMN is_deleted BOOLEAN DEFAULT 0")
}


// ---------------------------------------------------------------------------
// The first version of the local store
// ---------------------------------------------------------------------------

pub open spec fn legacy_upsert_sql() -> Seq<char> {
    "INSERT INTO bookmarks (id, url, canonical_url, title, description, favicon_url, host, created_at, updated_at) VALUES (?1, ?2, ?3, ?4, ?5, ?6, ?7, ?8, ?8) ON CONFLICT(canonical_url) DO UPDATE SET url = excluded.url, title = excluded.title, description = excluded.description, favicon_url = excluded.favicon_url, host = excluded.host, updated_at = excluded.updated_at, is_deleted = 0"@
}

/// How the first version of the store applied an event: an added or
/// updated bookmark is written whole under its URL, a deleted one is marked;
/// other events changed nothing.
pub open spec fn legacy_event_spec(ev: SyncEvent) -> Option<(Seq<char>, Seq<Option<Seq<char>>>)> {
    match ev {
        SyncEvent::BookmarkAdded(b) => Some((legacy_upsert_sql(), legacy_payload_params(b))),
        SyncEvent::BookmarkUpdated(b) => Some((legacy_upsert_sql(), legacy_payload_params(b))),
        SyncEvent::BookmarkDeleted { id } => Some(("UPDATE bookmarks SET is_deleted = 1, updated_at = CURRENT_TIMESTAMP WHERE id = ?1"@, seq![Some(id@)])),
        _ => None,
    }
}

pub open spec fn legacy_payload_params(b: BookmarkPayload) -> Seq<Option<Seq<char>>> {
    seq![
        Some(b.id@), Some(b.url@), Some(b.url@), opt_text(b.title), opt_text(b.description),
        opt_text(b.favicon_url), opt_text(b.host), Some(b.created_at@)
    ]
}

fn legacy_upsert(b: &BookmarkPayload) -> (r: SqlStatement)
    ensures
        r.sql@ == legacy_upsert_sql(),
        params_view(r.params@) == legacy_payload_params(*b),
{
    let mut v: Vec<SqlParam> = Vec::new();
    v.push(text(&b.id));
    v.push(text(&b.url));
    v.push(text(&b.url));
    v.push(opt_param(&b.title));
    v.push(opt_param(&b.description));
    v.push(opt_param(&b.favicon_url));
    v.push(opt_param(&b.host));
    v.push(text(&b.created_at));
    assert(params_view(v@) =~= legacy_payload_params(*b));
    statement("INSERT INTO bookmarks (id, url, canonical_url, title, description, favicon_url, host, created_at, updated_at) VALUES (?1, ?2, ?3, ?4, ?5, ?6, ?7, ?8, ?8) ON CONFLICT(canonical_url) DO UPDATE SET url = excluded.url, title = excluded.title, description = excluded.description, favicon_url = excluded.favicon_url, host = excluded.host, updated_at = excluded.updated_at, is_deleted = 0", v)
}

/// The statement the first version of the store ran for an event.
pub fn legacy_event_statement(ev: &SyncEvent) -> (r: Option<SqlStatement>)
    ensures
        match r {
            Some(s) => legacy_event_spec(*ev) == Some((s.sql@, params_view(s.params@))),
            None => legacy_event_spec(*ev) is None,
        },
{
    match ev {
        SyncEvent::BookmarkAdded(b) => Some(legacy_upsert(b)),
        SyncEvent::BookmarkUpdated(b) => Some(legacy_upsert(b)),
        SyncEvent::BookmarkDeleted { id } => Some(statement("UPDATE bookmarks SET is_deleted = 1, updated_at = CURRENT_TIMESTAMP WHERE id = ?1", one(id))),
        _ => None,
    }
}

/// The first version's metadata write: the fetched title (else a stand-in
/// naming the host) and icon (else empty) on the bookmark of the given id.
pub open spec fn legacy_metadata_params(id: Seq<char>, host: Seq<char>, title: Option<Seq<char>>, icon: Option<Seq<char>>) -> Seq<Option<Seq<char>>> {
    seq![
        Some(match title {
            Some(t) => t,
            None => "Mock Title for "@ + host,
        }),
        Some(match icon {
            Some(f) => f,
            None => Seq::empty(),
        }),
        Some(id),
    ]
}

pub fn legacy_metadata_statement(id: &str, host: &str, meta: &SiteMetadata) -> (r: SqlStatement)
    ensures
        r.sql@ == "UPDATE bookmarks SET title = ?1, favicon_url = ?2 WHERE id = ?3"@,
        params_view(r.params@) == legacy_metadata_params(id@, host@, opt_text(meta.title), opt_text(meta.favicon_url)),
{
    let title = match &meta.title {
        Some(t) => t.clone(),
        None => {
            let mut s = String::from_str("Mock Title for ");
            s.append(host);
            s
        },
    };
    let icon = match &meta.favicon_url {
        Some(f) => f.clone(),
        None => String::new(),
    };
    let a = text(&title);
    let b = text(&icon);
    let c = text_str(id);
    proof {
        lemma_params_view_3(a, b, c);
    }
    statement("UPDATE bookmarks SET title = ?1, favicon_url = ?2 WHERE id = ?3", vec![a, b, c])
}


/// The schema of the first version: URLs unique, no deletion flag on
/// folders, and a full-text index that also covers descriptions.
pub open spec fn legacy_schema() -> Seq<char> {
    "CREATE TABLE IF NOT EXISTS event_cursors (id INTEGER PRIMARY KEY, last_event_id TEXT NOT NULL, updated_at DATETIME DEFAULT CURRENT_TIMESTAMP);
CREATE TABLE IF NOT EXISTS bookmarks (id TEXT PRIMARY KEY, url TEXT UNIQUE NOT NULL, canonical_url TEXT UNIQUE NOT NULL, title TEXT, description TEXT, favicon_url TEXT, host TEXT, created_at DATETIME DEFAULT CURRENT_TIMESTAMP, updated_at DATETIME DEFAULT CURRENT_TIMESTAMP, is_deleted BOOLEAN DEFAULT 0);
CREATE TABLE IF NOT EXISTS tags (id TEXT PRIMARY KEY, name TEXT UNIQUE NOT NULL, created_at DATETIME DEFAULT CURRENT_TIMESTAMP);
CREATE TABLE IF NOT EXISTS bookmark_tags (bookmark_id TEXT NOT NULL, tag_id TEXT NOT NULL, PRIMARY KEY (bookmark_id, tag_id), FOREIGN KEY (bookmark_id) REFERENCES bookmarks(id) ON DELETE CASCADE, FOREIGN KEY (tag_id) REFERENCES tags(id) ON DELETE CASCADE);
CREATE TABLE IF NOT EXISTS folders (id TEXT PRIMARY KEY, parent_id TEXT, name TEXT NOT NULL, created_at DATETIME DEFAULT CURRENT_TIMESTAMP, FOREIGN KEY (parent_id) REFERENCES folders(id) ON DELETE CASCADE);
CREATE TABLE IF NOT EXISTS folder_bookmarks (folder_id TEXT NOT NULL, bookmark_id TEXT NOT NULL, PRIMARY KEY (folder_id, bookmark_id), FOREIGN KEY (folder_id) REFERENCES folders(id) ON DELETE CASCADE, FOREIGN KEY (bookmark_id) REFERENCES bookmarks(id) ON DELETE CASCADE);
CREATE VIRTUAL TABLE IF NOT EXISTS bookmarks_fts USING fts5(id UNINDEXED, title, description, url, host, content='bookmarks', content_rowid='rowid');
CREATE TRIGGER IF NOT EXISTS bookmarks_ai AFTER INSERT ON bookmarks BEGIN INSERT INTO bookmarks_fts(rowid, id, title, description, url, host) VALUES (new.rowid, new.id, new.title, new.description, new.url, new.host); END;
CREATE TRIGGER IF NOT EXISTS bookmarks_ad AFTER DELETE ON bookmarks BEGIN INSERT INTO bookmarks_fts(bookmarks_fts, rowid, id, title, description, url, host) VALUES ('delete', old.rowid, old.id, old.title, old.description, old.url, old.host); END;
CREATE TRIGGER IF NOT EXISTS bookmarks_au AFTER UPDATE ON bookmarks BEGIN INSERT INTO bookmarks_fts(bookmarks_fts, rowid, id, title, description, url, host) VALUES ('delete', old.rowid, old.id, old.title, old.description, old.url, old.host); INSERT INTO bookmarks_fts(rowid, id, title, description, url, host) VALUES (new.rowid, new.id, new.title, new.description, new.url, new.host); END;
"@
}

pub fn create_legacy_tables() -> (r: String)
    ensures
        r@ == legacy_schema(),
{
    String::from_str("CREATE TABLE IF NOT EXISTS event_cursors (id INTEGER PRIMARY KEY, last_event_id TEXT NOT NULL, updated_at DATETIME DEFAULT CURRENT_TIMESTAMP);
CREATE TABLE IF NOT EXISTS bookmarks (id TEXT PRIMARY KEY, url TEXT UNIQUE NOT NULL, canonical_url TEXT UNIQUE NOT NULL, title TEXT, description TEXT, favicon_url TEXT, host TEXT, created_at DATETIME DEFAULT CURRENT_TIMESTAMP, updated_at DATETIME DEFAULT CURRENT_TIMESTAMP, is_deleted BOOLEAN DEFAULT 0);
CREATE TABLE IF NOT EXISTS tags (id TEXT PRIMARY KEY, name TEXT UNIQUE NOT NULL, created_at DATETIME DEFAULT CURRENT_TIMESTAMP);
CREATE TABLE IF NOT EXISTS bookmark_tags (bookmark_id TEXT NOT NULL, tag_id TEXT NOT NULL, PRIMARY KEY (bookmark_id, tag_id), FOREIGN KEY (bookmark_id) REFERENCES bookmarks(id) ON DELETE CASCADE, FOREIGN KEY (tag_id) REFERENCES tags(id) ON DELETE CASCADE);
CREATE TABLE IF NOT EXISTS folders (id TEXT PRIMARY KEY, parent_id TEXT, name TEXT NOT NULL, created_at DATETIME DEFAULT CURRENT_TIMESTAMP, FOREIGN KEY (parent_id) REFERENCES folders(id) ON DELETE CASCADE);
CREATE TABLE IF NOT EXISTS folder_bookmarks (folder_id TEXT NOT NULL, bookmark_id TEXT NOT NULL, PRIMARY KEY (folder_id, bookmark_id), FOREIGN KEY (folder_id) REFERENCES folders(id) ON DELETE CASCADE, FOREIGN KEY (bookmark_id) REFERENCES bookmarks(id) ON DELETE CASCADE);
CREATE VIRTUAL TABLE IF NOT EXISTS bookmarks_fts USING fts5(id UNINDEXED, title, description, url, host, content='bookmarks', content_rowid='rowid');
CREATE TRIGGER IF NOT EXISTS bookmarks_ai AFTER INSERT ON bookmarks BEGIN INSERT INTO bookmarks_fts(rowid, id, title, description, url, host) VALUES (new.rowid, new.id, new.title, new.description, new.url, new.host); END;
CREATE TRIGGER IF NOT EXISTS bookmarks_ad AFTER DELETE ON bookmarks BEGIN INSERT INTO bookmarks_fts(bookmarks_fts, rowid, id, title, description, url, host) VALUES ('delete', old.rowid, old.id, old.title, old.description, old.url, old.host); END;
CREATE TRIGGER IF NOT EXISTS bookmarks_au AFTER UPDATE ON bookmarks BEGIN INSERT INTO bookmarks_fts(bookmarks_fts, rowid, id, title, description, url, host) VALUES ('delete', old.rowid, old.id, old.title, old.description, old.url, old.host); INSERT INTO bookmarks_fts(rowid, id, title, description, url, host) VALUES (new.rowid, new.id, new.title, new.description, new.url, new.host); END;
")
}

/// The first version's listing of live bookmarks, newest first.
pub fn legacy_list_sql() -> (r: String)
    ensures
        r@ == "SELECT id, url, title, description, favicon_url, host, created_at FROM bookmarks WHERE is_deleted = 0 ORDER BY created_at DESC"@,
{
    String::from_str("SELECT id, url, title, description, favicon_url, host, created_at FROM bookmarks WHERE is_deleted = 0 ORDER BY created_at DESC")
}

/// The first version's full-text search, best matches first; the query is
/// bound to `?1`.
pub fn legacy_search_sql() -> (r: String)
    ensures
        r@ == "SELECT b.id, b.url, b.title, b.description, b.favicon_url, b.host, b.created_at FROM bookmarks b JOIN bookmarks_fts fts ON b.rowid = fts.rowid WHERE bookmarks_fts MATCH ?1 AND b.is_deleted = 0 ORDER BY fts.rank"@,
{
    String::from_str("SELECT b.id, b.url, b.title, b.description, b.favicon_url, b.host, b.created_at FROM bookmarks b JOIN bookmarks_fts fts ON b.rowid = fts.rowid WHERE bookmarks_fts MATCH ?1 AND b.is_deleted = 0 ORDER BY fts.rank")
}

} // verus!
