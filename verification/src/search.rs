//! Search: how a query is cut into tokens, and the SQL that finds bookmarks
//! matching every token (by title, host or tag name, never by URL path).

use vstd::prelude::*;
use crate::models::BookmarkPayload;
use crate::text::{chars_of, decimal, join_strings, join_with, spec_to_lowercase, split_chars_on, split_on, split_whitespace_chars, string_from_chars, to_lowercase, u64_to_decimal, views, words, contains_str};

verus! {

/// The SQL dialect of a store.
#[derive(Debug, Clone, Copy, PartialEq, Eq)]
pub enum SqlDialect {
    Sqlite,
    Postgres,
}

// ---------------------------------------------------------------------------
// Tokens
// ---------------------------------------------------------------------------

/// Adds a token unless it is empty or already present.
pub open spec fn add_token(acc: Seq<Seq<char>>, t: Seq<char>) -> Seq<Seq<char>> {
    if t.len() > 0 && !acc.contains(t) {
        acc.push(t)
    } else {
        acc
    }
}

/// The lower-cased words, empty ones dropped, each kept at its first
/// occurrence only.
pub open spec fn tokens_of_words(ws: Seq<Seq<char>>) -> Seq<Seq<char>>
    decreases ws.len(),
{
    if ws.len() == 0 {
        Seq::empty()
    } else {
        add_token(tokens_of_words(ws.drop_last()), spec_to_lowercase(ws.last()))
    }
}

/// The tokens of a search query.
pub open spec fn search_tokens(query: Seq<char>) -> Seq<Seq<char>> {
    tokens_of_words(words(query))
}

/// Splits a query on whitespace, lower-cases each word, and keeps each
/// distinct non-empty token once, in order of first occurrence.
pub fn tokenize_search_query(query: &str) -> (r: Vec<String>)
    ensures
        views(r@) == search_tokens(query@),
{
    let qv = chars_of(query);
    let ws = split_whitespace_chars(&qv);
    let ghost wsv = ws@.map_values(|w: Vec<char>| w@);
    let mut out: Vec<String> = Vec::new();
    let mut i: usize = 0;
    while i < ws.len()
        invariant
            i <= ws.len(),
            wsv == ws@.map_values(|w: Vec<char>| w@),
            wsv == words(query@),
            views(out@) == tokens_of_words(wsv.take(i as int)),
        decreases ws.len() - i,
    {
        let w = string_from_chars(&ws[i]);
        let t = to_lowercase(w.as_str());
        proof {
            let p = wsv.take(i + 1);
            assert(p.drop_last() == wsv.take(i as int));
            assert(p.last() == ws@[i as int]@);
        }
        if !t.as_str().is_empty() && !contains_str(&out, t.as_str()) {
            let ghost before = out@;
            out.push(t);
            assert(views(out@) == views(before).push(t@));
        }
        i = i + 1;
    }
    assert(wsv.take(ws.len() as int) == wsv);
    out
}

/// No token is empty and no token occurs twice.
pub proof fn lemma_search_tokens_distinct_nonempty(query: Seq<char>)
    ensures
        forall|i: int| 0 <= i < search_tokens(query).len() ==> #[trigger] search_tokens(query)[i].len() > 0,
        forall|i: int, j: int|
            0 <= i < j < search_tokens(query).len() ==> #[trigger] search_tokens(query)[i] != #[trigger] search_tokens(query)[j],
{
    lemma_tokens_of_words_distinct_nonempty(words(query));
}

proof fn lemma_tokens_of_words_distinct_nonempty(ws: Seq<Seq<char>>)
    ensures
        forall|i: int| 0 <= i < tokens_of_words(ws).len() ==> #[trigger] tokens_of_words(ws)[i].len() > 0,
        forall|i: int, j: int|
            0 <= i < j < tokens_of_words(ws).len() ==> #[trigger] tokens_of_words(ws)[i] != #[trigger] tokens_of_words(ws)[j],
    decreases ws.len(),
{
    if ws.len() > 0 {
        lemma_tokens_of_words_distinct_nonempty(ws.drop_last());
        let acc = tokens_of_words(ws.drop_last());
        let t = spec_to_lowercase(ws.last());
        if t.len() > 0 && !acc.contains(t) {
            let r = acc.push(t);
            assert forall|i: int, j: int| 0 <= i < j < r.len() implies #[trigger] r[i] != #[trigger] r[j] by {
                if j == r.len() - 1 {
                    assert(acc[i] == r[i]);
                    if r[i] == r[j] {
                        assert(acc.contains(t));
                    }
                }
            }
        }
    }
}

/// Every word of the query, lower-cased and non-empty, is one of its tokens.
pub proof fn lemma_search_tokens_cover_words(query: Seq<char>, k: int)
    requires
        0 <= k < words(query).len(),
        spec_to_lowercase(words(query)[k]).len() > 0,
    ensures
        search_tokens(query).contains(spec_to_lowercase(words(query)[k])),
{
    lemma_tokens_cover(words(query), k);
}

proof fn lemma_tokens_cover(ws: Seq<Seq<char>>, k: int)
    requires
        0 <= k < ws.len(),
        spec_to_lowercase(ws[k]).len() > 0,
    ensures
        tokens_of_words(ws).contains(spec_to_lowercase(ws[k])),
    decreases ws.len(),
{
    let acc = tokens_of_words(ws.drop_last());
    let t = spec_to_lowercase(ws.last());
    if k < ws.len() - 1 {
        assert(ws.drop_last()[k] == ws[k]);
        lemma_tokens_cover(ws.drop_last(), k);
        let u = spec_to_lowercase(ws[k]);
        let i = choose|i: int| 0 <= i < acc.len() && acc[i] == u;
        if t.len() > 0 && !acc.contains(t) {
            assert(acc.push(t)[i] == u);
        }
    } else {
        if !acc.contains(t) {
            assert(acc.push(t)[acc.len() as int] == t);
        }
    }
}

// ---------------------------------------------------------------------------
// SQL
// ---------------------------------------------------------------------------

/// The SELECT that lists bookmarks with their comma-separated tag names.
pub open spec fn select_sql(d: SqlDialect) -> Seq<char> {
    match d {
        SqlDialect::Sqlite => "\n    SELECT b.id, b.url, b.title, b.description, b.favicon_url, b.host, b.created_at,\n    (SELECT GROUP_CONCAT(t.name) FROM tags t JOIN bookmark_tags bt ON t.id = bt.tag_id WHERE bt.bookmark_id = b.id) as tag_list\n    FROM bookmarks b\n"@,
        SqlDialect::Postgres => "\n    SELECT b.id, b.url, b.title, b.description, b.favicon_url, b.host, b.created_at,\n    (SELECT STRING_AGG(t.name, ',') FROM tags t JOIN bookmark_tags bt ON t.id = bt.tag_id WHERE bt.bookmark_id = b.id) as tag_list\n    FROM bookmarks b\n    "@,
    }
}

/// The bookmark SELECT of a dialect.
pub fn bookmark_select_sql_for(d: SqlDialect) -> (r: String)
    ensures
        r@ == select_sql(d),
{
    match d {
        SqlDialect::Sqlite => String::from_str("\n    SELECT b.id, b.url, b.title, b.description, b.favicon_url, b.host, b.created_at,\n    (SELECT GROUP_CONCAT(t.name) FROM tags t JOIN bookmark_tags bt ON t.id = bt.tag_id WHERE bt.bookmark_id = b.id) as tag_list\n    FROM bookmarks b\n"),
        SqlDialect::Postgres => String::from_str("\n    SELECT b.id, b.url, b.title, b.description, b.favicon_url, b.host, b.created_at,\n    (SELECT STRING_AGG(t.name, ',') FROM tags t JOIN bookmark_tags bt ON t.id = bt.tag_id WHERE bt.bookmark_id = b.id) as tag_list\n    FROM bookmarks b\n    "),
    }
}

/// The PostgreSQL bookmark SELECT (tags gathered with `STRING_AGG`).
pub fn bookmark_select_sql() -> (r: String)
    ensures
        r@ == select_sql(SqlDialect::Postgres),
{
    bookmark_select_sql_for(SqlDialect::Postgres)
}

/// The condition one search token adds, bound to parameter `param_index + 1`:
/// the title, the host or a tag name must contain it.
pub open spec fn search_clause(d: SqlDialect, param_index: nat) -> Seq<char> {
    let p = decimal(param_index + 1);
    match d {
        SqlDialect::Sqlite => "(b.title LIKE ?"@ + p + " OR b.host LIKE ?"@ + p
            + " OR EXISTS (SELECT 1 FROM tags t JOIN bookmark_tags bt ON t.id = bt.tag_id WHERE bt.bookmark_id = b.id AND t.name LIKE ?"@
            + p + "))"@,
        SqlDialect::Postgres => "(b.title ILIKE $"@ + p + " OR b.host ILIKE $"@ + p
            + " OR EXISTS (SELECT 1 FROM tags t JOIN bookmark_tags bt ON t.id = bt.tag_id WHERE bt.bookmark_id = b.id AND t.name ILIKE $"@
            + p + "))"@,
    }
}

/// The test that column `column` contains the token bound to the `k`-th
/// value: case-insensitive `LIKE ?k` in SQLite, `ILIKE $k` in PostgreSQL.
pub open spec fn contains_test(d: SqlDialect, column: Seq<char>, k: nat) -> Seq<char> {
    column + match d {
        SqlDialect::Sqlite => " LIKE ?"@,
        SqlDialect::Postgres => " ILIKE $"@,
    } + decimal(k)
}

/// A search token matches a bookmark by exactly three things, in both
/// dialects: its title (`b.title`), its host (`b.host`), or the name of a
/// tag it carries (`t.name` of a tag linked through `bookmark_tags`); its
/// URL is never searched.
pub proof fn lemma_search_clause_columns(d: SqlDialect, param_index: nat)
    ensures
        search_clause(d, param_index) == "("@ + contains_test(d, "b.title"@, param_index + 1) + " OR "@
            + contains_test(d, "b.host"@, param_index + 1)
            + " OR EXISTS (SELECT 1 FROM tags t JOIN bookmark_tags bt ON t.id = bt.tag_id WHERE bt.bookmark_id = b.id AND "@
            + contains_test(d, "t.name"@, param_index + 1) + "))"@,
{
    reveal_strlit("(b.title LIKE ?");
    reveal_strlit(" OR b.host LIKE ?");
    reveal_strlit(" OR EXISTS (SELECT 1 FROM tags t JOIN bookmark_tags bt ON t.id = bt.tag_id WHERE bt.bookmark_id = b.id AND t.name LIKE ?");
    reveal_strlit("(b.title ILIKE $");
    reveal_strlit(" OR b.host ILIKE $");
    reveal_strlit(" OR EXISTS (SELECT 1 FROM tags t JOIN bookmark_tags bt ON t.id = bt.tag_id WHERE bt.bookmark_id = b.id AND t.name ILIKE $");
    reveal_strlit("))");
    reveal_strlit("(");
    reveal_strlit(" OR ");
    reveal_strlit(" OR EXISTS (SELECT 1 FROM tags t JOIN bookmark_tags bt ON t.id = bt.tag_id WHERE bt.bookmark_id = b.id AND ");
    reveal_strlit("b.title");
    reveal_strlit("b.host");
    reveal_strlit("t.name");
    reveal_strlit(" LIKE ?");
    reveal_strlit(" ILIKE $");
    let p = decimal(param_index + 1);
    let rhs = "("@ + contains_test(d, "b.title"@, param_index + 1) + " OR "@
        + contains_test(d, "b.host"@, param_index + 1)
        + " OR EXISTS (SELECT 1 FROM tags t JOIN bookmark_tags bt ON t.id = bt.tag_id WHERE bt.bookmark_id = b.id AND "@
        + contains_test(d, "t.name"@, param_index + 1) + "))"@;
    assert(search_clause(d, param_index) =~= rhs);
}

fn search_clause_for(d: SqlDialect, param_index: usize) -> (r: String)
    requires
        param_index < usize::MAX,
    ensures
        r@ == search_clause(d, param_index as nat),
{
    let p = u64_to_decimal((param_index + 1) as u64);
    let mut s = match d {
        SqlDialect::Sqlite => String::from_str("(b.title LIKE ?"),
        SqlDialect::Postgres => String::from_str("(b.title ILIKE $"),
    };
    s.append(p.as_str());
    match d {
        SqlDialect::Sqlite => s.append(" OR b.host LIKE ?"),
        SqlDialect::Postgres => s.append(" OR b.host ILIKE $"),
    }
    s.append(p.as_str());
    match d {
        SqlDialect::Sqlite => s.append(" OR EXISTS (SELECT 1 FROM tags t JOIN bookmark_tags bt ON t.id = bt.tag_id WHERE bt.bookmark_id = b.id AND t.name LIKE ?"),
        SqlDialect::Postgres => s.append(" OR EXISTS (SELECT 1 FROM tags t JOIN bookmark_tags bt ON t.id = bt.tag_id WHERE bt.bookmark_id = b.id AND t.name ILIKE $"),
    }
    s.append(p.as_str());
    s.append("))");
    s
}

/// The SQLite search condition for the token bound to `?{param_index + 1}`.
pub fn search_clause_for_param(param_index: usize) -> (r: String)
    requires
        param_index < usize::MAX,
    ensures
        r@ == search_clause(SqlDialect::Sqlite, param_index as nat),
{
    search_clause_for(SqlDialect::Sqlite, param_index)
}

/// The PostgreSQL search condition for the token bound to `${param_index + 1}`.
pub fn search_clause_for_param_pg(param_index: usize) -> (r: String)
    requires
        param_index < usize::MAX,
    ensures
        r@ == search_clause(SqlDialect::Postgres, param_index as nat),
{
    search_clause_for(SqlDialect::Postgres, param_index)
}

pub open spec fn not_deleted(d: SqlDialect) -> Seq<char> {
    match d {
        SqlDialect::Sqlite => "b.is_deleted = 0"@,
        SqlDialect::Postgres => "b.is_deleted = FALSE"@,
    }
}

/// The conditions of the tokens `0..n`.
pub open spec fn search_clauses(d: SqlDialect, n: nat) -> Seq<Seq<char>> {
    Seq::new(n, |i: int| search_clause(d, i as nat))
}

/// The statement that lists all live bookmarks, newest first.
pub open spec fn list_sql(d: SqlDialect) -> Seq<char> {
    select_sql(d) + " WHERE "@ + not_deleted(d) + " ORDER BY b.created_at DESC"@
}

/// The statement that finds live bookmarks matching all of `n` tokens.
pub open spec fn search_sql(d: SqlDialect, n: nat) -> Seq<char> {
    if n == 0 {
        list_sql(d)
    } else {
        select_sql(d) + " WHERE "@ + not_deleted(d) + " AND "@ + join_with(search_clauses(d, n), " AND "@)
            + " ORDER BY b.created_at DESC"@
    }
}

/// The condition of each of the tokens `0..n`, each added with ` AND `.
pub open spec fn every_token(d: SqlDialect, n: nat) -> Seq<char>
    decreases n,
{
    if n == 0 {
        Seq::empty()
    } else {
        every_token(d, (n - 1) as nat) + " AND "@ + search_clause(d, (n - 1) as nat)
    }
}

/// A search keeps the live bookmarks that satisfy the condition of every
/// token (the conditions are joined by AND, never OR), newest first; with
/// no token it keeps them all.
pub proof fn lemma_search_needs_every_token(d: SqlDialect, n: nat)
    ensures
        search_sql(d, n) == select_sql(d) + " WHERE "@ + not_deleted(d) + every_token(d, n) + " ORDER BY b.created_at DESC"@,
{
    lemma_join_every_token(d, n);
    if n == 0 {
        assert(list_sql(d) =~= select_sql(d) + " WHERE "@ + not_deleted(d) + every_token(d, n) + " ORDER BY b.created_at DESC"@);
    } else {
        assert(search_sql(d, n) =~= select_sql(d) + " WHERE "@ + not_deleted(d) + every_token(d, n) + " ORDER BY b.created_at DESC"@);
    }
}

proof fn lemma_join_every_token(d: SqlDialect, n: nat)
    ensures
        n > 0 ==> " AND "@ + join_with(search_clauses(d, n), " AND "@) == every_token(d, n),
    decreases n,
{
    if n > 1 {
        lemma_join_every_token(d, (n - 1) as nat);
        assert(search_clauses(d, n).drop_last() =~= search_clauses(d, (n - 1) as nat));
        assert(" AND "@ + join_with(search_clauses(d, n), " AND "@) =~= every_token(d, n));
    } else if n == 1 {
        assert(every_token(d, 0) == Seq::<char>::empty());
        assert(" AND "@ + join_with(search_clauses(d, n), " AND "@) =~= every_token(d, n));
    }
}

/// `%token%`: the LIKE pattern that finds a token anywhere.
pub open spec fn like_pattern(t: Seq<char>) -> Seq<char> {
    seq!['%'] + t + seq!['%']
}

/// A statement and the text values bound to its parameters, in order.
pub struct SearchQuery {
    pub sql: String,
    pub params: Vec<String>,
}

/// The statement listing all live bookmarks, newest first.
pub fn list_bookmarks_sql(d: SqlDialect) -> (r: String)
    ensures
        r@ == list_sql(d),
{
    let mut s = bookmark_select_sql_for(d);
    s.append(" WHERE ");
    match d {
        SqlDialect::Sqlite => s.append("b.is_deleted = 0"),
        SqlDialect::Postgres => s.append("b.is_deleted = FALSE"),
    }
    s.append(" ORDER BY b.created_at DESC");
    s
}

/// The search a store runs for a query: with no token, all live bookmarks;
/// otherwise the live bookmarks matching every token, one parameter
/// `%token%` per token.
pub fn build_search_query(d: SqlDialect, query: &str) -> (r: SearchQuery)
    ensures
        r.sql@ == search_sql(d, search_tokens(query@).len()),
        views(r.params@) == search_tokens(query@).map_values(|t: Seq<char>| like_pattern(t)),
        r.params@.len() == search_tokens(query@).len(),
        forall|i: int| 0 <= i < r.params@.len() ==> #[trigger] r.params@[i]@ == seq!['%'] + search_tokens(query@)[i] + seq!['%'],
{
    let tokens = tokenize_search_query(query);
    let mut params: Vec<String> = Vec::new();
    let mut clauses: Vec<String> = Vec::new();
    let mut i: usize = 0;
    while i < tokens.len()
        invariant
            i <= tokens.len(),
            views(tokens@) == search_tokens(query@),
            views(params@) == views(tokens@).take(i as int).map_values(|t: Seq<char>| like_pattern(t)),
            views(clauses@) == search_clauses(d, i as nat),
        decreases tokens.len() - i,
    {
        let mut pat = String::from_str("%");
        pat.append(tokens[i].as_str());
        pat.append("%");
        let c = search_clause_for(d, i);
        let ghost pv = params@;
        let ghost cv = clauses@;
        params.push(pat);
        clauses.push(c);
        proof {
            assert(views(params@) == views(pv).push(pat@));
            assert(views(clauses@) == views(cv).push(c@));
            assert(views(tokens@).take(i + 1) == views(tokens@).take(i as int).push(tokens@[i as int]@));
            assert(search_clauses(d, (i + 1) as nat) == search_clauses(d, i as nat).push(search_clause(d, i as nat)));
            assert(seq!['%'] + tokens@[i as int]@ + seq!['%'] == "%"@ + tokens@[i as int]@ + "%"@) by {
                reveal_strlit("%");
            }
        }
        i = i + 1;
    }
    assert(views(tokens@).take(tokens.len() as int) == views(tokens@));
    proof {
        assert(views(params@).len() == params@.len());
        assert forall|i: int| 0 <= i < params@.len() implies #[trigger] params@[i]@ == seq!['%'] + search_tokens(query@)[i]
            + seq!['%'] by {
            assert(views(params@)[i] == params@[i]@);
        }
    }
    if tokens.len() == 0 {
        return SearchQuery { sql: list_bookmarks_sql(d), params };
    }
    let mut sql = bookmark_select_sql_for(d);
    sql.append(" WHERE ");
    match d {
        SqlDialect::Sqlite => sql.append("b.is_deleted = 0"),
        SqlDialect::Postgres => sql.append("b.is_deleted = FALSE"),
    }
    sql.append(" AND ");
    let joined = join_strings(&clauses, " AND ");
    sql.append(joined.as_str());
    sql.append(" ORDER BY b.created_at DESC");
    SearchQuery { sql, params }
}

// ---------------------------------------------------------------------------
// Rows
// ---------------------------------------------------------------------------

/// The columns of one row of the bookmark SELECT.
pub struct BookmarkRow {
    pub id: String,
    pub url: String,
    pub title: Option<String>,
    pub description: Option<String>,
    pub favicon_url: Option<String>,
    pub host: Option<String>,
    pub created_at: String,
    pub tag_list: Option<String>,
}

/// The non-empty pieces of a comma-separated tag list.
pub open spec fn tag_names(list: Seq<char>) -> Seq<Seq<char>> {
    split_on(list, ',').filter(|p: Seq<char>| p.len() > 0)
}

fn pieces_to_strings(pieces: &Vec<Vec<char>>, drop_empty: bool) -> (r: Vec<String>)
    ensures
        drop_empty ==> views(r@) == pieces@.map_values(|w: Vec<char>| w@).filter(|p: Seq<char>| p.len() > 0),
        !drop_empty ==> views(r@) == pieces@.map_values(|w: Vec<char>| w@),
{
    let ghost pv = pieces@.map_values(|w: Vec<char>| w@);
    let mut out: Vec<String> = Vec::new();
    let mut i: usize = 0;
    while i < pieces.len()
        invariant
            i <= pieces.len(),
            pv == pieces@.map_values(|w: Vec<char>| w@),
            drop_empty ==> views(out@) == pv.take(i as int).filter(|p: Seq<char>| p.len() > 0),
            !drop_empty ==> views(out@) == pv.take(i as int),
        decreases pieces.len() - i,
    {
        proof {
            assert(pv.take(i + 1) == pv.take(i as int).push(pv[i as int]));
            pv.take(i as int).lemma_filter_push(pv[i as int], |p: Seq<char>| p.len() > 0);
        }
        if !drop_empty || pieces[i].len() > 0 {
            let s = string_from_chars(&pieces[i]);
            let ghost before = out@;
            out.push(s);
            assert(views(out@) == views(before).push(s@));
        }
        i = i + 1;
    }
    assert(pv.take(pieces.len() as int) == pv);
    out
}

/// The tag names of a row, empty names dropped.
pub fn parse_tag_list(list: &Option<String>) -> (r: Option<Vec<String>>)
    ensures
        match list {
            None => r is None,
            Some(s) => r matches Some(v) && views(v@) == tag_names(s@),
        },
{
    match list {
        None => None,
        Some(s) => {
            let cv = chars_of(s.as_str());
            let pieces = split_chars_on(&cv, ',');
            Some(pieces_to_strings(&pieces, true))
        },
    }
}

/// A bookmark built from one row; its tags are the non-empty names of the
/// comma-separated tag list.
pub fn map_bookmark_row(row: BookmarkRow) -> (r: BookmarkPayload)
    ensures
        r.id == row.id,
        r.url == row.url,
        r.title == row.title,
        r.description == row.description,
        r.favicon_url == row.favicon_url,
        r.host == row.host,
        r.created_at == row.created_at,
        match row.tag_list {
            None => r.tags is None,
            Some(s) => r.tags matches Some(v) && views(v@) == tag_names(s@),
        },
{
    let tags = parse_tag_list(&row.tag_list);
    BookmarkPayload {
        id: row.id,
        url: row.url,
        title: row.title,
        description: row.description,
        favicon_url: row.favicon_url,
        host: row.host,
        created_at: row.created_at,
        tags,
    }
}

/// A bookmark built from one row of the command queries, whose tag list is
/// split on every comma, empty pieces kept.
pub fn map_bookmark_row_all_tags(row: BookmarkRow) -> (r: BookmarkPayload)
    ensures
        r.id == row.id,
        r.url == row.url,
        r.title == row.title,
        r.description == row.description,
        r.favicon_url == row.favicon_url,
        r.host == row.host,
        r.created_at == row.created_at,
        match row.tag_list {
            None => r.tags is None,
            Some(s) => r.tags matches Some(v) && views(v@) == split_on(s@, ','),
        },
{
    let tags = match &row.tag_list {
        None => None,
        Some(s) => {
            let cv = chars_of(s.as_str());
            let pieces = split_chars_on(&cv, ',');
            Some(pieces_to_strings(&pieces, false))
        },
    };
    BookmarkPayload {
        id: row.id,
        url: row.url,
        title: row.title,
        description: row.description,
        favicon_url: row.favicon_url,
        host: row.host,
        created_at: row.created_at,
        tags,
    }
}

} // verus!
