//! The SQLite database behind the local cache: its two tables, the statements
//! that run on them, and what `rusqlite` does for each statement.

use crate::fts;
use crate::scalar::{self, Scalar, ScalarView};
use crate::text;
use rusqlite::Connection;
use vstd::multiset::Multiset;
use vstd::prelude::*;

verus! {

/// A connection to a SQLite database.
#[verifier::external_type_specification]
#[verifier::external_body]
pub struct ExConnection(rusqlite::Connection);

/// What `rusqlite` reports when a statement fails.
#[verifier::external_type_specification]
#[verifier::external_body]
pub struct ExSqlError(rusqlite::Error);

/// Creates the two tables where they do not exist yet.
pub const SCHEMA: &'static str = "CREATE TABLE IF NOT EXISTS messages (
    id     TEXT PRIMARY KEY,
    author TEXT NOT NULL,
    kind   TEXT NOT NULL,
    model  TEXT,
    ts     INTEGER NOT NULL,
    body   TEXT NOT NULL,
    tags   TEXT
);
CREATE VIRTUAL TABLE IF NOT EXISTS search USING fts5(
    body,
    kind   UNINDEXED,
    author UNINDEXED,
    ts     UNINDEXED,
    source UNINDEXED,
    ref_id UNINDEXED
);";

/// Adds a message unless its id is taken.
pub const INSERT_MESSAGE: &'static str =
    "INSERT OR IGNORE INTO messages (id, author, kind, model, ts, body, tags)
     VALUES (?1, ?2, ?3, ?4, ?5, ?6, ?7)";

/// Adds a row to the full-text index.
pub const INSERT_INDEX: &'static str = "INSERT INTO search (body, kind, author, ts, source, ref_id)
     VALUES (?1, ?2, ?3, ?4, ?5, ?6)";

/// Takes the document at a path out of the full-text index.
pub const DELETE_DOC: &'static str = "DELETE FROM search WHERE kind = 'doc' AND ref_id = ?1";

/// Lists the messages of a time window, oldest first.
pub const SELECT_MESSAGES: &'static str = "SELECT id, author, kind, model, ts, body, tags FROM messages
     WHERE (?1 IS NULL OR ts >= ?1) AND (?2 IS NULL OR ts <= ?2)
     ORDER BY ts ASC, id ASC LIMIT ?3";

/// Lists the index rows that match a full-text expression, best match first.
pub const SELECT_INDEX: &'static str = "SELECT ref_id, kind, author, ts, source, body
     FROM search WHERE search MATCH ?1 ORDER BY rank";

/// A row of the table `messages`.
pub struct MessageRow {
    pub id: Seq<char>,
    pub author: Seq<char>,
    pub kind: Seq<char>,
    pub model: Option<Seq<char>>,
    pub ts: i64,
    pub body: Seq<char>,
    pub tags: Option<Seq<char>>,
}

/// A row of the table `search`.
pub struct IndexRow {
    pub ref_id: Seq<char>,
    pub kind: Seq<char>,
    pub author: Option<Seq<char>>,
    pub ts: Option<i64>,
    pub source: Option<Seq<char>>,
    pub body: Seq<char>,
}

/// The values that `INSERT_MESSAGE` takes for a row.
pub open spec fn message_params(row: MessageRow) -> Seq<ScalarView> {
    seq![
        ScalarView::Text(row.id),
        ScalarView::Text(row.author),
        ScalarView::Text(row.kind),
        scalar::text_or_null(row.model),
        ScalarView::Int(row.ts),
        ScalarView::Text(row.body),
        scalar::text_or_null(row.tags),
    ]
}

/// The values that `INSERT_INDEX` takes for a row.
pub open spec fn index_params(row: IndexRow) -> Seq<ScalarView> {
    seq![
        ScalarView::Text(row.body),
        ScalarView::Text(row.kind),
        scalar::text_or_null(row.author),
        scalar::int_or_null(row.ts),
        scalar::text_or_null(row.source),
        ScalarView::Text(row.ref_id),
    ]
}

/// The values that `DELETE_DOC` takes for a path.
pub open spec fn path_params(path: Seq<char>) -> Seq<ScalarView> {
    seq![ScalarView::Text(path)]
}

/// A row of `messages` as it is read out.
pub type MessageTuple = (
    String,
    String,
    String,
    Option<String>,
    i64,
    String,
    Option<String>,
);

/// A row of `search` as it is read out.
pub type IndexTuple = (
    String,
    String,
    Option<String>,
    Option<i64>,
    Option<String>,
    String,
);

/// What a row of `messages` says.
pub open spec fn message_row(t: MessageTuple) -> MessageRow {
    MessageRow {
        id: t.0@,
        author: t.1@,
        kind: t.2@,
        model: text::opt_text(t.3),
        ts: t.4,
        body: t.5@,
        tags: text::opt_text(t.6),
    }
}

/// What a row of `search` says.
pub open spec fn index_row(t: IndexTuple) -> IndexRow {
    IndexRow {
        ref_id: t.0@,
        kind: t.1@,
        author: text::opt_text(t.2),
        ts: t.3,
        source: text::opt_text(t.4),
        body: t.5@,
    }
}

/// Whether the database belongs to this connection alone: it has no tables but those
/// that `SCHEMA` creates, and nothing else changes them while the connection lives.
pub uninterp spec fn owned_db(conn: Connection) -> bool;

/// A statement with the values for its parameters.
pub struct Statement {
    pub sql: Seq<char>,
    pub values: Seq<ScalarView>,
}

/// The path that the connection was opened with; `None` where it was opened without
/// one, on a new database in memory.
pub uninterp spec fn opened_at(conn: Connection) -> Option<std::path::PathBuf>;

/// The statements that were handed to the connection to change its tables, in their
/// order, whatever became of them.
pub uninterp spec fn handed(conn: Connection) -> Seq<Statement>;

/// What the connection answered to each of these statements: how many rows it changed, or
/// `None` where it failed.
pub uninterp spec fn told(conn: Connection) -> Seq<Option<usize>>;

/// The rows of the table `messages`, by id.
pub uninterp spec fn message_rows(conn: Connection) -> Map<Seq<char>, MessageRow>;

/// The rows of the table `search`.
pub uninterp spec fn index_rows(conn: Connection) -> Multiset<IndexRow>;

/// The index rows that match a full-text expression, in the order of their rank, the best
/// match first.
pub uninterp spec fn ranked(conn: Connection, expression: Seq<char>) -> Seq<IndexRow>;

/// Whether `row` is the row of the document at `path`.
pub open spec fn is_doc_row(row: IndexRow, path: Seq<char>) -> bool {
    row.kind == "doc"@ && row.ref_id == path
}

/// The rows without that of the document at `path`.
pub open spec fn without_doc(rows: Multiset<IndexRow>, path: Seq<char>) -> Multiset<IndexRow> {
    rows.filter(|row: IndexRow| !is_doc_row(row, path))
}

/// Whether the message with the time `ts1` and the id `id1` is older than the
/// other one: by time, and at the same time by id.
pub open spec fn older(ts1: i64, id1: Seq<char>, ts2: i64, id2: Seq<char>) -> bool {
    ts1 < ts2 || (ts1 == ts2 && text::precedes(id1, id2))
}

/// Whether a time lies in the window, whose ends belong to it.
pub open spec fn in_window(ts: i64, start: Option<i64>, end: Option<i64>) -> bool {
    &&& start matches Some(a) ==> a <= ts
    &&& end matches Some(b) ==> ts <= b
}

/// Whether `all` lists just the rows that lie in the window, oldest first.
pub open spec fn is_listing(
    all: Seq<MessageRow>,
    rows: Map<Seq<char>, MessageRow>,
    start: Option<i64>,
    end: Option<i64>,
) -> bool {
    &&& forall|i: int, j: int|
        0 <= i < j < all.len() ==> older(
            (#[trigger] all[i]).ts,
            all[i].id,
            (#[trigger] all[j]).ts,
            all[j].id,
        )
    &&& forall|i: int|
        0 <= i < all.len() ==> rows.contains_key((#[trigger] all[i]).id) && rows[all[i].id]
            == all[i] && in_window(all[i].ts, start, end)
    &&& forall|id: Seq<char>| #[trigger]
        rows.contains_key(id) && in_window(rows[id].ts, start, end) ==> all.contains(rows[id])
}

/// The first `limit` items of `all`, or all of them where `limit` is negative.
pub open spec fn capped<T>(all: Seq<T>, limit: i64) -> Seq<T> {
    if limit < 0 || all.len() <= limit {
        all
    } else {
        all.take(limit as int)
    }
}

/// Whether neither table holds a row.
pub open spec fn is_empty_db(conn: Connection) -> bool {
    &&& message_rows(conn) == Map::<Seq<char>, MessageRow>::empty()
    &&& index_rows(conn) == Multiset::<IndexRow>::empty()
}

/// What a statement that changed `changed` rows did to the two tables.
pub open spec fn executed(
    sql: Seq<char>,
    params: Seq<ScalarView>,
    before: Connection,
    after: Connection,
    changed: usize,
) -> bool {
    &&& forall|row: MessageRow|
        sql == INSERT_MESSAGE@ && params == #[trigger] message_params(row) ==> {
            &&& index_rows(after) == index_rows(before)
            &&& if message_rows(before).contains_key(row.id) {
                changed == 0 && message_rows(after) == message_rows(before)
            } else {
                changed == 1 && message_rows(after) == message_rows(before).insert(row.id, row)
            }
        }
    &&& forall|row: IndexRow|
        sql == INSERT_INDEX@ && params == #[trigger] index_params(row) ==> {
            &&& message_rows(after) == message_rows(before)
            &&& index_rows(after) == index_rows(before).insert(row)
        }
    &&& forall|path: Seq<char>|
        sql == DELETE_DOC@ && params == #[trigger] path_params(path) ==> {
            &&& message_rows(after) == message_rows(before)
            &&& index_rows(after) == without_doc(index_rows(before), path)
        }
}

/// The statement that creates the tables.
pub open spec fn creation() -> Statement {
    Statement { sql: SCHEMA@, values: Seq::empty() }
}

/// The statement that adds a message.
pub open spec fn insertion(row: MessageRow) -> Statement {
    Statement { sql: INSERT_MESSAGE@, values: message_params(row) }
}

/// The statement that adds a row to the full-text index.
pub open spec fn indexing(row: IndexRow) -> Statement {
    Statement { sql: INSERT_INDEX@, values: index_params(row) }
}

/// The statement that takes the document at `path` out of the full-text index.
pub open spec fn deletion(path: Seq<char>) -> Statement {
    Statement { sql: DELETE_DOC@, values: path_params(path) }
}

/// `Connection::open_in_memory` opens a new database in memory, which no other
/// connection reaches and which is empty. No statement has been handed to it.
#[verifier::external_body]
pub(crate) fn open_memory() -> (r: Result<Connection, rusqlite::Error>)
    ensures
        r matches Ok(conn) ==> owned_db(conn) && is_empty_db(conn),
        r matches Ok(conn) ==> opened_at(conn) is None && handed(conn).len() == 0 && told(
            conn,
        ).len() == 0,
{
    Connection::open_in_memory()
}

/// `Connection::open` opens the database in the file at `path`, and creates the
/// file where there is none. What the file holds, and who else uses it, nothing
/// here can tell; only that the connection is one to `path`, and that no statement has
/// been handed to it.
#[verifier::external_body]
pub(crate) fn open_file(path: &std::path::PathBuf) -> (r: Result<Connection, rusqlite::Error>)
    ensures
        r matches Ok(conn) ==> opened_at(conn) == Some(*path) && handed(conn).len() == 0 && told(
            conn,
        ).len() == 0,
{
    Connection::open(path)
}

/// `Connection::execute_batch` runs the statements of `sql` one after the other.
/// Those of `SCHEMA` create tables only where they are missing, so no row comes
/// or goes, whether they succeed or fail. The connection stays one to the same database,
/// and has been handed `sql`. As the batch tells no number, its success counts as an
/// answer that no row changed.
#[verifier::external_body]
pub(crate) fn create_tables(conn: &mut Connection, sql: &str) -> (r: Result<(), rusqlite::Error>)
    requires
        sql@ == SCHEMA@,
    ensures
        owned_db(*final(conn)) == owned_db(*old(conn)),
        opened_at(*final(conn)) == opened_at(*old(conn)),
        handed(*final(conn)) == handed(*old(conn)).push(creation()),
        told(*final(conn)) == told(*old(conn)).push(
            if r is Ok {
                Some(0)
            } else {
                None
            },
        ),
        owned_db(*old(conn)) ==> message_rows(*final(conn)) == message_rows(*old(conn))
            && index_rows(*final(conn)) == index_rows(*old(conn)),
{
    conn.execute_batch(sql)
}

/// `Connection::execute` runs one of the three statements that change the tables, with
/// values of the kinds that it takes, and returns how many rows it inserted, changed or
/// deleted. A statement takes effect as a whole or, where it fails, not at all. Of a
/// database that somebody else may change only what is handed to it, `sql` with the given
/// values, and what it answered is said: the number that is returned, or that it failed.
#[verifier::external_body]
pub(crate) fn execute(conn: &mut Connection, sql: &str, params: &Vec<Scalar>) -> (r: Result<
    usize,
    rusqlite::Error,
>)
    requires
        (sql@ == INSERT_MESSAGE@ && exists|row: MessageRow|
            scalar::views(params@) == #[trigger] message_params(row)) || (sql@ == INSERT_INDEX@
            && exists|row: IndexRow| scalar::views(params@) == #[trigger] index_params(row)) || (
        sql@ == DELETE_DOC@ && exists|path: Seq<char>|
            scalar::views(params@) == #[trigger] path_params(path)),
    ensures
        owned_db(*final(conn)) == owned_db(*old(conn)),
        opened_at(*final(conn)) == opened_at(*old(conn)),
        handed(*final(conn)) == handed(*old(conn)).push(
            (Statement { sql: sql@, values: scalar::views(params@) }),
        ),
        told(*final(conn)) == told(*old(conn)).push(
            match r {
                Ok(changed) => Some(changed),
                Err(_) => None,
            },
        ),
        owned_db(*old(conn)) ==> match r {
            Ok(changed) => executed(sql@, scalar::views(params@), *old(conn), *final(conn), changed),
            Err(_) => message_rows(*final(conn)) == message_rows(*old(conn)) && index_rows(
                *final(conn),
            ) == index_rows(*old(conn)),
        },
{
    let values = params.iter().map(|p| match p {
        Scalar::Null => rusqlite::types::Value::Null,
        Scalar::Int(n) => rusqlite::types::Value::Integer(*n),
        Scalar::Text(t) => rusqlite::types::Value::Text(t.clone()),
    });
    conn.execute(sql, rusqlite::params_from_iter(values))
}

/// `Statement::query_map` on a prepared `SELECT_MESSAGES` reads out the messages
/// of a time window, ordered by time and then by id, as many as `limit` allows. A
/// negative limit is none. SQLite orders text by its UTF-8 bytes, which is the
/// order of the characters.
#[verifier::external_body]
pub(crate) fn select_messages(
    conn: &Connection,
    sql: &str,
    start: Option<i64>,
    end: Option<i64>,
    limit: i64,
) -> (r: Result<Vec<MessageTuple>, rusqlite::Error>)
    requires
        sql@ == SELECT_MESSAGES@,
    ensures
        owned_db(*conn) ==> (r matches Ok(rows) ==> exists|all: Seq<MessageRow>|
            {
                &&& #[trigger] is_listing(all, message_rows(*conn), start, end)
                &&& rows@.map_values(|t: MessageTuple| message_row(t)) == capped(all, limit)
            }),
{
    let mut statement = conn.prepare(sql)?;
    let rows = statement.query_map((start, end, limit), |row| MessageTuple::try_from(row))?;
    rows.collect()
}

/// `Statement::query_map` on a prepared `SELECT_INDEX` reads out the index rows
/// whose text matches the expression, each as often as it stands in the index. FTS5
/// takes phrase literals with nothing between them as a conjunction, and passes over
/// those that hold no token; where none does, nothing matches. A phrase of ASCII letters
/// and digits is one token, which is found in a text that says just the same. An error
/// is none of syntax where no phrase holds a NUL character, which would end the
/// expression. Of other expressions nothing is said. The rows come in the order of a
/// floating-point rank, which is only named.
#[verifier::external_body]
pub(crate) fn select_index(conn: &Connection, sql: &str, expression: &str) -> (r: Result<
    Vec<IndexTuple>,
    rusqlite::Error,
>)
    requires
        sql@ == SELECT_INDEX@,
    ensures
        owned_db(*conn) ==> (r matches Ok(rows) ==> rows@.map_values(
            |t: IndexTuple| index_row(t),
        ) == ranked(*conn, expression@)),
        owned_db(*conn) ==> (r matches Ok(rows) ==> forall|phrases: Seq<Seq<char>>|
            phrases.len() > 0 && expression@ == #[trigger] fts::conjunction(phrases)
                ==> rows@.map_values(|t: IndexTuple| index_row(t)).to_multiset() == index_rows(
                *conn,
            ).filter(
                |row: IndexRow|
                    {
                        &&& exists|i: int|
                            0 <= i < phrases.len() && fts::fts5_finds(
                                #[trigger] phrases[i],
                                row.body,
                            )
                        &&& forall|i: int|
                            0 <= i < phrases.len() ==> fts::fts5_finds(
                                #[trigger] phrases[i],
                                row.body,
                            ) || fts::is_blank(phrases[i])
                    },
            )),
        owned_db(*conn) && r is Ok ==> forall|phrases: Seq<Seq<char>>, i: int|
            0 <= i < phrases.len() && expression@ == #[trigger] fts::conjunction(phrases)
                && fts::is_ascii_word(#[trigger] phrases[i]) ==> fts::fts5_finds(
                phrases[i],
                phrases[i],
            ),
        owned_db(*conn) ==> (r matches Err(e) ==> forall|phrases: Seq<Seq<char>>, t: String|
            phrases.len() > 0 && expression@ == #[trigger] fts::conjunction(phrases)
                && fts::are_free_of_nul(phrases)
                && #[trigger] vstd::string::to_string_from_display_ensures(&e, t)
                ==> !fts::is_syntax_error(t@)),
{
    let mut statement = conn.prepare(sql)?;
    let rows = statement.query_map((expression,), |row| IndexTuple::try_from(row))?;
    rows.collect()
}

} // verus!
