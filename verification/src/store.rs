//! The local cache: the messages of the room and the text of the scribe's
//! documents, with one full-text index over both. It is rebuilt from the logs, so
//! that every write of a message that is there already changes nothing.

use crate::fts;
use crate::message::{Kind, Message, MessageView};
use crate::scalar::{self, Scalar};
use crate::sql::{self, IndexRow, IndexTuple, MessageRow, MessageTuple, Statement};
use crate::text;
use rusqlite::Connection;
use vstd::multiset::Multiset;
use vstd::prelude::*;

verus! {

/// Why the cache did not do what it was asked to.
#[derive(Debug)]
pub enum StoreError {
    /// SQLite failed; the text says how.
    Sqlite(String),
}

/// The cache, in a database file or in memory.
pub struct Store {
    conn: Connection,
}

/// A message or a document that matches a search.
#[derive(Debug, Clone, PartialEq, Eq)]
pub struct SearchHit {
    /// The id of the message, or the path of the document.
    pub ref_id: String,
    /// `human`, `ai` or `doc`.
    pub kind: String,
    pub author: Option<String>,
    pub ts: Option<i64>,
    /// The path of a document; `None` for a message.
    pub source: Option<String>,
    pub body: String,
}

impl View for SearchHit {
    type V = IndexRow;

    open spec fn view(&self) -> IndexRow {
        IndexRow {
            ref_id: self.ref_id@,
            kind: self.kind@,
            author: text::opt_text(self.author),
            ts: self.ts,
            source: text::opt_text(self.source),
            body: self.body@,
        }
    }
}

/// A window of time, whose ends belong to it, with an optional cap on the number
/// of messages.
#[derive(Debug, Clone, Copy)]
pub struct TimeRange {
    pub start: Option<i64>,
    pub end: Option<i64>,
    pub limit: Option<i64>,
}

impl Default for TimeRange {
    /// All of time, without a cap.
    fn default() -> (r: TimeRange)
        ensures
            r == (TimeRange { start: None, end: None, limit: None }),
    {
        TimeRange { start: None, end: None, limit: None }
    }
}

/// The row under which a message is stored.
pub open spec fn row_of(m: MessageView) -> MessageRow {
    MessageRow {
        id: m.id,
        author: m.author,
        kind: crate::message::kind_text(m.kind),
        model: m.model,
        ts: m.ts,
        body: m.body,
        tags: m.tags,
    }
}

/// The message that is stored in a row. A kind of no known name counts as human.
pub open spec fn message_of(row: MessageRow) -> MessageView {
    MessageView {
        id: row.id,
        author: row.author,
        kind: match crate::message::kind_named(row.kind) {
            Some(k) => k,
            None => Kind::Human,
        },
        model: row.model,
        ts: row.ts,
        body: row.body,
        tags: row.tags,
    }
}

/// The text of a message that is indexed: its body, and its tags behind it.
pub open spec fn indexed_text(m: MessageView) -> Seq<char> {
    match m.tags {
        Some(t) => m.body + " "@ + t,
        None => m.body,
    }
}

/// The index row of a message.
pub open spec fn index_row_of(m: MessageView) -> IndexRow {
    IndexRow {
        ref_id: m.id,
        kind: crate::message::kind_text(m.kind),
        author: Some(m.author),
        ts: Some(m.ts),
        source: None,
        body: indexed_text(m),
    }
}

/// The index row of a document.
pub open spec fn doc_row(path: Seq<char>, body: Seq<char>) -> IndexRow {
    IndexRow { ref_id: path, kind: "doc"@, author: None, ts: None, source: Some(path), body }
}

/// A message comes back from the row under which it is stored.
pub proof fn message_survives_storage(m: MessageView)
    ensures
        message_of(row_of(m)) == m,
{
    crate::message::kind_survives_storage(m.kind);
}

impl StoreError {
    /// What happened, in words.
    pub fn text(&self) -> (r: String)
        ensures
            r@ == (match *self {
                StoreError::Sqlite(t) => t@,
            }),
    {
        match self {
            StoreError::Sqlite(t) => t.clone(),
        }
    }
}

impl Store {
    /// Whether nothing but this store changes its database.
    pub closed spec fn owned(&self) -> bool {
        sql::owned_db(self.conn)
    }

    /// The stored messages, by id.
    pub closed spec fn messages(&self) -> Map<Seq<char>, MessageRow> {
        sql::message_rows(self.conn)
    }

    /// The rows of the full-text index.
    pub closed spec fn index(&self) -> Multiset<IndexRow> {
        sql::index_rows(self.conn)
    }

    /// The path that the cache was opened with; `None` where there was none.
    pub closed spec fn location(&self) -> Option<std::path::PathBuf> {
        sql::opened_at(self.conn)
    }

    /// The statements that were handed to the database to change it, in their order,
    /// whatever became of them.
    pub closed spec fn handed(&self) -> Seq<Statement> {
        sql::handed(self.conn)
    }

    /// What the database answered to each of these statements: how many rows it changed,
    /// or `None` where it failed.
    pub closed spec fn told(&self) -> Seq<Option<usize>> {
        sql::told(self.conn)
    }

    /// The index rows that a search for `query` finds, the best match first.
    pub closed spec fn ranking(&self, query: Seq<char>) -> Seq<IndexRow> {
        sql::ranked(self.conn, fts::escaped(query))
    }

    /// Whether the two stores hold the same.
    pub open spec fn same_contents(&self, other: &Store) -> bool {
        self.messages() == other.messages() && self.index() == other.index()
    }

    /// Opens the cache in the file at `path`. What the file holds, and whether anything
    /// else uses it, nothing here can tell; where nothing does, what is promised of a
    /// cache that is `owned` is what happens.
    pub fn open(path: &std::path::PathBuf) -> (r: Result<Store, StoreError>)
        ensures
            r matches Ok(s) ==> s.location() == Some(*path) && s.handed() == seq![sql::creation()]
                && s.told() == seq![Some(0usize)],
    {
        match sql::open_file(path) {
            Ok(conn) => Store::init(conn),
            Err(e) => Err(StoreError::Sqlite(e.to_string())),
        }
    }

    /// Opens a new, empty cache in memory.
    pub fn open_in_memory() -> (r: Result<Store, StoreError>)
        ensures
            r matches Ok(s) ==> s.owned() && s.messages() == Map::<Seq<char>, MessageRow>::empty()
                && s.index() == Multiset::<IndexRow>::empty(),
            r matches Ok(s) ==> s.location() is None && s.handed() == seq![sql::creation()]
                && s.told() == seq![Some(0usize)],
    {
        match sql::open_memory() {
            Ok(conn) => Store::init(conn),
            Err(e) => Err(StoreError::Sqlite(e.to_string())),
        }
    }

    /// The cache in the database behind `conn`, with its tables created.
    fn init(conn: Connection) -> (r: Result<Store, StoreError>)
        ensures
            r matches Ok(s) ==> s.owned() == sql::owned_db(conn) && (sql::owned_db(conn)
                ==> s.messages() == sql::message_rows(conn) && s.index() == sql::index_rows(conn)),
            r matches Ok(s) ==> s.location() == sql::opened_at(conn) && s.handed() == sql::handed(
                conn,
            ).push(sql::creation()) && s.told() == sql::told(conn).push(Some(0)),
    {
        let mut conn = conn;
        match sql::create_tables(&mut conn, sql::SCHEMA) {
            Ok(()) => Ok(Store { conn }),
            Err(e) => Err(StoreError::Sqlite(e.to_string())),
        }
    }

    /// Stores `m` and indexes it unless its id is taken. Returns whether it was
    /// new. Where indexing fails, the message stays stored. Only a statement that the
    /// database fails at makes it fail.
    pub fn upsert_message(&mut self, m: &Message) -> (r: Result<bool, StoreError>)
        ensures
            upserts(*old(self), *final(self), m@),
            match r {
                Ok(new) => upserted(answers(*old(self), *final(self))) == Some(new),
                Err(_) => failed_last(*old(self), *final(self)),
            },
            r is Ok <==> took_all(*old(self), *final(self)),
    {
        let params = message_values(m);
        let outcome = match sql::execute(&mut self.conn, sql::INSERT_MESSAGE, &params) {
            Ok(n) => Ok(n),
            Err(e) => Err(StoreError::Sqlite(e.to_string())),
        };
        proof {
            assert(answers(*old(self), *self) =~= seq![self.told().last()]);
            assert(self.handed() =~= old(self).handed() + statements_for(m@, false));
        }
        let new = match was_new(outcome) {
            Ok(new) => new,
            Err(e) => return Err(e),
        };
        if new {
            let row = index_values(m);
            let ghost stored = self.told().last();
            let outcome = sql::execute(&mut self.conn, sql::INSERT_INDEX, &row);
            proof {
                assert(answers(*old(self), *self) =~= seq![stored, self.told().last()]);
                assert(self.handed() =~= old(self).handed() + statements_for(m@, true));
            }
            match outcome {
                Ok(_) => {},
                Err(e) => return Err(StoreError::Sqlite(e.to_string())),
            }
        }
        Ok(new)
    }

    /// Indexes the document at `path` with the text `body`, in place of what was
    /// indexed for that path before. Only a statement that the database fails at makes it
    /// fail.
    pub fn index_doc(&mut self, path: &str, body: &str) -> (r: Result<(), StoreError>)
        ensures
            indexes(*old(self), *final(self), path@, body@),
            r is Ok <==> took_all(*old(self), *final(self)),
            r is Err ==> failed_last(*old(self), *final(self)),
    {
        let key: Vec<Scalar> = vec![Scalar::Text(path.to_owned())];
        assert(scalar::views(key@) == sql::path_params(path@));
        let outcome = sql::execute(&mut self.conn, sql::DELETE_DOC, &key);
        proof {
            assert(answers(*old(self), *self) =~= seq![self.told().last()]);
            assert(self.handed() =~= old(self).handed() + doc_statements(path@, body@, false));
        }
        match outcome {
            Ok(_) => {},
            Err(e) => return Err(StoreError::Sqlite(e.to_string())),
        }
        let row = doc_values(path, body);
        let ghost cleared = self.told().last();
        let outcome = sql::execute(&mut self.conn, sql::INSERT_INDEX, &row);
        proof {
            assert(answers(*old(self), *self) =~= seq![cleared, self.told().last()]);
            assert(self.handed() =~= old(self).handed() + doc_statements(path@, body@, true));
        }
        match outcome {
            Ok(_) => Ok(()),
            Err(e) => Err(StoreError::Sqlite(e.to_string())),
        }
    }

    /// The messages and documents that hold all the words of `query`, best match
    /// first. The words are handed to the index as literal phrases, so that no
    /// character of them acts as an operator. A query without words finds nothing.
    pub fn search_chat(&self, query: &str) -> (r: Result<Vec<SearchHit>, StoreError>)
        ensures
            text::words_of(query@).len() == 0 ==> (r matches Ok(hits)
                && hits@.len() == 0),
            self.owned() ==> (r matches Ok(hits) ==> finds(*self, query@, hit_views(hits@))),
            self.owned() && !query@.contains('\0') ==> (r matches Err(StoreError::Sqlite(e))
                ==> !fts::is_syntax_error(e@)),
    {
        let expression = fts::escape_fts_query(query);
        proof {
            fts::lemma_escaped_len(query@);
            if !query@.contains('\0') {
                let words = text::words_of(query@);
                assert forall|i: int| 0 <= i < words.len() implies !(
                #[trigger] words[i]).contains('\0') by {
                    if words[i].contains('\0') {
                        text::lemma_words_hold(query@, i, '\0');
                    }
                }
                assert(fts::are_free_of_nul(words));
            }
        }
        if expression.as_str().is_empty() {
            return Ok(Vec::new());
        }
        let rows = match sql::select_index(&self.conn, sql::SELECT_INDEX, expression.as_str()) {
            Ok(rows) => rows,
            Err(e) => return Err(StoreError::Sqlite(e.to_string())),
        };
        let hits = hits_of(&rows);
        proof {
            let words = text::words_of(query@);
            assert(expression@ == fts::conjunction(words));
            if self.owned() {
                let found = hit_views(hits@).to_multiset();
                assert(found =~= matching(self.index(), query@));
            }
        }
        Ok(hits)
    }

    /// The messages of a time window, oldest first; at the same time in the order
    /// of their ids.
    pub fn get_messages(&self, range: &TimeRange) -> (r: Result<Vec<Message>, StoreError>)
        ensures
            self.owned() ==> (r matches Ok(ms) ==> exists|all: Seq<MessageRow>|
                {
                    &&& #[trigger] sql::is_listing(all, self.messages(), range.start, range.end)
                    &&& message_views(ms@) == sql::capped(messages_of(all), cap(range.limit))
                }),
    {
        let limit: i64 = match range.limit {
            Some(n) => n,
            None => -1,
        };
        let rows = match sql::select_messages(
            &self.conn,
            sql::SELECT_MESSAGES,
            range.start,
            range.end,
            limit,
        ) {
            Ok(rows) => rows,
            Err(e) => return listed(Err(StoreError::Sqlite(e.to_string()))),
        };
        let ghost said = rows@;
        let r = listed(Ok(rows));
        proof {
            if self.owned() {
                let read = said.map_values(|t: MessageTuple| sql::message_row(t));
                let all = choose|all: Seq<MessageRow>|
                    {
                        &&& #[trigger] sql::is_listing(all, self.messages(), range.start, range.end)
                        &&& read == sql::capped(all, limit)
                    };
                assert(message_views(r->Ok_0@) == messages_of(read));
                assert(messages_of(sql::capped(all, limit)) == sql::capped(messages_of(all), limit));
            }
        }
        r
    }
}

/// Whether `hits` is what a search for `query` finds: the index rows that hold its words,
/// best match first. Every word of ASCII letters and digits can be found.
pub open spec fn finds(store: Store, query: Seq<char>, hits: Seq<IndexRow>) -> bool {
    let words = text::words_of(query);
    if words.len() == 0 {
        hits.len() == 0
    } else {
        &&& hits == store.ranking(query)
        &&& hits.to_multiset() == matching(store.index(), query)
        &&& fts::are_ascii_words(words) ==> fts::is_findable(words)
    }
}

/// What the database answered between `before` and `after`.
pub open spec fn answers(before: Store, after: Store) -> Seq<Option<usize>> {
    after.told().skip(before.told().len() as int)
}

/// Whether `after` is the same cache as `before`, at a later time.
pub open spec fn follows(before: Store, after: Store) -> bool {
    &&& after.owned() == before.owned()
    &&& after.location() == before.location()
    &&& before.told().is_prefix_of(after.told())
}

/// Whether the database took every statement between `before` and `after`.
pub open spec fn took_all(before: Store, after: Store) -> bool {
    forall|i: int|
        0 <= i < answers(before, after).len() ==> #[trigger] answers(before, after)[i] is Some
}

/// Whether the last statement between `before` and `after` was one that the database
/// failed at.
pub open spec fn failed_last(before: Store, after: Store) -> bool {
    answers(before, after).len() > 0 && answers(before, after).last() is None
}

/// What the database is handed for a message: the message, and its index row where the
/// database answered that the message was new.
pub open spec fn statements_for(m: MessageView, new: bool) -> Seq<Statement> {
    let stored = seq![sql::insertion(row_of(m))];
    if new {
        stored.push(sql::indexing(index_row_of(m)))
    } else {
        stored
    }
}

/// What storing a message comes to where the database answered `t`: whether the message
/// was new, or nothing where a statement failed.
pub open spec fn upserted(t: Seq<Option<usize>>) -> Option<bool> {
    match t[0] {
        None => None,
        Some(n) => if n == 0 {
            Some(false)
        } else if t[1] is Some {
            Some(true)
        } else {
            None
        },
    }
}

/// Whether `m` was handed to the database to be stored, and its index row where the
/// database answered that the message was new. Where nothing else uses the database, a
/// message is new whose id is unknown, and the cache holds just what the database took.
pub open spec fn upserts(before: Store, after: Store, m: MessageView) -> bool {
    let t = answers(before, after);
    &&& follows(before, after)
    &&& t.len() == if t[0] is Some && t[0]->0 > 0 {
        2nat
    } else {
        1nat
    }
    &&& after.handed() == before.handed() + statements_for(m, t.len() == 2)
    &&& before.owned() ==> match t[0] {
        None => after.same_contents(&before),
        Some(n) => {
            &&& n > 0 <==> !before.messages().contains_key(m.id)
            &&& n == 0 ==> after.same_contents(&before)
            &&& n > 0 ==> after.messages() == before.messages().insert(m.id, row_of(m))
            &&& n > 0 ==> after.index() == if t[1] is Some {
                before.index().insert(index_row_of(m))
            } else {
                before.index()
            }
        },
    }
}

/// What the database is handed for a document: the deletion of its old row, and its new
/// row where it took that.
pub open spec fn doc_statements(path: Seq<char>, body: Seq<char>, cleared: bool) -> Seq<Statement> {
    let first = seq![sql::deletion(path)];
    if cleared {
        first.push(sql::indexing(doc_row(path, body)))
    } else {
        first
    }
}

/// Whether the database was handed the deletion of what was indexed for `path`, and the
/// new row where it took that. Where nothing else uses the database, the cache holds just
/// what the database took.
pub open spec fn indexes(before: Store, after: Store, path: Seq<char>, body: Seq<char>) -> bool {
    let t = answers(before, after);
    &&& follows(before, after)
    &&& t.len() == if t[0] is Some {
        2nat
    } else {
        1nat
    }
    &&& after.handed() == before.handed() + doc_statements(path, body, t.len() == 2)
    &&& before.owned() ==> after.messages() == before.messages()
    &&& before.owned() ==> after.index() == if t[0] is None {
        before.index()
    } else if t[1] is None {
        sql::without_doc(before.index(), path)
    } else {
        sql::without_doc(before.index(), path).insert(doc_row(path, body))
    }
}

/// The cap on the number of messages; negative where there is none.
pub open spec fn cap(limit: Option<i64>) -> i64 {
    match limit {
        Some(n) => n,
        None => -1i64,
    }
}

/// What the messages of `ms` say.
pub open spec fn message_views(ms: Seq<Message>) -> Seq<MessageView> {
    ms.map_values(|m: Message| m@)
}

/// What the hits of `hits` say.
pub open spec fn hit_views(hits: Seq<SearchHit>) -> Seq<IndexRow> {
    hits.map_values(|h: SearchHit| h@)
}

/// The messages that are stored in `rows`.
pub open spec fn messages_of(rows: Seq<MessageRow>) -> Seq<MessageView> {
    rows.map_values(|row: MessageRow| message_of(row))
}

/// The rows of the index that hold all words of `query`.
pub open spec fn matching(index: Multiset<IndexRow>, query: Seq<char>) -> Multiset<IndexRow> {
    index.filter(|row: IndexRow| fts::holds_all(text::words_of(query), row.body))
}

/// Whether a message was new, where `outcome` is how many rows storing it changed.
pub fn was_new(outcome: Result<usize, StoreError>) -> (r: Result<bool, StoreError>)
    ensures
        r == (match outcome {
            Ok(n) => Ok::<bool, StoreError>(n > 0),
            Err(e) => Err(e),
        }),
{
    match outcome {
        Ok(n) => Ok(n > 0),
        Err(e) => Err(e),
    }
}

/// The messages of a time window, where `outcome` is what was read out of it.
pub fn listed(outcome: Result<Vec<MessageTuple>, StoreError>) -> (r: Result<
    Vec<Message>,
    StoreError,
>)
    ensures
        match outcome {
            Ok(rows) => r matches Ok(ms) && message_views(ms@) == messages_of(
                rows@.map_values(|t: MessageTuple| sql::message_row(t)),
            ),
            Err(e) => r == Err::<Vec<Message>, StoreError>(e),
        },
{
    match outcome {
        Ok(rows) => Ok(read_messages(&rows)),
        Err(e) => Err(e),
    }
}

/// The values of the row under which a message is stored.
pub fn message_values(m: &Message) -> (r: Vec<Scalar>)
    ensures
        scalar::views(r@) == sql::message_params(row_of(m@)),
{
    let r: Vec<Scalar> = vec![
        Scalar::Text(m.id.clone()),
        Scalar::Text(m.author.clone()),
        Scalar::Text(m.kind.as_str().to_owned()),
        Scalar::of_text(&m.model),
        Scalar::Int(m.ts),
        Scalar::Text(m.body.clone()),
        Scalar::of_text(&m.tags),
    ];
    assert(scalar::views(r@) == sql::message_params(row_of(m@)));
    r
}

/// The values of the index row of a message.
pub fn index_values(m: &Message) -> (r: Vec<Scalar>)
    ensures
        scalar::views(r@) == sql::index_params(index_row_of(m@)),
{
    let mut indexed = m.body.clone();
    if let Some(t) = &m.tags {
        indexed.append(" ");
        indexed.append(t.as_str());
    }
    let r: Vec<Scalar> = vec![
        Scalar::Text(indexed),
        Scalar::Text(m.kind.as_str().to_owned()),
        Scalar::Text(m.author.clone()),
        Scalar::Int(m.ts),
        Scalar::Null,
        Scalar::Text(m.id.clone()),
    ];
    assert(scalar::views(r@) == sql::index_params(index_row_of(m@)));
    r
}

/// The values of the index row of a document.
pub fn doc_values(path: &str, body: &str) -> (r: Vec<Scalar>)
    ensures
        scalar::views(r@) == sql::index_params(doc_row(path@, body@)),
{
    let r: Vec<Scalar> = vec![
        Scalar::Text(body.to_owned()),
        Scalar::Text("doc".to_owned()),
        Scalar::Null,
        Scalar::Null,
        Scalar::Text(path.to_owned()),
        Scalar::Text(path.to_owned()),
    ];
    assert(scalar::views(r@) == sql::index_params(doc_row(path@, body@)));
    r
}

/// The hits that were read out as `rows`.
pub fn hits_of(rows: &Vec<IndexTuple>) -> (r: Vec<SearchHit>)
    ensures
        hit_views(r@) == rows@.map_values(|t: IndexTuple| sql::index_row(t)),
{
    let mut r: Vec<SearchHit> = Vec::new();
    let mut i: usize = 0;
    while i < rows.len()
        invariant
            i == r.len() <= rows.len(),
            forall|j: int| 0 <= j < i ==> (#[trigger] r@[j])@ == sql::index_row(rows@[j]),
        decreases rows.len() - i,
    {
        let row = &rows[i];
        r.push(
            SearchHit {
                ref_id: row.0.clone(),
                kind: row.1.clone(),
                author: row.2.clone(),
                ts: row.3,
                source: row.4.clone(),
                body: row.5.clone(),
            },
        );
        i += 1;
    }
    assert(hit_views(r@) == rows@.map_values(|t: IndexTuple| sql::index_row(t)));
    r
}

/// The messages that were read out as `rows`.
pub fn read_messages(rows: &Vec<MessageTuple>) -> (r: Vec<Message>)
    ensures
        message_views(r@) == messages_of(rows@.map_values(|t: MessageTuple| sql::message_row(t))),
{
    let mut r: Vec<Message> = Vec::new();
    let mut i: usize = 0;
    while i < rows.len()
        invariant
            i == r.len() <= rows.len(),
            forall|j: int|
                0 <= j < i ==> (#[trigger] r@[j])@ == message_of(sql::message_row(rows@[j])),
        decreases rows.len() - i,
    {
        let row = &rows[i];
        let kind = match Kind::from_db(row.2.as_str()) {
            Some(k) => k,
            None => Kind::Human,
        };
        r.push(
            Message {
                id: row.0.clone(),
                author: row.1.clone(),
                kind,
                model: row.3.clone(),
                ts: row.4,
                body: row.5.clone(),
                tags: row.6.clone(),
            },
        );
        i += 1;
    }
    assert(message_views(r@) == messages_of(
        rows@.map_values(|t: MessageTuple| sql::message_row(t)),
    ));
    r
}

/// Whether each row of `s` is older than those behind it.
spec fn by_age(s: Seq<MessageRow>) -> bool {
    forall|i: int, j: int|
        0 <= i < j < s.len() ==> sql::older(
            (#[trigger] s[i]).ts,
            s[i].id,
            (#[trigger] s[j]).ts,
            s[j].id,
        )
}

proof fn lemma_same_order(a: Seq<MessageRow>, b: Seq<MessageRow>)
    requires
        by_age(a),
        by_age(b),
        forall|row: MessageRow| a.contains(row) <==> b.contains(row),
    ensures
        a == b,
    decreases a.len(),
{
    if a.len() == 0 {
        if b.len() > 0 {
            assert(b.contains(b[0]));
            assert(a.contains(b[0]));
        }
        assert(a == b);
    } else {
        assert(a.contains(a[0]));
        let j = choose|j: int| 0 <= j < b.len() && b[j] == a[0];
        assert(b.contains(b[0]));
        let i = choose|i: int| 0 <= i < a.len() && a[i] == b[0];
        text::lemma_precedes(a[0].id, b[0].id);
        assert(a[0] == b[0]) by {
            if i > 0 && j > 0 {
                assert(sql::older(a[0].ts, a[0].id, a[i].ts, a[i].id));
                assert(sql::older(b[0].ts, b[0].id, b[j].ts, b[j].id));
            }
        }
        let s = a.skip(1);
        let t = b.skip(1);
        assert forall|x: int, y: int| 0 <= x < y < s.len() implies sql::older(
            (#[trigger] s[x]).ts,
            s[x].id,
            (#[trigger] s[y]).ts,
            s[y].id,
        ) by {
            assert(s[x] == a[x + 1] && s[y] == a[y + 1]);
        }
        assert forall|x: int, y: int| 0 <= x < y < t.len() implies sql::older(
            (#[trigger] t[x]).ts,
            t[x].id,
            (#[trigger] t[y]).ts,
            t[y].id,
        ) by {
            assert(t[x] == b[x + 1] && t[y] == b[y + 1]);
        }
        assert forall|row: MessageRow| s.contains(row) <==> t.contains(row) by {
            if s.contains(row) {
                let k = choose|k: int| 0 <= k < s.len() && s[k] == row;
                assert(a[k + 1] == row);
                text::lemma_precedes(a[0].id, row.id);
                assert(sql::older(a[0].ts, a[0].id, a[k + 1].ts, a[k + 1].id));
                assert(a.contains(row));
                let l = choose|l: int| 0 <= l < b.len() && b[l] == row;
                assert(t[l - 1] == row);
            }
            if t.contains(row) {
                let k = choose|k: int| 0 <= k < t.len() && t[k] == row;
                assert(b[k + 1] == row);
                text::lemma_precedes(b[0].id, row.id);
                assert(sql::older(b[0].ts, b[0].id, b[k + 1].ts, b[k + 1].id));
                assert(b.contains(row));
                let l = choose|l: int| 0 <= l < a.len() && a[l] == row;
                assert(s[l - 1] == row);
            }
        }
        lemma_same_order(s, t);
        assert(a == seq![a[0]] + s);
        assert(b == seq![b[0]] + t);
    }
}

/// A window of time has just one listing, so the order of `get_messages` is fixed
/// even among messages of the same second.
pub proof fn listing_is_unique(
    a: Seq<MessageRow>,
    b: Seq<MessageRow>,
    rows: Map<Seq<char>, MessageRow>,
    start: Option<i64>,
    end: Option<i64>,
)
    requires
        sql::is_listing(a, rows, start, end),
        sql::is_listing(b, rows, start, end),
    ensures
        a == b,
{
    assert forall|row: MessageRow| a.contains(row) <==> b.contains(row) by {
        if a.contains(row) {
            let i = choose|i: int| 0 <= i < a.len() && a[i] == row;
            assert(rows.contains_key(a[i].id));
        }
        if b.contains(row) {
            let i = choose|i: int| 0 <= i < b.len() && b[i] == row;
            assert(rows.contains_key(b[i].id));
        }
    }
    lemma_same_order(a, b);
}

/// Indexing a document again replaces what was indexed for its path: the last write
/// wins, one row is left, and every other row stays, even that of a message whose id is
/// the path.
pub proof fn last_document_wins(
    index: Multiset<IndexRow>,
    path: Seq<char>,
    first: Seq<char>,
    last: Seq<char>,
)
    ensures
        sql::without_doc(
            sql::without_doc(index, path).insert(doc_row(path, first)),
            path,
        ).insert(doc_row(path, last)) == sql::without_doc(index, path).insert(doc_row(path, last)),
        forall|row: IndexRow| #[trigger]
            sql::without_doc(index, path).insert(doc_row(path, last)).count(row) > 0
                && sql::is_doc_row(row, path) ==> row == doc_row(path, last),
        sql::without_doc(index, path).insert(doc_row(path, last)).count(doc_row(path, last)) == 1,
        forall|row: IndexRow|
            !sql::is_doc_row(row, path) ==> #[trigger] sql::without_doc(index, path).insert(
                doc_row(path, last),
            ).count(row) == index.count(row),
{
    broadcast use vstd::multiset::group_multiset_axioms;

    let once = sql::without_doc(index, path).insert(doc_row(path, first));
    assert(sql::without_doc(once, path) =~= sql::without_doc(index, path));
}

/// Where the database took the writes, a document is found under its path with its new
/// text, just once, and nothing else has changed: neither the messages nor any other
/// index row, even that of a message whose id is the path.
pub proof fn accepted_document_replaces_the_old(
    before: Store,
    after: Store,
    path: Seq<char>,
    body: Seq<char>,
)
    requires
        before.owned(),
        indexes(before, after, path, body),
        took_all(before, after),
    ensures
        after.messages() == before.messages(),
        after.index().count(doc_row(path, body)) == 1,
        forall|row: IndexRow| #[trigger]
            after.index().count(row) > 0 && sql::is_doc_row(row, path) ==> row == doc_row(
                path,
                body,
            ),
        forall|row: IndexRow|
            !sql::is_doc_row(row, path) ==> #[trigger] after.index().count(row)
                == before.index().count(row),
{
    let t = answers(before, after);
    assert(t[0] is Some);
    assert(t[1] is Some);
    last_document_wins(before.index(), path, body, body);
}

/// Whether the index holds just one row for each stored message, and besides those only
/// documents, one row for each path.
pub open spec fn in_step(
    messages: Map<Seq<char>, MessageRow>,
    index: Multiset<IndexRow>,
) -> bool {
    &&& forall|id: Seq<char>| #[trigger]
        messages.contains_key(id) ==> messages[id].id == id && index.count(
            index_row_of(message_of(messages[id])),
        ) == 1
    &&& forall|row: IndexRow| #[trigger]
        index.count(row) > 0 && row.kind != "doc"@ ==> messages.contains_key(row.ref_id) && row
            == index_row_of(message_of(messages[row.ref_id]))
    &&& forall|row: IndexRow, other: IndexRow|
        #![trigger index.count(row), index.count(other)]
        index.count(row) > 0 && index.count(other) > 0 && row.kind == "doc"@ && other.kind == "doc"@
            && row.ref_id == other.ref_id ==> row == other && index.count(row) == 1
}

proof fn lemma_kinds_are_not_doc(k: Kind)
    ensures
        crate::message::kind_text(k) != "doc"@,
{
    reveal_strlit("human");
    reveal_strlit("ai");
    reveal_strlit("doc");
    assert("human"@.len() != "doc"@.len());
    assert("ai"@.len() != "doc"@.len());
}

/// An empty cache is in step.
pub proof fn empty_is_in_step()
    ensures
        in_step(Map::<Seq<char>, MessageRow>::empty(), Multiset::<IndexRow>::empty()),
{
    broadcast use vstd::multiset::group_multiset_axioms;

}

/// Storing and indexing a new message keeps the cache in step.
pub proof fn new_message_keeps_step(
    messages: Map<Seq<char>, MessageRow>,
    index: Multiset<IndexRow>,
    m: MessageView,
)
    requires
        in_step(messages, index),
        !messages.contains_key(m.id),
    ensures
        in_step(messages.insert(m.id, row_of(m)), index.insert(index_row_of(m))),
{
    broadcast use vstd::multiset::group_multiset_axioms;

    message_survives_storage(m);
    lemma_kinds_are_not_doc(m.kind);
    let after = messages.insert(m.id, row_of(m));
    let rows = index.insert(index_row_of(m));
    assert(index.count(index_row_of(m)) == 0);
    assert forall|id: Seq<char>| #[trigger] after.contains_key(id) implies after[id].id == id
        && rows.count(index_row_of(message_of(after[id]))) == 1 by {
        if id != m.id {
            assert(messages.contains_key(id));
            assert(index_row_of(message_of(messages[id])).ref_id == id);
        }
    }
}

/// Indexing a document keeps the cache in step.
pub proof fn document_keeps_step(
    messages: Map<Seq<char>, MessageRow>,
    index: Multiset<IndexRow>,
    path: Seq<char>,
    body: Seq<char>,
)
    requires
        in_step(messages, index),
    ensures
        in_step(messages, sql::without_doc(index, path).insert(doc_row(path, body))),
{
    broadcast use vstd::multiset::group_multiset_axioms;

    let rows = sql::without_doc(index, path).insert(doc_row(path, body));
    assert forall|id: Seq<char>| #[trigger] messages.contains_key(id) implies messages[id].id == id
        && rows.count(index_row_of(message_of(messages[id]))) == 1 by {
        lemma_kinds_are_not_doc(message_of(messages[id]).kind);
    }
}

/// No message and no document comes twice in what a search finds.
pub proof fn no_hit_comes_twice(
    messages: Map<Seq<char>, MessageRow>,
    index: Multiset<IndexRow>,
    query: Seq<char>,
    a: IndexRow,
    b: IndexRow,
)
    requires
        in_step(messages, index),
        matching(index, query).count(a) > 0,
        matching(index, query).count(b) > 0,
        a.kind == b.kind,
        a.ref_id == b.ref_id,
    ensures
        a == b,
        matching(index, query).count(a) == 1,
{
    broadcast use vstd::multiset::group_multiset_axioms;

    assert(index.count(a) > 0 && index.count(b) > 0);
    if a.kind != "doc"@ {
        assert(messages.contains_key(a.ref_id));
    }
}

/// A query of two parts finds just what both parts find, if neither part is without
/// anything that can be found.
pub proof fn two_parts_find_what_both_find(
    index: Multiset<IndexRow>,
    a: Seq<char>,
    b: Seq<char>,
    row: IndexRow,
)
    requires
        fts::is_findable(text::words_of(a)),
        fts::is_findable(text::words_of(b)),
    ensures
        matching(index, a + seq![' '] + b).count(row) == (if matching(index, a).count(row) > 0
            && matching(index, b).count(row) > 0 {
            index.count(row)
        } else {
            0
        }),
{
    broadcast use vstd::multiset::group_multiset_axioms;

    text::lemma_words_concat(a, b);
    fts::both_parts_are_held(text::words_of(a), text::words_of(b), row.body);
}

/// Whether a cache holds every message under its own id.
pub open spec fn keyed(rows: Map<Seq<char>, MessageRow>) -> bool {
    forall|id: Seq<char>| #[trigger] rows.contains_key(id) ==> rows[id].id == id
}

/// Storing a new message adds it to what is listed, at its place, and changes nothing
/// else.
pub proof fn new_message_joins_the_listing(
    rows: Map<Seq<char>, MessageRow>,
    row: MessageRow,
    before: Seq<MessageRow>,
    after: Seq<MessageRow>,
) -> (p: int)
    requires
        keyed(rows),
        !rows.contains_key(row.id),
        sql::is_listing(before, rows, None, None),
        sql::is_listing(after, rows.insert(row.id, row), None, None),
    ensures
        0 <= p <= before.len(),
        after == before.insert(p, row),
{
    let more = rows.insert(row.id, row);
    assert(more.contains_key(row.id) && more[row.id] == row);
    assert(after.contains(row));
    let p = choose|p: int| 0 <= p < after.len() && after[p] == row;
    let rest = after.remove(p);
    assert forall|i: int, j: int| 0 <= i < j < rest.len() implies sql::older(
        (#[trigger] rest[i]).ts,
        rest[i].id,
        (#[trigger] rest[j]).ts,
        rest[j].id,
    ) by {
        let x = if i < p {
            i
        } else {
            i + 1
        };
        let y = if j < p {
            j
        } else {
            j + 1
        };
        assert(rest[i] == after[x] && rest[j] == after[y]);
    }
    assert forall|i: int| 0 <= i < rest.len() implies rows.contains_key((#[trigger] rest[i]).id)
        && rows[rest[i].id] == rest[i] by {
        let x = if i < p {
            i
        } else {
            i + 1
        };
        assert(rest[i] == after[x]);
        assert(more.contains_key(after[x].id));
        text::lemma_precedes(row.id, row.id);
        if x < p {
            assert(sql::older(after[x].ts, after[x].id, after[p].ts, after[p].id));
        } else {
            assert(sql::older(after[p].ts, after[p].id, after[x].ts, after[x].id));
        }
        if after[x].id == row.id {
            assert(after[x] == row);
        }
    }
    assert forall|id: Seq<char>| #[trigger] rows.contains_key(id) implies rest.contains(
        rows[id],
    ) by {
        assert(more.contains_key(id) && more[id] == rows[id]);
        let x = choose|x: int| 0 <= x < after.len() && after[x] == rows[id];
        assert(x != p);
        let i = if x < p {
            x
        } else {
            x - 1
        };
        assert(rest[i] == rows[id]);
    }
    listing_is_unique(rest, before, rows, None, None);
    assert(after == rest.insert(p, row));
    p
}

/// Where the database took the writes, storing a message comes to whether its id was
/// unknown. A message that was new joins the list of all messages, in the place of its
/// time and id and as it was given; one that was known changes neither that list nor what
/// can be found. `read` and `reread` are the lists before and after.
pub proof fn accepted_message_joins_the_list(
    before: Store,
    after: Store,
    m: MessageView,
    read: Seq<MessageRow>,
    reread: Seq<MessageRow>,
) -> (p: int)
    requires
        before.owned(),
        keyed(before.messages()),
        upserts(before, after, m),
        took_all(before, after),
        sql::is_listing(read, before.messages(), None, None),
        sql::is_listing(reread, after.messages(), None, None),
    ensures
        keyed(after.messages()),
        upserted(answers(before, after)) == Some(!before.messages().contains_key(m.id)),
        before.messages().contains_key(m.id) <==> exists|i: int|
            0 <= i < read.len() && (#[trigger] messages_of(read)[i]).id == m.id,
        before.messages().contains_key(m.id) ==> after.same_contents(&before)
            && messages_of(reread) == messages_of(read),
        !before.messages().contains_key(m.id) ==> 0 <= p <= read.len() && messages_of(reread)
            == messages_of(read).insert(p, m),
{
    let t = answers(before, after);
    let rows = before.messages();
    assert(t[0] is Some);
    if rows.contains_key(m.id) {
        listing_is_unique(read, reread, rows, None, None);
        assert(read.contains(rows[m.id]));
        let i = choose|i: int| 0 <= i < read.len() && read[i] == rows[m.id];
        assert(messages_of(read)[i].id == m.id);
        0
    } else {
        assert(t[1] is Some);
        let row = row_of(m);
        let p = new_message_joins_the_listing(rows, row, read, reread);
        message_survives_storage(m);
        assert(messages_of(reread) == messages_of(read).insert(p, m));
        assert forall|i: int| 0 <= i < read.len() implies (#[trigger] messages_of(read)[i]).id
            != m.id by {
            assert(messages_of(read)[i].id == read[i].id);
            assert(rows.contains_key(read[i].id));
        }
        p
    }
}

/// Whether one of `hits` is the message or the document with the given kind and id.
pub open spec fn has_hit(hits: Seq<IndexRow>, kind: Seq<char>, ref_id: Seq<char>) -> bool {
    exists|i: int|
        0 <= i < hits.len() && (#[trigger] hits[i]).kind == kind && hits[i].ref_id == ref_id
}

proof fn lemma_hit_is_matching(store: Store, query: Seq<char>, hits: Seq<IndexRow>, row: IndexRow)
    requires
        text::words_of(query).len() > 0,
        finds(store, query, hits),
    ensures
        hits.contains(row) <==> matching(store.index(), query).count(row) > 0,
{
    broadcast use vstd::seq_lib::group_to_multiset_ensures;

    assert(hits.contains(row) <==> hits.to_multiset().count(row) > 0);
}

/// Of two parts of ASCII words, a query of both finds just the messages and documents
/// that each of them finds.
pub proof fn search_for_both_parts(
    store: Store,
    a: Seq<char>,
    b: Seq<char>,
    of_a: Seq<IndexRow>,
    of_b: Seq<IndexRow>,
    of_both: Seq<IndexRow>,
    kind: Seq<char>,
    ref_id: Seq<char>,
)
    requires
        in_step(store.messages(), store.index()),
        fts::are_ascii_words(text::words_of(a)),
        fts::are_ascii_words(text::words_of(b)),
        finds(store, a, of_a),
        finds(store, b, of_b),
        finds(store, a + seq![' '] + b, of_both),
    ensures
        has_hit(of_both, kind, ref_id) <==> has_hit(of_a, kind, ref_id) && has_hit(
            of_b,
            kind,
            ref_id,
        ),
{
    broadcast use vstd::multiset::group_multiset_axioms;

    let index = store.index();
    let ab = a + seq![' '] + b;
    text::lemma_words_concat(a, b);
    assert forall|row: IndexRow|
        #![trigger of_both.contains(row)]
        #![trigger of_a.contains(row), of_b.contains(row)]
        of_both.contains(row) <==> of_a.contains(row) && of_b.contains(row) by {
        lemma_hit_is_matching(store, a, of_a, row);
        lemma_hit_is_matching(store, b, of_b, row);
        lemma_hit_is_matching(store, ab, of_both, row);
        two_parts_find_what_both_find(index, a, b, row);
    }
    if has_hit(of_both, kind, ref_id) {
        let i = choose|i: int|
            0 <= i < of_both.len() && (#[trigger] of_both[i]).kind == kind && of_both[i].ref_id
                == ref_id;
        let row = of_both[i];
        assert(of_both.contains(row));
        assert(of_a.contains(row) && of_b.contains(row));
        let j = choose|j: int| 0 <= j < of_a.len() && of_a[j] == row;
        let k = choose|k: int| 0 <= k < of_b.len() && of_b[k] == row;
        assert(of_a[j].kind == kind && of_b[k].kind == kind);
    }
    if has_hit(of_a, kind, ref_id) && has_hit(of_b, kind, ref_id) {
        let j = choose|j: int|
            0 <= j < of_a.len() && (#[trigger] of_a[j]).kind == kind && of_a[j].ref_id == ref_id;
        let k = choose|k: int|
            0 <= k < of_b.len() && (#[trigger] of_b[k]).kind == kind && of_b[k].ref_id == ref_id;
        assert(of_a.contains(of_a[j]) && of_b.contains(of_b[k]));
        lemma_hit_is_matching(store, a, of_a, of_a[j]);
        lemma_hit_is_matching(store, b, of_b, of_b[k]);
        assert(index.count(of_a[j]) > 0 && index.count(of_b[k]) > 0);
        if kind != "doc"@ {
            assert(store.messages().contains_key(ref_id));
        }
        assert(of_a[j] == of_b[k]);
        assert(of_both.contains(of_a[j]));
        let i = choose|i: int| 0 <= i < of_both.len() && of_both[i] == of_a[j];
        assert(of_both[i].kind == kind);
    }
}

/// What a search finds comes once each: no two hits are the same message or document.
pub proof fn hits_are_distinct(store: Store, query: Seq<char>, hits: Seq<IndexRow>)
    requires
        in_step(store.messages(), store.index()),
        finds(store, query, hits),
    ensures
        forall|i: int, j: int|
            0 <= i < j < hits.len() ==> (#[trigger] hits[i]).kind != (#[trigger] hits[j]).kind
                || hits[i].ref_id != hits[j].ref_id,
{
    broadcast use vstd::seq_lib::group_to_multiset_ensures;
    broadcast use vstd::multiset::group_multiset_axioms;

    assert forall|i: int, j: int| 0 <= i < j < hits.len() implies (#[trigger] hits[i]).kind != (
    #[trigger] hits[j]).kind || hits[i].ref_id != hits[j].ref_id by {
        if hits[i].kind == hits[j].kind && hits[i].ref_id == hits[j].ref_id {
            assert(hits.contains(hits[i]) && hits.contains(hits[j]));
            no_hit_comes_twice(store.messages(), store.index(), query, hits[i], hits[j]);
            let rest = hits.remove(j);
            assert(rest.to_multiset() == hits.to_multiset().remove(hits[j]));
            assert(hits.to_multiset().count(hits[j]) == 1);
            assert(rest.to_multiset().count(hits[j]) == 0);
            assert(rest[i] == hits[j]);
            assert(rest.contains(hits[j]));
        }
    }
}

/// What is indexed for a message holds its whole body, and its tags behind it, so that
/// whatever was said can be found: the indexed text begins with the body, and what follows
/// is nothing where there are no tags, else a space and the tags. The row tells whose
/// message it is, and when it was sent.
pub proof fn whole_message_is_indexed(m: &Message, r: Vec<Scalar>)
    requires
        call_ensures(index_values, (m,), r),
    ensures
        exists|row: IndexRow| #[trigger]
            sql::index_params(row) == scalar::views(r@) && {
                &&& row == index_row_of(m@)
                &&& row.body.take(m.body@.len() as int) == m.body@
                &&& m.tags is None ==> row.body.len() == m.body@.len()
                &&& m.tags is Some ==> row.body.skip(m.body@.len() as int) == seq![' ']
                    + m.tags->0@
                &&& row.ref_id == m.id@
                &&& row.author == Some(m.author@)
                &&& row.ts == Some(m.ts)
                &&& row.source is None
                &&& m.kind == Kind::Human ==> row.kind == "human"@
                &&& m.kind == Kind::Ai ==> row.kind == "ai"@
            },
{
    reveal_strlit(" ");
    let row = index_row_of(m@);
    assert(" "@ == seq![' ']);
    assert(row.body.take(m.body@.len() as int) == m.body@);
    if m.tags is Some {
        assert(m@.tags == Some(m.tags->0@));
        assert(row.body.skip(m.body@.len() as int) == seq![' '] + m.tags->0@);
    } else {
        assert(m@.tags is None);
    }
    assert(sql::index_params(row) == scalar::views(r@));
}

/// What is indexed for a document is its whole text, under its path, which is also where
/// it comes from; it has no author and no time.
pub proof fn whole_document_is_indexed(path: &str, body: &str, r: Vec<Scalar>)
    requires
        call_ensures(doc_values, (path, body), r),
    ensures
        exists|row: IndexRow| #[trigger]
            sql::index_params(row) == scalar::views(r@) && {
                &&& row == doc_row(path@, body@)
                &&& row.body == body@
                &&& row.ref_id == path@
                &&& row.source == Some(path@)
                &&& row.kind == "doc"@
                &&& row.author is None
                &&& row.ts is None
            },
{
    let row = doc_row(path@, body@);
    assert(sql::index_params(row) == scalar::views(r@));
}

/// What is stored of a message are all its seven fields.
pub proof fn whole_message_is_stored(m: &Message, r: Vec<Scalar>)
    requires
        call_ensures(message_values, (m,), r),
    ensures
        exists|row: MessageRow| #[trigger]
            sql::message_params(row) == scalar::views(r@) && {
                &&& row == row_of(m@)
                &&& row.id == m.id@
                &&& row.author == m.author@
                &&& m.kind == Kind::Human ==> row.kind == "human"@
                &&& m.kind == Kind::Ai ==> row.kind == "ai"@
                &&& row.model == m@.model
                &&& row.ts == m.ts
                &&& row.body == m.body@
                &&& row.tags == m@.tags
            },
{
    let row = row_of(m@);
    assert(sql::message_params(row) == scalar::views(r@));
}

/// Without a limit nothing of a time window is left out, and with one just the end is:
/// `get_messages` returns stored messages of the window only, by time and at the same
/// time by id, no two with one id. Where there is no limit, or a negative one, every
/// stored message of the window is among them, however many there are. A limit that is
/// not negative caps their number; a stored message of the window is then left out only
/// where as many as the limit came before it.
pub proof fn window_is_listed_in_full(
    store: &Store,
    range: &TimeRange,
    r: Result<Vec<Message>, StoreError>,
    id: Seq<char>,
)
    requires
        call_ensures(Store::get_messages, (store, range), r),
        store.owned(),
        r is Ok,
    ensures
        forall|i: int|
            0 <= i < r->Ok_0@.len() ==> {
                let m = (#[trigger] r->Ok_0@[i])@;
                &&& store.messages().contains_key(m.id)
                &&& m == message_of(store.messages()[m.id])
                &&& range.start is Some ==> range.start->0 <= m.ts
                &&& range.end is Some ==> m.ts <= range.end->0
            },
        forall|i: int, j: int|
            0 <= i < j < r->Ok_0@.len() ==> {
                let (a, b) = ((#[trigger] r->Ok_0@[i])@, (#[trigger] r->Ok_0@[j])@);
                a.ts < b.ts || (a.ts == b.ts && text::precedes(a.id, b.id))
            },
        range.limit is Some && range.limit->0 >= 0 ==> r->Ok_0@.len() <= range.limit->0,
        store.messages().contains_key(id) && (range.start is Some ==> range.start->0
            <= store.messages()[id].ts) && (range.end is Some ==> store.messages()[id].ts
            <= range.end->0) ==> {
            ||| exists|i: int|
                0 <= i < r->Ok_0@.len() && (#[trigger] r->Ok_0@[i])@ == message_of(
                    store.messages()[id],
                )
            ||| range.limit is Some && r->Ok_0@.len() == range.limit->0 && forall|i: int|
                0 <= i < r->Ok_0@.len() ==> sql::older(
                    (#[trigger] r->Ok_0@[i])@.ts,
                    r->Ok_0@[i]@.id,
                    store.messages()[id].ts,
                    store.messages()[id].id,
                )
        },
{
    let rows = store.messages();
    let ms = r->Ok_0@;
    let all = choose|all: Seq<MessageRow>|
        {
            &&& #[trigger] sql::is_listing(all, rows, range.start, range.end)
            &&& message_views(ms) == sql::capped(messages_of(all), cap(range.limit))
        };
    assert(message_views(ms).len() == ms.len());
    assert(messages_of(all).len() == all.len());
    assert forall|i: int| 0 <= i < ms.len() implies (#[trigger] ms[i])@ == message_of(all[i]) by {
        assert(message_views(ms)[i] == ms[i]@);
        assert(messages_of(all)[i] == message_of(all[i]));
    }
    if rows.contains_key(id) && sql::in_window(rows[id].ts, range.start, range.end) {
        assert(all.contains(rows[id]));
        let k = choose|k: int| 0 <= k < all.len() && all[k] == rows[id];
        if k < ms.len() {
            assert(ms[k]@ == message_of(rows[id]));
        } else {
            assert forall|i: int| 0 <= i < ms.len() implies sql::older(
                (#[trigger] ms[i])@.ts,
                ms[i]@.id,
                rows[id].ts,
                rows[id].id,
            ) by {
                assert(sql::older(all[i].ts, all[i].id, all[k].ts, all[k].id));
            }
        }
    }
}

/// Storing a message keeps all of it, once: where the call says that the message was new,
/// its id was unknown, and now a row with all its fields is stored under it and its whole
/// text is indexed; every other message and index row stays. Where the call says that it
/// was not, the id was known, and nothing has changed.
pub proof fn stored_message_is_kept_whole(
    s: &mut Store,
    m: &Message,
    r: Result<bool, StoreError>,
)
    requires
        call_ensures(Store::upsert_message, (s, m), r),
        old(s).owned(),
        r is Ok,
    ensures
        final(s).owned(),
        r->Ok_0 <==> !old(s).messages().contains_key(m.id@),
        !r->Ok_0 ==> final(s).messages() == old(s).messages() && final(s).index()
            == old(s).index(),
        final(s).messages().contains_key(m.id@),
        r->Ok_0 ==> message_of(final(s).messages()[m.id@]) == m@,
        forall|id: Seq<char>| #[trigger]
            final(s).messages().contains_key(id) <==> old(s).messages().contains_key(id) || id
                == m.id@,
        forall|id: Seq<char>| #[trigger]
            old(s).messages().contains_key(id) ==> final(s).messages()[id]
                == old(s).messages()[id],
        r->Ok_0 ==> exists|row: IndexRow| #[trigger]
            old(s).index().insert(row) == final(s).index() && row.ref_id == m.id@ && row.author
                == Some(m.author@) && row.ts == Some(m.ts) && m.body@.is_prefix_of(row.body),
{
    message_survives_storage(m@);
    let t = answers(*old(s), *final(s));
    assert(t[0] is Some);
    if r->Ok_0 {
        let row = index_row_of(m@);
        assert(row.body.take(m.body@.len() as int) =~= m.body@);
        assert(old(s).index().insert(row) == final(s).index());
    }
}

/// Indexing a document keeps all of it, once: afterwards the index holds just one row of a
/// document under its path, which has the whole text; no message changes, and no index row
/// but that of this document does.
pub proof fn indexed_document_is_kept_whole(
    s: &mut Store,
    path: &str,
    body: &str,
    r: Result<(), StoreError>,
    row: IndexRow,
)
    requires
        call_ensures(Store::index_doc, (s, path, body), r),
        old(s).owned(),
        r is Ok,
    ensures
        final(s).owned(),
        final(s).messages() == old(s).messages(),
        row.kind == "doc"@ && row.ref_id == path@ ==> final(s).index().count(row) == if row.body
            == body@ && row.source == Some(path@) && row.author is None && row.ts is None {
            1nat
        } else {
            0nat
        },
        row.kind != "doc"@ || row.ref_id != path@ ==> final(s).index().count(row)
            == old(s).index().count(row),
{
    accepted_document_replaces_the_old(*old(s), *final(s), path@, body@);
}

/// What the database reads out becomes hits one for one, in its order.
pub proof fn hits_keep_their_order(rows: &Vec<IndexTuple>, r: Vec<SearchHit>, i: int)
    requires
        call_ensures(hits_of, (rows,), r),
    ensures
        r@.len() == rows@.len(),
        0 <= i < rows@.len() ==> r@[i]@ == sql::index_row(rows@[i]),
{
    let views = hit_views(r@);
    assert(views.len() == r@.len());
    if 0 <= i < rows@.len() {
        assert(views[i] == r@[i]@);
    }
}

/// What the database reads out becomes messages one for one, in its order.
pub proof fn messages_keep_their_order(rows: &Vec<MessageTuple>, r: Vec<Message>, i: int)
    requires
        call_ensures(read_messages, (rows,), r),
    ensures
        r@.len() == rows@.len(),
        0 <= i < rows@.len() ==> r@[i]@ == message_of(sql::message_row(rows@[i])),
{
    let views = message_views(r@);
    assert(views.len() == r@.len());
    if 0 <= i < rows@.len() {
        assert(views[i] == r@[i]@);
    }
}

/// What a search finds comes in the order that the index gives, best match first.
proof fn ranking_is_that_of_the_index(store: Store, query: Seq<char>)
    ensures
        store.ranking(query) == sql::ranked(store.conn, fts::escaped(query)),
{
}

} // verus!
