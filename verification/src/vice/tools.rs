//! The two tools with which a model looks things up: a search over the chat and the
//! documents, and the messages of a time window.

use crate::fts;
use crate::json::{self, Fields, Json};
use crate::message::{self, Message, MessageView};
use crate::scalar::{self, Scalar, ScalarView};
use crate::sql::{self, IndexRow, MessageRow};
use crate::store::{self, SearchHit, Store, TimeRange};
use crate::text;
use crate::vice::ViceError;
use serde_json::Value;
use vstd::prelude::*;

verus! {

/// What the search is described as.
pub const SEARCH_DESCRIPTION: &'static str =
    "Full-text keyword search over all past chat messages and scribe notes. Write your own multi-keyword query; words are AND-ed. Returns the best matches.";

/// What the listing of a time window is described as.
pub const WINDOW_DESCRIPTION: &'static str =
    "Fetch chat messages in a unix-epoch-seconds time window, oldest first. All fields optional.";

/// A tool as it is described to a model.
pub struct ToolSpec {
    pub name: &'static str,
    pub description: &'static str,
    /// The JSON schema of the arguments.
    pub schema: Value,
}

/// The schema of an argument of the given type.
pub open spec fn argument(kind: Seq<char>, description: Seq<char>) -> Json {
    Json::Object(
        seq![("type"@, Json::Text(kind)), ("description"@, Json::Text(description))],
    )
}

/// The schema of the arguments of `search_chat`.
pub open spec fn search_schema() -> Json {
    Json::Object(search_members())
}

/// The members of the schema of `search_chat`.
pub open spec fn search_members() -> Seq<(Seq<char>, Json)> {
    seq![
        ("type"@, Json::Text("object"@)),
        (
            "properties"@,
            Json::Object(seq![("query"@, argument("string"@, "Keywords to search for"@))]),
        ),
        ("required"@, Json::Array(seq![Json::Text("query"@)])),
    ]
}

/// The schema of the arguments of `get_messages`.
pub open spec fn window_schema() -> Json {
    Json::Object(window_members())
}

/// The members of the schema of `get_messages`.
pub open spec fn window_members() -> Seq<(Seq<char>, Json)> {
    seq![
        ("type"@, Json::Text("object"@)),
        (
            "properties"@,
            Json::Object(
                seq![
                    ("start"@, argument("integer"@, "Earliest ts (inclusive)"@)),
                    ("end"@, argument("integer"@, "Latest ts (inclusive)"@)),
                    ("limit"@, argument("integer"@, "Max messages to return"@)),
                ],
            ),
        ),
    ]
}

proof fn lemma_schema_names()
    ensures
        "type"@ != "description"@,
        "type"@ != "properties"@,
        "type"@ != "required"@,
        "properties"@ != "required"@,
        "start"@ != "end"@,
        "start"@ != "limit"@,
        "end"@ != "limit"@,
{
    reveal_strlit("type");
    reveal_strlit("description");
    reveal_strlit("properties");
    reveal_strlit("required");
    reveal_strlit("start");
    reveal_strlit("end");
    reveal_strlit("limit");
    assert("type"@.len() == 4 && "description"@.len() == 11 && "properties"@.len() == 10);
    assert("required"@.len() == 8 && "end"@.len() == 3);
    assert("start"@[0] != "limit"@[0]);
    assert("start"@.len() != "end"@.len() && "end"@.len() != "limit"@.len());
}

/// Whether `specs` describes the two tools.
pub open spec fn describes_tools(specs: Seq<ToolSpec>) -> bool {
    &&& specs.len() == 2
    &&& specs[0].name@ == "search_chat"@
    &&& specs[0].description@ == SEARCH_DESCRIPTION@
    &&& json::value_of(specs[0].schema) == search_schema()
    &&& specs[1].name@ == "get_messages"@
    &&& specs[1].description@ == WINDOW_DESCRIPTION@
    &&& json::value_of(specs[1].schema) == window_schema()
}

/// The schema of an argument.
fn argument_schema(kind: &str, description: &str) -> (r: Value)
    ensures
        json::value_of(r) == argument(kind@, description@),
{
    proof {
        lemma_schema_names();
    }
    let pairs: Vec<(String, Value)> = vec![
        ("type".to_owned(), json::text_value(kind)),
        ("description".to_owned(), json::text_value(description)),
    ];
    assert(json::pairs_of(pairs@) == seq![
        ("type"@, Json::Text(kind@)),
        ("description"@, Json::Text(description@)),
    ]);
    json::object_value(pairs)
}

/// The tools that a model may call.
pub fn tool_specs() -> (r: Vec<ToolSpec>)
    ensures
        describes_tools(r@),
{
    proof {
        lemma_schema_names();
    }
    let search: Vec<(String, Value)> = vec![
        ("query".to_owned(), argument_schema("string", "Keywords to search for")),
    ];
    assert(json::pairs_of(search@) == seq![
        ("query"@, argument("string"@, "Keywords to search for"@)),
    ]);
    let required: Vec<Value> = vec![json::text_value("query")];
    assert(json::values_of(required@) == seq![Json::Text("query"@)]);
    let search: Vec<(String, Value)> = vec![
        ("type".to_owned(), json::text_value("object")),
        ("properties".to_owned(), json::object_value(search)),
        ("required".to_owned(), json::array_value(required)),
    ];
    assert(json::pairs_of(search@) == search_members());
    let window: Vec<(String, Value)> = vec![
        ("start".to_owned(), argument_schema("integer", "Earliest ts (inclusive)")),
        ("end".to_owned(), argument_schema("integer", "Latest ts (inclusive)")),
        ("limit".to_owned(), argument_schema("integer", "Max messages to return")),
    ];
    assert(json::pairs_of(window@) == seq![
        ("start"@, argument("integer"@, "Earliest ts (inclusive)"@)),
        ("end"@, argument("integer"@, "Latest ts (inclusive)"@)),
        ("limit"@, argument("integer"@, "Max messages to return"@)),
    ]);
    let window: Vec<(String, Value)> = vec![
        ("type".to_owned(), json::text_value("object")),
        ("properties".to_owned(), json::object_value(window)),
    ];
    assert(json::pairs_of(window@) == window_members());
    vec![
        ToolSpec {
            name: "search_chat",
            description: SEARCH_DESCRIPTION,
            schema: json::object_value(search),
        },
        ToolSpec {
            name: "get_messages",
            description: WINDOW_DESCRIPTION,
            schema: json::object_value(window),
        },
    ]
}

/// The fields of a hit as a model gets to see it.
pub open spec fn hit_fields(h: IndexRow) -> Seq<(Seq<char>, ScalarView)> {
    seq![
        ("ref_id"@, ScalarView::Text(h.ref_id)),
        ("kind"@, ScalarView::Text(h.kind)),
        ("author"@, scalar::text_or_null(h.author)),
        ("ts"@, scalar::int_or_null(h.ts)),
        ("source"@, scalar::text_or_null(h.source)),
        ("body"@, ScalarView::Text(h.body)),
    ]
}

/// The hits as JSON: an array with an object for each.
pub open spec fn hits_json(hits: Seq<IndexRow>) -> Json {
    Json::Array(hits.map_values(|h: IndexRow| json::record(hit_fields(h))))
}

/// The messages as JSON: an array with an object for each.
pub open spec fn messages_json(ms: Seq<MessageView>) -> Json {
    Json::Array(ms.map_values(|m: MessageView| message::message_record(m)))
}

/// Whether `t` is the text of `answer`, and reads back as it.
pub open spec fn is_text_of(t: Seq<char>, answer: Json) -> bool {
    t == json::json_text(answer) && json::json_read(t) == Some(answer)
}

/// The messages in an answer; `None` for what is no message.
pub open spec fn messages_in(answer: Json) -> Seq<Option<MessageView>> {
    match answer {
        Json::Array(items) => items.map_values(|v: Json| message::message_read(json::members(v))),
        _ => Seq::empty(),
    }
}

/// Whoever reads the answer of the listing gets just those messages back, in their order
/// and with all their fields.
pub proof fn listing_reads_back(t: Seq<char>, ms: Seq<MessageView>)
    requires
        is_text_of(t, messages_json(ms)),
    ensures
        json::json_read(t) matches Some(answer) && messages_in(answer) == ms.map_values(
            |m: MessageView| Some(m),
        ),
{
    let answer = messages_json(ms);
    assert forall|i: int| 0 <= i < ms.len() implies #[trigger] messages_in(answer)[i] == Some(
        ms[i],
    ) by {
        message::message_reads_back(ms[i]);
    }
    assert(messages_in(answer) == ms.map_values(|m: MessageView| Some(m)));
}

/// The fields of a hit as a model gets to see it.
fn fields_of(h: &SearchHit) -> (r: Fields)
    ensures
        json::field_views(r@) == hit_fields(h@),
{
    let r: Fields = vec![
        ("ref_id".to_owned(), Scalar::Text(h.ref_id.clone())),
        ("kind".to_owned(), Scalar::Text(h.kind.clone())),
        ("author".to_owned(), Scalar::of_text(&h.author)),
        ("ts".to_owned(), Scalar::of_int(h.ts)),
        ("source".to_owned(), Scalar::of_text(&h.source)),
        ("body".to_owned(), Scalar::Text(h.body.clone())),
    ];
    assert(json::field_views(r@) == hit_fields(h@));
    r
}

proof fn lemma_hit_names(h: IndexRow)
    ensures
        json::distinct_names(json::record_pairs(hit_fields(h))),
{
    reveal_strlit("ref_id");
    reveal_strlit("kind");
    reveal_strlit("author");
    reveal_strlit("ts");
    reveal_strlit("source");
    reveal_strlit("body");
    let pairs = json::record_pairs(hit_fields(h));
    assert forall|i: int, j: int| 0 <= i < j < pairs.len() implies (#[trigger] pairs[i]).0 != (
    #[trigger] pairs[j]).0 by {
        assert(pairs[i].0[0] != pairs[j].0[0]);
    }
}

/// The answer of the search.
pub fn hits_text(hits: &Vec<SearchHit>) -> (r: Result<String, String>)
    ensures
        r matches Ok(t) && is_text_of(t@, hits_json(store::hit_views(hits@))),
{
    let mut items: Vec<Value> = Vec::new();
    let mut i: usize = 0;
    while i < hits.len()
        invariant
            i == items.len() <= hits.len(),
            forall|j: int|
                0 <= j < i ==> json::value_of(#[trigger] items@[j]) == json::record(
                    hit_fields(hits@[j]@),
                ) && json::is_record(json::value_of(items@[j])),
        decreases hits.len() - i,
    {
        let fields = fields_of(&hits[i]);
        proof {
            lemma_hit_names(hits@[i as int]@);
        }
        items.push(json::record_value(&fields));
        i += 1;
    }
    proof {
        let said = json::values_of(items@);
        assert(Json::Array(said) == hits_json(store::hit_views(hits@))) by {
            assert(said == store::hit_views(hits@).map_values(
                |h: IndexRow| json::record(hit_fields(h)),
            ));
        }
    }
    json::document_text(&json::array_value(items))
}

/// The answer of the listing.
pub fn messages_text(ms: &Vec<Message>) -> (r: Result<String, String>)
    ensures
        r matches Ok(t) && is_text_of(t@, messages_json(store::message_views(ms@))),
{
    let mut items: Vec<Value> = Vec::new();
    let mut i: usize = 0;
    while i < ms.len()
        invariant
            i == items.len() <= ms.len(),
            forall|j: int|
                0 <= j < i ==> json::value_of(#[trigger] items@[j]) == message::message_record(
                    ms@[j]@,
                ) && json::is_record(json::value_of(items@[j])),
        decreases ms.len() - i,
    {
        items.push(ms[i].to_value());
        i += 1;
    }
    proof {
        let said = json::values_of(items@);
        assert(Json::Array(said) == messages_json(store::message_views(ms@))) by {
            assert(said == store::message_views(ms@).map_values(
                |m: MessageView| message::message_record(m),
            ));
        }
    }
    json::document_text(&json::array_value(items))
}

/// Whether `t` is the answer of the search for `query`: it tells of just the messages
/// and documents that match, best match first. A query without words finds nothing.
pub open spec fn answers_search(store: Store, query: Seq<char>, t: Seq<char>) -> bool {
    exists|hits: Seq<IndexRow>|
        {
            &&& is_text_of(t, #[trigger] hits_json(hits))
            &&& text::words_of(query).len() == 0 ==> hits.len() == 0
            &&& store.owned() ==> store::finds(store, query, hits)
        }
}

/// Whether `t` is the answer of the listing of a time window.
pub open spec fn answers_window(
    store: Store,
    start: Option<i64>,
    end: Option<i64>,
    limit: Option<i64>,
    t: Seq<char>,
) -> bool {
    exists|ms: Seq<MessageView>|
        {
            &&& is_text_of(t, #[trigger] messages_json(ms))
            &&& store.owned() ==> exists|all: Seq<MessageRow>|
                {
                    &&& #[trigger] sql::is_listing(all, store.messages(), start, end)
                    &&& ms == sql::capped(store::messages_of(all), store::cap(limit))
                }
        }
}

/// Whether a call of the tool `name` with these arguments may come to `r`.
pub open spec fn tool_outcome(
    store: Store,
    name: Seq<char>,
    args: Json,
    r: Result<String, ViceError>,
) -> bool {
    let given = json::members(args);
    if name == "search_chat"@ {
        match json::text_member(given, "query"@) {
            None => r matches Err(ViceError::Tool(e)) && e@ == "search_chat: missing `query`"@,
            Some(query) => match r {
                Ok(t) => answers_search(store, query, t@),
                Err(ViceError::Sql(e)) => {
                    &&& text::words_of(query).len() > 0
                    &&& store.owned() && !query.contains('\0') ==> !fts::is_syntax_error(e@)
                },
                Err(_) => false,
            },
        }
    } else if name == "get_messages"@ {
        match r {
            Ok(t) => answers_window(
                store,
                json::int_member(given, "start"@),
                json::int_member(given, "end"@),
                json::int_member(given, "limit"@),
                t@,
            ),
            Err(e) => e is Sql,
        }
    } else {
        r matches Err(ViceError::Tool(e)) && e@ == "unknown tool `"@ + name + "`"@
    }
}

/// Runs a tool on the cache. Returns its answer as a JSON text.
pub fn exec_tool(store: &Store, name: &str, args: &Value) -> (r: Result<String, ViceError>)
    ensures
        tool_outcome(*store, name@, json::value_of(*args), r),
{
    if text::same(name, "search_chat") {
        let query = match json::get_text(args, "query") {
            Some(q) => q,
            None => return Err(ViceError::Tool("search_chat: missing `query`".to_owned())),
        };
        let hits = match store.search_chat(query.as_str()) {
            Ok(hits) => hits,
            Err(e) => return Err(ViceError::Sql(e.text())),
        };
        match hits_text(&hits) {
            Ok(t) => {
                assert(is_text_of(t@, hits_json(store::hit_views(hits@))));
                Ok(t)
            },
            Err(e) => Err(ViceError::Json(e)),
        }
    } else if text::same(name, "get_messages") {
        let range = TimeRange {
            start: json::get_int(args, "start"),
            end: json::get_int(args, "end"),
            limit: json::get_int(args, "limit"),
        };
        let ms = match store.get_messages(&range) {
            Ok(ms) => ms,
            Err(e) => return Err(ViceError::Sql(e.text())),
        };
        match messages_text(&ms) {
            Ok(t) => {
                assert(is_text_of(t@, messages_json(store::message_views(ms@))));
                Ok(t)
            },
            Err(e) => Err(ViceError::Json(e)),
        }
    } else {
        Err(ViceError::Tool(text::wrap("unknown tool `", name, "`")))
    }
}

/// The hit that an object with these members tells of, each of them taken by its name;
/// `None` where it tells of none.
pub open spec fn hit_read(members: Map<Seq<char>, Json>) -> Option<IndexRow> {
    match (
        json::text_member(members, "ref_id"@),
        json::text_member(members, "kind"@),
        json::optional_member(members, "author"@),
        json::text_member(members, "body"@),
        json::optional_member(members, "source"@),
    ) {
        (Some(ref_id), Some(kind), Some(author), Some(body), Some(source)) => Some(
            IndexRow {
                ref_id,
                kind,
                author,
                ts: json::int_member(members, "ts"@),
                source,
                body,
            },
        ),
        _ => None,
    }
}

/// A hit reads back from its object. A member that has nothing to say is there, and null.
pub proof fn hit_reads_back(h: IndexRow)
    ensures
        hit_read(json::members(json::record(hit_fields(h)))) == Some(h),
        forall|key: Seq<char>| #[trigger]
            json::members(json::record(hit_fields(h))).contains_key(key) <==> key == "ref_id"@
                || key == "kind"@ || key == "author"@ || key == "ts"@ || key == "source"@ || key
                == "body"@,
        h.ts is None ==> json::members(json::record(hit_fields(h)))["ts"@] is Null,
{
    reveal_strlit("ref_id");
    reveal_strlit("kind");
    reveal_strlit("author");
    reveal_strlit("ts");
    reveal_strlit("source");
    reveal_strlit("body");
    assert("ref_id"@[0] == 'r' && "kind"@[0] == 'k' && "author"@[0] == 'a' && "ts"@[0] == 't'
        && "source"@[0] == 's' && "body"@[0] == 'b');
    let all = json::record_pairs(hit_fields(h));
    reveal_with_fuel(json::by_name, 8);
    assert(all.drop_last().drop_last().drop_last().drop_last().drop_last().drop_last()
        == Seq::<(Seq<char>, Json)>::empty());
}

/// Whoever reads the answer of the search gets the hits back, in their order and with
/// all their fields: who said it, when, where it stands and what it says.
pub proof fn hits_read_back(hits: &Vec<SearchHit>, r: Result<String, String>, i: int)
    requires
        call_ensures(hits_text, (hits,), r),
        0 <= i < hits@.len(),
    ensures
        r is Ok,
        json::json_read(r->Ok_0@) is Some,
        json::json_read(r->Ok_0@)->0 is Array,
        json::json_read(r->Ok_0@)->0->Array_0.len() == hits@.len(),
        ({
            let said = json::members(json::json_read(r->Ok_0@)->0->Array_0[i]);
            let h = hits@[i];
            &&& said.contains_key("ref_id"@) && said["ref_id"@] == Json::Text(h.ref_id@)
            &&& said.contains_key("kind"@) && said["kind"@] == Json::Text(h.kind@)
            &&& said.contains_key("author"@) && match h.author {
                Some(t) => said["author"@] == Json::Text(t@),
                None => said["author"@] == Json::Null,
            }
            &&& said.contains_key("ts"@) && match h.ts {
                Some(n) => said["ts"@] == Json::Int(n as int),
                None => said["ts"@] == Json::Null,
            }
            &&& said.contains_key("source"@) && match h.source {
                Some(t) => said["source"@] == Json::Text(t@),
                None => said["source"@] == Json::Null,
            }
            &&& said.contains_key("body"@) && said["body"@] == Json::Text(h.body@)
        }),
        hit_read(json::members(json::json_read(r->Ok_0@)->0->Array_0[i])) == Some(hits@[i]@),
{
    let views = store::hit_views(hits@);
    let items = json::json_read(r->Ok_0@)->0->Array_0;
    assert(views[i] == hits@[i]@);
    assert(items[i] == json::record(hit_fields(hits@[i]@)));
    hit_reads_back(hits@[i]@);
    let said = json::members(items[i]);
    assert(said.contains_key("ref_id"@) && said.contains_key("author"@) && said.contains_key("ts"@));
}

/// Whoever reads the answer of the listing gets every message back, with all its fields.
pub proof fn messages_read_back(ms: &Vec<Message>, r: Result<String, String>, i: int)
    requires
        call_ensures(messages_text, (ms,), r),
        0 <= i < ms@.len(),
    ensures
        r is Ok,
        json::json_read(r->Ok_0@) is Some,
        json::json_read(r->Ok_0@)->0 is Array,
        json::json_read(r->Ok_0@)->0->Array_0.len() == ms@.len(),
        message::message_read(json::members(json::json_read(r->Ok_0@)->0->Array_0[i])) == Some(
            ms@[i]@,
        ),
{
    let views = store::message_views(ms@);
    assert(views[i] == ms@[i]@);
    message::message_reads_back(ms@[i]@);
}

/// What a model gets to see of a search is just what the search finds: each hit of an
/// answer, read by the names of its fields, is a row of the index that matches the query,
/// and every row that matches is among them.
pub proof fn search_answer_tells_what_matches(
    store: &Store,
    args: &Value,
    r: Result<String, ViceError>,
    query: Seq<char>,
    row: IndexRow,
)
    requires
        call_ensures(exec_tool, (store, "search_chat", args), r),
        json::text_member(json::members(json::value_of(*args)), "query"@) == Some(query),
        store.owned(),
        r is Ok,
    ensures
        json::json_read(r->Ok_0@) is Some,
        json::json_read(r->Ok_0@)->0 is Array,
        ({
            let items = json::json_read(r->Ok_0@)->0->Array_0;
            (exists|i: int|
                0 <= i < items.len() && hit_read(json::members(#[trigger] items[i])) == Some(row))
                <==> text::words_of(query).len() > 0 && store::matching(
                store.index(),
                query,
            ).count(row) > 0
        }),
{
    broadcast use vstd::seq_lib::group_to_multiset_ensures;

    let hits = choose|hits: Seq<IndexRow>|
        {
            &&& is_text_of(r->Ok_0@, #[trigger] hits_json(hits))
            &&& text::words_of(query).len() == 0 ==> hits.len() == 0
            &&& store.owned() ==> store::finds(*store, query, hits)
        };
    let items = json::json_read(r->Ok_0@)->0->Array_0;
    assert(items.len() == hits.len());
    assert forall|i: int| 0 <= i < hits.len() implies hit_read(json::members(#[trigger] items[i]))
        == Some(hits[i]) by {
        hit_reads_back(hits[i]);
    }
    assert(hits.contains(row) <==> hits.to_multiset().count(row) > 0);
    if exists|i: int|
        0 <= i < items.len() && hit_read(json::members(#[trigger] items[i])) == Some(row) {
        let i = choose|i: int|
            0 <= i < items.len() && hit_read(json::members(#[trigger] items[i])) == Some(row);
        assert(hits[i] == row);
    }
    if hits.contains(row) {
        let i = choose|i: int| 0 <= i < hits.len() && hits[i] == row;
        assert(hit_read(json::members(items[i])) == Some(row));
    }
}

/// What a model gets to see of a time window is just what is stored of it: each message of
/// an answer, read by the names of its fields, is stored and lies in the window that the
/// arguments name; and without a limit every stored message of the window is among them.
pub proof fn window_answer_tells_what_is_stored(
    store: &Store,
    args: &Value,
    r: Result<String, ViceError>,
    id: Seq<char>,
)
    requires
        call_ensures(exec_tool, (store, "get_messages", args), r),
        store.owned(),
        r is Ok,
    ensures
        json::json_read(r->Ok_0@) is Some,
        json::json_read(r->Ok_0@)->0 is Array,
        ({
            let given = json::members(json::value_of(*args));
            let start = json::int_member(given, "start"@);
            let end = json::int_member(given, "end"@);
            let limit = json::int_member(given, "limit"@);
            let items = json::json_read(r->Ok_0@)->0->Array_0;
            let rows = store.messages();
            &&& forall|i: int|
                0 <= i < items.len() ==> {
                    let m = message::message_read(json::members(#[trigger] items[i]));
                    &&& m is Some
                    &&& rows.contains_key(m->0.id)
                    &&& m->0 == store::message_of(rows[m->0.id])
                    &&& start is Some ==> start->0 <= m->0.ts
                    &&& end is Some ==> m->0.ts <= end->0
                }
            &&& limit is Some && limit->0 >= 0 ==> items.len() <= limit->0
            &&& rows.contains_key(id) && (start is Some ==> start->0 <= rows[id].ts) && (
            end is Some ==> rows[id].ts <= end->0) && (limit is None || items.len() != limit->0)
                ==> exists|i: int|
                0 <= i < items.len() && message::message_read(json::members(#[trigger] items[i]))
                    == Some(store::message_of(rows[id]))
        }),
{
    reveal_strlit("search_chat");
    reveal_strlit("get_messages");
    assert("search_chat"@.len() != "get_messages"@.len());
    let given = json::members(json::value_of(*args));
    let start = json::int_member(given, "start"@);
    let end = json::int_member(given, "end"@);
    let limit = json::int_member(given, "limit"@);
    let rows = store.messages();
    let t = r->Ok_0@;
    assert(answers_window(*store, start, end, limit, t));
    let ms = choose|ms: Seq<MessageView>|
        {
            &&& is_text_of(t, #[trigger] messages_json(ms))
            &&& store.owned() ==> exists|all: Seq<MessageRow>|
                {
                    &&& #[trigger] sql::is_listing(all, store.messages(), start, end)
                    &&& ms == sql::capped(store::messages_of(all), store::cap(limit))
                }
        };
    let all = choose|all: Seq<MessageRow>|
        {
            &&& #[trigger] sql::is_listing(all, store.messages(), start, end)
            &&& ms == sql::capped(store::messages_of(all), store::cap(limit))
        };
    let items = json::json_read(t)->0->Array_0;
    assert(items.len() == ms.len());
    assert(store::messages_of(all).len() == all.len());
    assert forall|i: int| 0 <= i < items.len() implies message::message_read(
        json::members(#[trigger] items[i]),
    ) == Some(store::message_of(all[i])) by {
        assert(ms[i] == store::messages_of(all)[i]);
        message::message_reads_back(ms[i]);
    }
    if rows.contains_key(id) && sql::in_window(rows[id].ts, start, end) && (limit is None
        || items.len() != limit->0) {
        assert(all.contains(rows[id]));
        let k = choose|k: int| 0 <= k < all.len() && all[k] == rows[id];
        assert(k < items.len());
        assert(message::message_read(json::members(items[k])) == Some(
            store::message_of(rows[id]),
        ));
    }
}

/// A model is told of the two tools under the names by which they are called, and of the
/// arguments under the names by which they are read: of the search, that it needs a query;
/// of the listing, that it needs nothing.
pub proof fn tools_are_described_as_they_are_called(r: Vec<ToolSpec>)
    requires
        call_ensures(tool_specs, (), r),
    ensures
        r@.len() == 2,
        r@[0].name@ == "search_chat"@,
        r@[1].name@ == "get_messages"@,
        ({
            let said = json::members(json::value_of(r@[0].schema));
            &&& said.contains_key("properties"@)
            &&& json::members(said["properties"@]).contains_key("query"@)
            &&& said.contains_key("required"@)
            &&& said["required"@] == Json::Array(seq![Json::Text("query"@)])
        }),
        ({
            let said = json::members(json::value_of(r@[1].schema));
            &&& said.contains_key("properties"@)
            &&& json::members(said["properties"@]).contains_key("start"@)
            &&& json::members(said["properties"@]).contains_key("end"@)
            &&& json::members(said["properties"@]).contains_key("limit"@)
            &&& !said.contains_key("required"@)
        }),
{
    lemma_schema_names();
    reveal_with_fuel(json::by_name, 5);
    let a = search_members();
    let none = Seq::<(Seq<char>, Json)>::empty();
    assert(a.drop_last().drop_last().drop_last() =~= none);
    let b = window_members();
    assert(b.drop_last().drop_last() =~= none);
    let q = seq![("query"@, argument("string"@, "Keywords to search for"@))];
    assert(q.drop_last() =~= none);
    let w = seq![
        ("start"@, argument("integer"@, "Earliest ts (inclusive)"@)),
        ("end"@, argument("integer"@, "Latest ts (inclusive)"@)),
        ("limit"@, argument("integer"@, "Max messages to return"@)),
    ];
    assert(w.drop_last().drop_last().drop_last() =~= none);
    assert(json::by_name(q).contains_key("query"@));
    assert(json::by_name(w).contains_key("start"@));
}

} // verus!
