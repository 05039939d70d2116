use agent_collab::fts::escape_fts_query;
use agent_collab::message::{Kind, Message};
use agent_collab::scalar::Scalar;
use agent_collab::store::{
    doc_values, hits_of, index_values, listed, message_values, read_messages, was_new, SearchHit,
    Store, StoreError, TimeRange,
};
use std::path::PathBuf;

fn msg(id: &str, ts: i64, body: &str) -> Message {
    Message::new(id, "alice", Kind::Human, None, ts, body)
}

fn seed() -> Store {
    let mut s = Store::open_in_memory().unwrap();
    for m in [
        msg("m1", 100, "we should add a payment gateway soon"),
        msg("m2", 200, "the login flow needs work"),
        msg("m3", 300, "refactor the payment retry logic"),
        msg("m4", 400, "lunch?"),
    ] {
        s.upsert_message(&m).unwrap();
    }
    s
}

fn ids(hits: &[SearchHit]) -> Vec<String> {
    hits.iter().map(|h| h.ref_id.clone()).collect()
}

#[test]
fn search_returns_matching_messages_ranked() {
    let s = seed();
    let hits = s.search_chat("payment").unwrap();
    let got = ids(&hits);
    assert!(got.contains(&"m1".to_string()));
    assert!(got.contains(&"m3".to_string()));
    assert!(!got.contains(&"m2".to_string()));
    assert!(!got.contains(&"m4".to_string()));
}

#[test]
fn embedded_quote_does_not_error_and_matches_literal() {
    let mut s = Store::open_in_memory().unwrap();
    s.upsert_message(&msg("q1", 1, "she said hi to everyone")).unwrap();
    let hits = s.search_chat("said \"hi").unwrap();
    assert_eq!(ids(&hits), vec!["q1"]);
}

#[test]
fn multi_word_query_is_and() {
    let s = seed();
    let hits = s.search_chat("payment retry").unwrap();
    assert_eq!(ids(&hits), vec!["m3"]);
}

#[test]
fn empty_query_returns_no_hits() {
    let s = seed();
    assert!(s.search_chat("   ").unwrap().is_empty());
}

#[test]
fn get_messages_over_time_range_in_order() {
    let s = seed();
    let range = TimeRange { start: Some(150), end: Some(350), limit: None };
    let got: Vec<String> = s.get_messages(&range).unwrap().into_iter().map(|m| m.id).collect();
    assert_eq!(got, vec!["m2", "m3"]); // just those in range, by time
}

#[test]
fn upsert_is_idempotent_on_id() {
    let mut s = Store::open_in_memory().unwrap();
    let m = msg("dup", 1, "only once");
    assert!(s.upsert_message(&m).unwrap()); // new
    assert!(!s.upsert_message(&m).unwrap()); // known, nothing happens
    assert_eq!(s.search_chat("only").unwrap().len(), 1);
    assert_eq!(s.get_messages(&TimeRange::default()).unwrap().len(), 1);
}

#[test]
fn scribe_doc_is_searchable_and_marked() {
    let mut s = seed();
    s.index_doc("docs/decisions.md", "decision: use postgres for storage").unwrap();
    let hits = s.search_chat("postgres").unwrap();
    assert_eq!(hits.len(), 1);
    assert_eq!(hits[0].kind, "doc");
    assert_eq!(hits[0].source.as_deref(), Some("docs/decisions.md"));
}

#[test]
fn scribe_doc_reindex_is_update_in_place() {
    let mut s = Store::open_in_memory().unwrap();
    s.index_doc("docs/n.md", "alpha content").unwrap();
    s.index_doc("docs/n.md", "beta content").unwrap(); // the last one wins
    assert!(s.search_chat("alpha").unwrap().is_empty());
    assert_eq!(s.search_chat("beta").unwrap().len(), 1);
}

#[test]
fn hashtag_is_captured_and_searchable() {
    let mut s = Store::open_in_memory().unwrap();
    let m = msg("h1", 1, "lets ship the #urgent fix");
    assert_eq!(m.tags.as_deref(), Some("urgent"));
    s.upsert_message(&m).unwrap();
    assert_eq!(ids(&s.search_chat("urgent").unwrap()), vec!["h1"]);
}

#[test]
fn escape_handles_operators_and_quotes() {
    assert_eq!(escape_fts_query("hi"), "\"hi\"");
    assert_eq!(escape_fts_query("a OR b"), "\"a\" \"OR\" \"b\"");
    assert_eq!(escape_fts_query("say \"hi"), "\"say\" \"\"\"hi\"");
    assert_eq!(escape_fts_query("   "), "");
}

#[test]
fn no_query_is_a_syntax_error() {
    let s = seed();
    for q in ["\"", "(", "a AND", "NOT", "*", "body:x", "-", "^", "\"\"\"", "NEAR(a b)"] {
        assert!(s.search_chat(q).is_ok(), "{q:?}");
    }
    assert!(s.search_chat("payment OR login").unwrap().is_empty());
}

#[test]
fn a_hit_tells_where_it_comes_from() {
    let mut s = Store::open_in_memory().unwrap();
    s.upsert_message(&Message::new("m", "Bob", Kind::Ai, Some("x".into()), 7, "hello #tag")).unwrap();
    s.index_doc("docs/d.md", "hello doc").unwrap();
    let mut hits = s.search_chat("hello").unwrap();
    hits.sort_by(|a, b| a.kind.cmp(&b.kind));
    assert_eq!(hits[0].ref_id, "m");
    assert_eq!(hits[0].kind, "ai");
    assert_eq!(hits[0].author.as_deref(), Some("Bob"));
    assert_eq!(hits[0].ts, Some(7));
    assert_eq!(hits[0].source, None);
    assert_eq!(hits[0].body, "hello #tag tag");
    assert_eq!(hits[1].ref_id, "docs/d.md");
    assert_eq!(hits[1].author, None);
    assert_eq!(hits[1].ts, None);
    assert_eq!(hits[1].body, "hello doc");
}

#[test]
fn a_stored_message_comes_back_as_it_was() {
    let mut s = Store::open_in_memory().unwrap();
    let m = Message::new("i", "A\u{0}", Kind::Ai, Some("m1".into()), i64::MIN, "a #x\n'\"é\u{0}b");
    assert!(s.upsert_message(&m).unwrap());
    assert_eq!(s.get_messages(&TimeRange::default()).unwrap(), vec![m]);
}

#[test]
fn the_first_message_of_an_id_stays() {
    let mut s = Store::open_in_memory().unwrap();
    assert!(s.upsert_message(&msg("x", 1, "first")).unwrap());
    assert!(!s.upsert_message(&msg("x", 2, "second")).unwrap());
    assert_eq!(s.get_messages(&TimeRange::default()).unwrap(), vec![msg("x", 1, "first")]);
    assert!(s.search_chat("second").unwrap().is_empty());
}

#[test]
fn messages_of_one_second_come_in_the_order_of_their_ids() {
    let mut s = Store::open_in_memory().unwrap();
    for id in ["b", "é", "a", "Z", "ab", "\u{10000}", "\u{ffff}"] {
        s.upsert_message(&msg(id, 5, "x")).unwrap();
    }
    s.upsert_message(&msg("zz", 4, "x")).unwrap();
    let all = s.get_messages(&TimeRange::default()).unwrap();
    let got: Vec<&str> = all.iter().map(|m| m.id.as_str()).collect();
    assert_eq!(got, vec!["zz", "Z", "a", "ab", "b", "é", "\u{ffff}", "\u{10000}"]);
}

#[test]
fn a_limit_cuts_the_end_off() {
    let s = seed();
    let count = |limit| {
        s.get_messages(&TimeRange { start: None, end: None, limit }).unwrap().len()
    };
    assert_eq!(count(Some(0)), 0);
    assert_eq!(count(Some(2)), 2);
    assert_eq!(count(Some(9)), 4);
    assert_eq!(count(Some(-3)), 4);
    assert_eq!(count(None), 4);
    let first = s.get_messages(&TimeRange { start: Some(200), end: None, limit: Some(1) }).unwrap();
    assert_eq!(first[0].id, "m2"); // the ends of the window belong to it
}

#[test]
fn a_document_replaces_only_its_own_row() {
    let mut s = Store::open_in_memory().unwrap();
    s.upsert_message(&msg("docs/a.md", 1, "word in chat")).unwrap();
    s.index_doc("docs/a.md", "word one").unwrap();
    s.index_doc("docs/b.md", "word two").unwrap();
    s.index_doc("docs/a.md", "word three").unwrap();
    let mut bodies: Vec<String> = s.search_chat("word").unwrap().into_iter().map(|h| h.body).collect();
    bodies.sort();
    assert_eq!(bodies, vec!["word in chat", "word three", "word two"]);
}

#[test]
fn a_database_file_that_cannot_be_opened_is_an_error() {
    match Store::open(&PathBuf::from("/no/such/directory/chat.db")) {
        Err(e) => {
            assert!(matches!(e, StoreError::Sqlite(_)));
            assert!(e.text().contains("unable to open"));
        }
        Ok(_) => panic!("opened"),
    }
    let mut s = Store::open(&PathBuf::from(":memory:")).unwrap();
    assert!(s.upsert_message(&msg("m", 1, "x")).unwrap());
}

#[test]
fn words_without_letters_are_passed_over() {
    let s = seed();
    assert_eq!(s.search_chat("payment ?").unwrap().len(), 2);
    assert_eq!(s.search_chat("-- payment").unwrap().len(), 2);
    assert!(s.search_chat("? !").unwrap().is_empty());
}

#[test]
fn every_further_word_narrows_the_search() {
    let s = seed();
    assert_eq!(s.search_chat("the").unwrap().len(), 2);
    assert_eq!(ids(&s.search_chat("the payment").unwrap()), vec!["m3"]);
    assert!(s.search_chat("the payment gateway").unwrap().is_empty());
}

#[test]
fn a_query_that_sqlite_cannot_take_is_an_error() {
    let s = seed();
    assert!(matches!(s.search_chat("a\u{0}b"), Err(StoreError::Sqlite(_))));
}

#[test]
fn rows_are_made_of_the_fields() {
    let text = |t: &str| Scalar::Text(t.to_owned());
    let m = Message::new("i", "A", Kind::Ai, Some("m1".into()), 7, "b #t");
    assert_eq!(
        message_values(&m),
        vec![text("i"), text("A"), text("ai"), text("m1"), Scalar::Int(7), text("b #t"), text("t")]
    );
    assert_eq!(
        index_values(&m),
        vec![text("b #t t"), text("ai"), text("A"), Scalar::Int(7), Scalar::Null, text("i")]
    );
    assert_eq!(
        doc_values("docs/d.md", "x"),
        vec![text("x"), text("doc"), Scalar::Null, Scalar::Null, text("docs/d.md"), text("docs/d.md")]
    );
}

#[test]
fn rows_are_read_as_messages_and_hits() {
    let s = |t: &str| t.to_owned();
    let rows = vec![
        (s("a"), s("A"), s("ai"), Some(s("m")), 1, s("x"), None),
        (s("b"), s("B"), s("other"), None, 2, s("y"), Some(s("t"))),
    ];
    let ms = read_messages(&rows);
    assert_eq!(ms[0].kind, Kind::Ai);
    assert_eq!(ms[0].model.as_deref(), Some("m"));
    assert_eq!(ms[1].kind, Kind::Human); // a kind of no known name
    assert_eq!(ms[1].tags.as_deref(), Some("t"));
    let hits = hits_of(&vec![(s("r"), s("doc"), None, None, Some(s("p")), s("z"))]);
    assert_eq!(hits[0].ref_id, "r");
    assert_eq!(hits[0].source.as_deref(), Some("p"));
    assert_eq!(hits[0].body, "z");
}

#[test]
fn what_sqlite_answers_decides_what_is_returned() {
    let failed = || StoreError::Sqlite("e".to_owned());
    assert!(matches!(was_new(Ok(1)), Ok(true)));
    assert!(matches!(was_new(Ok(0)), Ok(false)));
    assert!(matches!(was_new(Err(failed())), Err(StoreError::Sqlite(t)) if t == "e"));
    let s = |t: &str| t.to_owned();
    let rows = vec![(s("a"), s("A"), s("ai"), None, 1, s("x"), None)];
    assert_eq!(listed(Ok(rows)).unwrap()[0].id, "a");
    assert!(matches!(listed(Err(failed())), Err(StoreError::Sqlite(t)) if t == "e"));
}

#[test]
fn two_parts_find_what_both_parts_find() {
    let mut s = seed();
    s.index_doc("docs/p.md", "payment AND login NEAR").unwrap();
    let found = |q: &str| {
        let mut v = ids(&s.search_chat(q).unwrap());
        v.sort();
        v
    };
    assert_eq!(found("payment"), vec!["docs/p.md", "m1", "m3"]);
    assert_eq!(found("login"), vec!["docs/p.md", "m2"]);
    assert_eq!(found("payment login"), vec!["docs/p.md"]);
    assert_eq!(found("payment AND"), vec!["docs/p.md"]);
    assert_eq!(found("NEAR login"), vec!["docs/p.md"]);
}

#[test]
fn the_best_match_comes_first() {
    let mut s = Store::open_in_memory().unwrap();
    s.upsert_message(&msg("far", 1, "one apple among very many other words that say nothing of it")).unwrap();
    s.upsert_message(&msg("near", 2, "apple apple apple")).unwrap();
    s.upsert_message(&msg("none", 3, "pears")).unwrap();
    assert_eq!(ids(&s.search_chat("apple").unwrap()), vec!["near", "far"]);
}

#[test]
fn a_new_message_joins_the_listing_at_its_place() {
    let mut s = seed();
    let all = TimeRange::default();
    let mut want = s.get_messages(&all).unwrap();
    let m = Message::new("m25", "B", Kind::Ai, Some("x".into()), 250, "between #them");
    assert!(s.upsert_message(&m).unwrap());
    want.insert(2, m);
    assert_eq!(s.get_messages(&all).unwrap(), want);
}

#[test]
fn both_parts_of_a_query_are_needed() {
    let mut s = seed();
    s.index_doc("docs/pay.md", "AND the payment, OR the login").unwrap();
    let keys = |q: &str| -> Vec<(String, String)> {
        let mut k: Vec<_> =
            s.search_chat(q).unwrap().into_iter().map(|h| (h.kind, h.ref_id)).collect();
        k.sort();
        k
    };
    for (a, b) in [
        ("payment", "the"),
        ("the", "login"),
        ("AND", "OR"),
        ("OR the", "PAYMENT"),
        ("payment", "nothing"),
        ("NEAR", "payment"),
    ] {
        let (of_a, of_b) = (keys(a), keys(b));
        let both: Vec<_> = of_a.iter().filter(|k| of_b.contains(k)).cloned().collect();
        let found = keys(&format!("{a} {b}"));
        assert_eq!(found, both, "{a} {b}");
        assert!(found.windows(2).all(|w| w[0] != w[1]));
    }
    assert_eq!(keys("AND OR").len(), 1);
}

#[test]
fn only_a_nul_character_makes_a_syntax_error() {
    let s = seed();
    for q in ["\"", "\"\"", "a\" OR \"b", "NEAR(a b)", "body: x", "a*", "^a + b", "( )", "-a", "NOT"] {
        assert!(s.search_chat(q).is_ok(), "{q}");
    }
    assert!(matches!(s.search_chat("a\0b"), Err(StoreError::Sqlite(t)) if t == "unterminated string"));
}

#[test]
fn a_statement_that_fails_is_an_error_and_the_rest_stays() {
    let place = PathBuf::from("file:failing_store?mode=memory&cache=shared");
    let mut s = Store::open(&place).unwrap();
    assert!(s.upsert_message(&msg("m1", 1, "one")).unwrap());
    s.index_doc("docs/a.md", "old").unwrap();
    let other = rusqlite::Connection::open(&place).unwrap();
    other.execute_batch("DROP TABLE search").unwrap();
    assert!(s.upsert_message(&msg("m2", 2, "two")).is_err());
    assert!(!s.upsert_message(&msg("m2", 2, "two")).unwrap());
    assert!(s.index_doc("docs/a.md", "new").is_err());
    assert_eq!(s.get_messages(&TimeRange::default()).unwrap().len(), 2);
    other.execute_batch("DROP TABLE messages").unwrap();
    assert!(s.upsert_message(&msg("m3", 3, "three")).is_err());
}
