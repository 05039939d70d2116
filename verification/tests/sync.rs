use agent_collab::config::{author_hash, Identity};
use agent_collab::git::{Git, GitError, GitOutput, GitRun, PushOutcome};
use agent_collab::merge::{collect, sort_oldest_first, ChatLog};
use agent_collab::message::{Kind, Message};
use agent_collab::store::{Store, StoreError, TimeRange};
use agent_collab::sync::{is_log, log_records, now_ts, timestamp, SyncEngine, SyncError};
use std::collections::BTreeMap;
use std::path::PathBuf;

fn engine(name: &str, email: &str) -> SyncEngine {
    let id = Identity {
        name: name.to_string(),
        email: email.to_string(),
        author_hash: author_hash(email),
    };
    SyncEngine::new(
        PathBuf::from("room"),
        Git::new(PathBuf::from("room")),
        Store::open_in_memory().unwrap(),
        id,
    )
}

fn ok() -> GitRun {
    Ok(GitOutput { success: true, code: Some(0), stdout: vec![], stderr: vec![] })
}

fn failed() -> GitRun {
    Ok(GitOutput { success: false, code: Some(1), stdout: vec![], stderr: b" no \n".to_vec() })
}

/// The logs of a room, as every peer sees them.
type Logs = BTreeMap<String, String>;

/// Sends a message and appends its line to the shared logs.
fn send(e: &mut SyncEngine, logs: &mut Logs, body: &str, kind: Kind, model: Option<&str>) -> Message {
    let step = e.send(body, kind, model.map(str::to_owned)).unwrap();
    logs.entry(step.file.clone()).or_default().push_str(&format!("{}\n", step.line));
    let add = e.appended(step, Ok(())).unwrap();
    let push = add.ran(ok()).unwrap().ran(ok()).unwrap();
    push.pushed(Ok(PushOutcome::Pushed)).unwrap()
}

fn read(line: &str) -> Option<Message> {
    Message::from_line(line)
}

fn chat_log(text: &str) -> ChatLog {
    ChatLog::Lines(log_records(text).iter().map(|l| read(l)).collect())
}

fn poll(e: &mut SyncEngine, logs: &Logs) -> Vec<Message> {
    let all: Vec<ChatLog> = logs.values().map(|t| chat_log(t)).collect();
    let (warning, news) = e.poll(Ok(()), &all);
    assert!(warning.is_none());
    news.unwrap()
}

#[test]
fn a_sends_b_receives_exactly_once() {
    let mut logs = Logs::new();
    let mut a = engine("Alice", "alice@example.com");
    let mut b = engine("Bob", "bob@example.com");
    send(&mut a, &mut logs, "hello from A", Kind::Human, None);

    let new = poll(&mut b, &logs);
    assert_eq!(new.len(), 1);
    assert_eq!(new[0].body, "hello from A");
    assert_eq!(new[0].author, "Alice");
    assert_eq!(new[0].kind, Kind::Human);
    assert!(poll(&mut b, &logs).is_empty());
}

#[test]
fn interleaved_sends_no_loss_no_dup() {
    let mut logs = Logs::new();
    let mut a = engine("Alice", "alice@example.com");
    let mut b = engine("Bob", "bob@example.com");
    send(&mut a, &mut logs, "A1", Kind::Human, None);
    send(&mut b, &mut logs, "B1", Kind::Human, None);

    let a_new = poll(&mut a, &logs);
    let b_new = poll(&mut b, &logs);
    assert_eq!(a_new.iter().map(|m| &m.body).collect::<Vec<_>>(), vec!["B1"]);
    assert_eq!(b_new.iter().map(|m| &m.body).collect::<Vec<_>>(), vec!["A1"]);
    assert!(poll(&mut a, &logs).is_empty());
    assert!(poll(&mut b, &logs).is_empty());
    let all = TimeRange::default();
    assert_eq!(a.store().get_messages(&all).unwrap(), b.store().get_messages(&all).unwrap());
}

#[test]
fn ai_message_keeps_model_tag() {
    let mut logs = Logs::new();
    let mut a = engine("Alice", "alice@example.com");
    let mut b = engine("Bob", "bob@example.com");
    send(&mut a, &mut logs, "noted", Kind::Ai, Some("deepseek-chat"));

    let new = poll(&mut b, &logs);
    assert_eq!(new.len(), 1);
    assert_eq!(new[0].kind, Kind::Ai);
    assert_eq!(new[0].model.as_deref(), Some("deepseek-chat"));
}

#[test]
fn malformed_jsonl_line_is_skipped() {
    let mut b = engine("Bob", "bob@example.com");
    let good = r#"{"id":"x1","author":"Alice","kind":"human","ts":5,"body":"real msg"}"#;
    let log = chat_log(&format!("{good}\nnot json at all\n{{\"id\":\"x2\",\"aut"));
    let new = b.reconcile(&vec![log]).unwrap();
    assert_eq!(new.len(), 1);
    assert_eq!(new[0].id, "x1");
}

fn msg(id: &str, ts: i64) -> Message {
    Message::new(id, "x", Kind::Human, None, ts, id)
}

#[test]
fn news_comes_oldest_first_from_all_logs() {
    let mut e = engine("A", "a@x");
    let logs = vec![
        ChatLog::Lines(vec![Some(msg("c", 3)), None, Some(msg("b", 1))]),
        ChatLog::Lines(vec![]),
        ChatLog::Lines(vec![Some(msg("a", 1)), Some(msg("c", 0)), Some(msg("d", -1))]),
    ];
    let news = e.reconcile(&logs).unwrap();
    let got: Vec<(&str, i64)> = news.iter().map(|m| (m.id.as_str(), m.ts)).collect();
    assert_eq!(got, vec![("d", -1), ("a", 1), ("b", 1), ("c", 3)]);
    assert!(e.reconcile(&logs).unwrap().is_empty());
    assert_eq!(e.store().search_chat("c").unwrap().len(), 1);
}

#[test]
fn peers_hold_the_same_in_whatever_order_they_read() {
    let (x, y, z) = (msg("x", 2), msg("y", 2), msg("z", 1));
    let mut a = engine("A", "a@x");
    let mut b = engine("B", "b@x");
    let log = |ms: Vec<&Message>| ChatLog::Lines(ms.into_iter().map(|m| Some(m.clone())).collect());
    a.reconcile(&vec![log(vec![&x, &y]), log(vec![&z])]).unwrap();
    b.reconcile(&vec![log(vec![&z])]).unwrap();
    b.reconcile(&vec![log(vec![&z]), log(vec![&y, &x])]).unwrap();
    let all = TimeRange::default();
    assert_eq!(a.store().get_messages(&all).unwrap(), vec![z, x, y]);
    assert_eq!(a.store().get_messages(&all).unwrap(), b.store().get_messages(&all).unwrap());
}

#[test]
fn a_log_that_cannot_be_read_ends_the_reading() {
    let mut e = engine("A", "a@x");
    let logs = vec![
        ChatLog::Lines(vec![Some(msg("a", 1))]),
        ChatLog::Unreadable("gone".into()),
        ChatLog::Lines(vec![Some(msg("b", 2))]),
    ];
    match e.reconcile(&logs) {
        Err(SyncError::Io(t)) => assert_eq!(t, "gone"),
        _ => panic!("read"),
    }
    let kept = e.store().get_messages(&TimeRange::default()).unwrap();
    assert_eq!(kept, vec![msg("a", 1)]);
}

#[test]
fn a_failed_pull_is_only_a_warning() {
    let mut e = engine("A", "a@x");
    let logs = vec![ChatLog::Lines(vec![Some(msg("a", 1))])];
    let (warning, news) = e.poll(Err(GitError::Spawn("x".into())), &logs);
    assert_eq!(
        warning.as_deref(),
        Some("warning: pull failed (continuing with local state): could not run git (is it on PATH?): x")
    );
    assert_eq!(news.unwrap(), vec![msg("a", 1)]);
}

#[test]
fn a_sent_message_has_an_id_and_a_time_of_its_own() {
    let e = engine("Alice", "alice@example.com");
    let a = e.send("one #tag", Kind::Human, None).unwrap();
    let b = e.send("one #tag", Kind::Human, None).unwrap();
    assert_ne!(a.message.id, b.message.id);
    assert_eq!(a.message.id.len(), 36);
    assert_eq!(a.message.id.matches('-').count(), 4);
    assert_eq!(a.message.id.as_bytes()[14], b'4');
    assert_eq!(a.message.author, "Alice");
    assert_eq!(a.message.tags.as_deref(), Some("tag"));
    assert!(a.message.ts > 1_600_000_000);
    assert_eq!(a.file, format!("{}.jsonl", author_hash("alice@example.com")));
    assert_eq!(read(&a.line), Some(a.message));
}

#[test]
fn sending_goes_through_its_steps() {
    let mut e = engine("Alice", "alice@example.com");
    let m = e.compose("id-1", 7, "hi", Kind::Human, None);
    let step = e.begin_send(m).unwrap();
    assert_eq!(step.line, r#"{"id":"id-1","author":"Alice","kind":"human","ts":7,"body":"hi"}"#);
    let add = e.appended(step, Ok(())).unwrap();
    let path = format!("chat/{}.jsonl", author_hash("alice@example.com"));
    assert_eq!(add.command().argv(), vec!["add".to_owned(), "--".to_owned(), path]);
    assert_eq!(e.store().get_messages(&TimeRange::default()).unwrap().len(), 1);
    let commit = add.ran(ok()).unwrap();
    assert_eq!(commit.command().argv(), vec!["commit", "-m", "msg id-1"]);
    let push = commit.ran(ok()).unwrap();
    let retry = push.retry(e.git());
    assert_eq!((retry.max_attempts, retry.prefer_local), (5, false));
    assert_eq!(push.pushed(Ok(PushOutcome::Pushed)).unwrap().id, "id-1");
}

#[test]
fn sending_fails_where_a_step_fails() {
    let mut e = engine("Alice", "alice@example.com");
    let step = |e: &SyncEngine| e.send("x", Kind::Human, None).unwrap();
    let s = step(&e);
    assert!(matches!(e.appended(s, Err("disk".into())), Err(SyncError::Io(t)) if t == "disk"));
    assert!(e.store().get_messages(&TimeRange::default()).unwrap().is_empty());
    let s = step(&e);
    let err = e.appended(s, Ok(())).unwrap().ran(failed()).err().unwrap();
    assert!(err.text().starts_with("git add -- chat/"));
    let s = step(&e);
    let commit = e.appended(s, Ok(())).unwrap().ran(ok()).unwrap();
    let err = SyncError::from(commit.ran(failed()).err().unwrap());
    assert!(matches!(err, SyncError::Git(GitError::Failed { .. })));
    let outcomes: Vec<(Result<PushOutcome, GitError>, &str)> = vec![
        (Ok(PushOutcome::Rejected), "push still rejected after retries"),
        (Ok(PushOutcome::Failed("f".into())), "push failed: f"),
        (Err(GitError::Spawn("s".into())), "could not run git (is it on PATH?): s"),
    ];
    for (outcome, text) in outcomes {
        let s = step(&e);
        let push = e.appended(s, Ok(())).unwrap().ran(ok()).unwrap().ran(ok()).unwrap();
        assert_eq!(push.pushed(outcome).unwrap_err().text(), text);
    }
}

#[test]
fn a_document_is_indexed_and_wins() {
    let mut e = engine("Alice", "alice@example.com");
    for body in ["alpha word", "beta word"] {
        let step = e.write_doc("docs/n.md", body);
        assert_eq!((step.path.as_str(), step.body.as_str()), ("docs/n.md", body));
        let add = e.written(step, Ok(())).unwrap();
        assert_eq!(add.command().argv(), vec!["add", "--", "docs/n.md"]);
        let commit = add.ran(ok()).unwrap();
        assert_eq!(commit.command().argv(), vec!["commit", "-m", "doc docs/n.md"]);
        let push = commit.ran(ok()).unwrap();
        assert!(push.retry(e.git()).prefer_local);
        push.pushed(Ok(PushOutcome::Pushed)).unwrap();
    }
    assert!(e.store().search_chat("alpha").unwrap().is_empty());
    assert_eq!(e.store().search_chat("beta").unwrap().len(), 1);
    let step = e.write_doc("docs/n.md", "gamma");
    assert!(matches!(e.written(step, Err("disk".into())), Err(SyncError::Io(_))));
    assert!(e.store().search_chat("gamma").unwrap().is_empty());
}

#[test]
fn an_appended_line_is_one_record() {
    let e = engine("A", "a@x");
    let mut log = String::new();
    let mut want: Vec<String> = Vec::new();
    for body in ["one", "two\nlines\r\n", "  {\"id\":1}  "] {
        let step = e.send(body, Kind::Human, None).unwrap();
        log.push_str(&format!("{}\n", step.line));
        want.push(step.line);
        assert_eq!(log_records(&log), want);
    }
    assert_eq!(log_records("\n a \n\n\t\nb"), vec!["a", "b"]);
}

#[test]
fn logs_are_known_by_their_extension() {
    assert!(is_log(Some("jsonl")));
    assert!(!is_log(Some("json")));
    assert!(!is_log(None));
}

#[test]
fn time_counts_from_the_epoch() {
    assert_eq!(timestamp(Some(42)), 42);
    assert_eq!(timestamp(None), 0);
    assert!(now_ts() > 1_600_000_000);
}

#[test]
fn sorting_keeps_every_message() {
    let ms = vec![msg("b", 2), msg("a", 2), msg("c", 1), msg("a", 2)];
    let sorted = sort_oldest_first(&ms);
    assert_eq!(sorted, vec![msg("c", 1), msg("a", 2), msg("a", 2), msg("b", 2)]);
    assert!(sort_oldest_first(&vec![]).is_empty());
}

#[test]
fn errors_of_the_exchange_say_what_happened() {
    assert_eq!(SyncError::Io("i".into()).text(), "io: i");
    assert_eq!(SyncError::Json("j".into()).text(), "json: j");
    assert_eq!(SyncError::from(StoreError::Sqlite("s".into())).text(), "sqlite: s");
}

#[test]
fn an_engine_hands_out_what_it_was_made_of() {
    let e = engine("Alice", "alice@example.com");
    assert_eq!(e.identity().name, "Alice");
    assert_eq!(e.repo(), &PathBuf::from("room"));
    assert_eq!(e.git().repo(), &PathBuf::from("room"));
}

#[test]
fn authors_write_to_logs_of_their_own() {
    let a = engine("Alice", "alice@example.com").send("x", Kind::Human, None).unwrap();
    let b = engine("Bob", "bob@example.com").send("x", Kind::Human, None).unwrap();
    assert_ne!(a.file, b.file);
}

#[test]
fn what_came_of_storing_a_message_decides_what_joins_the_news() {
    let mut fresh = vec![msg("a", 1)];
    assert!(collect(&mut fresh, &msg("b", 2), Ok(true)).is_ok());
    assert!(collect(&mut fresh, &msg("c", 3), Ok(false)).is_ok());
    assert!(matches!(
        collect(&mut fresh, &msg("d", 4), Err(StoreError::Sqlite("locked".into()))),
        Err(StoreError::Sqlite(t)) if t == "locked"
    ));
    assert_eq!(fresh, vec![msg("a", 1), msg("b", 2)]);
}

#[test]
fn looking_again_brings_nothing() {
    let mut e = engine("Bob", "bob@example.com");
    let look = || vec![
        ChatLog::Lines(vec![Some(msg("b", 5)), None, Some(msg("a", 5))]),
        ChatLog::Lines(vec![Some(msg("c", 1)), Some(msg("b", 9))]),
    ];
    let news = e.reconcile(&look()).unwrap();
    assert_eq!(news, vec![msg("c", 1), msg("a", 5), msg("b", 5)]);
    assert!(e.reconcile(&look()).unwrap().is_empty());
    let held = e.store().get_messages(&TimeRange::default()).unwrap();
    assert_eq!(held, news);
    for m in &news {
        assert_eq!(e.store().search_chat(&m.body).unwrap().len(), 1);
    }
}

#[test]
fn what_was_sent_never_comes_back() {
    let mut e = engine("Alice", "alice@example.com");
    let mut logs = Logs::new();
    let mine = send(&mut e, &mut logs, "first", Kind::Human, None);
    for round in 0..3 {
        send(&mut e, &mut logs, &format!("more {round}"), Kind::Human, None);
        let doc = e.write_doc("docs/a.md", "text");
        e.written(doc, Ok(())).unwrap();
        assert!(poll(&mut e, &logs).is_empty());
    }
    let held = e.store().get_messages(&TimeRange::default()).unwrap();
    assert_eq!(held.iter().filter(|m| m.id == mine.id).count(), 1);
    assert_eq!(held.len(), 4);
}

#[test]
fn a_database_that_fails_ends_the_look() {
    let place = PathBuf::from("file:failing_look?mode=memory&cache=shared");
    let store = Store::open(&place).unwrap();
    let id = Identity { name: "A".into(), email: "a@b.c".into(), author_hash: author_hash("a@b.c") };
    let mut e = SyncEngine::new(PathBuf::from("room"), Git::new(PathBuf::from("room")), store, id);
    let look = |ids: &[&str]| vec![
        ChatLog::Lines(ids.iter().map(|id| Some(msg(id, 1))).collect()),
        ChatLog::Unreadable("gone".into()),
    ];
    assert!(matches!(e.reconcile(&look(&["a"])), Err(SyncError::Io(t)) if t == "gone"));

    let other = rusqlite::Connection::open(&place).unwrap();
    other.execute_batch("DROP TABLE search").unwrap();
    assert!(matches!(e.reconcile(&look(&["a", "b", "c"])), Err(SyncError::Sql(_))));
    let held = e.store().get_messages(&TimeRange::default()).unwrap();
    assert_eq!(held, vec![msg("a", 1), msg("b", 1)]);
    assert!(matches!(e.reconcile(&look(&["a", "b"])), Err(SyncError::Io(_))));
    let doc = e.write_doc("docs/a.md", "text");
    assert!(matches!(e.written(doc, Ok(())), Err(SyncError::Sql(_))));

    other.execute_batch("DROP TABLE messages").unwrap();
    assert!(matches!(e.reconcile(&look(&["a"])), Err(SyncError::Sql(_))));
    let step = e.begin_send(msg("z", 2)).unwrap();
    assert!(matches!(e.appended(step, Ok(())), Err(SyncError::Sql(_))));
}
