use agent_collab::config::{author_hash, Config, ConfigError, Identity};
use agent_collab::git::Git;
use agent_collab::message::{Kind, Message};
use agent_collab::store::Store;
use agent_collab::sync::{SyncEngine, SyncError};
use agent_collab::vice::client::{build_request, turn_of, ClientSettings, RequestMessage};
use agent_collab::vice::tools::{exec_tool, tool_specs};
use agent_collab::vice::{
    announce, deliver, dispatch, parse_command, run_tool_loop, run_tools, safe_doc_path, tool_ran,
    Convo, Goal, LoopStep, Posting, Step, ToolCall, ToolLoop, ToolResult, Turn, ViceCommand,
    ViceError,
};
use serde_json::Value;
use std::path::PathBuf;

fn json(text: &str) -> Value {
    serde_json::from_str(text).unwrap()
}

fn seed_store() -> Store {
    let mut s = Store::open_in_memory().unwrap();
    s.upsert_message(&Message::new(
        "m1",
        "Alice",
        Kind::Human,
        None,
        100,
        "we need a payment gateway",
    ))
    .unwrap();
    s
}

fn engine() -> SyncEngine {
    let id = Identity {
        name: "Alice".into(),
        email: "alice@example.com".into(),
        author_hash: author_hash("alice@example.com"),
    };
    let repo = PathBuf::from("room");
    SyncEngine::new(repo.clone(), Git::new(repo), Store::open_in_memory().unwrap(), id)
}

fn call(id: &str, name: &str, args: &str) -> ToolCall {
    ToolCall { id: id.into(), name: name.into(), args: json(args) }
}

/// Plays a scripted model against the store. Returns what the conversation came to and
/// how often the model was asked.
fn play(first: LoopStep, store: &Store, script: Vec<Result<Turn, ViceError>>) -> (Result<String, ViceError>, usize) {
    let mut turns = script.into_iter();
    let mut asked = 0;
    let mut step = first;
    loop {
        match step {
            LoopStep::Done(r) => return (r, asked),
            LoopStep::Ask(l) => {
                assert_eq!(l.convo.steps.len(), asked);
                asked += 1;
                let turn = turns
                    .next()
                    .unwrap_or(Err(ViceError::Model("fake script exhausted".into())));
                step = l.answered(turn, store);
            }
        }
    }
}

#[test]
fn loop_runs_real_tool_then_returns_final_text() {
    let store = seed_store();
    let script = vec![
        Ok(Turn::ToolCalls(vec![call("c1", "search_chat", r#"{ "query": "payment" }"#)])),
        Ok(Turn::Final("Based on the chat, you discussed a payment gateway.".into())),
    ];
    let (out, asked) = play(run_tool_loop("sys", "what about payments?", 8), &store, script);
    assert!(out.unwrap().contains("payment gateway"));
    assert_eq!(asked, 2);
}

#[test]
fn a_model_that_never_ends_is_stopped() {
    let store = seed_store();
    let script = || -> Vec<Result<Turn, ViceError>> {
        (0..20).map(|_| Ok(Turn::ToolCalls(vec![call("c", "get_messages", "{}")]))).collect()
    };
    for max in [1usize, 3, 8] {
        let (out, asked) = play(run_tool_loop("s", "u", max), &store, script());
        assert!(matches!(out, Err(ViceError::LoopExhausted)));
        assert_eq!(asked, max);
    }
    let (out, asked) = play(run_tool_loop("s", "u", 0), &store, script());
    assert!(matches!(out, Err(ViceError::LoopExhausted)));
    assert_eq!(asked, 0);
}

#[test]
fn a_failing_tool_or_model_ends_the_conversation() {
    let store = seed_store();
    let script = vec![Ok(Turn::ToolCalls(vec![
        call("c1", "get_messages", "{}"),
        call("c2", "nope", "{}"),
    ]))];
    let (out, _) = play(run_tool_loop("s", "u", 8), &store, script);
    assert!(matches!(out, Err(ViceError::Tool(t)) if t == "unknown tool `nope`"));
    let (out, _) = play(run_tool_loop("s", "u", 8), &store, vec![]);
    assert!(matches!(out, Err(ViceError::Model(t)) if t == "fake script exhausted"));
}

#[test]
fn the_model_sees_its_calls_and_their_answers() {
    let store = seed_store();
    let l = match run_tool_loop("sys", "question", 8) {
        LoopStep::Ask(l) => l,
        LoopStep::Done(_) => panic!("done"),
    };
    let calls = vec![
        call("a", "search_chat", r#"{"query":"gateway"}"#),
        call("b", "get_messages", r#"{"start":200}"#),
    ];
    let l = match l.answered(Ok(Turn::ToolCalls(calls)), &store) {
        LoopStep::Ask(l) => l,
        LoopStep::Done(_) => panic!("done"),
    };
    assert_eq!((l.convo.system.as_str(), l.convo.user.as_str()), ("sys", "question"));
    let step = &l.convo.steps[0];
    assert_eq!(step.calls.len(), 2);
    assert_eq!(step.results[0].id, "a");
    assert!(step.results[0].content.contains("payment gateway"));
    assert_eq!(step.results[1].id, "b");
    assert_eq!(step.results[1].content, "[]");
}

#[test]
fn tools_run_in_order_up_to_the_first_failure() {
    let store = seed_store();
    let calls = vec![call("x", "search_chat", "{}"), call("y", "nope", "{}")];
    match run_tools(&store, &calls) {
        Err(ViceError::Tool(t)) => assert_eq!(t, "search_chat: missing `query`"),
        _ => panic!("ran"),
    }
    assert!(run_tools(&store, &vec![]).unwrap().is_empty());
}

#[test]
fn exec_tool_search_hits_the_store() {
    let store = seed_store();
    let out = exec_tool(&store, "search_chat", &json(r#"{ "query": "payment" }"#)).unwrap();
    assert!(out.contains("payment gateway"));
    assert!(out.contains("m1"));
}

#[test]
fn exec_tool_rejects_unknown_tool() {
    let store = seed_store();
    assert!(exec_tool(&store, "nope", &json("{}")).is_err());
}

#[test]
fn tool_answers_are_json() {
    let mut store = seed_store();
    store.index_doc("docs/p.md", "payment \"plan\"").unwrap();
    let out = exec_tool(&store, "search_chat", &json(r#"{"query":"plan"}"#)).unwrap();
    assert_eq!(
        out,
        r#"[{"ref_id":"docs/p.md","kind":"doc","author":null,"ts":null,"source":"docs/p.md","body":"payment \"plan\""}]"#
    );
    let out = exec_tool(&store, "get_messages", &json("{}")).unwrap();
    assert_eq!(
        out,
        r#"[{"id":"m1","author":"Alice","kind":"human","ts":100,"body":"we need a payment gateway"}]"#
    );
    assert_eq!(exec_tool(&store, "search_chat", &json(r#"{"query":" "}"#)).unwrap(), "[]");
    let two = exec_tool(&store, "search_chat", &json(r#"{"query":"payment"}"#)).unwrap();
    assert_eq!(json(&two).as_array().unwrap().len(), 2);
}

#[test]
fn tool_arguments_of_another_type_do_not_count() {
    let store = seed_store();
    for args in ["{}", "[]", "null", r#"{"query":5}"#, r#"{"query":null}"#, r#""query""#] {
        assert!(matches!(
            exec_tool(&store, "search_chat", &json(args)),
            Err(ViceError::Tool(t)) if t == "search_chat: missing `query`"
        ));
    }
    assert!(matches!(
        exec_tool(&store, "search_chat", &json(r#"{"query":"a\u0000b"}"#)),
        Err(ViceError::Sql(_))
    ));
    let count = |args: &str| {
        let out = exec_tool(&store, "get_messages", &json(args)).unwrap();
        json(&out).as_array().unwrap().len()
    };
    assert_eq!(count(r#"{"start":100,"end":100,"limit":1}"#), 1);
    assert_eq!(count(r#"{"start":101}"#), 0);
    assert_eq!(count(r#"{"end":99}"#), 0);
    assert_eq!(count(r#"{"limit":0}"#), 0);
    assert_eq!(count(r#"{"start":"101","end":5.5,"limit":18446744073709551615}"#), 1);
}

#[test]
fn tools_are_described_with_their_schemas() {
    let specs = tool_specs();
    assert_eq!(specs.len(), 2);
    assert_eq!(specs[0].name, "search_chat");
    assert!(specs[0].description.starts_with("Full-text keyword search over all past chat messages and scribe notes."));
    assert_eq!(
        specs[0].schema,
        json(
            r#"{"type":"object","properties":{"query":{"type":"string","description":"Keywords to search for"}},"required":["query"]}"#
        )
    );
    assert_eq!(specs[1].name, "get_messages");
    assert_eq!(
        specs[1].schema,
        json(
            r#"{"type":"object","properties":{
                "start":{"type":"integer","description":"Earliest ts (inclusive)"},
                "end":{"type":"integer","description":"Latest ts (inclusive)"},
                "limit":{"type":"integer","description":"Max messages to return"}}}"#
        )
    );
}

fn config() -> Config {
    Config {
        provider: "anthropic".into(),
        model: "deepseek-chat".into(),
        base_url: None,
        api_key_env: "DEFINITELY_UNSET_VICE_TEST_KEY".into(),
    }
}

#[test]
fn genai_client_errors_when_key_env_missing() {
    assert!(matches!(ClientSettings::new(&config(), None), Err(ViceError::Config(_))));
}

#[test]
fn a_client_is_set_up_from_the_configuration() {
    let mut cfg = config();
    cfg.base_url = Some("http://localhost/".into());
    let s = ClientSettings::new(&cfg, Some("key".into())).unwrap();
    assert_eq!(s.api_key, "key");
    assert_eq!(s.model, "deepseek-chat");
    assert_eq!(s.base_url.as_deref(), Some("http://localhost/"));
    assert_eq!(s.tools.len(), 2);
}

#[test]
fn a_request_tells_the_whole_conversation_in_order() {
    let result = |id: &str| ToolResult { id: id.into(), content: format!("r{id}") };
    let convo = Convo {
        system: "s".into(),
        user: "u".into(),
        steps: vec![
            Step {
                calls: vec![call("1", "x", "{}"), call("2", "x", "{}")],
                results: vec![result("1"), result("2")],
            },
            Step { calls: vec![call("3", "x", "{}")], results: vec![result("3")] },
        ],
    };
    let told: Vec<String> = build_request(&convo)
        .iter()
        .map(|m| match m {
            RequestMessage::System(t) => format!("system {t}"),
            RequestMessage::User(t) => format!("user {t}"),
            RequestMessage::Calls(c) => {
                format!("calls {}", c.iter().map(|c| c.id.as_str()).collect::<Vec<_>>().join(" "))
            }
            RequestMessage::Response(r) => format!("response {} {}", r.id, r.content),
        })
        .collect();
    assert_eq!(
        told,
        vec![
            "system s", "user u", "calls 1 2", "response 1 r1", "response 2 r2", "calls 3",
            "response 3 r3"
        ]
    );
}

#[test]
fn a_reply_is_a_turn() {
    assert!(matches!(turn_of(vec![], Some("t".into())), Turn::Final(t) if t == "t"));
    assert!(matches!(turn_of(vec![], None), Turn::Final(t) if t.is_empty()));
    match turn_of(vec![call("1", "x", "{}")], Some("t".into())) {
        Turn::ToolCalls(c) => assert_eq!(c.len(), 1),
        Turn::Final(_) => panic!("final"),
    }
}

#[test]
fn parse_verbs() {
    assert_eq!(
        parse_command("what did we decide about auth"),
        ViceCommand::Reply("what did we decide about auth".into())
    );
    assert_eq!(
        parse_command("write notes summary of today"),
        ViceCommand::WriteNotes("summary of today".into())
    );
    assert_eq!(
        parse_command("write design.md the architecture"),
        ViceCommand::Write { path: "design.md".into(), instruction: "the architecture".into() }
    );
    assert_eq!(
        parse_command("writeup the plan"),
        ViceCommand::Reply("writeup the plan".into())
    );
}

#[test]
fn parse_takes_blanks_and_missing_words() {
    assert_eq!(parse_command("  "), ViceCommand::Reply("".into()));
    assert_eq!(
        parse_command(" write \t notes\n  a  b "),
        ViceCommand::WriteNotes("a  b".into())
    );
    assert_eq!(
        parse_command("write"),
        ViceCommand::Write { path: "".into(), instruction: "".into() }
    );
    assert_eq!(
        parse_command("write notes.md"),
        ViceCommand::Write { path: "notes.md".into(), instruction: "".into() }
    );
    assert_eq!(parse_command("Write notes x"), ViceCommand::Reply("Write notes x".into()));
}

#[test]
fn safe_doc_path_guards_traversal() {
    assert_eq!(safe_doc_path("notes.md").unwrap(), "docs/notes.md");
    assert_eq!(safe_doc_path("docs/x.md").unwrap(), "docs/x.md");
    assert!(safe_doc_path("../etc/passwd").is_err());
    assert!(safe_doc_path("/abs").is_err());
    assert!(safe_doc_path("C:/win").is_err());
}

#[test]
fn refused_paths_are_named() {
    for p in ["a/../b", "..", "\\x", "/", "a:b", "docs/../x"] {
        match safe_doc_path(p) {
            Err(e) => assert_eq!(e.text(), format!("bad doc path: {p}")),
            Ok(_) => panic!("{p}"),
        }
    }
    match safe_doc_path("") {
        Err(e) => assert_eq!(e.text(), "bad doc path: empty path"),
        Ok(_) => panic!("accepted"),
    }
    for p in ["a/b.md", "docs", "./x", "docs/a.b"] {
        let safe = safe_doc_path(p).unwrap();
        assert!(safe.starts_with("docs/"));
        assert_eq!(safe_doc_path(&safe).unwrap(), safe);
    }
}

fn asked(first: &LoopStep) -> (String, String, usize) {
    match first {
        LoopStep::Ask(l) => (l.convo.system.clone(), l.convo.user.clone(), l.left),
        LoopStep::Done(_) => panic!("done"),
    }
}

#[test]
fn commands_become_tasks() {
    let t = dispatch(ViceCommand::Reply("hi".into())).unwrap();
    assert!(matches!(t.goal, Goal::Reply));
    let (system, user, left) = asked(&t.first);
    assert!(system.starts_with("You are @vice, a scribe and memory for two developers planning software. Answer concisely."));
    assert_eq!((user.as_str(), left), ("hi", 8));

    let t = dispatch(ViceCommand::WriteNotes("sum up".into())).unwrap();
    assert!(matches!(&t.goal, Goal::Doc { path } if path == "docs/notes.md"));
    let (system, user, left) = asked(&t.first);
    assert!(system.contains("Produce the FULL markdown document body requested — no preamble"));
    assert_eq!((user.as_str(), left), ("sum up", 8));

    let write = |path: &str| dispatch(ViceCommand::Write { path: path.into(), instruction: "x".into() });
    assert!(matches!(&write("d.md").unwrap().goal, Goal::Doc { path } if path == "docs/d.md"));
    assert!(matches!(write("../d.md"), Err(ViceError::BadPath(p)) if p == "../d.md"));
    assert!(matches!(write(""), Err(ViceError::BadPath(p)) if p == "empty path"));
}

#[test]
fn reply_posts_ai_message_tagged_with_model() {
    let e = engine();
    match deliver(&Goal::Reply, "noted", "deepseek-chat", &e).unwrap() {
        Posting::Send(step) => {
            assert_eq!(step.message.kind, Kind::Ai);
            assert_eq!(step.message.body, "noted");
            assert_eq!(step.message.model.as_deref(), Some("deepseek-chat"));
            assert_eq!(step.message.author, "Alice");
        }
        Posting::Write(_) => panic!("written"),
    }
}

#[test]
fn write_notes_creates_then_overwrites_and_indexes() {
    let mut e = engine();
    for (text, found, gone) in [
        ("# Notes\nWe will use postgres.", "postgres", "sqlite"),
        ("# Notes\nWe switched to sqlite.", "sqlite", "postgres"),
    ] {
        let task = dispatch(ViceCommand::WriteNotes("first".into())).unwrap();
        let (out, _) = play(task.first, e.store(), vec![Ok(Turn::Final(text.into()))]);
        match deliver(&task.goal, &out.unwrap(), "fake", &e).unwrap() {
            Posting::Write(step) => {
                assert_eq!(step.path, "docs/notes.md");
                assert_eq!(step.body, text);
                e.written(step, Ok(())).unwrap();
            }
            Posting::Send(_) => panic!("sent"),
        }
        assert_eq!(e.store().search_chat(found).unwrap().len(), 1);
        assert!(e.store().search_chat(gone).unwrap().is_empty());
    }
    let note = announce("docs/notes.md", "fake", &e).unwrap();
    assert_eq!(note.message.body, "wrote docs/notes.md");
    assert_eq!(note.message.kind, Kind::Ai);
    assert_eq!(note.message.model.as_deref(), Some("fake"));
}

#[test]
fn errors_of_the_scribe_say_what_happened() {
    assert_eq!(ViceError::Tool("t".into()).text(), "tool error: t");
    assert_eq!(ViceError::LoopExhausted.text(), "@vice gave up after too many tool calls");
    assert_eq!(ViceError::from(SyncError::PushRejected).text(), "push still rejected after retries");
    assert_eq!(ViceError::Sql("s".into()).text(), "sqlite: s");
    assert_eq!(ViceError::Json("j".into()).text(), "json: j");
    assert_eq!(ViceError::Model("m".into()).text(), "model error: m");
    assert_eq!(ViceError::Config(ConfigError::Io("i".into())).text(), "config io error: i");
}

#[test]
fn the_first_failure_is_reported_in_the_last_turn_too() {
    let store = seed_store();
    let calls = || vec![
        call("a", "get_messages", "{}"),
        call("b", "search_chat", "{}"),
        call("c", "nope", "{}"),
    ];
    for max in [1usize, 2] {
        let (out, asked) = play(run_tool_loop("s", "u", max), &store, vec![Ok(Turn::ToolCalls(calls()))]);
        assert!(matches!(out, Err(ViceError::Tool(t)) if t == "search_chat: missing `query`"));
        assert_eq!(asked, 1);
    }
}

#[test]
fn the_answer_of_the_listing_reads_back() {
    let mut store = seed_store();
    store
        .upsert_message(&Message::new("m2", "B", Kind::Ai, Some("x".into()), 50, "a \"q\"\n#tag"))
        .unwrap();
    let out = exec_tool(&store, "get_messages", &json("{}")).unwrap();
    let read: Vec<Message> = json(&out)
        .as_array()
        .unwrap()
        .iter()
        .map(|v| Message::from_line(&v.to_string()).unwrap())
        .collect();
    let all = agent_collab::store::TimeRange::default();
    assert_eq!(read, store.get_messages(&all).unwrap());
    assert_eq!(read[0].id, "m2");
}

#[test]
fn a_copied_call_says_the_same() {
    let c = call("a", "search_chat", r#"{"query":["x",1,null]}"#);
    assert_eq!(c.clone(), c);
}

#[test]
fn what_a_tool_came_to_decides_what_is_gathered() {
    let before = || vec![ToolResult { id: "a".into(), content: "1".into() }];
    let c = call("b", "get_messages", "{}");
    let more = tool_ran(before(), &c, Ok("2".into())).unwrap();
    let said: Vec<_> = more.iter().map(|r| (r.id.as_str(), r.content.as_str())).collect();
    assert_eq!(said, vec![("a", "1"), ("b", "2")]);
    assert!(matches!(
        tool_ran(before(), &c, Err(ViceError::Sql("locked".into()))),
        Err(ViceError::Sql(t)) if t == "locked"
    ));
}

#[test]
fn what_the_tools_came_to_decides_what_comes_next() {
    let at = |left: usize| ToolLoop {
        convo: Convo { system: "s".into(), user: "u".into(), steps: vec![] },
        left,
    };
    let calls = || vec![call("b", "get_messages", "{}")];
    let results = || Ok(vec![ToolResult { id: "b".into(), content: "[]".into() }]);
    match at(3).tools_ran(calls(), results()) {
        LoopStep::Ask(l) => {
            assert_eq!((l.left, l.convo.steps.len()), (2, 1));
            assert_eq!((l.convo.system.as_str(), l.convo.user.as_str()), ("s", "u"));
            assert_eq!(l.convo.steps[0].calls, calls());
            assert_eq!(l.convo.steps[0].results[0].content, "[]");
        }
        LoopStep::Done(_) => panic!("done"),
    }
    for left in [0usize, 1] {
        assert!(matches!(
            at(left).tools_ran(calls(), results()),
            LoopStep::Done(Err(ViceError::LoopExhausted))
        ));
    }
    for left in [0usize, 1, 3] {
        assert!(matches!(
            at(left).tools_ran(calls(), Err(ViceError::Sql("locked".into()))),
            LoopStep::Done(Err(ViceError::Sql(t))) if t == "locked"
        ));
    }
}

#[test]
fn the_first_final_word_decides() {
    let store = seed_store();
    let round = || Ok(Turn::ToolCalls(vec![call("c", "get_messages", "{}")]));
    for k in 0usize..5 {
        let script = || -> Vec<Result<Turn, ViceError>> {
            let mut turns: Vec<Result<Turn, ViceError>> = (0..k).map(|_| round()).collect();
            turns.push(Ok(Turn::Final(format!("word {k}"))));
            turns.push(Ok(Turn::Final("too late".into())));
            turns
        };
        for max in 0usize..7 {
            let (out, asked) = play(run_tool_loop("s", "u", max), &store, script());
            if k < max {
                assert_eq!(out.unwrap(), format!("word {k}"));
                assert_eq!(asked, k + 1);
            } else {
                assert!(matches!(out, Err(ViceError::LoopExhausted)));
                assert_eq!(asked, max);
            }
        }
    }
}
