use agent_collab::app::{
    classify_line, on_event, poll_lines, render, sent_line, startup_lines, vice_line, Action,
    Event, Line,
};
use agent_collab::cli::{cloning_note, parse_args, Command};
use agent_collab::config::{author_hash, ConfigError, Identity};
use agent_collab::git::{Git, GitError, PushOutcome};
use agent_collab::message::{Kind, Message};
use agent_collab::session::{
    collab_branch, derive_clone_dir, ensure_gitignore, enter, known_identity, share_ignores,
    share_warning, SessionError,
};
use agent_collab::store::{Store, StoreError};
use agent_collab::sync::SyncError;
use agent_collab::vice::{ViceCommand, ViceError};
use std::path::PathBuf;

#[test]
fn classify_routes_vice_and_chat() {
    assert_eq!(
        classify_line("@vice what did we decide"),
        Some(Line::Vice("what did we decide".into()))
    );
    assert_eq!(classify_line("@vice"), Some(Line::Vice("".into())));
    assert_eq!(classify_line("@vice write notes x"), Some(Line::Vice("write notes x".into())));
    assert_eq!(classify_line("@viceroy rules"), Some(Line::Chat("@viceroy rules".into())));
    assert_eq!(classify_line("hello there"), Some(Line::Chat("hello there".into())));
    assert_eq!(classify_line("   "), None);
}

#[test]
fn the_name_of_the_scribe_counts_only_at_the_start() {
    assert_eq!(classify_line("  @vice\t x \n"), Some(Line::Vice("x".into())));
    assert_eq!(classify_line("@vice, hello"), Some(Line::Chat("@vice, hello".into())));
    assert_eq!(classify_line("hello @vice"), Some(Line::Chat("hello @vice".into())));
    assert_eq!(classify_line("@vic"), Some(Line::Chat("@vic".into())));
    assert_eq!(classify_line("@Vice x"), Some(Line::Chat("@Vice x".into())));
}

#[test]
fn render_human_and_ai() {
    let h = Message::new("i", "Alice", Kind::Human, None, 3661, "hi");
    assert_eq!(render(&h), "[Alice · 01:01] hi");
    let a = Message::new("j", "Bob", Kind::Ai, Some("deepseek".into()), 0, "noted");
    assert_eq!(render(&a), "[Bob/deepseek · 00:00] noted");
}

#[test]
fn the_clock_goes_round() {
    let at = |ts: i64| render(&Message::new("i", "A", Kind::Human, None, ts, ""));
    assert_eq!(at(86_399), "[A · 23:59] ");
    assert_eq!(at(86_400), "[A · 00:00] ");
    assert_eq!(at(-1), "[A · 23:59] ");
    assert_eq!(at(1_700_000_000), "[A · 22:13] ");
    assert_eq!(at(i64::MIN), "[A · 08:29] ");
    assert_eq!(at(i64::MAX), "[A · 15:30] ");
}

#[test]
fn events_lead_to_actions() {
    let typed = |line: &str, vice: bool| on_event(Event::Typed(line.into()), vice);
    assert!(matches!(on_event(Event::Closed, true), Action::Quit));
    assert!(matches!(on_event(Event::Tick, false), Action::Poll));
    assert!(matches!(typed(" ", true), Action::Nothing));
    assert!(matches!(typed(" hi ", true), Action::Send(b) if b == "hi"));
    assert!(matches!(
        typed("@vice write notes x", true),
        Action::Ask(ViceCommand::WriteNotes(i)) if i == "x"
    ));
    assert!(matches!(
        typed("@vice q", false),
        Action::Print(t) if t == "@vice disabled — add .vice.toml to enable\n"
    ));
}

#[test]
fn outcomes_are_shown() {
    let m = Message::new("i", "A", Kind::Human, None, 0, "x");
    assert_eq!(sent_line(&Ok(m.clone())), "[A · 00:00] x\n");
    assert_eq!(sent_line(&Err(SyncError::Io("e".into()))), "send failed: io: e\n");
    assert_eq!(vice_line(&Ok(m.clone())), "[A · 00:00] x\n");
    assert_eq!(vice_line(&Err(ViceError::Model("e".into()))), "@vice error: model error: e\n");
    assert_eq!(poll_lines(&Ok(vec![m.clone(), m.clone()])), vec!["[A · 00:00] x\n"; 2]);
    assert!(poll_lines(&Ok(vec![])).is_empty());
    assert_eq!(poll_lines(&Err(SyncError::PushRejected)), vec!["poll error: push still rejected after retries\n"]);
    assert_eq!(
        startup_lines(&Ok(vec![m])),
        vec!["[A · 00:00] x\n", "— caught up (1 message(s)) —\n"]
    );
    assert_eq!(startup_lines(&Ok(vec![])), vec!["— caught up (0 message(s)) —\n"]);
    assert_eq!(startup_lines(&Err(SyncError::Io("e".into()))), vec!["startup poll error: io: e\n"]);
}

#[test]
fn derive_clone_dir_strips_git_suffix() {
    assert_eq!(derive_clone_dir("https://github.com/foo/bar.git"), "bar");
    assert_eq!(derive_clone_dir("git@github.com:foo/baz.git"), "baz");
    assert_eq!(derive_clone_dir("https://x/y/repo/"), "repo");
    assert_eq!(derive_clone_dir("/local/path/room"), "room");
}

#[test]
fn a_clone_directory_is_a_single_name() {
    assert_eq!(derive_clone_dir("host:room.git"), "room");
    assert_eq!(derive_clone_dir("a/b.git//"), "b");
    assert_eq!(derive_clone_dir("room.git.git"), "room.git");
    assert_eq!(derive_clone_dir("room"), "room");
    assert_eq!(derive_clone_dir("///"), "");
    assert_eq!(derive_clone_dir("x/.git"), "");
}

#[test]
fn ensure_gitignore_creates_then_is_idempotent() {
    let (gi, changed) = ensure_gitignore("");
    assert!(changed);
    assert!(!ensure_gitignore(&gi).1);
    assert!(gi.contains("chat.db"));
    assert!(gi.contains(".vice.toml"));
    assert_eq!(gi, "chat.db\nchat.db-*\n*.sqlite\n.vice.toml\n");
}

#[test]
fn what_was_left_out_before_stays_left_out() {
    assert_eq!(
        ensure_gitignore("target"),
        ("target\nchat.db\nchat.db-*\n*.sqlite\n.vice.toml\n".to_owned(), true)
    );
    assert_eq!(
        ensure_gitignore(" chat.db \r\n.vice.toml\r"),
        (" chat.db \r\n.vice.toml\r\nchat.db-*\n*.sqlite\n".to_owned(), true)
    );
    let all = "*.sqlite\n.vice.toml\nchat.db-*\nchat.db";
    assert_eq!(ensure_gitignore(all), (all.to_owned(), false));
    assert_eq!(ensure_gitignore("# chat.db\n").0, "# chat.db\nchat.db\nchat.db-*\n*.sqlite\n.vice.toml\n");
}

#[test]
fn a_room_has_a_branch_of_its_own() {
    assert_eq!(collab_branch("topic"), "collab/topic");
    let git = Git::new(PathBuf::from("room"));
    assert!(git.ensure_branch(&collab_branch("-x")).is_ok());
}

#[test]
fn changed_ignores_are_shared() {
    let add = share_ignores();
    assert_eq!(add.command().argv(), vec!["add", "--", ".gitignore"]);
    assert_eq!(add.message, "chore: ignore local cache and vice config");
    assert_eq!(
        share_warning(&Ok(PushOutcome::Failed("f".into()))).as_deref(),
        Some("warning: could not push .gitignore: f")
    );
    assert_eq!(share_warning(&Ok(PushOutcome::Pushed)), None);
    assert_eq!(share_warning(&Ok(PushOutcome::Rejected)), None);
    assert_eq!(share_warning(&Err(GitError::Spawn("x".into()))), None);
}

#[test]
fn a_room_is_entered_or_it_is_said_why_not() {
    let id = || Identity { name: "A".into(), email: "a@x".into(), author_hash: author_hash("a@x") };
    let repo = || PathBuf::from("room");
    let e = enter(repo(), Git::new(repo()), id(), Store::open_in_memory()).ok().unwrap();
    assert_eq!(e.identity().email, "a@x");
    assert_eq!(e.repo(), &repo());
    let err = enter(repo(), Git::new(repo()), id(), Err(StoreError::Sqlite("s".into()))).err().unwrap();
    assert_eq!(err.text(), "store: s");
    assert_eq!(known_identity(Ok(id())).unwrap().name, "A");
    let err = known_identity(Err(ConfigError::Identity("no".into()))).unwrap_err();
    assert_eq!(err.text(), "git identity error: no");
    assert_eq!(SessionError::Io("i".into()).text(), "io: i");
    assert_eq!(
        SessionError::from(GitError::Spawn("g".into())).text(),
        "could not run git (is it on PATH?): g"
    );
}

fn args(words: &[&str]) -> Command {
    parse_args(&words.iter().map(|w| (*w).to_owned()).collect())
}

#[test]
fn arguments_are_understood() {
    assert_eq!(
        args(&["p", "join", "https://h/r.git", "t"]),
        Command::Join { url: "https://h/r.git".into(), topic: "t".into(), dir: "r".into() }
    );
    assert_eq!(args(&["p", "start", "t", "more"]), Command::Start { topic: "t".into() });
    assert_eq!(
        args(&["p", "join", "u"]),
        Command::Incomplete("usage: agent-collab join <repo-url> <topic>".into())
    );
    assert_eq!(args(&["p", "start"]), Command::Incomplete("usage: agent-collab start <topic>".into()));
    assert_eq!(args(&["p"]), Command::Unknown);
    assert_eq!(args(&[]), Command::Unknown);
    assert_eq!(args(&["p", "Join", "u", "t"]), Command::Unknown);
    assert_eq!(cloning_note("u", "d"), "cloning u -> d ...");
}
