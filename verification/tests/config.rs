use agent_collab::config::{
    author_hash, git_config, git_identity_in, identity_commands, Config, ConfigError, ConfigFile,
};
use agent_collab::git::{GitOutput, GitRun};

const GOOD: &str = r#"
        provider = "anthropic"
        model = "deepseek-chat"
        api_key_env = "ANTHROPIC_API_KEY"
    "#;

fn file(body: &str) -> ConfigFile {
    match body.parse::<toml::Table>() {
        Err(e) => ConfigFile::Malformed(e.to_string()),
        Ok(t) => {
            let get = |key: &str| t.get(key).and_then(|v| v.as_str()).map(str::to_owned);
            match (get("provider"), get("model"), get("api_key_env")) {
                (Some(provider), Some(model), Some(api_key_env)) => ConfigFile::Parsed(Config {
                    provider,
                    model,
                    base_url: get("base_url"),
                    api_key_env,
                }),
                _ => ConfigFile::Malformed("missing field".to_owned()),
            }
        }
    }
}

#[test]
fn uses_per_repo_when_present() {
    let per = file(GOOD);
    let glob = file(&GOOD.replace("anthropic", "openai"));
    let c = Config::load_from(per, Some(glob)).unwrap();
    assert_eq!(c.provider, "anthropic"); // the room's own wins
}

#[test]
fn falls_back_to_global_when_per_repo_absent() {
    let glob = file(&GOOD.replace("anthropic", "openai"));
    let c = Config::load_from(ConfigFile::Absent, Some(glob)).unwrap();
    assert_eq!(c.provider, "openai");
}

#[test]
fn errors_when_both_absent() {
    assert!(matches!(
        Config::load_from(ConfigFile::Absent, Some(ConfigFile::Absent)),
        Err(ConfigError::NotFound)
    ));
    assert!(matches!(Config::load_from(ConfigFile::Absent, None), Err(ConfigError::NotFound)));
}

#[test]
fn unknown_keys_do_not_break_parsing() {
    let body = format!("{GOOD}\nfuture_feature = true\nnested = {{ x = 1 }}\n");
    assert!(Config::load_from(file(&body), None).is_ok());
}

#[test]
fn missing_env_var_errors_at_resolve_time() {
    let body = GOOD.replace("ANTHROPIC_API_KEY", "DEFINITELY_NOT_SET_VICE_TEST_VAR");
    let c = Config::load_from(file(&body), None).unwrap();
    match c.resolve_api_key(None) {
        Err(ConfigError::MissingKeyEnv(v)) => assert_eq!(v, "DEFINITELY_NOT_SET_VICE_TEST_VAR"),
        other => panic!("{other:?}"),
    }
    assert_eq!(c.resolve_api_key(Some("k".into())).unwrap(), "k");
}

#[test]
fn a_bad_file_in_the_room_is_not_passed_over() {
    assert!(matches!(
        Config::load_from(ConfigFile::Malformed("m".into()), Some(file(GOOD))),
        Err(ConfigError::Parse(e)) if e == "m"
    ));
    assert!(matches!(
        Config::load_from(ConfigFile::Unreadable("u".into()), Some(file(GOOD))),
        Err(ConfigError::Io(e)) if e == "u"
    ));
    assert!(matches!(
        Config::load_from(ConfigFile::Absent, Some(ConfigFile::Malformed("g".into()))),
        Err(ConfigError::Parse(e)) if e == "g"
    ));
}

#[test]
fn author_hash_is_stable_and_case_insensitive() {
    let a = author_hash("dev@example.com");
    let b = author_hash("dev@example.com");
    let c = author_hash("DEV@example.com  ");
    assert_eq!(a, b);
    assert_eq!(a, c);
    assert_eq!(a.len(), 16);
    assert_ne!(a, author_hash("other@example.com"));
}

#[test]
fn author_hash_is_fnv1a() {
    assert_eq!(author_hash(""), "cbf29ce484222325");
    assert_eq!(author_hash("a"), "af63dc4c8601ec8c");
    assert_eq!(author_hash(" FooBar\n"), "85944171f73967e8");
    for email in ["é@x", "A", "z z"] {
        assert!(author_hash(email).chars().all(|c| c.is_ascii_digit() || ('a'..='f').contains(&c)));
    }
}

fn out(success: bool, stdout: &[u8]) -> GitRun {
    Ok(GitOutput { success, code: Some(if success { 0 } else { 1 }), stdout: stdout.to_vec(), stderr: vec![] })
}

#[test]
fn identity_comes_from_git() {
    let id = git_identity_in(out(true, b"Alice\n"), out(true, b" alice@example.com \n")).unwrap();
    assert_eq!(id.name, "Alice");
    assert_eq!(id.email, "alice@example.com");
    assert_eq!(id.author_hash, author_hash("alice@example.com"));
    let (name, email) = identity_commands();
    assert_eq!(name.argv(), vec!["config", "--get", "user.name"]);
    assert_eq!(email.argv(), vec!["config", "--get", "user.email"]);
}

#[test]
fn a_missing_identity_is_explained() {
    let text = |r: Result<String, ConfigError>| r.unwrap_err().text();
    assert_eq!(
        text(git_config("user.name", Err("nope".into()))),
        "git identity error: git not runnable: nope"
    );
    assert_eq!(
        text(git_config("user.name", out(false, b"x"))),
        "git identity error: `git config --get user.name` failed — is git identity set?"
    );
    assert_eq!(
        text(git_config("user.email", out(true, b" \n"))),
        "git identity error: git user.email is empty"
    );
    assert_eq!(git_config("k", out(true, b"\xff v \n")).unwrap(), "\u{fffd} v");
    let e = git_identity_in(out(false, b""), out(false, b"")).unwrap_err();
    assert!(e.text().contains("user.name"));
    let e = git_identity_in(out(true, b"A"), out(false, b"")).unwrap_err();
    assert!(e.text().contains("user.email"));
}

#[test]
fn configuration_errors_say_what_happened() {
    assert_eq!(
        ConfigError::NotFound.text(),
        "no config found: create .vice.toml in the repo (see .vice.toml.example) or a global config"
    );
    assert_eq!(ConfigError::Parse("p".into()).text(), "config parse error: p");
    assert_eq!(ConfigError::Io("i".into()).text(), "config io error: i");
    assert_eq!(ConfigError::MissingKeyEnv("V".into()).text(), "api key env var `V` is not set");
}
