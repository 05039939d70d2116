use agent_collab::message::{parse_hashtags, Kind, Message};

#[test]
fn hashtags_are_lifted() {
    assert_eq!(parse_hashtags("no tags here"), None);
    assert_eq!(parse_hashtags("ship #payment now"), Some("payment".into()));
    assert_eq!(
        parse_hashtags("#auth and #auth_v2 and #auth"),
        Some("auth auth_v2".into()) // each once, in order
    );
    assert_eq!(parse_hashtags("a # b"), None); // a bare # is no tag
}

#[test]
fn hashtags_reach_as_far_as_word_characters() {
    assert_eq!(parse_hashtags("##x"), Some("x".into()));
    assert_eq!(parse_hashtags("#a#b,#c-d"), Some("a b c".into()));
    assert_eq!(parse_hashtags("#Größe2 #日本"), Some("Größe2 日本".into()));
    assert_eq!(parse_hashtags("#"), None);
    assert_eq!(parse_hashtags(""), None);
    for n in 0u8..128 {
        let c = n as char;
        let want = if c.is_ascii_alphanumeric() || c == '_' { Some(c.to_string()) } else { None };
        assert_eq!(parse_hashtags(&format!("#{c}")), want, "{c:?}");
    }
}

#[test]
fn kinds_survive_storage() {
    for k in [Kind::Human, Kind::Ai] {
        assert_eq!(Kind::from_db(k.as_str()), Some(k));
    }
    assert_eq!(Kind::Human.as_str(), "human");
    assert_eq!(Kind::Ai.as_str(), "ai");
    assert_eq!(Kind::from_db("doc"), None);
    assert_eq!(Kind::from_db("Human"), None);
}

fn read(line: &str) -> Message {
    Message::from_line(line).unwrap()
}

#[test]
fn jsonl_round_trips() {
    let m = Message::new("id1", "auth", Kind::Ai, Some("deepseek".into()), 42, "hi");
    let line = m.to_json().unwrap();
    assert_eq!(m, read(&line));
}

#[test]
fn human_message_omits_model_in_json() {
    let m = Message::new("id1", "auth", Kind::Human, None, 1, "x");
    let line = m.to_json().unwrap();
    assert!(!line.contains("model"));
}

#[test]
fn a_record_has_its_fields_in_order() {
    let m = Message::new("i", "A", Kind::Ai, Some("m1".into()), -5, "see #x");
    assert_eq!(
        m.to_json().unwrap(),
        r##"{"id":"i","author":"A","kind":"ai","model":"m1","ts":-5,"body":"see #x","tags":"x"}"##
    );
    let h = Message::new("i", "A", Kind::Human, None, 0, "");
    assert_eq!(h.to_json().unwrap(), r#"{"id":"i","author":"A","kind":"human","ts":0,"body":""}"#);
}

#[test]
fn a_record_is_one_line_whatever_the_body_says() {
    let m = Message::new("i", "A", Kind::Human, None, i64::MIN, "a\nb\r\n\"c\"\\ \u{0} \u{2028}é");
    let line = m.to_json().unwrap();
    assert_eq!(line.lines().count(), 1);
    assert!(line.chars().all(|c| c >= ' '));
    assert_eq!(read(&line), m);
}

#[test]
fn a_copy_of_a_message_says_the_same() {
    let m = Message::new("i", "A", Kind::Ai, Some("m1".into()), 9, "b #t");
    assert_eq!(m.clone(), m);
}

#[test]
fn a_line_that_was_not_written_is_told_apart() {
    let good = r#"{"id":"a","author":"A","kind":"ai","model":"m1","ts":-3,"body":"b","tags":"t"}"#;
    let m = Message::from_line(good).unwrap();
    assert_eq!((m.id.as_str(), m.author.as_str(), m.kind, m.ts), ("a", "A", Kind::Ai, -3));
    assert_eq!((m.model.as_deref(), m.tags.as_deref(), m.body.as_str()), (Some("m1"), Some("t"), "b"));
    let bare = good.replace(r#""model":"m1","#, "").replace(r#","tags":"t""#, "");
    let m = Message::from_line(&bare).unwrap();
    assert_eq!((m.model, m.tags), (None, None));
    for (part, other) in [
        (r#""id":"a","#, ""),
        (r#""id":"a""#, r#""id":5"#),
        (r#""id":"a""#, r#""id":"a","id":"a""#),
        (r#""id":"a""#, r#""id": "a""#),
        (r#""kind":"ai""#, r#""kind":"doc""#),
        (r#""kind":"ai""#, r#""kind":{"ai":null}"#),
        (r#""model":"m1""#, r#""model":7"#),
        (r#""model":"m1""#, r#""model":null"#),
        (r#""ts":-3"#, r#""ts":1.5"#),
        (r#""ts":-3"#, r#""ts":9223372036854775808"#),
        (r#""ts":-3"#, r#""ts":"3""#),
        (r#""body":"b""#, r#""body":null"#),
        (r#""body":"b""#, r#""body":"b","more":1"#),
        (r#""author":"A","#, ""),
        ("}", ""),
    ] {
        let bad = good.replace(part, other);
        assert_ne!(bad, good);
        assert!(Message::from_line(&bad).is_none(), "{bad}");
    }
    for bad in [
        "",
        "not json at all",
        "[]",
        r#"["a","A","ai","m1",-3,"b","t"]"#,
        "null",
        "{}",
        "{\"id\":\"x2\",\"aut",
    ] {
        assert!(Message::from_line(bad).is_none(), "{bad}");
    }
}
