//! The chat message: one per line of its author's log, one row of the local
//! cache, and the unit that the two developers exchange.

use crate::json::{self, Fields, Json};
use crate::scalar::{Scalar, ScalarView};
use crate::text;
use serde_json::Value;
use vstd::prelude::*;

verus! {

/// Whether `char::is_alphanumeric` holds of `c`.
pub uninterp spec fn alphanumeric(c: char) -> bool;

/// `char::is_alphanumeric` tells the letters and the numerals of Unicode from the
/// other characters. Which ones those are beyond ASCII is left to its tables;
/// within ASCII they are the letters and the digits.
pub assume_specification[ char::is_alphanumeric ](c: char) -> (r: bool)
    ensures
        r == alphanumeric(c),
        c <= '\u{7f}' ==> r == ('0' <= c <= '9' || 'A' <= c <= 'Z' || 'a' <= c <= 'z'),
;

/// Who wrote a message.
#[derive(Debug, Clone, Copy, PartialEq, Eq, Structural)]
pub enum Kind {
    Human,
    Ai,
}

/// The name under which a kind is stored.
pub open spec fn kind_text(k: Kind) -> Seq<char> {
    match k {
        Kind::Human => "human"@,
        Kind::Ai => "ai"@,
    }
}

/// The kind that is stored under the name `s`.
pub open spec fn kind_named(s: Seq<char>) -> Option<Kind> {
    if s == kind_text(Kind::Human) {
        Some(Kind::Human)
    } else if s == kind_text(Kind::Ai) {
        Some(Kind::Ai)
    } else {
        None
    }
}

impl Kind {
    /// The name under which the kind is stored.
    pub fn as_str(self) -> (r: &'static str)
        ensures
            r@ == kind_text(self),
    {
        match self {
            Kind::Human => "human",
            Kind::Ai => "ai",
        }
    }

    /// The kind that is stored under the name `s`, if there is one.
    pub fn from_db(s: &str) -> (r: Option<Kind>)
        ensures
            r == kind_named(s@),
    {
        if text::same(s, "human") {
            Some(Kind::Human)
        } else if text::same(s, "ai") {
            Some(Kind::Ai)
        } else {
            None
        }
    }
}

/// A kind comes back from the name under which it is stored.
pub proof fn kind_survives_storage(k: Kind)
    ensures
        kind_named(kind_text(k)) == Some(k),
{
    reveal_strlit("human");
    reveal_strlit("ai");
    assert("human"@.len() != "ai"@.len());
}

/// One message of the room.
#[derive(Debug, PartialEq, Eq)]
pub struct Message {
    /// What tells this message from every other.
    pub id: String,
    /// The name of the sender.
    pub author: String,
    pub kind: Kind,
    /// The model that wrote the message, where a model did.
    pub model: Option<String>,
    /// Seconds since the Unix epoch.
    pub ts: i64,
    pub body: String,
    /// The hashtags of the body, with a space between each two.
    pub tags: Option<String>,
}

/// What a message says.
pub struct MessageView {
    pub id: Seq<char>,
    pub author: Seq<char>,
    pub kind: Kind,
    pub model: Option<Seq<char>>,
    pub ts: i64,
    pub body: Seq<char>,
    pub tags: Option<Seq<char>>,
}

impl View for Message {
    type V = MessageView;

    open spec fn view(&self) -> MessageView {
        MessageView {
            id: self.id@,
            author: self.author@,
            kind: self.kind,
            model: text::opt_text(self.model),
            ts: self.ts,
            body: self.body@,
            tags: text::opt_text(self.tags),
        }
    }
}

impl Clone for Message {
    fn clone(&self) -> (r: Message)
        ensures
            r@ == self@,
    {
        Message {
            id: self.id.clone(),
            author: self.author.clone(),
            kind: self.kind,
            model: self.model.clone(),
            ts: self.ts,
            body: self.body.clone(),
            tags: self.tags.clone(),
        }
    }
}

impl Message {
    /// A message whose tags are the hashtags of its body.
    pub fn new(
        id: &str,
        author: &str,
        kind: Kind,
        model: Option<String>,
        ts: i64,
        body: &str,
    ) -> (m: Message)
        ensures
            m@ == (MessageView {
                id: id@,
                author: author@,
                kind,
                model: text::opt_text(model),
                ts,
                body: body@,
                tags: hashtags(body@),
            }),
    {
        let tags = parse_hashtags(body);
        Message {
            id: id.to_owned(),
            author: author.to_owned(),
            kind,
            model,
            ts,
            body: body.to_owned(),
            tags,
        }
    }

    /// The fields of the message in the log. A message without a model or without
    /// tags has no such field.
    pub fn fields(&self) -> (r: Fields)
        ensures
            json::field_views(r@) == message_fields(self@),
    {
        let mut r: Fields = vec![
            ("id".to_owned(), Scalar::Text(self.id.clone())),
            ("author".to_owned(), Scalar::Text(self.author.clone())),
            ("kind".to_owned(), Scalar::Text(self.kind.as_str().to_owned())),
        ];
        if let Some(model) = &self.model {
            r.push(("model".to_owned(), Scalar::Text(model.clone())));
        }
        r.push(("ts".to_owned(), Scalar::Int(self.ts)));
        r.push(("body".to_owned(), Scalar::Text(self.body.clone())));
        if let Some(tags) = &self.tags {
            r.push(("tags".to_owned(), Scalar::Text(tags.clone())));
        }
        assert(json::field_views(r@) == message_fields(self@));
        r
    }

    /// The message as a line of the log. Whoever reads the line gets the message back.
    pub fn to_json(&self) -> (r: Result<String, String>)
        ensures
            r matches Ok(t) && t@ == json::json_text(message_record(self@))
                && json::is_one_line_object(t@),
            r matches Ok(t) && json::json_read(t@) == Some(message_record(self@)) && line_read(t@)
                == Some(self@),
    {
        proof {
            message_reads_back(self@);
        }
        json::document_text(&self.to_value())
    }

    /// The message as a JSON object.
    pub(crate) fn to_value(&self) -> (r: Value)
        ensures
            json::value_of(r) == message_record(self@),
            json::is_record(json::value_of(r)),
    {
        let fields = self.fields();
        proof {
            lemma_fields_are_distinct(self@);
        }
        json::record_value(&fields)
    }

    /// The message that was written as `line`, if one was. A line that says a message in
    /// another form is not one that the room writes.
    pub fn from_line(line: &str) -> (r: Option<Message>)
        ensures
            match r {
                Some(m) => line_read(line@) == Some(m@),
                None => line_read(line@) is None,
            },
    {
        let v = match json::read_value(line) {
            Ok(v) => v,
            Err(_) => return None,
        };
        let kind = match json::get_text(&v, "kind") {
            Some(k) => Kind::from_db(k.as_str()),
            None => None,
        };
        match (
            json::get_text(&v, "id"),
            json::get_text(&v, "author"),
            kind,
            json::get_optional(&v, "model"),
            json::get_int(&v, "ts"),
            json::get_text(&v, "body"),
            json::get_optional(&v, "tags"),
        ) {
            (Some(id), Some(author), Some(kind), Some(model), Some(ts), Some(body), Some(tags)) => {
                let m = Message { id, author, kind, model, ts, body, tags };
                match m.to_json() {
                    Ok(written) => if text::same(written.as_str(), line) {
                        Some(m)
                    } else {
                        None
                    },
                    Err(_) => None,
                }
            },
            _ => None,
        }
    }
}

/// A field that is there only where it has a value.
pub open spec fn optional_field(name: Seq<char>, value: Option<Seq<char>>) -> Seq<
    (Seq<char>, ScalarView),
> {
    match value {
        Some(t) => seq![(name, ScalarView::Text(t))],
        None => Seq::empty(),
    }
}

/// The fields of a message in the log.
pub open spec fn message_fields(m: MessageView) -> Seq<(Seq<char>, ScalarView)> {
    seq![
        ("id"@, ScalarView::Text(m.id)),
        ("author"@, ScalarView::Text(m.author)),
        ("kind"@, ScalarView::Text(kind_text(m.kind))),
    ] + optional_field("model"@, m.model) + seq![
        ("ts"@, ScalarView::Int(m.ts)),
        ("body"@, ScalarView::Text(m.body)),
    ] + optional_field("tags"@, m.tags)
}

/// The JSON object that a message is in the log.
pub open spec fn message_record(m: MessageView) -> Json {
    json::record(message_fields(m))
}

/// The message that was written as `line`; `None` where none was.
pub open spec fn line_read(line: Seq<char>) -> Option<MessageView> {
    match json::json_read(line) {
        Some(v) => match message_read(json::members(v)) {
            Some(m) => if json::json_text(message_record(m)) == line {
                Some(m)
            } else {
                None
            },
            None => None,
        },
        None => None,
    }
}

/// The message that a record with these members is, or `None` where it is no message.
/// A member of another name is passed over.
pub open spec fn message_read(members: Map<Seq<char>, Json>) -> Option<MessageView> {
    match (
        json::text_member(members, "id"@),
        json::text_member(members, "author"@),
        json::text_member(members, "kind"@),
        json::optional_member(members, "model"@),
        json::int_member(members, "ts"@),
        json::text_member(members, "body"@),
        json::optional_member(members, "tags"@),
    ) {
        (Some(id), Some(author), Some(k), Some(model), Some(ts), Some(body), Some(tags)) => match kind_named(k) {
            Some(kind) => Some(MessageView { id, author, kind, model, ts, body, tags }),
            None => None,
        },
        _ => None,
    }
}

/// A message reads back from its record.
pub proof fn message_reads_back(m: MessageView)
    ensures
        message_read(json::members(message_record(m))) == Some(m),
{
    kind_survives_storage(m.kind);
    lemma_field_names();
    let none = Seq::<(Seq<char>, Json)>::empty();
    let head = seq![
        ("id"@, Json::Text(m.id)),
        ("author"@, Json::Text(m.author)),
        ("kind"@, Json::Text(kind_text(m.kind))),
    ];
    let model = match m.model {
        Some(t) => seq![("model"@, Json::Text(t))],
        None => none,
    };
    let tags = match m.tags {
        Some(t) => seq![("tags"@, Json::Text(t))],
        None => none,
    };
    let mid = head + model;
    let body = mid + seq![("ts"@, Json::Int(m.ts as int)), ("body"@, Json::Text(m.body))];
    let all = body + tags;
    assert(all == json::record_pairs(message_fields(m)));
    reveal_with_fuel(json::by_name, 8);
    assert(head.drop_last().drop_last().drop_last() == none);
    match m.model {
        Some(_) => {
            assert(mid.drop_last() == head);
        },
        None => {
            assert(mid == head);
        },
    }
    assert(body.drop_last().drop_last() == mid);
    match m.tags {
        Some(_) => {
            assert(all.drop_last() == body);
        },
        None => {
            assert(all == body);
        },
    }
}

proof fn lemma_fields_are_distinct(m: MessageView)
    ensures
        json::distinct_names(json::record_pairs(message_fields(m))),
{
    lemma_field_names();
}

/// No two fields of a message have the same name.
proof fn lemma_field_names()
    ensures
        seq!["id"@, "author"@, "kind"@, "model"@, "ts"@, "body"@, "tags"@].no_duplicates(),
{
    reveal_strlit("id");
    reveal_strlit("author");
    reveal_strlit("kind");
    reveal_strlit("model");
    reveal_strlit("ts");
    reveal_strlit("body");
    reveal_strlit("tags");
    let names = seq!["id"@, "author"@, "kind"@, "model"@, "ts"@, "body"@, "tags"@];
    assert forall|i: int, j: int| 0 <= i < names.len() && 0 <= j < names.len() && i
        != j implies names[i] != names[j] by {
        assert(names[i][0] != names[j][0] || names[i].len() != names[j].len() || names[i][1]
            != names[j][1]);
    }
}

/// The predicate of the characters of a hashtag: letters, numerals, underscore.
pub open spec fn word_char() -> spec_fn(char) -> bool {
    |c: char| alphanumeric(c) || c == '_'
}

/// The tags of `s` in order: for each `#`, the word characters right behind it,
/// where there are any.
pub open spec fn tags_in(s: Seq<char>) -> Seq<Seq<char>>
    decreases s.len(),
{
    if s.len() == 0 {
        Seq::empty()
    } else {
        let n = text::span(s.skip(1), word_char());
        if s[0] == '#' && n > 0 {
            seq![s.skip(1).take(n as int)] + tags_in(s.skip(1))
        } else {
            tags_in(s.skip(1))
        }
    }
}

/// `s` without the items that occurred before.
pub open spec fn firsts(s: Seq<Seq<char>>) -> Seq<Seq<char>>
    decreases s.len(),
{
    if s.len() == 0 {
        Seq::empty()
    } else {
        let before = firsts(s.drop_last());
        if before.contains(s.last()) {
            before
        } else {
            before.push(s.last())
        }
    }
}

/// The distinct tags of `s` in the order of their first occurrence, joined by
/// spaces, or `None` where `s` holds no tag.
pub open spec fn hashtags(s: Seq<char>) -> Option<Seq<char>> {
    let tags = firsts(tags_in(s));
    if tags.len() == 0 {
        None
    } else {
        Some(text::joined(tags, " "@))
    }
}

/// Whether `t` is one of `v`.
fn is_among(v: &Vec<String>, t: &str) -> (r: bool)
    ensures
        r == text::texts(v@).contains(t@),
{
    let mut i: usize = 0;
    while i < v.len()
        invariant
            i <= v.len(),
            forall|j: int| 0 <= j < i ==> v@[j]@ != t@,
        decreases v.len() - i,
    {
        if text::same(v[i].as_str(), t) {
            assert(text::texts(v@)[i as int] == t@);
            return true;
        }
        i += 1;
    }
    assert(forall|j: int| 0 <= j < v.len() ==> text::texts(v@)[j] == v@[j]@);
    false
}

/// The hashtags of `body`: each is a `#` with one or more word characters behind
/// it. Returns them without the `#`, each once, with a space between each two.
pub fn parse_hashtags(body: &str) -> (r: Option<String>)
    ensures
        text::opt_text(r) == hashtags(body@),
{
    let v = text::chars_of(body);
    let mut tags: Vec<String> = Vec::new();
    let ghost mut seen: Seq<Seq<char>> = Seq::empty();
    let mut i: usize = 0;
    proof {
        assert(v@.skip(0) == v@);
        assert(seen + tags_in(v@) == tags_in(v@));
        assert(text::texts(tags@) == firsts(seen));
    }
    while i < v.len()
        invariant
            i <= v.len(),
            v@ == body@,
            seen + tags_in(v@.skip(i as int)) == tags_in(v@),
            text::texts(tags@) == firsts(seen),
        decreases v.len() - i,
    {
        let ghost rest = v@.skip(i as int);
        let ghost after = v@.skip(i + 1);
        assert(rest.skip(1) == after);
        if v[i] == '#' {
            let mut e: usize = i + 1;
            while e < v.len() && (v[e].is_alphanumeric() || v[e] == '_')
                invariant
                    i + 1 <= e <= v.len(),
                    forall|j: int| i + 1 <= j < e ==> word_char()(#[trigger] v@[j]),
                decreases v.len() - e,
            {
                e += 1;
            }
            proof {
                assert forall|j: int| 0 <= j < e - i - 1 implies word_char()(#[trigger] after[j]) by {
                    assert(after[j] == v@[i + 1 + j]);
                }
                text::lemma_span_is(after, word_char(), (e - i - 1) as nat);
            }
            if e > i + 1 {
                let tag = text::string_of(&v, i + 1, e);
                proof {
                    assert(tag@ == after.take(e - i - 1));
                    assert(seen.push(tag@) + tags_in(after) == seen + tags_in(rest));
                    assert(seen.push(tag@).drop_last() == seen);
                    seen = seen.push(tag@);
                }
                let ghost before = text::texts(tags@);
                if !is_among(&tags, tag.as_str()) {
                    tags.push(tag);
                    assert(text::texts(tags@) == before.push(tag@));
                }
            }
        }
        i += 1;
    }
    assert(seen + tags_in(v@.skip(i as int)) == seen);
    if tags.len() == 0 {
        None
    } else {
        Some(text::join(&tags, " "))
    }
}

/// The tags that a message carries are those of its body, each once: nothing is
/// lost, nothing is added, and every one is a run of word characters.
pub proof fn tags_are_those_of_the_body(s: Seq<char>)
    ensures
        firsts(tags_in(s)).no_duplicates(),
        forall|t: Seq<char>| firsts(tags_in(s)).contains(t) <==> #[trigger] tags_in(s).contains(t),
        forall|t: Seq<char>| #[trigger]
            tags_in(s).contains(t) ==> t.len() > 0 && forall|i: int|
                0 <= i < t.len() ==> word_char()(#[trigger] t[i]),
{
    lemma_firsts(tags_in(s));
    lemma_tags_are_words(s);
}

proof fn lemma_firsts(s: Seq<Seq<char>>)
    ensures
        firsts(s).no_duplicates(),
        forall|t: Seq<char>| firsts(s).contains(t) <==> #[trigger] s.contains(t),
    decreases s.len(),
{
    if s.len() > 0 {
        lemma_firsts(s.drop_last());
        let before = firsts(s.drop_last());
        assert forall|t: Seq<char>| firsts(s).contains(t) <==> #[trigger] s.contains(t) by {
            if s.contains(t) {
                let i = choose|i: int| 0 <= i < s.len() && s[i] == t;
                if i < s.len() - 1 {
                    assert(s.drop_last()[i] == t);
                    assert(s.drop_last().contains(t));
                    let j = choose|j: int| 0 <= j < before.len() && before[j] == t;
                    assert(firsts(s)[j] == t);
                } else if !before.contains(t) {
                    assert(firsts(s)[before.len() as int] == t);
                }
            }
            if firsts(s).contains(t) {
                let j = choose|j: int| 0 <= j < firsts(s).len() && firsts(s)[j] == t;
                if j < before.len() {
                    assert(before[j] == t);
                    assert(before.contains(t));
                    assert(s.drop_last().contains(t));
                    let i = choose|i: int| 0 <= i < s.len() - 1 && s.drop_last()[i] == t;
                    assert(s[i] == t);
                } else {
                    assert(s[s.len() - 1] == t);
                }
            }
        }
    }
}

proof fn lemma_tags_are_words(s: Seq<char>)
    ensures
        forall|t: Seq<char>| #[trigger]
            tags_in(s).contains(t) ==> t.len() > 0 && forall|i: int|
                0 <= i < t.len() ==> word_char()(#[trigger] t[i]),
    decreases s.len(),
{
    if s.len() > 0 {
        lemma_tags_are_words(s.skip(1));
        let rest = s.skip(1);
        let n = text::span(rest, word_char());
        text::lemma_span(rest, word_char());
        assert forall|t: Seq<char>| #[trigger] tags_in(s).contains(t) implies t.len() > 0 && forall|i: int|
            0 <= i < t.len() ==> word_char()(#[trigger] t[i]) by {
            let k = choose|k: int| 0 <= k < tags_in(s).len() && tags_in(s)[k] == t;
            if s[0] == '#' && n > 0 {
                if k == 0 {
                    assert(t == rest.take(n as int));
                    assert forall|i: int| 0 <= i < t.len() implies word_char()(#[trigger] t[i]) by {
                        assert(t[i] == rest[i]);
                    }
                } else {
                    assert(tags_in(rest)[k - 1] == t);
                    assert(tags_in(rest).contains(t));
                }
            } else {
                assert(tags_in(rest).contains(t));
            }
        }
    }
}

/// Whether a tag stands in `body` from `i` up to `j`: a `#`, and behind it the letters,
/// numerals and underscores that follow, as many as there are.
pub open spec fn is_tag_at(body: Seq<char>, i: int, j: int) -> bool {
    &&& 0 <= i && i + 1 < j <= body.len()
    &&& body[i] == '#'
    &&& forall|k: int| i < k < j ==> (alphanumeric(#[trigger] body[k]) || body[k] == '_')
    &&& j < body.len() ==> !alphanumeric(body[j]) && body[j] != '_'
}

proof fn lemma_tag_is_in(body: Seq<char>, i: int, j: int)
    requires
        is_tag_at(body, i, j),
    ensures
        tags_in(body).contains(body.subrange(i + 1, j)),
    decreases body.len(),
{
    let rest = body.skip(1);
    let n = text::span(rest, word_char());
    if i == 0 {
        let m = (j - 1) as nat;
        assert forall|k: int| 0 <= k < m implies word_char()(#[trigger] rest[k]) by {
            assert(rest[k] == body[k + 1]);
        }
        if m < rest.len() {
            assert(rest[m as int] == body[j]);
        }
        text::lemma_span_is(rest, word_char(), m);
        assert(rest.take(n as int) =~= body.subrange(1, j));
        assert(tags_in(body)[0] == body.subrange(1, j));
    } else {
        assert forall|k: int| i - 1 < k < j - 1 implies (alphanumeric(#[trigger] rest[k])
            || rest[k] == '_') by {
            assert(rest[k] == body[k + 1]);
        }
        assert(is_tag_at(rest, i - 1, j - 1));
        lemma_tag_is_in(rest, i - 1, j - 1);
        let t = body.subrange(i + 1, j);
        assert(rest.subrange(i, j - 1) =~= t);
        let k = choose|k: int| 0 <= k < tags_in(rest).len() && tags_in(rest)[k] == t;
        if body[0] == '#' && n > 0 {
            assert(tags_in(body)[k + 1] == t);
        } else {
            assert(tags_in(body)[k] == t);
        }
    }
}

proof fn lemma_tag_comes_from(body: Seq<char>, t: Seq<char>)
    requires
        tags_in(body).contains(t),
    ensures
        exists|i: int, j: int| #[trigger] is_tag_at(body, i, j) && body.subrange(i + 1, j) == t,
    decreases body.len(),
{
    let rest = body.skip(1);
    let n = text::span(rest, word_char());
    text::lemma_span(rest, word_char());
    let k = choose|k: int| 0 <= k < tags_in(body).len() && tags_in(body)[k] == t;
    if body[0] == '#' && n > 0 && k == 0 {
        let j = n as int + 1;
        assert forall|x: int| 0 < x < j implies (alphanumeric(#[trigger] body[x]) || body[x]
            == '_') by {
            assert(word_char()(rest[x - 1]));
        }
        if j < body.len() {
            assert(!word_char()(rest[n as int]));
        }
        assert(is_tag_at(body, 0, j));
        assert(body.subrange(1, j) =~= t);
    } else {
        if body[0] == '#' && n > 0 {
            assert(tags_in(rest)[k - 1] == t);
        } else {
            assert(tags_in(rest)[k] == t);
        }
        lemma_tag_comes_from(rest, t);
        let (i, j) = choose|i: int, j: int| #[trigger]
            is_tag_at(rest, i, j) && rest.subrange(i + 1, j) == t;
        assert forall|x: int| i + 1 < x < j + 1 implies (alphanumeric(#[trigger] body[x])
            || body[x] == '_') by {
            assert(body[x] == rest[x - 1]);
        }
        assert(is_tag_at(body, i + 1, j + 1));
        assert(body.subrange(i + 2, j + 1) =~= t);
    }
}

/// The tags of a message are just those that stand in its body, each once: every tag of
/// the body is there as it was written, and nothing else is. A body without a tag has
/// none.
pub proof fn every_tag_is_kept_as_written(body: &str, r: Option<String>) -> (parts: Seq<
    Seq<char>,
>)
    requires
        call_ensures(parse_hashtags, (body,), r),
    ensures
        parts.no_duplicates(),
        forall|i: int, j: int| #[trigger]
            is_tag_at(body@, i, j) ==> parts.contains(body@.subrange(i + 1, j)),
        forall|t: Seq<char>| #[trigger]
            parts.contains(t) ==> exists|i: int, j: int| #[trigger]
                is_tag_at(body@, i, j) && body@.subrange(i + 1, j) == t,
        r is None <==> parts.len() == 0,
        r is Some ==> r->0@ == text::joined(parts, " "@),
{
    let all = tags_in(body@);
    let parts = firsts(all);
    lemma_firsts(all);
    assert forall|i: int, j: int| #[trigger] is_tag_at(body@, i, j) implies parts.contains(
        body@.subrange(i + 1, j),
    ) by {
        lemma_tag_is_in(body@, i, j);
        assert(all.contains(body@.subrange(i + 1, j)));
    }
    assert forall|t: Seq<char>| #[trigger] parts.contains(t) implies exists|i: int, j: int|
        #[trigger] is_tag_at(body@, i, j) && body@.subrange(i + 1, j) == t by {
        assert(all.contains(t));
        lemma_tag_comes_from(body@, t);
    }
    parts
}

proof fn lemma_firsts_extend(a: Seq<Seq<char>>, b: Seq<Seq<char>>)
    ensures
        firsts(a).is_prefix_of(firsts(a + b)),
    decreases b.len(),
{
    if b.len() == 0 {
        assert(a + b =~= a);
        assert(firsts(a).take(firsts(a).len() as int) =~= firsts(a));
    } else {
        lemma_firsts_extend(a, b.drop_last());
        assert((a + b).drop_last() =~= a + b.drop_last());
        let x = firsts(a);
        let y = firsts(a + b.drop_last());
        let z = firsts(a + b);
        assert(z.take(x.len() as int) =~= y.take(x.len() as int));
    }
}

proof fn lemma_tags_concat(a: Seq<char>, b: Seq<char>)
    requires
        b.len() > 0,
        !word_char()(b[0]),
    ensures
        tags_in(a + b) == tags_in(a) + tags_in(b),
    decreases a.len(),
{
    if a.len() == 0 {
        assert(a + b =~= b);
        assert(tags_in(a) + tags_in(b) =~= tags_in(b));
    } else {
        let all = a + b;
        let rest = a.skip(1);
        lemma_tags_concat(rest, b);
        assert(all.skip(1) =~= rest + b);
        let n = text::span(rest, word_char());
        text::lemma_span(rest, word_char());
        let more = rest + b;
        assert forall|k: int| 0 <= k < n implies word_char()(#[trigger] more[k]) by {
            assert(more[k] == rest[k]);
        }
        if n == rest.len() {
            assert(more[n as int] == b[0]);
        } else {
            assert(more[n as int] == rest[n as int]);
        }
        text::lemma_span_is(more, word_char(), n);
        assert(more.take(n as int) =~= rest.take(n as int));
        assert(tags_in(all) =~= tags_in(a) + tags_in(b));
    }
}

/// The tags come in the order in which they first stand in the body: what is written
/// behind a text adds tags only behind those of the text.
pub proof fn later_tags_come_later(
    text: &str,
    longer: &str,
    behind: Seq<char>,
    r: Option<String>,
    more: Option<String>,
)
    requires
        call_ensures(parse_hashtags, (text,), r),
        call_ensures(parse_hashtags, (longer,), more),
        longer@ == text@ + behind,
        behind.len() > 0,
        !alphanumeric(behind[0]) && behind[0] != '_',
        r is Some,
    ensures
        more is Some,
        r->0@.is_prefix_of(more->0@),
{
    lemma_tags_concat(text@, behind);
    lemma_firsts_extend(tags_in(text@), tags_in(behind));
    let a = firsts(tags_in(text@));
    let b = firsts(tags_in(longer@));
    let c = b.skip(a.len() as int);
    assert(b =~= a + c);
    if c.len() == 0 {
        assert(b =~= a);
        assert(more->0@.take(r->0@.len() as int) =~= r->0@);
    } else {
        text::joining_keeps_the_parts(a, c, " "@, Seq::empty());
        assert(more->0@.take(r->0@.len() as int) =~= r->0@);
    }
}

/// A new message says what was given, and has the tags that its body has.
pub proof fn new_message_says_what_was_given(
    id: &str,
    author: &str,
    kind: Kind,
    model: Option<String>,
    ts: i64,
    body: &str,
    m: Message,
    tags: Option<String>,
)
    requires
        call_ensures(Message::new, (id, author, kind, model, ts, body), m),
        call_ensures(parse_hashtags, (body,), tags),
    ensures
        m.id@ == id@,
        m.author@ == author@,
        m.kind == kind,
        m.ts == ts,
        m.body@ == body@,
        model is None <==> m.model is None,
        model is Some ==> m.model->0@ == model->0@,
        tags is None <==> m.tags is None,
        tags is Some ==> m.tags->0@ == tags->0@,
{
    assert(m@.model == text::opt_text(model));
    assert(m@.tags == text::opt_text(tags));
}

/// The line of a message names its fields, and a field that says nothing is not there.
pub proof fn line_names_the_fields(m: &Message, r: Result<String, String>)
    requires
        call_ensures(Message::to_json, (m,), r),
    ensures
        r is Ok,
        json::json_read(r->Ok_0@) is Some,
        ({
            let said = json::members(json::json_read(r->Ok_0@)->0);
            &&& json::text_member(said, "id"@) == Some(m.id@)
            &&& json::text_member(said, "author"@) == Some(m.author@)
            &&& m.kind == Kind::Human ==> json::text_member(said, "kind"@) == Some("human"@)
            &&& m.kind == Kind::Ai ==> json::text_member(said, "kind"@) == Some("ai"@)
            &&& json::int_member(said, "ts"@) == Some(m.ts)
            &&& json::text_member(said, "body"@) == Some(m.body@)
            &&& json::text_member(said, "model"@) == m@.model
            &&& said.contains_key("model"@) <==> m.model is Some
            &&& json::text_member(said, "tags"@) == m@.tags
            &&& said.contains_key("tags"@) <==> m.tags is Some
        }),
{
    lemma_field_names();
    let names = seq!["id"@, "author"@, "kind"@, "model"@, "ts"@, "body"@, "tags"@];
    assert(names[0] == "id"@ && names[1] == "author"@ && names[2] == "kind"@ && names[3]
        == "model"@ && names[4] == "ts"@ && names[5] == "body"@ && names[6] == "tags"@);
    let v = m@;
    let none = Seq::<(Seq<char>, Json)>::empty();
    let head = seq![
        ("id"@, Json::Text(v.id)),
        ("author"@, Json::Text(v.author)),
        ("kind"@, Json::Text(kind_text(v.kind))),
    ];
    let model = match v.model {
        Some(t) => seq![("model"@, Json::Text(t))],
        None => none,
    };
    let tags = match v.tags {
        Some(t) => seq![("tags"@, Json::Text(t))],
        None => none,
    };
    let mid = head + model;
    let body = mid + seq![("ts"@, Json::Int(v.ts as int)), ("body"@, Json::Text(v.body))];
    let all = body + tags;
    assert(all == json::record_pairs(message_fields(v)));
    reveal_with_fuel(json::by_name, 8);
    assert(head.drop_last().drop_last().drop_last() == none);
    match v.model {
        Some(_) => {
            assert(mid.drop_last() == head);
        },
        None => {
            assert(mid == head);
        },
    }
    assert(body.drop_last().drop_last() == mid);
    match v.tags {
        Some(_) => {
            assert(all.drop_last() == body);
        },
        None => {
            assert(all == body);
        },
    }
}

/// Whoever reads the line of a message gets the message back, with all its fields.
pub proof fn written_message_reads_back(
    m: &Message,
    written: Result<String, String>,
    line: &str,
    r: Option<Message>,
)
    requires
        call_ensures(Message::to_json, (m,), written),
        written is Ok ==> line@ == written->Ok_0@,
        call_ensures(Message::from_line, (line,), r),
    ensures
        written is Ok,
        r is Some,
        r->0.id@ == m.id@,
        r->0.author@ == m.author@,
        r->0.kind == m.kind,
        text::opt_text(r->0.model) == text::opt_text(m.model),
        r->0.ts == m.ts,
        r->0.body@ == m.body@,
        text::opt_text(r->0.tags) == text::opt_text(m.tags),
        !line@.contains('\n'),
{
    assert(r->0@ == m@);
    assert(json::is_one_line_object(line@));
}

} // verus!
