//! Full-text queries. Whatever a user types is searched for literally: each word
//! becomes a phrase literal, in which no character acts as an operator.

use crate::text;
use vstd::prelude::*;

verus! {

/// Whether FTS5 finds a phrase in a text, by its rules and those of its default
/// tokenizer.
pub uninterp spec fn fts5_finds(phrase: Seq<char>, body: Seq<char>) -> bool;

/// Whether a phrase holds nothing that can be found, such as one of punctuation only.
pub open spec fn is_blank(phrase: Seq<char>) -> bool {
    forall|body: Seq<char>| !#[trigger] fts5_finds(phrase, body)
}

/// Whether a phrase consists of ASCII letters and digits.
pub open spec fn is_ascii_word(phrase: Seq<char>) -> bool {
    &&& phrase.len() > 0
    &&& forall|i: int|
        0 <= i < phrase.len() ==> ('a' <= #[trigger] phrase[i] <= 'z' || 'A' <= phrase[i] <= 'Z'
            || '0' <= phrase[i] <= '9')
}

/// Whether there are phrases, and all of them consist of ASCII letters and digits.
pub open spec fn are_ascii_words(phrases: Seq<Seq<char>>) -> bool {
    &&& phrases.len() > 0
    &&& forall|i: int| 0 <= i < phrases.len() ==> is_ascii_word(#[trigger] phrases[i])
}

/// Whether no phrase holds a NUL character.
pub open spec fn are_free_of_nul(phrases: Seq<Seq<char>>) -> bool {
    forall|i: int| 0 <= i < phrases.len() ==> !(#[trigger] phrases[i]).contains('\0')
}

/// Whether an error says that an expression could not be read.
pub open spec fn is_syntax_error(text: Seq<char>) -> bool {
    "fts5: syntax error"@.is_prefix_of(text) || text == "unterminated string"@
}

/// Whether a text holds all of `phrases` that are not blank, and there is one.
pub open spec fn holds_all(phrases: Seq<Seq<char>>, body: Seq<char>) -> bool {
    &&& exists|i: int| 0 <= i < phrases.len() && fts5_finds(#[trigger] phrases[i], body)
    &&& forall|i: int|
        0 <= i < phrases.len() ==> fts5_finds(#[trigger] phrases[i], body) || is_blank(phrases[i])
}

/// `s` with every quotation mark doubled.
pub open spec fn doubled(s: Seq<char>) -> Seq<char>
    decreases s.len(),
{
    if s.len() == 0 {
        Seq::empty()
    } else if s.last() == '"' {
        doubled(s.drop_last()) + seq!['"', '"']
    } else {
        doubled(s.drop_last()).push(s.last())
    }
}

/// `s` as a phrase literal: in quotation marks, with those inside it doubled.
pub open spec fn quoted(s: Seq<char>) -> Seq<char> {
    seq!['"'] + doubled(s) + seq!['"']
}

/// The expression that asks for all of `phrases`: each as a phrase literal, with a
/// space between each two.
pub open spec fn conjunction(phrases: Seq<Seq<char>>) -> Seq<char> {
    text::joined(phrases.map_values(|p: Seq<char>| quoted(p)), " "@)
}

/// The expression for a query: it asks for all of its words.
pub open spec fn escaped(query: Seq<char>) -> Seq<char> {
    conjunction(text::words_of(query))
}

/// `s` as a phrase literal.
fn quote(s: &str) -> (r: String)
    ensures
        r@ == quoted(s@),
{
    let v = text::chars_of(s);
    let mut r = String::new();
    r.push('"');
    let mut i: usize = 0;
    assert(r@ == seq!['"'] + doubled(v@.take(0)));
    while i < v.len()
        invariant
            i <= v.len(),
            r@ == seq!['"'] + doubled(v@.take(i as int)),
        decreases v.len() - i,
    {
        let ghost before = r@;
        assert(v@.take(i + 1).drop_last() == v@.take(i as int));
        if v[i] == '"' {
            r.push('"');
        }
        r.push(v[i]);
        assert(r@ == seq!['"'] + doubled(v@.take(i + 1)));
        i += 1;
    }
    assert(v@.take(v.len() as int) == v@);
    r.push('"');
    assert(r@ == quoted(s@));
    r
}

/// Turns any text into an expression of phrase literals, one for each word. The
/// index reads such an expression as the conjunction of the phrases.
pub fn escape_fts_query(query: &str) -> (r: String)
    ensures
        r@ == escaped(query@),
{
    let words = text::words(query);
    let mut phrases: Vec<String> = Vec::new();
    let mut i: usize = 0;
    while i < words.len()
        invariant
            i == phrases.len() <= words.len(),
            forall|j: int| 0 <= j < i ==> (#[trigger] phrases@[j])@ == quoted(words@[j]@),
        decreases words.len() - i,
    {
        phrases.push(quote(words[i].as_str()));
        i += 1;
    }
    assert(text::texts(phrases@) == text::texts(words@).map_values(|w: Seq<char>| quoted(w)));
    text::join(&phrases, " ")
}

proof fn lemma_joined_len(parts: Seq<Seq<char>>, sep: Seq<char>)
    requires
        parts.len() > 0,
        forall|i: int| 0 <= i < parts.len() ==> (#[trigger] parts[i]).len() > 0,
    ensures
        text::joined(parts, sep).len() > 0,
{
    if parts.len() > 1 {
        assert(parts.last() == parts[parts.len() - 1]);
    }
}

/// The expression for a query is empty just where the query has no words.
pub proof fn lemma_escaped_len(query: Seq<char>)
    ensures
        escaped(query).len() == 0 <==> text::words_of(query).len() == 0,
{
    let parts = text::words_of(query).map_values(|w: Seq<char>| quoted(w));
    if parts.len() > 0 {
        assert forall|i: int| 0 <= i < parts.len() implies (#[trigger] parts[i]).len() > 0 by {
            assert(parts[i] == quoted(text::words_of(query)[i]));
        }
        lemma_joined_len(parts, " "@);
    }
}

/// Reads the rest of a phrase literal behind its opening quotation mark: what it
/// says, and what follows its closing quotation mark.
pub open spec fn unquoted(s: Seq<char>) -> Option<(Seq<char>, Seq<char>)>
    decreases s.len(),
{
    if s.len() == 0 {
        None
    } else if s[0] != '"' {
        match unquoted(s.skip(1)) {
            Some((t, rest)) => Some((seq![s[0]] + t, rest)),
            None => None,
        }
    } else if s.len() > 1 && s[1] == '"' {
        match unquoted(s.skip(2)) {
            Some((t, rest)) => Some((seq!['"'] + t, rest)),
            None => None,
        }
    } else {
        Some((Seq::empty(), s.skip(1)))
    }
}

/// Reads an expression that consists of phrase literals with a space between each
/// two, and of nothing else: what the phrases say.
pub open spec fn phrases_in(s: Seq<char>) -> Option<Seq<Seq<char>>>
    decreases s.len(),
    via phrases_in_decreases
{
    if s.len() == 0 || s[0] != '"' {
        None
    } else {
        match unquoted(s.skip(1)) {
            None => None,
            Some((t, rest)) => if rest.len() == 0 {
                Some(seq![t])
            } else if rest[0] == ' ' {
                match phrases_in(rest.skip(1)) {
                    Some(more) => Some(seq![t] + more),
                    None => None,
                }
            } else {
                None
            },
        }
    }
}

#[via_fn]
proof fn phrases_in_decreases(s: Seq<char>) {
    if s.len() > 0 {
        lemma_unquoted_shrinks(s.skip(1));
    }
}

proof fn lemma_unquoted_shrinks(s: Seq<char>)
    ensures
        unquoted(s) matches Some((t, rest)) ==> rest.len() < s.len(),
    decreases s.len(),
{
    if s.len() > 0 {
        if s[0] != '"' {
            lemma_unquoted_shrinks(s.skip(1));
        } else if s.len() > 1 && s[1] == '"' {
            lemma_unquoted_shrinks(s.skip(2));
        }
    }
}

/// `doubled` from the front.
proof fn lemma_doubled_front(s: Seq<char>)
    requires
        s.len() > 0,
    ensures
        doubled(s) == (if s[0] == '"' {
            seq!['"', '"']
        } else {
            seq![s[0]]
        }) + doubled(s.skip(1)),
    decreases s.len(),
{
    if s.len() == 1 {
        assert(s.drop_last() == Seq::<char>::empty());
        assert(s.skip(1) == Seq::<char>::empty());
        assert(doubled(s.drop_last()) == Seq::<char>::empty());
        assert(doubled(s.skip(1)) == Seq::<char>::empty());
    } else {
        lemma_doubled_front(s.drop_last());
        assert(s.drop_last().skip(1) == s.skip(1).drop_last());
        assert(s.skip(1).last() == s.last());
    }
}

/// A phrase literal reads back as what it says, whatever follows it, as long as
/// no quotation mark does.
proof fn lemma_unquoted(s: Seq<char>, rest: Seq<char>)
    requires
        rest.len() > 0 ==> rest[0] != '"',
    ensures
        unquoted(doubled(s) + seq!['"'] + rest) == Some((s, rest)),
    decreases s.len(),
{
    let all = doubled(s) + seq!['"'] + rest;
    if s.len() == 0 {
        assert(all[0] == '"');
        assert(all.skip(1) == rest);
        assert(unquoted(all) == Some((s, rest)));
    } else {
        lemma_doubled_front(s);
        lemma_unquoted(s.skip(1), rest);
        let tail = doubled(s.skip(1)) + seq!['"'] + rest;
        if s[0] == '"' {
            assert(all.skip(2) == tail);
            assert(all[0] == '"' && all[1] == '"');
        } else {
            assert(all.skip(1) == tail);
            assert(all[0] == s[0]);
        }
        assert(seq![s[0]] + s.skip(1) == s);
    }
}

/// `joined` from the front.
proof fn lemma_joined_front(parts: Seq<Seq<char>>, sep: Seq<char>)
    requires
        parts.len() > 1,
    ensures
        text::joined(parts, sep) == parts[0] + sep + text::joined(parts.skip(1), sep),
    decreases parts.len(),
{
    if parts.len() == 2 {
        assert(parts.drop_last().len() == 1);
        assert(parts.skip(1).len() == 1);
        assert(text::joined(parts.drop_last(), sep) == parts[0]);
        assert(text::joined(parts.skip(1), sep) == parts[1]);
    } else {
        lemma_joined_front(parts.drop_last(), sep);
        assert(parts.drop_last().skip(1) == parts.skip(1).drop_last());
        assert(parts.skip(1).last() == parts.last());
        assert(text::joined(parts, sep) == parts[0] + sep + text::joined(parts.skip(1), sep));
    }
}

proof fn lemma_phrases_in(words: Seq<Seq<char>>)
    requires
        words.len() > 0,
    ensures
        phrases_in(conjunction(words)) == Some(words),
    decreases words.len(),
{
    reveal_strlit(" ");
    let parts = words.map_values(|w: Seq<char>| quoted(w));
    let all = text::joined(parts, " "@);
    assert(parts[0] == quoted(words[0]));
    if words.len() == 1 {
        let rest = Seq::<char>::empty();
        lemma_unquoted(words[0], rest);
        assert(all.skip(1) == doubled(words[0]) + seq!['"'] + rest);
        assert(all[0] == '"');
        assert(seq![words[0]] == words);
    } else {
        lemma_joined_front(parts, " "@);
        let more = words.skip(1);
        assert(parts.skip(1) == more.map_values(|w: Seq<char>| quoted(w)));
        lemma_phrases_in(more);
        let next = text::joined(parts.skip(1), " "@);
        let rest = " "@ + next;
        lemma_unquoted(words[0], rest);
        assert(all.skip(1) == doubled(words[0]) + seq!['"'] + rest);
        assert(all[0] == '"');
        assert(rest.skip(1) == next);
        assert(seq![words[0]] + more == words);
    }
}

/// Whatever a query says, its expression consists of phrase literals and nothing
/// else, and they say just the words of the query: no character of a query acts as
/// an operator.
pub proof fn query_is_taken_literally(query: Seq<char>)
    requires
        text::words_of(query).len() > 0,
    ensures
        phrases_in(escaped(query)) == Some(text::words_of(query)),
{
    lemma_phrases_in(text::words_of(query));
}

/// A further word never finds more: what holds all words of a longer query holds those
/// of the shorter one, unless the shorter one has nothing that can be found.
pub proof fn more_words_find_less(words: Seq<Seq<char>>, more: Seq<Seq<char>>, body: Seq<char>)
    requires
        holds_all(words + more, body),
        exists|i: int| 0 <= i < words.len() && !is_blank(#[trigger] words[i]),
    ensures
        holds_all(words, body),
{
    let all = words + more;
    assert forall|i: int| 0 <= i < words.len() implies fts5_finds(#[trigger] words[i], body)
        || is_blank(words[i]) by {
        assert(all[i] == words[i]);
    }
    let i = choose|i: int| 0 <= i < words.len() && !is_blank(#[trigger] words[i]);
    assert(fts5_finds(words[i], body));
}

/// Whether something in `phrases` can be found.
pub open spec fn is_findable(phrases: Seq<Seq<char>>) -> bool {
    exists|i: int| 0 <= i < phrases.len() && !is_blank(#[trigger] phrases[i])
}

/// A text holds all of two lists of phrases just where it holds all of each, if neither
/// list is without anything that can be found.
pub proof fn both_parts_are_held(a: Seq<Seq<char>>, b: Seq<Seq<char>>, body: Seq<char>)
    requires
        is_findable(a),
        is_findable(b),
    ensures
        holds_all(a + b, body) <==> holds_all(a, body) && holds_all(b, body),
{
    let all = a + b;
    if holds_all(all, body) {
        more_words_find_less(a, b, body);
        assert forall|i: int| 0 <= i < b.len() implies fts5_finds(#[trigger] b[i], body)
            || is_blank(b[i]) by {
            assert(all[a.len() + i] == b[i]);
        }
        let i = choose|i: int| 0 <= i < b.len() && !is_blank(#[trigger] b[i]);
        assert(fts5_finds(b[i], body));
    }
    if holds_all(a, body) && holds_all(b, body) {
        let i = choose|i: int| 0 <= i < a.len() && fts5_finds(#[trigger] a[i], body);
        assert(all[i] == a[i]);
        assert forall|i: int| 0 <= i < all.len() implies fts5_finds(#[trigger] all[i], body)
            || is_blank(all[i]) by {
            if i < a.len() {
                assert(all[i] == a[i]);
            } else {
                assert(all[i] == b[i - a.len()]);
            }
        }
    }
}

} // verus!
