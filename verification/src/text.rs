//! Text as sequences of characters: trimming, splitting, searching, joining and
//! number formatting.

use vstd::prelude::*;

verus! {

/// `String::push` appends one character to the end of the string.
pub assume_specification[ String::push ](s: &mut String, c: char)
    ensures
        final(s)@ == old(s)@.push(c),
;

/// The text that the bytes encode in UTF-8, with a replacement character for what
/// is no valid encoding.
pub uninterp spec fn lossy_text(bytes: Seq<u8>) -> Seq<char>;

/// `String::from_utf8_lossy` decodes UTF-8. Valid bytes are decoded as they are;
/// how the others are replaced is left to it.
#[verifier::external_body]
pub(crate) fn lossy(bytes: &Vec<u8>) -> (r: String)
    ensures
        r@ == lossy_text(bytes@),
        vstd::utf8::valid_utf8(bytes@) ==> r@ == vstd::utf8::decode_utf8(bytes@),
{
    String::from_utf8_lossy(bytes).into_owned()
}

/// The characters with the Unicode property `White_Space`.
pub open spec fn is_white(c: char) -> bool {
    ||| '\u{9}' <= c <= '\u{d}'
    ||| c == ' '
    ||| c == '\u{85}'
    ||| c == '\u{a0}'
    ||| c == '\u{1680}'
    ||| '\u{2000}' <= c <= '\u{200a}'
    ||| c == '\u{2028}'
    ||| c == '\u{2029}'
    ||| c == '\u{202f}'
    ||| c == '\u{205f}'
    ||| c == '\u{3000}'
}

/// Whether `c` is a space, a tab, a line break or other white space.
pub fn is_whitespace(c: char) -> (r: bool)
    ensures
        r == is_white(c),
{
    ('\u{9}' <= c && c <= '\u{d}') || c == ' ' || c == '\u{85}' || c == '\u{a0}' || c == '\u{1680}'
        || ('\u{2000}' <= c && c <= '\u{200a}') || c == '\u{2028}' || c == '\u{2029}'
        || c == '\u{202f}' || c == '\u{205f}' || c == '\u{3000}'
}

/// The predicate `is_white`.
pub open spec fn white() -> spec_fn(char) -> bool {
    |c: char| is_white(c)
}

/// The predicate of every character that is not white space.
pub open spec fn black() -> spec_fn(char) -> bool {
    |c: char| !is_white(c)
}

/// The predicate of every character but `d`.
pub open spec fn other_than(d: char) -> spec_fn(char) -> bool {
    |c: char| c != d
}

/// How many characters at the start of `s` satisfy `p` in a row.
pub open spec fn span(s: Seq<char>, p: spec_fn(char) -> bool) -> nat
    decreases s.len(),
{
    if s.len() > 0 && p(s[0]) {
        1 + span(s.skip(1), p)
    } else {
        0
    }
}

/// `n` is the span of `s` when the first `n` characters satisfy `p` and the next
/// one, if there is one, does not.
pub proof fn lemma_span_is(s: Seq<char>, p: spec_fn(char) -> bool, n: nat)
    requires
        n <= s.len(),
        forall|i: int| 0 <= i < n ==> p(#[trigger] s[i]),
        n < s.len() ==> !p(s[n as int]),
    ensures
        span(s, p) == n,
    decreases s.len(),
{
    if n > 0 {
        assert(p(s[0]));
        let t = s.skip(1);
        assert forall|i: int| 0 <= i < n - 1 implies p(#[trigger] t[i]) by {
            assert(t[i] == s[i + 1]);
        }
        lemma_span_is(t, p, (n - 1) as nat);
    }
}

/// The span of `s` covers characters that satisfy `p`, and stops only at the end
/// or at one that does not.
pub proof fn lemma_span(s: Seq<char>, p: spec_fn(char) -> bool)
    ensures
        span(s, p) <= s.len(),
        forall|i: int| 0 <= i < span(s, p) ==> p(#[trigger] s[i]),
        span(s, p) < s.len() ==> !p(s[span(s, p) as int]),
    decreases s.len(),
{
    if s.len() > 0 && p(s[0]) {
        let t = s.skip(1);
        lemma_span(t, p);
        assert forall|i: int| 0 <= i < span(s, p) implies p(#[trigger] s[i]) by {
            if i > 0 {
                assert(t[i - 1] == s[i]);
            }
        }
    }
}

/// `s` without the white space at its start.
pub open spec fn trimmed_start(s: Seq<char>) -> Seq<char> {
    s.skip(span(s, white()) as int)
}

/// How many characters at the end of `s` satisfy `p` in a row.
pub open spec fn span_back(s: Seq<char>, p: spec_fn(char) -> bool) -> nat {
    span(s.reverse(), p)
}

/// `s` without the characters at its end that satisfy `p`.
pub open spec fn cut_end(s: Seq<char>, p: spec_fn(char) -> bool) -> Seq<char> {
    s.take(s.len() - span_back(s, p))
}

/// `s` without the white space at its start and at its end.
pub open spec fn trimmed(s: Seq<char>) -> Seq<char> {
    cut_end(trimmed_start(s), white())
}

/// What a vector of strings says, as sequences of characters.
pub open spec fn texts(v: Seq<String>) -> Seq<Seq<char>> {
    v.map_values(|t: String| t@)
}

/// What an optional string says.
pub open spec fn opt_text(t: Option<String>) -> Option<Seq<char>> {
    match t {
        Some(t) => Some(t@),
        None => None,
    }
}

/// The characters of `s`.
pub fn chars_of(s: &str) -> (v: Vec<char>)
    ensures
        v@ == s@,
{
    let mut v: Vec<char> = Vec::new();
    for c in it: s.chars()
        invariant
            v@ == it.seq().take(it.index() as int),
            it.seq() == s@,
    {
        v.push(c);
    }
    v
}

/// The text of the characters from `from` up to, and not with, `to`.
pub fn string_of(v: &Vec<char>, from: usize, to: usize) -> (r: String)
    requires
        from <= to <= v.len(),
    ensures
        r@ == v@.subrange(from as int, to as int),
{
    let mut r = String::new();
    let mut i: usize = from;
    while i < to
        invariant
            from <= i <= to <= v.len(),
            r@ == v@.subrange(from as int, i as int),
        decreases to - i,
    {
        r.push(v[i]);
        i += 1;
        assert(v@.subrange(from as int, i as int).drop_last() == v@.subrange(from as int, i - 1));
    }
    r
}

/// Whether two texts are the same.
pub fn same(a: &str, b: &str) -> (r: bool)
    ensures
        r == (a@ == b@),
{
    a.to_owned() == b.to_owned()
}

/// `s` without the white space at its start and at its end.
pub fn trim(s: &str) -> (r: String)
    ensures
        r@ == trimmed(s@),
{
    let v = chars_of(s);
    let mut a: usize = 0;
    while a < v.len() && is_whitespace(v[a])
        invariant
            a <= v.len(),
            forall|i: int| 0 <= i < a ==> white()(#[trigger] v@[i]),
        decreases v.len() - a,
    {
        a += 1;
    }
    proof {
        lemma_span_is(v@, white(), a as nat);
    }
    let ghost t = v@.skip(a as int);
    let mut b: usize = v.len();
    while a < b && is_whitespace(v[b - 1])
        invariant
            a <= b <= v.len(),
            t == v@.skip(a as int),
            forall|i: int| b <= i < v.len() ==> white()(#[trigger] v@[i]),
        decreases b,
    {
        b -= 1;
    }
    proof {
        let n = (v.len() - b) as nat;
        let back = t.reverse();
        assert forall|i: int| 0 <= i < n implies white()(#[trigger] back[i]) by {
            assert(back[i] == v@[v.len() - 1 - i]);
        }
        if n < back.len() {
            assert(back[n as int] == v@[b - 1]);
        }
        lemma_span_is(back, white(), n);
        assert(v@.subrange(a as int, b as int) == t.take(t.len() - n));
    }
    string_of(&v, a, b)
}

/// `s` without the `c`s at its end.
pub fn trim_end_char(s: &str, c: char) -> (r: String)
    ensures
        r@ == cut_end(s@, |d: char| d == c),
{
    let ghost p = |d: char| d == c;
    let v = chars_of(s);
    let mut b: usize = v.len();
    while 0 < b && v[b - 1] == c
        invariant
            b <= v.len(),
            p == (|d: char| d == c),
            forall|i: int| b <= i < v.len() ==> p(#[trigger] v@[i]),
        decreases b,
    {
        b -= 1;
    }
    proof {
        let n = (v.len() - b) as nat;
        let back = v@.reverse();
        assert forall|i: int| 0 <= i < n implies p(#[trigger] back[i]) by {
            assert(back[i] == v@[v.len() - 1 - i]);
        }
        if n < back.len() {
            assert(back[n as int] == v@[b - 1]);
        }
        lemma_span_is(back, p, n);
        assert(v@.subrange(0, b as int) == v@.take(v.len() - n));
    }
    string_of(&v, 0, b)
}

/// `s` without a carriage return at its end.
pub open spec fn without_return(s: Seq<char>) -> Seq<char> {
    if s.len() > 0 && s.last() == '\r' {
        s.drop_last()
    } else {
        s
    }
}

/// The lines of `s`: each ends at a line feed, with or without a carriage return
/// before it, or at the end of `s`. The line ending is no part of the line.
pub open spec fn lines_of(s: Seq<char>) -> Seq<Seq<char>>
    decreases s.len(),
{
    let n = span(s, other_than('\n'));
    if s.len() == 0 {
        Seq::empty()
    } else if n < s.len() {
        seq![without_return(s.take(n as int))] + lines_of(s.skip(n as int + 1))
    } else {
        seq![s]
    }
}

/// The lines of `s`.
pub fn lines(s: &str) -> (r: Vec<String>)
    ensures
        texts(r@) == lines_of(s@),
{
    let v = chars_of(s);
    let mut r: Vec<String> = Vec::new();
    let mut a: usize = 0;
    proof {
        assert(v@.skip(0) == v@);
        assert(texts(r@) + lines_of(v@.skip(0)) == lines_of(v@));
    }
    while a < v.len()
        invariant
            a <= v.len(),
            texts(r@) + lines_of(v@.skip(a as int)) == lines_of(v@),
        decreases v.len() - a,
    {
        let ghost rest = v@.skip(a as int);
        let ghost before = texts(r@);
        let mut b: usize = a;
        while b < v.len() && v[b] != '\n'
            invariant
                a <= b <= v.len(),
                forall|i: int| a <= i < b ==> other_than('\n')(#[trigger] v@[i]),
            decreases v.len() - b,
        {
            b += 1;
        }
        proof {
            assert forall|i: int| 0 <= i < b - a implies other_than('\n')(#[trigger] rest[i]) by {
                assert(rest[i] == v@[a + i]);
            }
            lemma_span_is(rest, other_than('\n'), (b - a) as nat);
            assert(v@.subrange(a as int, b as int) == rest.take(b - a));
        }
        if b < v.len() {
            let mut e: usize = b;
            if a < e && v[e - 1] == '\r' {
                e -= 1;
            }
            r.push(string_of(&v, a, e));
            proof {
                assert(v@.subrange(a as int, e as int) == without_return(rest.take(b - a)));
                assert(rest.skip(b - a + 1) == v@.skip(b + 1));
                assert(texts(r@) == before.push(without_return(rest.take(b - a))));
                assert(before + lines_of(rest) == texts(r@) + lines_of(v@.skip(b + 1)));
            }
            a = b + 1;
        } else {
            r.push(string_of(&v, a, b));
            proof {
                assert(rest.take(b - a) == rest);
                assert(texts(r@) == before.push(rest));
                assert(lines_of(v@.skip(b as int)) == Seq::<Seq<char>>::empty());
                assert(before + lines_of(rest) == texts(r@) + lines_of(v@.skip(b as int)));
            }
            a = b;
        }
    }
    proof {
        assert(lines_of(v@.skip(a as int)) == Seq::<Seq<char>>::empty());
        assert(texts(r@) + Seq::<Seq<char>>::empty() == texts(r@));
    }
    r
}

/// The words of `s`: its runs of characters that are not white space.
pub open spec fn words_of(s: Seq<char>) -> Seq<Seq<char>>
    decreases s.len(),
    via words_of_decreases
{
    let t = trimmed_start(s);
    let n = span(t, black());
    if t.len() == 0 {
        Seq::empty()
    } else {
        seq![t.take(n as int)] + words_of(t.skip(n as int))
    }
}

#[via_fn]
proof fn words_of_decreases(s: Seq<char>) {
    lemma_span(s, white());
    let t = trimmed_start(s);
    if t.len() > 0 {
        assert(t[0] == s[span(s, white()) as int]);
        lemma_span(t, black());
        assert(span(t, black()) > 0);
    }
}

/// A word holds no character that its text does not hold.
pub proof fn lemma_words_hold(s: Seq<char>, i: int, c: char)
    requires
        0 <= i < words_of(s).len(),
        words_of(s)[i].contains(c),
    ensures
        s.contains(c),
    decreases s.len(),
{
    lemma_span(s, white());
    let t = trimmed_start(s);
    lemma_span(t, black());
    if t.len() > 0 {
        assert(t[0] == s[span(s, white()) as int]);
    }
    let n = span(t, black()) as int;
    let from = span(s, white()) as int;
    assert(t == s.skip(from));
    let rest = t.skip(n);
    if i == 0 {
        let k = choose|k: int| 0 <= k < n && t.take(n)[k] == c;
        assert(s[from + k] == c);
    } else {
        assert(words_of(s)[i] == words_of(rest)[i - 1]);
        lemma_words_hold(rest, i - 1, c);
        let k = choose|k: int| 0 <= k < rest.len() && rest[k] == c;
        assert(s[from + n + k] == c);
    }
}

/// The words of `s`.
pub fn words(s: &str) -> (r: Vec<String>)
    ensures
        texts(r@) == words_of(s@),
{
    let v = chars_of(s);
    let mut r: Vec<String> = Vec::new();
    let mut a: usize = 0;
    proof {
        assert(v@.skip(0) == v@);
        assert(texts(r@) + words_of(v@.skip(0)) == words_of(v@));
    }
    loop
        invariant_except_break
            a <= v.len(),
            texts(r@) + words_of(v@.skip(a as int)) == words_of(v@),
        ensures
            texts(r@) == words_of(v@),
        decreases v.len() - a,
    {
        let ghost rest = v@.skip(a as int);
        let ghost before = texts(r@);
        let mut b: usize = a;
        while b < v.len() && is_whitespace(v[b])
            invariant
                a <= b <= v.len(),
                forall|i: int| a <= i < b ==> white()(#[trigger] v@[i]),
            decreases v.len() - b,
        {
            b += 1;
        }
        let ghost t = v@.skip(b as int);
        proof {
            assert forall|i: int| 0 <= i < b - a implies white()(#[trigger] rest[i]) by {
                assert(rest[i] == v@[a + i]);
            }
            lemma_span_is(rest, white(), (b - a) as nat);
            assert(trimmed_start(rest) == t);
        }
        if b == v.len() {
            assert(before + Seq::<Seq<char>>::empty() == before);
            break;
        }
        let mut c: usize = b;
        while c < v.len() && !is_whitespace(v[c])
            invariant
                b <= c <= v.len(),
                forall|i: int| b <= i < c ==> black()(#[trigger] v@[i]),
            decreases v.len() - c,
        {
            c += 1;
        }
        r.push(string_of(&v, b, c));
        proof {
            assert forall|i: int| 0 <= i < c - b implies black()(#[trigger] t[i]) by {
                assert(t[i] == v@[b + i]);
            }
            lemma_span_is(t, black(), (c - b) as nat);
            assert(v@.subrange(b as int, c as int) == t.take(c - b));
            assert(t.skip(c - b) == v@.skip(c as int));
            assert(texts(r@) == before.push(t.take(c - b)));
            assert(before + words_of(rest) == texts(r@) + words_of(v@.skip(c as int)));
        }
        a = c;
    }
    r
}

/// `s` up to its first white space, and what follows that one character.
pub open spec fn split_word(s: Seq<char>) -> (Seq<char>, Seq<char>) {
    let n = span(s, black());
    if n < s.len() {
        (s.take(n as int), s.skip(n as int + 1))
    } else {
        (s, Seq::empty())
    }
}

/// Splits `s` at its first white space.
pub fn split_first_word(s: &str) -> (r: (String, String))
    ensures
        (r.0@, r.1@) == split_word(s@),
{
    let v = chars_of(s);
    let mut b: usize = 0;
    while b < v.len() && !is_whitespace(v[b])
        invariant
            b <= v.len(),
            forall|i: int| 0 <= i < b ==> black()(#[trigger] v@[i]),
        decreases v.len() - b,
    {
        b += 1;
    }
    proof {
        lemma_span_is(v@, black(), b as nat);
        assert(v@.subrange(0, b as int) == v@.take(b as int));
    }
    if b < v.len() {
        proof {
            assert(v@.subrange(b + 1, v.len() as int) == v@.skip(b + 1));
        }
        (string_of(&v, 0, b), string_of(&v, b + 1, v.len()))
    } else {
        assert(v@.take(b as int) == v@);
        (string_of(&v, 0, b), String::new())
    }
}

/// Whether `t` stands in `s` at the index `i`.
pub open spec fn stands_at(s: Seq<char>, t: Seq<char>, i: int) -> bool {
    0 <= i && i + t.len() <= s.len() && s.subrange(i, i + t.len()) == t
}

/// Whether `t` stands anywhere in `s`.
pub open spec fn has(s: Seq<char>, t: Seq<char>) -> bool {
    exists|i: int| stands_at(s, t, i)
}

/// Whether the characters of `t` stand in `v` at `at`.
fn matches_at(v: &Vec<char>, t: &Vec<char>, at: usize) -> (r: bool)
    requires
        at + t.len() <= v.len(),
    ensures
        r == stands_at(v@, t@, at as int),
{
    let mut i: usize = 0;
    while i < t.len()
        invariant
            i <= t.len(),
            at + t.len() <= v.len(),
            forall|j: int| 0 <= j < i ==> v@[at + j] == t@[j],
        decreases t.len() - i,
    {
        if v[at + i] != t[i] {
            assert(v@.subrange(at as int, at + t.len())[i as int] != t@[i as int]);
            return false;
        }
        i += 1;
    }
    assert(v@.subrange(at as int, at + t.len()) == t@);
    true
}

/// Whether `t` stands anywhere in `s`.
pub fn contains(s: &str, t: &str) -> (r: bool)
    ensures
        r == has(s@, t@),
{
    let v = chars_of(s);
    let w = chars_of(t);
    let mut i: usize = 0;
    while i < v.len() && w.len() <= v.len() - i
        invariant
            i <= v.len(),
            v@ == s@,
            w@ == t@,
            forall|j: int| 0 <= j < i ==> !stands_at(v@, w@, j),
        decreases v.len() - i,
    {
        if matches_at(&v, &w, i) {
            return true;
        }
        i += 1;
    }
    if w.len() <= v.len() - i {
        return matches_at(&v, &w, i);
    }
    false
}

/// Whether `s` starts with `t`.
pub fn starts_with(s: &str, t: &str) -> (r: bool)
    ensures
        r == t@.is_prefix_of(s@),
{
    let v = chars_of(s);
    let w = chars_of(t);
    if w.len() <= v.len() {
        assert(v@.subrange(0, w.len() as int) == v@.take(w.len() as int));
        matches_at(&v, &w, 0)
    } else {
        false
    }
}

/// `s` without `t` at its start, if it is there.
pub fn strip_prefix(s: &str, t: &str) -> (r: Option<String>)
    ensures
        opt_text(r) == (if t@.is_prefix_of(s@) {
            Some(s@.skip(t@.len() as int))
        } else {
            None
        }),
{
    let v = chars_of(s);
    let w = chars_of(t);
    if starts_with(s, t) {
        assert(v@.subrange(w.len() as int, v.len() as int) == s@.skip(w.len() as int));
        Some(string_of(&v, w.len(), v.len()))
    } else {
        None
    }
}

/// `s` without `t` at its end, if it is there.
pub fn strip_suffix(s: &str, t: &str) -> (r: Option<String>)
    ensures
        opt_text(r) == (if t@.is_suffix_of(s@) {
            Some(s@.take(s@.len() - t@.len()))
        } else {
            None
        }),
{
    let v = chars_of(s);
    let w = chars_of(t);
    if w.len() <= v.len() && matches_at(&v, &w, v.len() - w.len()) {
        proof {
            let n = v.len() - w.len();
            assert(v@.subrange(n, v.len() as int) == s@.skip(n));
            assert(v@.subrange(0, n) == s@.take(n));
        }
        Some(string_of(&v, 0, v.len() - w.len()))
    } else {
        proof {
            if w.len() <= v.len() {
                let n = v.len() - w.len();
                assert(v@.subrange(n, v.len() as int) == s@.skip(n));
            }
        }
        None
    }
}

/// `parts` one after the other, with `sep` between each two.
pub open spec fn joined(parts: Seq<Seq<char>>, sep: Seq<char>) -> Seq<char>
    decreases parts.len(),
{
    if parts.len() == 0 {
        Seq::empty()
    } else if parts.len() == 1 {
        parts[0]
    } else {
        joined(parts.drop_last(), sep) + sep + parts.last()
    }
}

/// Joins `parts` with `sep` between each two.
pub fn join(parts: &Vec<String>, sep: &str) -> (r: String)
    ensures
        r@ == joined(texts(parts@), sep@),
{
    let mut r = String::new();
    let mut i: usize = 0;
    while i < parts.len()
        invariant
            i <= parts.len(),
            r@ == joined(texts(parts@).take(i as int), sep@),
        decreases parts.len() - i,
    {
        if i > 0 {
            r.append(sep);
        }
        r.append(parts[i].as_str());
        proof {
            let all = texts(parts@);
            assert(all.take(i + 1).drop_last() == all.take(i as int));
            assert(all.take(i + 1).last() == parts@[i as int]@);
            if i == 0 {
                assert(r@ == parts@[0]@);
            }
        }
        i += 1;
    }
    assert(texts(parts@).take(parts.len() as int) == texts(parts@));
    r
}

/// The character of the hexadecimal digit `d`.
pub open spec fn digit(d: int) -> char {
    if d < 10 {
        (48 + d) as char
    } else {
        (87 + d) as char
    }
}

/// The character of the hexadecimal digit `d`.
pub fn digit_char(d: u8) -> (c: char)
    requires
        d < 16,
    ensures
        c == digit(d as int),
{
    if d < 10 {
        (48 + d) as char
    } else {
        (87 + d) as char
    }
}

/// `n` in decimal digits.
pub open spec fn decimal(n: nat) -> Seq<char>
    decreases n,
{
    if n < 10 {
        seq![digit(n as int)]
    } else {
        decimal(n / 10).push(digit((n % 10) as int))
    }
}

/// `n` in decimal digits.
pub fn decimal_text(n: u64) -> (r: String)
    ensures
        r@ == decimal(n as nat),
    decreases n,
{
    if n < 10 {
        let mut r = String::new();
        r.push(digit_char(n as u8));
        r
    } else {
        let mut r = decimal_text(n / 10);
        r.push(digit_char((n % 10) as u8));
        r
    }
}

/// `a` and then `b`.
pub fn concat(a: &str, b: &str) -> (r: String)
    ensures
        r@ == a@ + b@,
{
    let mut r = a.to_owned();
    r.append(b);
    r
}

/// `a`, then `b`, then `c`.
pub fn wrap(a: &str, b: &str, c: &str) -> (r: String)
    ensures
        r@ == a@ + b@ + c@,
{
    let mut r = a.to_owned();
    r.append(b);
    r.append(c);
    r
}

/// `b` is `trimmed(s)` when white space surrounds it in `s`, and it neither starts
/// nor ends with any.
pub proof fn lemma_trimmed_is(s: Seq<char>, a: Seq<char>, b: Seq<char>, c: Seq<char>)
    requires
        s == a + b + c,
        forall|i: int| 0 <= i < a.len() ==> is_white(#[trigger] a[i]),
        forall|i: int| 0 <= i < c.len() ==> is_white(#[trigger] c[i]),
        b.len() > 0 ==> !is_white(b[0]) && !is_white(b.last()),
    ensures
        trimmed(s) == b,
{
    if b.len() == 0 {
        assert forall|i: int| 0 <= i < s.len() implies white()(#[trigger] s[i]) by {
            if i < a.len() {
                assert(s[i] == a[i]);
            } else {
                assert(s[i] == c[i - a.len()]);
            }
        }
        lemma_span_is(s, white(), s.len());
        assert(trimmed_start(s) == Seq::<char>::empty());
        assert(trimmed(s) == b);
    } else {
        assert forall|i: int| 0 <= i < a.len() implies white()(#[trigger] s[i]) by {
            assert(s[i] == a[i]);
        }
        assert(s[a.len() as int] == b[0]);
        lemma_span_is(s, white(), a.len());
        let t = b + c;
        assert(trimmed_start(s) == t);
        let back = t.reverse();
        assert forall|i: int| 0 <= i < c.len() implies white()(#[trigger] back[i]) by {
            assert(back[i] == c[c.len() - 1 - i]);
        }
        assert(back[c.len() as int] == b.last());
        lemma_span_is(back, white(), c.len());
        assert(t.take(t.len() - c.len()) == b);
    }
}

/// What `trimmed(s)` is: `s` without white space that surrounds it, which neither
/// starts nor ends with any.
pub proof fn lemma_trimmed(s: Seq<char>) -> (r: (Seq<char>, Seq<char>))
    ensures
        s == r.0 + trimmed(s) + r.1,
        forall|i: int| 0 <= i < r.0.len() ==> is_white(#[trigger] r.0[i]),
        forall|i: int| 0 <= i < r.1.len() ==> is_white(#[trigger] r.1[i]),
        trimmed(s).len() > 0 ==> !is_white(trimmed(s)[0]) && !is_white(trimmed(s).last()),
{
    lemma_span(s, white());
    let n = span(s, white());
    let t = s.skip(n as int);
    let back = t.reverse();
    lemma_span(back, white());
    let m = span(back, white());
    let a = s.take(n as int);
    let b = t.take(t.len() - m);
    let c = t.skip(t.len() - m);
    assert(s == a + b + c);
    assert forall|i: int| 0 <= i < a.len() implies is_white(#[trigger] a[i]) by {
        assert(white()(s[i]));
    }
    assert forall|i: int| 0 <= i < c.len() implies is_white(#[trigger] c[i]) by {
        assert(white()(back[c.len() - 1 - i]));
        assert(back[c.len() - 1 - i] == c[i]);
    }
    if b.len() > 0 {
        assert(b[0] == s[n as int]);
        assert(!white()(s[n as int]));
        assert(b.last() == back[m as int]);
        assert(!white()(back[m as int]));
    }
    (a, c)
}

/// White space around a text does not change what is left after trimming.
pub proof fn lemma_trimmed_padding(s: Seq<char>, before: Seq<char>, after: Seq<char>)
    requires
        forall|i: int| 0 <= i < before.len() ==> is_white(#[trigger] before[i]),
        forall|i: int| 0 <= i < after.len() ==> is_white(#[trigger] after[i]),
    ensures
        trimmed(before + s + after) == trimmed(s),
{
    let (a, c) = lemma_trimmed(s);
    let b = trimmed(s);
    let all = before + s + after;
    assert(all == (before + a) + b + (c + after));
    lemma_trimmed_is(all, before + a, b, c + after);
}

/// Whether `a` comes before `b` in the order of their characters.
pub open spec fn precedes(a: Seq<char>, b: Seq<char>) -> bool
    decreases a.len(),
{
    if b.len() == 0 {
        false
    } else if a.len() == 0 {
        true
    } else if a[0] != b[0] {
        a[0] < b[0]
    } else {
        precedes(a.skip(1), b.skip(1))
    }
}

/// Whether `a` comes before `b` in the order of their characters.
pub fn is_before(a: &str, b: &str) -> (r: bool)
    ensures
        r == precedes(a@, b@),
{
    let v = chars_of(a);
    let w = chars_of(b);
    let mut i: usize = 0;
    assert(v@.skip(0) == v@);
    assert(w@.skip(0) == w@);
    while i < v.len() && i < w.len() && v[i] == w[i]
        invariant
            i <= v.len(),
            i <= w.len(),
            precedes(v@.skip(i as int), w@.skip(i as int)) == precedes(v@, w@),
        decreases v.len() - i,
    {
        assert(v@.skip(i as int).skip(1) == v@.skip(i + 1));
        assert(w@.skip(i as int).skip(1) == w@.skip(i + 1));
        i += 1;
    }
    if i == w.len() {
        false
    } else if i == v.len() {
        true
    } else {
        v[i] < w[i]
    }
}

/// `precedes` orders texts strictly: no text comes before itself, and of two
/// different texts just one comes before the other.
pub proof fn lemma_precedes(a: Seq<char>, b: Seq<char>)
    ensures
        a != b ==> (precedes(a, b) <==> !precedes(b, a)),
        a == b ==> !precedes(a, b),
    decreases a.len(),
{
    if a.len() > 0 && b.len() > 0 && a[0] == b[0] {
        lemma_precedes(a.skip(1), b.skip(1));
        if a.skip(1) == b.skip(1) {
            assert(a == seq![a[0]] + a.skip(1));
            assert(b == seq![b[0]] + b.skip(1));
        }
    }
    if a.len() == 0 && b.len() == 0 {
        assert(a == b);
    }
}

/// `precedes` is transitive.
pub proof fn lemma_precedes_chain(a: Seq<char>, b: Seq<char>, c: Seq<char>)
    requires
        precedes(a, b),
        precedes(b, c),
    ensures
        precedes(a, c),
    decreases a.len(),
{
    if a.len() > 0 && a[0] == b[0] && b[0] == c[0] {
        lemma_precedes_chain(a.skip(1), b.skip(1), c.skip(1));
    }
}

/// Whether a further line can be appended to `s`: it is empty or ends with a line feed.
pub open spec fn is_complete(s: Seq<char>) -> bool {
    s.len() == 0 || s.last() == '\n'
}

/// What is appended to whole lines adds its own lines and changes none.
pub proof fn lemma_lines_concat(a: Seq<char>, b: Seq<char>)
    requires
        is_complete(a),
    ensures
        lines_of(a + b) == lines_of(a) + lines_of(b),
    decreases a.len(),
{
    let p = other_than('\n');
    if a.len() == 0 {
        assert(a + b == b);
        assert(lines_of(a) + lines_of(b) == lines_of(b));
    } else {
        lemma_span(a, p);
        let n = span(a, p);
        assert(n < a.len()) by {
            if n == a.len() {
                assert(p(a[a.len() - 1]));
            }
        }
        let all = a + b;
        assert forall|i: int| 0 <= i < n implies p(#[trigger] all[i]) by {
            assert(all[i] == a[i]);
        }
        assert(all[n as int] == a[n as int]);
        lemma_span_is(all, p, n);
        let rest = a.skip(n as int + 1);
        assert(all.skip(n as int + 1) == rest + b);
        assert(all.take(n as int) == a.take(n as int));
        if rest.len() > 0 {
            assert(rest.last() == a.last());
        }
        lemma_lines_concat(rest, b);
        let first = seq![without_return(a.take(n as int))];
        assert(lines_of(all) == first + lines_of(rest + b));
        assert(lines_of(a) == first + lines_of(rest));
        assert(first + (lines_of(rest) + lines_of(b)) == (first + lines_of(rest))
            + lines_of(b));
    }
}

/// A line feed at the end of an unfinished line ends that line, and changes none.
pub proof fn lemma_lines_ended(s: Seq<char>)
    requires
        !is_complete(s),
    ensures
        lines_of(s).len() > 0,
        lines_of(s.push('\n')) == lines_of(s).drop_last().push(
            without_return(lines_of(s).last()),
        ),
    decreases s.len(),
{
    let p = other_than('\n');
    lemma_span(s, p);
    let n = span(s, p);
    let all = s.push('\n');
    assert forall|i: int| 0 <= i < n implies p(#[trigger] all[i]) by {
        assert(all[i] == s[i]);
    }
    if n < s.len() {
        assert(all[n as int] == s[n as int]);
    }
    lemma_span_is(all, p, n);
    assert(all.take(n as int) == s.take(n as int));
    if n == s.len() {
        assert(s.take(n as int) == s);
        assert(all.skip(n as int + 1) == Seq::<char>::empty());
        assert(lines_of(all.skip(n as int + 1)) == Seq::<Seq<char>>::empty());
        assert(lines_of(s) == seq![s]);
        assert(lines_of(all) == seq![without_return(s)]);
    } else {
        let rest = s.skip(n as int + 1);
        assert(rest.len() > 0 && rest.last() == s.last());
        lemma_lines_ended(rest);
        assert(all.skip(n as int + 1) == rest.push('\n'));
        let first = seq![without_return(s.take(n as int))];
        assert(lines_of(s) == first + lines_of(rest));
        assert(lines_of(all) == first + lines_of(rest.push('\n')));
        assert(lines_of(s).drop_last() == first + lines_of(rest).drop_last());
    }
}

/// A carriage return at the end of a line is white space.
pub proof fn lemma_trimmed_without_return(s: Seq<char>)
    ensures
        trimmed(without_return(s)) == trimmed(s),
{
    if s.len() > 0 && s.last() == '\r' {
        let none = Seq::<char>::empty();
        assert(s == none + s.drop_last() + seq!['\r']);
        lemma_trimmed_padding(s.drop_last(), none, seq!['\r']);
    }
}

/// The words of two texts with a space between them are those of the first and then
/// those of the second.
pub proof fn lemma_words_concat(a: Seq<char>, b: Seq<char>)
    ensures
        words_of(a + seq![' '] + b) == words_of(a) + words_of(b),
    decreases a.len(),
{
    let all = a + seq![' '] + b;
    lemma_span(a, white());
    let n = span(a, white());
    let t = a.skip(n as int);
    if t.len() == 0 {
        assert(words_of(a) == Seq::<Seq<char>>::empty());
        let pad = a.push(' ');
        assert forall|i: int| 0 <= i < pad.len() implies is_white(#[trigger] pad[i]) by {
            if i < a.len() {
                assert(white()(a[i]));
            }
        }
        assert(all == pad + b);
        lemma_words_padding(pad, b);
        assert(words_of(a) + words_of(b) == words_of(b));
    } else {
        lemma_span(t, black());
        let m = span(t, black());
        assert(t[0] == a[n as int]);
        assert(!white()(a[n as int]));
        assert(m > 0);
        let rest = t.skip(m as int);
        assert forall|i: int| 0 <= i < n implies white()(#[trigger] all[i]) by {
            assert(all[i] == a[i]);
        }
        assert(all[n as int] == a[n as int]);
        lemma_span_is(all, white(), n);
        let u = all.skip(n as int);
        assert(u == t + seq![' '] + b);
        assert forall|i: int| 0 <= i < m implies black()(#[trigger] u[i]) by {
            assert(u[i] == t[i]);
        }
        if m < t.len() {
            assert(u[m as int] == t[m as int]);
        } else {
            assert(u[m as int] == ' ');
        }
        lemma_span_is(u, black(), m);
        assert(u.take(m as int) == t.take(m as int));
        assert(u.skip(m as int) == rest + seq![' '] + b);
        lemma_words_concat(rest, b);
        assert(words_of(all) == seq![t.take(m as int)] + words_of(rest + seq![' '] + b));
        assert(words_of(a) == seq![t.take(m as int)] + words_of(rest));
        assert(seq![t.take(m as int)] + (words_of(rest) + words_of(b)) == (seq![t.take(m as int)]
            + words_of(rest)) + words_of(b));
    }
}

/// White space before a text changes none of its words.
proof fn lemma_words_padding(pad: Seq<char>, b: Seq<char>)
    requires
        forall|i: int| 0 <= i < pad.len() ==> is_white(#[trigger] pad[i]),
    ensures
        words_of(pad + b) == words_of(b),
{
    let all = pad + b;
    lemma_span(b, white());
    let n = span(b, white());
    assert forall|i: int| 0 <= i < pad.len() + n implies white()(#[trigger] all[i]) by {
        if i < pad.len() {
            assert(all[i] == pad[i]);
        } else {
            assert(all[i] == b[i - pad.len()]);
            assert(white()(b[i - pad.len()]));
        }
    }
    if n < b.len() {
        assert(all[pad.len() as int + n] == b[n as int]);
    }
    lemma_span_is(all, white(), pad.len() + n);
    assert(trimmed_start(all) == trimmed_start(b));
}

/// The blank, the tab and the line breaks are white space, and no visible ASCII character
/// is.
pub proof fn visible_characters_are_not_white(c: char, r: bool)
    requires
        call_ensures(is_whitespace, (c,), r),
    ensures
        c == ' ' || c == '\t' || c == '\n' || c == '\r' ==> r,
        '!' <= c <= '~' ==> !r,
{
}

/// Trimming takes away white space at the two ends and nothing else: what is left neither
/// begins nor ends with white space, and what was taken away is white.
pub proof fn trimming_takes_white_space_only(s: &str, r: String) -> (cut: (Seq<char>, Seq<char>))
    requires
        call_ensures(trim, (s,), r),
    ensures
        s@ == cut.0 + r@ + cut.1,
        forall|i: int| 0 <= i < cut.0.len() ==> is_white(#[trigger] cut.0[i]),
        forall|i: int| 0 <= i < cut.1.len() ==> is_white(#[trigger] cut.1[i]),
        r@.len() > 0 ==> !is_white(r@[0]) && !is_white(r@.last()),
{
    lemma_trimmed(s@)
}

/// What stands between `a` and `b` is found, and what is found stands somewhere.
pub proof fn finding_means_standing_inside(s: &str, t: &str, r: bool)
    requires
        call_ensures(contains, (s, t), r),
    ensures
        r <==> exists|a: Seq<char>, b: Seq<char>| s@ == #[trigger] (a + t@ + b),
{
    if r {
        let i = choose|i: int| stands_at(s@, t@, i);
        let a = s@.take(i);
        let b = s@.skip(i + t@.len());
        assert(s@ =~= a + t@ + b);
    }
    if exists|a: Seq<char>, b: Seq<char>| s@ == #[trigger] (a + t@ + b) {
        let (a, b) = choose|a: Seq<char>, b: Seq<char>| s@ == #[trigger] (a + t@ + b);
        let i = a.len() as int;
        assert(s@.subrange(i, i + t@.len()) =~= t@);
        assert(stands_at(s@, t@, i));
    }
}

/// Splitting at the first white space loses just that character: the first part holds no
/// white space, and where there is a second part, one white character stands between.
pub proof fn split_loses_one_white_character(s: &str, r: (String, String))
    requires
        call_ensures(split_first_word, (s,), r),
    ensures
        forall|i: int| 0 <= i < r.0@.len() ==> !is_white(#[trigger] r.0@[i]),
        s@ == r.0@ && r.1@.len() == 0 || exists|c: char|
            is_white(c) && s@ == #[trigger] r.0@.push(c) + r.1@,
{
    lemma_span(s@, black());
    let n = span(s@, black()) as int;
    assert forall|i: int| 0 <= i < r.0@.len() implies !is_white(#[trigger] r.0@[i]) by {
        assert(r.0@[i] == s@[i]);
        assert(black()(s@[i]));
    }
    if n < s@.len() {
        let c = s@[n];
        assert(!black()(c));
        assert(s@ =~= r.0@.push(c) + r.1@);
    }
}

/// A text without a line feed is one line, with or without one behind it.
pub proof fn text_without_a_break_is_one_line(s: Seq<char>)
    requires
        s.len() > 0,
        !s.contains('\n'),
    ensures
        lines_of(s) == seq![s],
        s.last() != '\r' ==> lines_of(s.push('\n')) == seq![s],
        s.last() == '\r' ==> lines_of(s.push('\n')) == seq![s.drop_last()],
{
    let p = other_than('\n');
    assert forall|i: int| 0 <= i < s.len() implies p(#[trigger] s[i]) by {
        assert(s.contains(s[i]));
    }
    lemma_span_is(s, p, s.len());
    let t = s.push('\n');
    assert forall|i: int| 0 <= i < s.len() implies p(#[trigger] t[i]) by {
        assert(t[i] == s[i]);
    }
    lemma_span_is(t, p, s.len());
    assert(t.take(s.len() as int) =~= s);
    assert(t.skip(s.len() as int + 1) =~= Seq::<char>::empty());
    assert(lines_of(Seq::<char>::empty()) =~= Seq::<Seq<char>>::empty());
    assert(lines_of(t) =~= seq![without_return(s)]);
}

/// A text without white space is one word, and one of white space only has none.
pub proof fn text_without_white_space_is_one_word(s: Seq<char>)
    ensures
        s.len() > 0 && (forall|i: int| 0 <= i < s.len() ==> !is_white(#[trigger] s[i])) ==> words_of(
            s,
        ) == seq![s],
        (forall|i: int| 0 <= i < s.len() ==> is_white(#[trigger] s[i])) ==> words_of(s).len() == 0,
{
    if s.len() > 0 && (forall|i: int| 0 <= i < s.len() ==> !is_white(#[trigger] s[i])) {
        assert(!white()(s[0]));
        lemma_span_is(s, white(), 0);
        assert(trimmed_start(s) =~= s);
        assert forall|i: int| 0 <= i < s.len() implies black()(#[trigger] s[i]) by {}
        lemma_span_is(s, black(), s.len());
        let rest = s.skip(s.len() as int);
        assert(rest =~= Seq::<char>::empty());
        assert(trimmed_start(rest).len() == 0);
        assert(words_of(rest) =~= Seq::<Seq<char>>::empty());
        assert(s.take(s.len() as int) =~= s);
        assert(words_of(s) =~= seq![s]);
    }
    if forall|i: int| 0 <= i < s.len() ==> is_white(#[trigger] s[i]) {
        assert forall|i: int| 0 <= i < s.len() implies white()(#[trigger] s[i]) by {}
        lemma_span_is(s, white(), s.len());
        assert(trimmed_start(s).len() == 0);
    }
}

/// The parts of a joined text stand in it as they are: one part alone is the text, and
/// two lists of parts are joined by joining each of them, with the separator between.
pub proof fn joining_keeps_the_parts(
    a: Seq<Seq<char>>,
    b: Seq<Seq<char>>,
    sep: Seq<char>,
    t: Seq<char>,
)
    ensures
        joined(seq![t], sep) == t,
        a.len() > 0 && b.len() > 0 ==> joined(a + b, sep) == joined(a, sep) + sep + joined(b, sep),
    decreases b.len(),
{
    if a.len() > 0 && b.len() > 0 {
        let all = a + b;
        assert(all.drop_last() =~= a + b.drop_last());
        assert(all.last() == b.last());
        if b.len() == 1 {
            assert(a + b.drop_last() =~= a);
        } else {
            joining_keeps_the_parts(a, b.drop_last(), sep, t);
        }
        assert(joined(all, sep) =~= joined(a, sep) + sep + joined(b, sep));
    }
}

/// The number that decimal digits say.
pub open spec fn number_in(s: Seq<char>) -> int
    decreases s.len(),
{
    if s.len() == 0 {
        0
    } else {
        number_in(s.drop_last()) * 10 + (s.last() as int - '0' as int)
    }
}

proof fn lemma_decimal(n: nat)
    ensures
        number_in(decimal(n)) == n,
        decimal(n).len() > 0,
        forall|i: int| 0 <= i < decimal(n).len() ==> '0' <= #[trigger] decimal(n)[i] <= '9',
        n > 0 ==> decimal(n)[0] != '0',
    decreases n,
{
    if n < 10 {
        assert(decimal(n).drop_last() =~= Seq::<char>::empty());
        assert(number_in(Seq::<char>::empty()) == 0);
    } else {
        lemma_decimal(n / 10);
        assert(decimal(n).drop_last() =~= decimal(n / 10));
    }
}

/// A number is written in decimal digits that say just that number, without a zero in
/// front.
pub proof fn digits_say_the_number(n: u64, r: String)
    requires
        call_ensures(decimal_text, (n,), r),
    ensures
        number_in(r@) == n,
        r@.len() > 0,
        forall|i: int| 0 <= i < r@.len() ==> '0' <= #[trigger] r@[i] <= '9',
        n > 0 ==> r@[0] != '0',
{
    lemma_decimal(n as nat);
}

/// The order of texts is decided by the first character in which they differ.
pub proof fn first_difference_decides(common: Seq<char>, a: Seq<char>, b: Seq<char>)
    ensures
        a.len() > 0 && b.len() > 0 && a[0] < b[0] ==> precedes(common + a, common + b)
            && !precedes(common + b, common + a),
        b.len() > 0 ==> precedes(common, common + b),
        !precedes(common, common),
    decreases common.len(),
{
    if common.len() == 0 {
        assert(common + a =~= a);
        assert(common + b =~= b);
    } else {
        let less = common.skip(1);
        first_difference_decides(less, a, b);
        assert((common + a).skip(1) =~= less + a);
        assert((common + b).skip(1) =~= less + b);
        assert((common + a)[0] == common[0] && (common + b)[0] == common[0]);
    }
}

} // verus!
