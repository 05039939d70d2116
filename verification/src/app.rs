//! The face of the room: what a typed line means, what happens next, and how it is
//! shown. Reading lines, waiting and printing are left to the caller.

use crate::message::{Message, MessageView};
use crate::store;
use crate::sync::{self, SyncError};
use crate::text;
use crate::vice::{self, ViceCommand, ViceError};
use vstd::prelude::*;

verus! {

/// How many seconds pass between two looks at the room.
pub const POLL_SECONDS: u64 = 1;

/// What stands before the line that is typed.
pub const PROMPT: &'static str = "> ";

/// What the user is told who calls the scribe where there is none.
pub const VICE_DISABLED: &'static str = "@vice disabled — add .vice.toml to enable\n";

/// What a typed line means.
#[derive(Debug, PartialEq, Eq)]
pub enum Line {
    /// A call of the scribe, with what follows its name.
    Vice(String),
    /// A message.
    Chat(String),
}

/// Whether `t` calls the scribe: it starts with the scribe's name, and the name ends
/// there.
pub open spec fn calls_vice(t: Seq<char>) -> bool {
    &&& "@vice"@.is_prefix_of(t)
    &&& t.len() == 5 || text::is_white(t[5])
}

/// What a typed line means; nothing where it is blank.
pub fn classify_line(line: &str) -> (r: Option<Line>)
    ensures
        match r {
            None => text::trimmed(line@).len() == 0,
            Some(Line::Vice(rest)) => calls_vice(text::trimmed(line@)) && rest@ == text::trimmed(
                text::trimmed(line@).skip(5),
            ),
            Some(Line::Chat(body)) => body@ == text::trimmed(line@) && body@.len() > 0
                && !calls_vice(body@),
        },
{
    let t = text::trim(line);
    if t.as_str().is_empty() {
        return None;
    }
    proof {
        reveal_strlit("@vice");
    }
    if let Some(rest) = text::strip_prefix(t.as_str(), "@vice") {
        let v = text::chars_of(rest.as_str());
        assert(v.len() > 0 ==> v@[0] == t@[5]);
        if v.len() == 0 || text::is_whitespace(v[0]) {
            return Some(Line::Vice(text::trim(rest.as_str())));
        }
    }
    Some(Line::Chat(t))
}

/// The hour and the minute of the day, in universal time.
pub open spec fn hour_and_minute(ts: i64) -> (int, int) {
    let second = ts as int % 86_400;
    (second / 3600, (second % 3600) / 60)
}

/// The hour and the minute of the day, in universal time.
fn hhmm_utc(ts: i64) -> (r: (u64, u64))
    ensures
        (r.0 as int, r.1 as int) == hour_and_minute(ts),
        r.0 < 24,
        r.1 < 60,
{
    let second: u64 = match ts.checked_rem_euclid(86_400) {
        Some(s) => s as u64,
        None => 0,
    };
    (second / 3600, (second % 3600) / 60)
}

/// `n` in two decimal digits.
pub open spec fn two_digits(n: int) -> Seq<char> {
    seq![text::digit(n / 10), text::digit(n % 10)]
}

/// `n` in two decimal digits.
fn two_digit_text(n: u64) -> (r: String)
    requires
        n < 100,
    ensures
        r@ == two_digits(n as int),
{
    let mut r = String::new();
    r.push(text::digit_char((n / 10) as u8));
    r.push(text::digit_char((n % 10) as u8));
    assert(r@ == two_digits(n as int));
    r
}

/// Who sent a message: the author, and the model where one wrote it.
pub open spec fn sender(m: MessageView) -> Seq<char> {
    match m.model {
        Some(model) => m.author + "/"@ + model,
        None => m.author,
    }
}

/// A message as it is shown: who sent it, when, and what it says.
pub open spec fn rendered(m: MessageView) -> Seq<char> {
    let (hh, mm) = hour_and_minute(m.ts);
    "["@ + sender(m) + " · "@ + two_digits(hh) + ":"@ + two_digits(mm) + "] "@ + m.body
}

/// A message as it is shown.
pub fn render(m: &Message) -> (r: String)
    ensures
        r@ == rendered(m@),
{
    let mut r = "[".to_owned();
    r.append(m.author.as_str());
    if let Some(model) = &m.model {
        r.append("/");
        r.append(model.as_str());
    }
    proof {
        assert(r@ == "["@ + sender(m@));
    }
    let (hh, mm) = hhmm_utc(m.ts);
    r.append(" · ");
    r.append(two_digit_text(hh).as_str());
    r.append(":");
    r.append(two_digit_text(mm).as_str());
    r.append("] ");
    r.append(m.body.as_str());
    r
}

/// Something that happens while the room is open.
pub enum Event {
    /// The user typed a line.
    Typed(String),
    /// The user will type no more.
    Closed,
    /// It is time to look at the room.
    Tick,
}

/// What is to be done about an event.
pub enum Action {
    Quit,
    Nothing,
    /// Send a message with this body.
    Send(String),
    /// Have the scribe do this.
    Ask(ViceCommand),
    Print(String),
    /// Look what is new in the room.
    Poll,
}

/// What is to be done about an event, where `vice` tells whether there is a scribe.
pub fn on_event(event: Event, vice: bool) -> (r: Action)
    ensures
        match event {
            Event::Closed => r is Quit,
            Event::Tick => r is Poll,
            Event::Typed(line) => {
                let t = text::trimmed(line@);
                if t.len() == 0 {
                    r is Nothing
                } else if !calls_vice(t) {
                    r matches Action::Send(body) && body@ == t
                } else if vice {
                    r matches Action::Ask(cmd) && vice::is_command(cmd, text::trimmed(t.skip(5)))
                } else {
                    r matches Action::Print(s) && s@ == VICE_DISABLED@
                }
            },
        },
{
    match event {
        Event::Closed => Action::Quit,
        Event::Tick => Action::Poll,
        Event::Typed(line) => match classify_line(line.as_str()) {
            None => Action::Nothing,
            Some(Line::Chat(body)) => {
                proof {
                    reveal_strlit("@vice");
                }
                Action::Send(body)
            },
            Some(Line::Vice(rest)) => {
                proof {
                    reveal_strlit("@vice");
                }
                if vice {
                    Action::Ask(vice::parse_command(rest.as_str()))
                } else {
                    Action::Print(VICE_DISABLED.to_owned())
                }
            },
        },
    }
}

/// A message as a line of its own.
pub open spec fn shown(m: MessageView) -> Seq<char> {
    rendered(m) + "\n"@
}

/// A message as a line of its own.
fn show(m: &Message) -> (r: String)
    ensures
        r@ == shown(m@),
{
    text::concat(render(m).as_str(), "\n")
}

/// What is printed once sending came to `outcome`. A message of the user's own never
/// comes back as news, so this is where the user gets to see it.
pub fn sent_line(outcome: &Result<Message, SyncError>) -> (r: String)
    ensures
        r@ == (match outcome {
            Ok(m) => shown(m@),
            Err(e) => "send failed: "@ + sync::sync_error_text(*e) + "\n"@,
        }),
{
    match outcome {
        Ok(m) => show(m),
        Err(e) => text::wrap("send failed: ", e.text().as_str(), "\n"),
    }
}

/// What is printed once the scribe's work came to `outcome`.
pub fn vice_line(outcome: &Result<Message, ViceError>) -> (r: String)
    ensures
        r@ == (match outcome {
            Ok(m) => shown(m@),
            Err(e) => "@vice error: "@ + vice::vice_error_text(*e) + "\n"@,
        }),
{
    match outcome {
        Ok(m) => show(m),
        Err(e) => text::wrap("@vice error: ", e.text().as_str(), "\n"),
    }
}

/// The messages as lines of their own.
pub open spec fn all_shown(ms: Seq<MessageView>) -> Seq<Seq<char>> {
    ms.map_values(|m: MessageView| shown(m))
}

/// The messages as lines of their own.
fn show_all(ms: &Vec<Message>) -> (r: Vec<String>)
    ensures
        text::texts(r@) == all_shown(store::message_views(ms@)),
{
    let mut r: Vec<String> = Vec::new();
    let mut i: usize = 0;
    while i < ms.len()
        invariant
            i == r.len() <= ms.len(),
            forall|j: int| 0 <= j < i ==> (#[trigger] r@[j])@ == shown(ms@[j]@),
        decreases ms.len() - i,
    {
        r.push(show(&ms[i]));
        i += 1;
    }
    assert(text::texts(r@) == all_shown(store::message_views(ms@)));
    r
}

/// What is printed once a look at the room came to `outcome`.
pub fn poll_lines(outcome: &Result<Vec<Message>, SyncError>) -> (r: Vec<String>)
    ensures
        text::texts(r@) == (match outcome {
            Ok(news) => all_shown(store::message_views(news@)),
            Err(e) => seq!["poll error: "@ + sync::sync_error_text(*e) + "\n"@],
        }),
{
    match outcome {
        Ok(news) => show_all(news),
        Err(e) => {
            let r: Vec<String> = vec![text::wrap("poll error: ", e.text().as_str(), "\n")];
            assert(text::texts(r@) == seq!["poll error: "@ + sync::sync_error_text(*e) + "\n"@]);
            r
        },
    }
}

/// What is said when the history of the room has been shown.
pub open spec fn caught_up(n: nat) -> Seq<char> {
    "— caught up ("@ + text::decimal(n) + " message(s)) —\n"@
}

/// What is printed once the first look at the room came to `outcome`: its history, and
/// that this was all.
pub fn startup_lines(outcome: &Result<Vec<Message>, SyncError>) -> (r: Vec<String>)
    ensures
        text::texts(r@) == (match outcome {
            Ok(news) => all_shown(store::message_views(news@)).push(caught_up(news@.len())),
            Err(e) => seq!["startup poll error: "@ + sync::sync_error_text(*e) + "\n"@],
        }),
{
    match outcome {
        Ok(news) => {
            let mut r = show_all(news);
            let ghost before = text::texts(r@);
            let count = text::decimal_text(news.len() as u64);
            r.push(text::wrap("— caught up (", count.as_str(), " message(s)) —\n"));
            assert(text::texts(r@) == before.push(caught_up(news@.len())));
            r
        },
        Err(e) => {
            let r: Vec<String> = vec![text::wrap("startup poll error: ", e.text().as_str(), "\n")];
            assert(text::texts(r@) == seq![
                "startup poll error: "@ + sync::sync_error_text(*e) + "\n"@,
            ]);
            r
        },
    }
}

/// The clock shows an hour of the day and a minute of the hour, for times before the
/// epoch too.
pub proof fn clock_is_in_range(ts: i64)
    ensures
        0 <= hour_and_minute(ts).0 < 24,
        0 <= hour_and_minute(ts).1 < 60,
{
}

/// The scribe's name at the start of a longer word calls nobody.
pub proof fn name_inside_a_word_calls_nobody(rest: Seq<char>)
    requires
        rest.len() > 0,
        !text::is_white(rest[0]),
    ensures
        !calls_vice("@vice"@ + rest),
{
    reveal_strlit("@vice");
    assert(("@vice"@ + rest)[5] == rest[0]);
}

/// What a typed line means is decided by what is left of it without the white space around
/// it. Nothing is left of a blank line. A line calls the scribe just where it starts with
/// the scribe's name and the name ends there, and what follows the name is the request;
/// every other line is a message, and all of it is.
pub proof fn typed_line_is_kept_whole(line: &str, r: Option<Line>) -> (cut: (
    Seq<char>,
    Seq<char>,
    Seq<char>,
))
    requires
        call_ensures(classify_line, (line,), r),
    ensures
        forall|i: int| 0 <= i < cut.0.len() ==> text::is_white(#[trigger] cut.0[i]),
        forall|i: int| 0 <= i < cut.1.len() ==> text::is_white(#[trigger] cut.1[i]),
        forall|i: int| 0 <= i < cut.2.len() ==> text::is_white(#[trigger] cut.2[i]),
        match r {
            None => line@ == cut.0 + cut.2,
            Some(Line::Chat(body)) => {
                &&& line@ == cut.0 + body@ + cut.2
                &&& body@.len() > 0
                &&& !text::is_white(body@[0])
                &&& !text::is_white(body@.last())
                &&& body@.len() >= 5 && body@.take(5) == seq!['@', 'v', 'i', 'c', 'e']
                    ==> body@.len() > 5 && !text::is_white(body@[5])
            },
            Some(Line::Vice(rest)) => {
                &&& line@ == cut.0 + seq!['@', 'v', 'i', 'c', 'e'] + cut.1 + rest@ + cut.2
                &&& rest@.len() > 0 ==> cut.1.len() > 0 && !text::is_white(rest@[0])
            },
        },
{
    reveal_strlit("@vice");
    let name = seq!['@', 'v', 'i', 'c', 'e'];
    assert("@vice"@ =~= name);
    let t = text::trimmed(line@);
    let (before, after) = text::lemma_trimmed(line@);
    match r {
        None => {
            assert(line@ =~= before + after);
            (before, Seq::empty(), after)
        },
        Some(Line::Chat(body)) => {
            if body@.len() >= 5 && body@.take(5) == name {
                assert("@vice"@.is_prefix_of(body@));
            }
            (before, Seq::empty(), after)
        },
        Some(Line::Vice(rest)) => {
            let behind = t.skip(5);
            let (gap, end) = text::lemma_trimmed(behind);
            assert(t =~= name + behind);
            if end.len() > 0 && rest@.len() > 0 {
                assert(t.last() == end.last());
                assert(text::is_white(end[end.len() - 1]));
            }
            if rest@.len() > 0 {
                assert(end.len() == 0);
                if gap.len() == 0 {
                    assert(t[5] == rest@[0]);
                }
                assert(line@ =~= before + name + gap + rest@ + after);
                (before, gap, after)
            } else {
                assert(behind =~= gap + end);
                assert forall|i: int| 0 <= i < behind.len() implies text::is_white(
                    #[trigger] behind[i],
                ) by {
                    if i < gap.len() {
                        assert(behind[i] == gap[i]);
                    } else {
                        assert(behind[i] == end[i - gap.len()]);
                    }
                }
                assert(line@ =~= before + name + behind + rest@ + after);
                (before, behind, after)
            }
        },
    }
}

/// What is done about a typed line is what the line means: a message is sent as it was
/// typed, a request goes to the scribe where there is one, and nothing is done about a
/// blank line.
pub proof fn typed_line_decides_what_is_done(
    line: String,
    vice: bool,
    s: &str,
    meaning: Option<Line>,
    r: Action,
)
    requires
        s@ == line@,
        call_ensures(classify_line, (s,), meaning),
        call_ensures(on_event, (Event::Typed(line), vice), r),
    ensures
        match meaning {
            None => r is Nothing,
            Some(Line::Chat(body)) => r is Send && r->Send_0@ == body@,
            Some(Line::Vice(rest)) => if vice {
                r is Ask && vice::is_command(r->Ask_0, rest@)
            } else {
                r is Print
            },
        },
{
    reveal_strlit("@vice");
}

/// The number that two decimal digits say.
pub open spec fn two_digit_number(a: char, b: char) -> int {
    (a as int - '0' as int) * 10 + (b as int - '0' as int)
}

/// A message is shown with who sent it, when, and all that it says: the author stands in
/// front, with the model behind a slash where one wrote it; the time is the hour and the
/// minute of the day in universal time, each in two digits; and the text ends with the
/// whole body.
pub proof fn message_is_shown_whole(m: &Message, r: String) -> (at: (int, int, int))
    requires
        call_ensures(render, (m,), r),
    ensures
        ({
            let who = match m.model {
                Some(model) => m.author@ + seq!['/'] + model@,
                None => m.author@,
            };
            let n = who.len() as int;
            let (day, hour, minute) = at;
            &&& r@.len() == n + 11 + m.body@.len()
            &&& r@[0] == '['
            &&& r@.subrange(1, 1 + n) == who
            &&& r@[n + 6] == ':' && r@[n + 9] == ']' && r@[n + 10] == ' '
            &&& two_digit_number(r@[n + 4], r@[n + 5]) == hour
            &&& two_digit_number(r@[n + 7], r@[n + 8]) == minute
            &&& 0 <= hour < 24
            &&& 0 <= minute < 60
            &&& 0 <= m.ts - (day * 86_400 + hour * 3_600 + minute * 60) < 60
            &&& r@.skip(n + 11) == m.body@
        }),
{
    reveal_strlit("[");
    reveal_strlit("/");
    reveal_strlit(" · ");
    reveal_strlit(":");
    reveal_strlit("] ");
    let v = m@;
    let who = match m.model {
        Some(model) => m.author@ + seq!['/'] + model@,
        None => m.author@,
    };
    assert("/"@ =~= seq!['/']);
    assert(who == sender(v));
    let (hour, minute) = hour_and_minute(m.ts);
    let day = m.ts as int / 86_400;
    let n = who.len() as int;
    assert(r@.subrange(1, 1 + n) =~= who);
    assert(r@.skip(n + 11) =~= m.body@);
    let (h, l) = (two_digits(hour), two_digits(minute));
    assert(r@[n + 4] == h[0] && r@[n + 5] == h[1]);
    assert(r@[n + 7] == l[0] && r@[n + 8] == l[1]);
    (day, hour, minute)
}

/// Each message that is new is printed, on a line of its own and in its order, as it is
/// shown; at the start of a session a last line tells how many there were.
pub proof fn news_is_printed_in_full(
    news: Vec<Message>,
    r: Vec<String>,
    first: Vec<String>,
    i: int,
    message: String,
    count: u64,
    digits: String,
)
    requires
        call_ensures(poll_lines, (&Ok::<Vec<Message>, SyncError>(news),), r),
        call_ensures(startup_lines, (&Ok::<Vec<Message>, SyncError>(news),), first),
        0 <= i < news@.len(),
        call_ensures(render, (&news@[i],), message),
        count == news@.len(),
        call_ensures(text::decimal_text, (count,), digits),
    ensures
        r@.len() == news@.len(),
        first@.len() == news@.len() + 1,
        r@[i]@ == message@.push('\n'),
        first@[i]@ == message@.push('\n'),
        text::has(first@.last()@, digits@),
{
    reveal_strlit("\n");
    assert("\n"@ =~= seq!['\n']);
    let ms = store::message_views(news@);
    let all = all_shown(ms);
    assert(text::texts(r@) == all);
    assert(text::texts(r@).len() == r@.len() && all.len() == news@.len());
    assert(text::texts(first@).len() == first@.len());
    assert(text::texts(r@)[i] == r@[i]@);
    assert(text::texts(first@)[i] == first@[i]@);
    assert(ms[i] == news@[i]@);
    assert(r@[i]@ =~= message@.push('\n'));
    let last = first@.last()@;
    assert(text::texts(first@)[news@.len() as int] == last);
    assert(last == caught_up(news@.len()));
    let at = "— caught up ("@.len() as int;
    assert(last.subrange(at, at + digits@.len()) =~= digits@);
    assert(text::stands_at(last, digits@, at));
}

/// A line that reports a failure says what happened.
pub proof fn failures_are_named(e: SyncError, said: String, r: String)
    requires
        call_ensures(SyncError::text, (&e,), said),
        call_ensures(sent_line, (&Err::<Message, SyncError>(e),), r),
    ensures
        text::has(r@, said@),
{
    let a = "send failed: "@;
    let at = a.len() as int;
    assert(r@.subrange(at, at + said@.len()) =~= said@);
    assert(text::stands_at(r@, said@, at));
}

/// Whatever fails, the line that is printed says what happened.
pub proof fn every_failure_is_named(
    e: SyncError,
    said: String,
    news: Vec<String>,
    first: Vec<String>,
    f: ViceError,
    complaint: String,
    r: String,
)
    requires
        call_ensures(SyncError::text, (&e,), said),
        call_ensures(poll_lines, (&Err::<Vec<Message>, SyncError>(e),), news),
        call_ensures(startup_lines, (&Err::<Vec<Message>, SyncError>(e),), first),
        call_ensures(ViceError::text, (&f,), complaint),
        call_ensures(vice_line, (&Err::<Message, ViceError>(f),), r),
    ensures
        news@.len() == 1,
        text::has(news@[0]@, said@),
        first@.len() == 1,
        text::has(first@[0]@, said@),
        text::has(r@, complaint@),
{
    assert(text::texts(news@).len() == news@.len() && text::texts(first@).len() == first@.len());
    assert(text::texts(news@)[0] == news@[0]@ && text::texts(first@)[0] == first@[0]@);
    let at = "poll error: "@.len() as int;
    assert(news@[0]@.subrange(at, at + said@.len()) =~= said@);
    assert(text::stands_at(news@[0]@, said@, at));
    let at = "startup poll error: "@.len() as int;
    assert(first@[0]@.subrange(at, at + said@.len()) =~= said@);
    assert(text::stands_at(first@[0]@, said@, at));
    let at = "@vice error: "@.len() as int;
    assert(r@.subrange(at, at + complaint@.len()) =~= complaint@);
    assert(text::stands_at(r@, complaint@, at));
}

/// A message that was sent, and one that the scribe posted, is printed as it is shown, on a
/// line of its own.
pub proof fn sent_message_is_printed(m: Message, shown: String, sent: String, posted: String)
    requires
        call_ensures(render, (&m,), shown),
        call_ensures(sent_line, (&Ok::<Message, SyncError>(m),), sent),
        call_ensures(vice_line, (&Ok::<Message, ViceError>(m),), posted),
    ensures
        sent@ == shown@.push('\n'),
        posted@ == shown@.push('\n'),
{
    reveal_strlit("\n");
    assert("\n"@ =~= seq!['\n']);
    assert(sent@ =~= shown@.push('\n'));
}

} // verus!
