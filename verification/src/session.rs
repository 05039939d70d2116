//! Entering a room: where its clone is, which branch it lives on, and what its
//! repository leaves out of version control.

use crate::config::{self, ConfigError, Identity};
use crate::git::{self, Git, GitError, PushOutcome};
use crate::store::{Store, StoreError};
use crate::sync::{SyncEngine, ToAdd};
use crate::text;
use std::path::PathBuf;
use vstd::prelude::*;

verus! {

/// The name of the cache in the room's repository.
pub const DB_FILE: &'static str = "chat.db";

/// The file that names what is left out of version control.
pub const IGNORE_FILE: &'static str = ".gitignore";

/// Why a room could not be entered.
#[derive(Debug)]
pub enum SessionError {
    Git(GitError),
    Io(String),
    Store(String),
    Identity(String),
}

/// What an error says.
pub open spec fn session_error_text(e: SessionError) -> Seq<char> {
    match e {
        SessionError::Git(e) => git::git_error_text(e),
        SessionError::Io(t) => "io: "@ + t@,
        SessionError::Store(t) => "store: "@ + t@,
        SessionError::Identity(t) => t@,
    }
}

impl SessionError {
    /// What happened, in words.
    pub fn text(&self) -> (r: String)
        ensures
            r@ == session_error_text(*self),
    {
        match self {
            SessionError::Git(e) => e.text(),
            SessionError::Io(t) => text::concat("io: ", t.as_str()),
            SessionError::Store(t) => text::concat("store: ", t.as_str()),
            SessionError::Identity(t) => t.clone(),
        }
    }
}

impl From<GitError> for SessionError {
    fn from(e: GitError) -> (r: SessionError) {
        SessionError::Git(e)
    }
}

impl vstd::std_specs::convert::FromSpecImpl<GitError> for SessionError {
    open spec fn obeys_from_spec() -> bool {
        true
    }

    open spec fn from_spec(e: GitError) -> SessionError {
        SessionError::Git(e)
    }
}

/// Whether a character ends a part of a repository's address.
pub open spec fn no_separator() -> spec_fn(char) -> bool {
    |c: char| c != '/' && c != ':'
}

/// What follows the last separator of `s`.
pub open spec fn last_part(s: Seq<char>) -> Seq<char> {
    s.skip(s.len() - text::span_back(s, no_separator()))
}

/// The directory for the clone of a repository: the last part of its address, without
/// slashes at its end and without `.git`.
pub open spec fn clone_dir(url: Seq<char>) -> Seq<char> {
    let part = last_part(text::cut_end(url, |c: char| c == '/'));
    if ".git"@.is_suffix_of(part) {
        part.take(part.len() - 4)
    } else {
        part
    }
}

/// The directory for the clone of a repository.
pub fn derive_clone_dir(url: &str) -> (r: String)
    ensures
        r@ == clone_dir(url@),
{
    let address = text::trim_end_char(url, '/');
    let v = text::chars_of(address.as_str());
    let mut a: usize = v.len();
    while a > 0 && v[a - 1] != '/' && v[a - 1] != ':'
        invariant
            a <= v.len(),
            forall|i: int| a <= i < v.len() ==> no_separator()(#[trigger] v@[i]),
        decreases a,
    {
        a -= 1;
    }
    let part = text::string_of(&v, a, v.len());
    proof {
        let n = (v.len() - a) as nat;
        let back = v@.reverse();
        assert forall|i: int| 0 <= i < n implies no_separator()(#[trigger] back[i]) by {
            assert(back[i] == v@[v.len() - 1 - i]);
        }
        if n < back.len() {
            assert(back[n as int] == v@[a - 1]);
        }
        text::lemma_span_is(back, no_separator(), n);
        assert(part@ == last_part(address@));
        reveal_strlit(".git");
    }
    match text::strip_suffix(part.as_str(), ".git") {
        Some(name) => name,
        None => part,
    }
}

/// The directory for a clone is a single name, so the clone lies in the current
/// directory.
pub proof fn clone_dir_is_one_name(url: Seq<char>)
    ensures
        forall|i: int|
            0 <= i < clone_dir(url).len() ==> no_separator()(#[trigger] clone_dir(url)[i]),
{
    let s = text::cut_end(url, |c: char| c == '/');
    let back = s.reverse();
    text::lemma_span(back, no_separator());
    let part = last_part(s);
    let n = text::span_back(s, no_separator());
    assert forall|i: int| 0 <= i < part.len() implies no_separator()(#[trigger] part[i]) by {
        assert(part[i] == back[n - 1 - i]);
    }
    reveal_strlit(".git");
}

/// The branch of a room.
pub open spec fn room_branch(topic: Seq<char>) -> Seq<char> {
    "collab/"@ + topic
}

/// The branch of a room.
pub fn collab_branch(topic: &str) -> (r: String)
    ensures
        r@ == room_branch(topic@),
{
    text::concat("collab/", topic)
}

/// Whatever the topic, the branch of a room is never the main branch, and never a name
/// that is refused.
pub proof fn room_leaves_main_alone(topic: Seq<char>)
    ensures
        room_branch(topic) != "main"@,
        !"-"@.is_prefix_of(room_branch(topic)),
{
    reveal_strlit("collab/");
    reveal_strlit("main");
    reveal_strlit("-");
    let branch = room_branch(topic);
    assert(branch[0] == 'c');
    assert("main"@[0] == 'm');
    assert(branch.take(1)[0] != "-"@[0]);
}

/// Whether one of the lines of `content` is `line`, apart from white space around it.
pub open spec fn has_line(content: Seq<char>, line: Seq<char>) -> bool {
    exists|i: int|
        0 <= i < text::lines_of(content).len() && text::trimmed(
            #[trigger] text::lines_of(content)[i],
        ) == line
}

/// `content` with `line` at its end, unless it is there already.
pub open spec fn with_line(content: Seq<char>, line: Seq<char>) -> Seq<char> {
    if has_line(content, line) {
        content
    } else if text::is_complete(content) {
        content + line + "\n"@
    } else {
        content + "\n"@ + line + "\n"@
    }
}

/// `content` with what a room leaves out of version control: the cache, which every
/// peer rebuilds, and the configuration, which is the user's own.
pub open spec fn ignoring(content: Seq<char>) -> Seq<char> {
    with_line(
        with_line(with_line(with_line(content, "chat.db"@), "chat.db-*"@), "*.sqlite"@),
        ".vice.toml"@,
    )
}

/// Whether one of the lines of `content` is `line`.
fn holds_line(content: &str, line: &str) -> (r: bool)
    ensures
        r == has_line(content@, line@),
{
    let lines = text::lines(content);
    let mut i: usize = 0;
    while i < lines.len()
        invariant
            i <= lines.len(),
            text::texts(lines@) == text::lines_of(content@),
            forall|j: int| 0 <= j < i ==> text::trimmed(#[trigger] lines@[j]@) != line@,
        decreases lines.len() - i,
    {
        if text::same(text::trim(lines[i].as_str()).as_str(), line) {
            assert(text::lines_of(content@)[i as int] == lines@[i as int]@);
            return true;
        }
        i += 1;
    }
    assert forall|j: int| 0 <= j < text::lines_of(content@).len() implies text::trimmed(
        #[trigger] text::lines_of(content@)[j],
    ) != line@ by {
        assert(text::texts(lines@)[j] == lines@[j]@);
    }
    false
}

/// Adds `line` at the end of `content`, unless it is there already.
fn add_line(content: String, line: &str) -> (r: String)
    ensures
        r@ == with_line(content@, line@),
{
    let mut content = content;
    if !holds_line(content.as_str(), line) {
        let v = text::chars_of(content.as_str());
        if v.len() > 0 && v[v.len() - 1] != '\n' {
            content.append("\n");
        }
        content.append(line);
        content.append("\n");
    }
    content
}

/// What the file that names what is left out of version control has to hold, and
/// whether that is more than `content`, which it holds.
pub fn ensure_gitignore(content: &str) -> (r: (String, bool))
    ensures
        r.0@ == ignoring(content@),
        r.1 == (ignoring(content@) != content@),
{
    let r = add_line(content.to_owned(), "chat.db");
    let r = add_line(r, "chat.db-*");
    let r = add_line(r, "*.sqlite");
    let r = add_line(r, ".vice.toml");
    let modified = !text::same(r.as_str(), content);
    (r, modified)
}

/// Whether a line has no white space around it and no line break in it.
pub open spec fn is_plain(line: Seq<char>) -> bool {
    &&& line.len() > 0
    &&& forall|i: int| 0 <= i < line.len() ==> !text::is_white(#[trigger] line[i])
}

proof fn lemma_plain_line(line: Seq<char>)
    requires
        is_plain(line),
    ensures
        text::lines_of(line + "\n"@) == seq![line],
        text::trimmed(line) == line,
{
    reveal_strlit("\n");
    let p = text::other_than('\n');
    let all = line + "\n"@;
    assert forall|i: int| 0 <= i < line.len() implies p(#[trigger] all[i]) by {
        assert(!text::is_white(line[i]));
    }
    text::lemma_span_is(all, p, line.len());
    assert(all.take(line.len() as int) == line);
    assert(!text::is_white(line[line.len() - 1]));
    assert(all.skip(line.len() as int + 1) == Seq::<char>::empty());
    assert(text::lines_of(all.skip(line.len() as int + 1)) == Seq::<Seq<char>>::empty());
    assert(text::lines_of(all) == seq![line]);
    let none = Seq::<char>::empty();
    assert(line == none + line + none);
    assert(!text::is_white(line[0]));
    text::lemma_trimmed_is(line, none, line, none);
}

/// Adding a line leaves it there, and takes none away.
proof fn lemma_with_line(content: Seq<char>, line: Seq<char>, other: Seq<char>)
    requires
        is_plain(line),
    ensures
        has_line(with_line(content, line), line),
        has_line(content, other) ==> has_line(with_line(content, line), other),
        content.is_prefix_of(with_line(content, line)),
{
    reveal_strlit("\n");
    let after = with_line(content, line);
    if !has_line(content, line) {
        lemma_plain_line(line);
        let base = if text::is_complete(content) {
            content
        } else {
            content.push('\n')
        };
        let lines = text::lines_of(content);
        let kept = text::lines_of(base);
        assert(after == base + (line + "\n"@));
        text::lemma_lines_concat(base, line + "\n"@);
        let all = text::lines_of(after);
        assert(all == kept + seq![line]);
        assert(all[kept.len() as int] == line);
        assert forall|i: int| 0 <= i < lines.len() implies kept.len() == lines.len()
            && text::trimmed(#[trigger] lines[i]) == text::trimmed(all[i]) by {
            if !text::is_complete(content) {
                text::lemma_lines_ended(content);
                text::lemma_trimmed_without_return(lines.last());
            }
            assert(all[i] == kept[i]);
        }
        if has_line(content, other) {
            let i = choose|i: int|
                0 <= i < lines.len() && text::trimmed(#[trigger] lines[i]) == other;
            assert(text::trimmed(all[i]) == other);
        }
        assert(after.take(content.len() as int) == content);
    } else {
        assert(content.take(content.len() as int) == content);
    }
}

proof fn lemma_ignored_lines_are_plain()
    ensures
        is_plain("chat.db"@),
        is_plain("chat.db-*"@),
        is_plain("*.sqlite"@),
        is_plain(".vice.toml"@),
{
    reveal_strlit("chat.db");
    reveal_strlit("chat.db-*");
    reveal_strlit("*.sqlite");
    reveal_strlit(".vice.toml");
}

/// A room leaves the cache and the configuration out of version control; whatever the
/// file held before stays; and doing so twice changes nothing more.
pub proof fn ignoring_is_complete_and_idempotent(content: Seq<char>)
    ensures
        has_line(ignoring(content), "chat.db"@),
        has_line(ignoring(content), "chat.db-*"@),
        has_line(ignoring(content), "*.sqlite"@),
        has_line(ignoring(content), ".vice.toml"@),
        content.is_prefix_of(ignoring(content)),
        forall|line: Seq<char>| #[trigger]
            has_line(content, line) ==> has_line(ignoring(content), line),
        ignoring(ignoring(content)) == ignoring(content),
{
    lemma_ignored_lines_are_plain();
    let (l1, l2, l3, l4) = ("chat.db"@, "chat.db-*"@, "*.sqlite"@, ".vice.toml"@);
    let c1 = with_line(content, l1);
    let c2 = with_line(c1, l2);
    let c3 = with_line(c2, l3);
    let c4 = with_line(c3, l4);
    lemma_with_line(content, l1, l1);
    lemma_with_line(c1, l2, l1);
    lemma_with_line(c2, l3, l1);
    lemma_with_line(c2, l3, l2);
    lemma_with_line(c3, l4, l1);
    lemma_with_line(c3, l4, l2);
    lemma_with_line(c3, l4, l3);
    assert forall|line: Seq<char>| #[trigger] has_line(content, line) implies has_line(c4, line) by {
        lemma_with_line(content, l1, line);
        lemma_with_line(c1, l2, line);
        lemma_with_line(c2, l3, line);
        lemma_with_line(c3, l4, line);
    }
    assert(c4.take(content.len() as int) == content) by {
        assert(c4.take(c3.len() as int) == c3);
        assert(c3.take(c2.len() as int) == c2);
        assert(c2.take(c1.len() as int) == c1);
        assert(c1.take(content.len() as int) == content);
    }
}

/// What is to be done once the file that names what is left out has been changed: it is
/// committed and pushed, so that the peer leaves out the same.
pub fn share_ignores() -> (r: ToAdd<()>)
    ensures
        r.path@ == IGNORE_FILE@,
        r.message@ == "chore: ignore local cache and vice config"@,
        !r.prefer_local,
{
    ToAdd {
        outcome: (),
        path: IGNORE_FILE.to_owned(),
        message: "chore: ignore local cache and vice config".to_owned(),
        prefer_local: false,
    }
}

/// What the user is told once that push came to `outcome`. It is made for the peer's
/// sake, so the room opens whatever became of it.
pub fn share_warning(outcome: &Result<PushOutcome, GitError>) -> (r: Option<String>)
    ensures
        text::opt_text(r) == (match outcome {
            Ok(PushOutcome::Failed(e)) => Some("warning: could not push .gitignore: "@ + e@),
            _ => None,
        }),
{
    match outcome {
        Ok(PushOutcome::Failed(e)) => Some(
            text::concat("warning: could not push .gitignore: ", e.as_str()),
        ),
        _ => None,
    }
}

/// Who the user is, or why the room cannot be entered.
pub fn known_identity(identity: Result<Identity, ConfigError>) -> (r: Result<
    Identity,
    SessionError,
>)
    ensures
        match identity {
            Ok(id) => r == Ok::<Identity, SessionError>(id),
            Err(e) => r matches Err(SessionError::Identity(t)) && t@ == config::config_error_text(e),
        },
{
    match identity {
        Ok(id) => Ok(id),
        Err(e) => Err(SessionError::Identity(e.text())),
    }
}

/// The room in the clone `git` at `repo`, or why it cannot be entered.
pub fn enter(
    repo: PathBuf,
    git: Git,
    identity: Identity,
    store: Result<Store, StoreError>,
) -> (r: Result<SyncEngine, SessionError>)
    ensures
        match store {
            Ok(s) => r matches Ok(e) && e.path() == repo && e.clone_handle() == git && e.cache()
                == s && e.user() == identity,
            Err(StoreError::Sqlite(e)) => r matches Err(SessionError::Store(t)) && t@ == e@,
        },
{
    match store {
        Ok(s) => Ok(SyncEngine::new(repo, git, s, identity)),
        Err(e) => Err(SessionError::Store(e.text())),
    }
}

/// A room has a branch of its own: the whole topic stands in its name, behind `collab/`, so
/// two topics never share a branch.
pub proof fn topics_have_branches_of_their_own(a: &str, b: &str, of_a: String, of_b: String)
    requires
        call_ensures(collab_branch, (a,), of_a),
        call_ensures(collab_branch, (b,), of_b),
    ensures
        of_a@.take(7) == seq!['c', 'o', 'l', 'l', 'a', 'b', '/'],
        of_a@.skip(7) == a@,
        of_a@ == of_b@ <==> a@ == b@,
{
    reveal_strlit("collab/");
    assert("collab/"@ =~= seq!['c', 'o', 'l', 'l', 'a', 'b', '/']);
    assert(of_a@.take(7) =~= seq!['c', 'o', 'l', 'l', 'a', 'b', '/']);
    assert(of_a@.skip(7) =~= a@);
    assert(of_b@.skip(7) =~= b@);
}

/// The directory for a clone is the last part of the address, all of it: before it stands
/// nothing or a separator, and behind it only `.git`, where the address has it, and
/// slashes. `cut` is what stands before, and the two things that stand behind.
pub proof fn clone_dir_is_the_last_part(url: &str, r: String) -> (cut: (
    Seq<char>,
    Seq<char>,
    Seq<char>,
))
    requires
        call_ensures(derive_clone_dir, (url,), r),
    ensures
        url@ == cut.0 + r@ + cut.1 + cut.2,
        cut.0.len() == 0 || cut.0.last() == '/' || cut.0.last() == ':',
        cut.1.len() == 0 || cut.1 == seq!['.', 'g', 'i', 't'],
        forall|i: int| 0 <= i < cut.2.len() ==> #[trigger] cut.2[i] == '/',
        (cut.0 + r@ + cut.1).len() > 0 ==> (cut.0 + r@ + cut.1).last() != '/',
        forall|i: int| 0 <= i < r@.len() ==> #[trigger] r@[i] != '/' && r@[i] != ':',
        cut.1.len() == 0 ==> !seq!['.', 'g', 'i', 't'].is_suffix_of(r@),
{
    reveal_strlit(".git");
    let git = seq!['.', 'g', 'i', 't'];
    assert(".git"@ =~= git);
    clone_dir_is_one_name(url@);
    assert forall|i: int| 0 <= i < r@.len() implies #[trigger] r@[i] != '/' && r@[i] != ':' by {
        assert(no_separator()(clone_dir(url@)[i]));
    }
    let slash = |c: char| c == '/';
    let s = text::cut_end(url@, slash);
    let n = text::span_back(url@, slash) as int;
    let back = url@.reverse();
    text::lemma_span(back, slash);
    let slashes = url@.skip(url@.len() - n);
    assert forall|i: int| 0 <= i < slashes.len() implies #[trigger] slashes[i] == '/' by {
        assert(slash(back[n - 1 - i]));
        assert(back[n - 1 - i] == slashes[i]);
    }
    if s.len() > 0 {
        assert(!slash(back[n]));
        assert(back[n] == s.last());
    }
    let part = last_part(s);
    let m = text::span_back(s, no_separator()) as int;
    let sback = s.reverse();
    text::lemma_span(sback, no_separator());
    let front = s.take(s.len() - m);
    if front.len() > 0 {
        assert(!no_separator()(sback[m]));
        assert(sback[m] == front.last());
    }
    assert(s =~= front + part);
    assert(url@ =~= s + slashes);
    let end = if ".git"@.is_suffix_of(part) {
        git
    } else {
        Seq::<char>::empty()
    };
    assert(part =~= r@ + end);
    assert(front + r@ + end =~= s);
    assert(url@ =~= front + r@ + end + slashes);
    (front, end, slashes)
}

proof fn lemma_only_line_added(content: Seq<char>, line: Seq<char>, other: Seq<char>)
    requires
        is_plain(line),
        has_line(with_line(content, line), other),
    ensures
        has_line(content, other) || other == line,
{
    reveal_strlit("\n");
    let after = with_line(content, line);
    if !has_line(content, line) {
        lemma_plain_line(line);
        let base = if text::is_complete(content) {
            content
        } else {
            content.push('\n')
        };
        let lines = text::lines_of(content);
        let kept = text::lines_of(base);
        assert(after =~= base + (line + "\n"@));
        text::lemma_lines_concat(base, line + "\n"@);
        let all = text::lines_of(after);
        assert(all == kept + seq![line]);
        if !text::is_complete(content) {
            text::lemma_lines_ended(content);
            text::lemma_trimmed_without_return(lines.last());
        }
        let i = choose|i: int| 0 <= i < all.len() && text::trimmed(#[trigger] all[i]) == other;
        if i < kept.len() {
            assert(all[i] == kept[i]);
            assert(text::trimmed(lines[i]) == other);
        } else {
            assert(all[i] == line);
        }
    }
}

/// A room leaves nothing else out of version control than the cache and the configuration:
/// what the file names that it did not name before is one of these, and the file is changed
/// just where one of them was missing.
pub proof fn nothing_else_is_ignored(content: &str, r: (String, bool), line: Seq<char>)
    requires
        call_ensures(ensure_gitignore, (content,), r),
    ensures
        has_line(r.0@, line) && !has_line(content@, line) ==> line == "chat.db"@ || line
            == "chat.db-*"@ || line == "*.sqlite"@ || line == ".vice.toml"@,
        content@.is_prefix_of(r.0@),
        has_line(r.0@, "chat.db"@),
        has_line(r.0@, "chat.db-*"@),
        has_line(r.0@, "*.sqlite"@),
        has_line(r.0@, ".vice.toml"@),
        !r.1 ==> r.0@ == content@,
        r.1 ==> r.0@ != content@,
        has_line(content@, "chat.db"@) && has_line(content@, "chat.db-*"@) && has_line(
            content@,
            "*.sqlite"@,
        ) && has_line(content@, ".vice.toml"@) ==> !r.1,
{
    lemma_ignored_lines_are_plain();
    ignoring_is_complete_and_idempotent(content@);
    let (l1, l2, l3, l4) = ("chat.db"@, "chat.db-*"@, "*.sqlite"@, ".vice.toml"@);
    let c1 = with_line(content@, l1);
    let c2 = with_line(c1, l2);
    let c3 = with_line(c2, l3);
    if has_line(r.0@, line) {
        lemma_only_line_added(c3, l4, line);
        if has_line(c3, line) {
            lemma_only_line_added(c2, l3, line);
            if has_line(c2, line) {
                lemma_only_line_added(c1, l2, line);
                if has_line(c1, line) {
                    lemma_only_line_added(content@, l1, line);
                }
            }
        }
    }
}

/// The cache that a room uses is one of the files that it leaves out of version control.
pub proof fn cache_is_left_out(content: &str, r: (String, bool))
    requires
        call_ensures(ensure_gitignore, (content,), r),
    ensures
        has_line(r.0@, DB_FILE@),
        has_line(r.0@, config::PER_REPO_CONFIG@),
{
    ignoring_is_complete_and_idempotent(content@);
}

} // verus!
