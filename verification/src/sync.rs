//! The exchange of messages. Every author appends to a log of their own, so two
//! peers never write to the same file; the cache is rebuilt from all logs. What
//! touches files or git is left to the caller, who hands back what came of it.

use crate::config::Identity;
use crate::git::{self, Git, GitCommand, GitError, GitRun, PushOutcome, PushRetry};
use crate::json;
use crate::merge::{self, ChatLog};
use crate::message::{self, Kind, Message, MessageView};
use crate::store::{self, Store, StoreError};
use crate::text;
use std::path::PathBuf;
use vstd::prelude::*;

verus! {

/// The directory of the logs in the room's repository.
pub const CHAT_DIR: &'static str = "chat";

/// The extension of a log.
pub const LOG_EXTENSION: &'static str = "jsonl";

/// How often a push is tried before the room gives up.
pub const PUSH_ATTEMPTS: u32 = 5;

/// Why the exchange did not succeed.
#[derive(Debug)]
pub enum SyncError {
    Io(String),
    Json(String),
    Git(GitError),
    Sql(String),
    /// Every push collided with another one.
    PushRejected,
    PushFailed(String),
}

/// What an error says.
pub open spec fn sync_error_text(e: SyncError) -> Seq<char> {
    match e {
        SyncError::Io(t) => "io: "@ + t@,
        SyncError::Json(t) => "json: "@ + t@,
        SyncError::Git(e) => git::git_error_text(e),
        SyncError::Sql(t) => "sqlite: "@ + t@,
        SyncError::PushRejected => "push still rejected after retries"@,
        SyncError::PushFailed(t) => "push failed: "@ + t@,
    }
}

impl SyncError {
    /// What happened, in words.
    pub fn text(&self) -> (r: String)
        ensures
            r@ == sync_error_text(*self),
    {
        match self {
            SyncError::Io(t) => text::concat("io: ", t.as_str()),
            SyncError::Json(t) => text::concat("json: ", t.as_str()),
            SyncError::Git(e) => e.text(),
            SyncError::Sql(t) => text::concat("sqlite: ", t.as_str()),
            SyncError::PushRejected => "push still rejected after retries".to_owned(),
            SyncError::PushFailed(t) => text::concat("push failed: ", t.as_str()),
        }
    }
}

impl From<GitError> for SyncError {
    fn from(e: GitError) -> (r: SyncError) {
        SyncError::Git(e)
    }
}

impl vstd::std_specs::convert::FromSpecImpl<GitError> for SyncError {
    open spec fn obeys_from_spec() -> bool {
        true
    }

    open spec fn from_spec(e: GitError) -> SyncError {
        SyncError::Git(e)
    }
}

impl From<StoreError> for SyncError {
    fn from(e: StoreError) -> (r: SyncError) {
        match e {
            StoreError::Sqlite(t) => SyncError::Sql(t),
        }
    }
}

impl vstd::std_specs::convert::FromSpecImpl<StoreError> for SyncError {
    open spec fn obeys_from_spec() -> bool {
        true
    }

    open spec fn from_spec(e: StoreError) -> SyncError {
        match e {
            StoreError::Sqlite(t) => SyncError::Sql(t),
        }
    }
}

/// Whether `s` is a random UUID in its usual form: 32 small hexadecimal digits with
/// hyphens between their groups, among them the marks of version and variant.
pub open spec fn is_random_uuid(s: Seq<char>) -> bool {
    &&& s.len() == 36
    &&& forall|i: int|
        0 <= i < 36 ==> if i == 8 || i == 13 || i == 18 || i == 23 {
            #[trigger] s[i] == '-'
        } else {
            '0' <= s[i] <= '9' || 'a' <= s[i] <= 'f'
        }
    &&& s[14] == '4'
    &&& s[19] == '8' || s[19] == '9' || s[19] == 'a' || s[19] == 'b'
}

/// `Uuid::new_v4` draws a random UUID, whose text has the usual form. That two
/// draws differ is a matter of chance, and not said.
#[verifier::external_body]
pub(crate) fn random_id() -> (r: String)
    ensures
        is_random_uuid(r@),
{
    uuid::Uuid::new_v4().to_string()
}

/// `SystemTime::elapsed` on the Unix epoch tells how many seconds ago that was, or
/// nothing where the clock stands before it.
#[verifier::external_body]
pub(crate) fn clock() -> (r: Option<u64>) {
    std::time::SystemTime::UNIX_EPOCH.elapsed().ok().map(|d| d.as_secs())
}

/// The time stamp for what the clock says; zero where it stands before the epoch.
pub fn timestamp(clock: Option<u64>) -> (r: i64)
    ensures
        r == (match clock {
            Some(s) => s as i64,
            None => 0i64,
        }),
{
    match clock {
        Some(s) => s as i64,
        None => 0,
    }
}

/// Whether `seconds` is a reading of the clock.
pub closed spec fn is_reading(seconds: Option<u64>) -> bool {
    call_ensures(clock, (), seconds)
}

/// Whether `ts` is the time of a reading of the clock: its seconds since the epoch, or
/// zero where the clock stands before it.
pub open spec fn is_clock_time(ts: i64) -> bool {
    exists|seconds: Option<u64>| #[trigger]
        is_reading(seconds) && ts == (match seconds {
            Some(s) => s as i64,
            None => 0i64,
        })
}

/// The time stamp of now.
pub fn now_ts() -> (r: i64)
    ensures
        is_clock_time(r),
{
    let now = clock;
    let seconds = now();
    assert(is_reading(seconds));
    timestamp(seconds)
}

/// Whether a file with this extension is a log.
pub fn is_log(extension: Option<&str>) -> (r: bool)
    ensures
        r == (extension matches Some(e) && e@ == LOG_EXTENSION@),
{
    match extension {
        Some(e) => text::same(e, LOG_EXTENSION),
        None => false,
    }
}

/// The records of a log: its lines without the white space around them, but for
/// the empty ones.
pub open spec fn records_in(lines: Seq<Seq<char>>) -> Seq<Seq<char>>
    decreases lines.len(),
{
    if lines.len() == 0 {
        Seq::empty()
    } else {
        let before = records_in(lines.drop_last());
        let record = text::trimmed(lines.last());
        if record.len() == 0 {
            before
        } else {
            before.push(record)
        }
    }
}

/// The records of a log.
pub fn log_records(log: &str) -> (r: Vec<String>)
    ensures
        text::texts(r@) == records_in(text::lines_of(log@)),
{
    let lines = text::lines(log);
    let mut r: Vec<String> = Vec::new();
    let mut i: usize = 0;
    while i < lines.len()
        invariant
            i <= lines.len(),
            text::texts(r@) == records_in(text::texts(lines@).take(i as int)),
        decreases lines.len() - i,
    {
        let record = text::trim(lines[i].as_str());
        let ghost before = text::texts(r@);
        proof {
            let all = text::texts(lines@);
            assert(all.take(i + 1).drop_last() == all.take(i as int));
            assert(all.take(i + 1).last() == lines@[i as int]@);
        }
        if !record.as_str().is_empty() {
            r.push(record);
            assert(text::texts(r@) == before.push(record@));
        }
        i += 1;
    }
    assert(text::texts(lines@).take(lines.len() as int) == text::texts(lines@));
    r
}

/// The name of the log of an author.
pub open spec fn log_name(author_hash: Seq<char>) -> Seq<char> {
    author_hash + ".jsonl"@
}

/// The path of the log of an author in the repository.
pub open spec fn log_path(author_hash: Seq<char>) -> Seq<char> {
    "chat/"@ + author_hash + ".jsonl"@
}

/// A message whose line is to be appended to the author's log.
pub struct ToAppend {
    pub message: Message,
    /// The name of the log in the directory of the logs.
    pub file: String,
    /// The line, without the line feed that ends it.
    pub line: String,
}

/// A document that is to be written over what stands at its path.
pub struct ToWrite {
    pub path: String,
    pub body: String,
}

/// A changed file that is to be put before the next commit.
pub struct ToAdd<T> {
    pub outcome: T,
    pub path: String,
    pub message: String,
    pub prefer_local: bool,
}

/// A change that is to be committed.
pub struct ToCommit<T> {
    pub outcome: T,
    pub message: String,
    pub prefer_local: bool,
}

/// A commit that is to be pushed.
pub struct ToPush<T> {
    pub outcome: T,
    pub prefer_local: bool,
}

impl<T> ToAdd<T> {
    /// The command to run.
    pub fn command(&self) -> (c: GitCommand)
        ensures
            c matches GitCommand::Add { paths } && text::texts(paths@) == seq![self.path@],
    {
        let paths: Vec<String> = vec![self.path.clone()];
        assert(text::texts(paths@) == seq![self.path@]);
        GitCommand::Add { paths }
    }

    /// What to do once the command has been run.
    pub fn ran(self, run: GitRun) -> (r: Result<ToCommit<T>, GitError>)
        ensures
            git::succeeded(run) ==> (r matches Ok(next) && next.outcome == self.outcome && next.message
                == self.message && next.prefer_local == self.prefer_local),
            !git::succeeded(run) ==> (r matches Err(e) && git::is_failure_of(
                e,
                run,
                text::joined(seq!["add"@, "--"@, self.path@], " "@),
            )),
    {
        let command = self.command();
        proof {
            assert(git::argv_of(command) == seq!["add"@, "--"@, self.path@]);
        }
        match command.checked(run) {
            Ok(_) => Ok(
                ToCommit {
                    outcome: self.outcome,
                    message: self.message,
                    prefer_local: self.prefer_local,
                },
            ),
            Err(e) => Err(e),
        }
    }
}

impl<T> ToCommit<T> {
    /// The command to run.
    pub fn command(&self) -> (c: GitCommand)
        ensures
            c matches GitCommand::Commit { message } && message@ == self.message@,
    {
        GitCommand::Commit { message: self.message.clone() }
    }

    /// What to do once the command has been run.
    pub fn ran(self, run: GitRun) -> (r: Result<ToPush<T>, GitError>)
        ensures
            git::succeeded(run) ==> (r matches Ok(next) && next.outcome == self.outcome
                && next.prefer_local == self.prefer_local),
            !git::succeeded(run) ==> (r matches Err(e) && git::is_failure_of(
                e,
                run,
                text::joined(seq!["commit"@, "-m"@, self.message@], " "@),
            )),
    {
        match self.command().checked(run) {
            Ok(_) => Ok(ToPush { outcome: self.outcome, prefer_local: self.prefer_local }),
            Err(e) => Err(e),
        }
    }
}

impl<T> ToPush<T> {
    /// The push to make.
    pub fn retry(&self, git: &Git) -> (p: PushRetry)
        ensures
            p.wf(),
            p == (PushRetry {
                max_attempts: PUSH_ATTEMPTS,
                prefer_local: self.prefer_local,
                rejections: 0,
            }),
    {
        if self.prefer_local {
            git.push_with_retry_local_wins(PUSH_ATTEMPTS)
        } else {
            git.push_with_retry(PUSH_ATTEMPTS)
        }
    }

    /// What all of it comes to once the push is over.
    pub fn pushed(self, outcome: Result<PushOutcome, GitError>) -> (r: Result<T, SyncError>)
        ensures
            r == (match outcome {
                Ok(PushOutcome::Pushed) => Ok(self.outcome),
                Ok(PushOutcome::Rejected) => Err(SyncError::PushRejected),
                Ok(PushOutcome::Failed(e)) => Err(SyncError::PushFailed(e)),
                Err(e) => Err(SyncError::Git(e)),
            }),
    {
        match outcome {
            Ok(PushOutcome::Pushed) => Ok(self.outcome),
            Ok(PushOutcome::Rejected) => Err(SyncError::PushRejected),
            Ok(PushOutcome::Failed(e)) => Err(SyncError::PushFailed(e)),
            Err(e) => Err(SyncError::Git(e)),
        }
    }
}

/// The room as one of its two peers sees it.
pub struct SyncEngine {
    repo: PathBuf,
    git: Git,
    store: Store,
    identity: Identity,
}

impl SyncEngine {
    /// The repository of the room.
    pub closed spec fn path(&self) -> PathBuf {
        self.repo
    }

    /// The clone through which the room is reached.
    pub closed spec fn clone_handle(&self) -> Git {
        self.git
    }

    /// The cache.
    pub closed spec fn cache(&self) -> Store {
        self.store
    }

    /// Who the user is.
    pub closed spec fn user(&self) -> Identity {
        self.identity
    }

    /// Whether nothing but the cache has changed.
    pub open spec fn same_room(&self, other: &SyncEngine) -> bool {
        &&& self.path() == other.path()
        &&& self.clone_handle() == other.clone_handle()
        &&& self.user() == other.user()
    }

    /// The room in the repository at `repo`.
    pub fn new(repo: PathBuf, git: Git, store: Store, identity: Identity) -> (e: SyncEngine)
        ensures
            e.path() == repo,
            e.clone_handle() == git,
            e.cache() == store,
            e.user() == identity,
    {
        SyncEngine { repo, git, store, identity }
    }

    /// The cache.
    pub fn store(&self) -> (r: &Store)
        ensures
            *r == self.cache(),
    {
        &self.store
    }

    /// Who the user is.
    pub fn identity(&self) -> (r: &Identity)
        ensures
            *r == self.user(),
    {
        &self.identity
    }

    /// The repository of the room.
    pub fn repo(&self) -> (r: &PathBuf)
        ensures
            *r == self.path(),
    {
        &self.repo
    }

    /// The clone through which the room is reached.
    pub fn git(&self) -> (r: &Git)
        ensures
            *r == self.clone_handle(),
    {
        &self.git
    }

    /// The user's message with the given id and time.
    pub fn compose(
        &self,
        id: &str,
        ts: i64,
        body: &str,
        kind: Kind,
        model: Option<String>,
    ) -> (m: Message)
        ensures
            m@ == composed(self.user().name@, id@, ts, body@, kind, text::opt_text(model)),
    {
        Message::new(id, self.identity.name.as_str(), kind, model, ts, body)
    }

    /// The first step of sending `message`: its line is to be appended to the user's
    /// own log.
    pub fn begin_send(&self, message: Message) -> (r: Result<ToAppend, SyncError>)
        ensures
            r matches Ok(step) && is_append_of(step, message, self.user().author_hash@),
    {
        match message.to_json() {
            Ok(line) => Ok(
                ToAppend {
                    message,
                    file: text::concat(self.identity.author_hash.as_str(), ".jsonl"),
                    line,
                },
            ),
            Err(e) => Err(SyncError::Json(e)),
        }
    }

    /// The first step of sending a new message, which gets a random id and the
    /// current time.
    pub fn send(&self, body: &str, kind: Kind, model: Option<String>) -> (r: Result<
        ToAppend,
        SyncError,
    >)
        ensures
            r matches Ok(step) && {
                &&& is_append_of(step, step.message, self.user().author_hash@)
                &&& is_random_uuid(step.message@.id)
                &&& is_clock_time(step.message@.ts)
                &&& step.message@ == composed(
                    self.user().name@,
                    step.message@.id,
                    step.message@.ts,
                    body@,
                    kind,
                    text::opt_text(model),
                )
            },
    {
        let id = random_id();
        let message = self.compose(id.as_str(), now_ts(), body, kind, model);
        self.begin_send(message)
    }

    /// The second step of sending: once the line is appended, the message is stored
    /// in the cache, so that it never counts as news; then the log is to be put
    /// before the next commit.
    pub fn appended(&mut self, step: ToAppend, outcome: Result<(), String>) -> (r: Result<
        ToAdd<Message>,
        SyncError,
    >)
        ensures
            final(self).same_room(old(self)),
            match outcome {
                Err(e) => r == Err::<ToAdd<Message>, SyncError>(SyncError::Io(e))
                    && final(self).cache() == old(self).cache(),
                Ok(()) => {
                    &&& store::upserts(old(self).cache(), final(self).cache(), step.message@)
                    &&& r is Ok <==> store::took_all(old(self).cache(), final(self).cache())
                    &&& match r {
                        Ok(next) => {
                            &&& next.outcome == step.message
                            &&& next.path@ == log_path(old(self).user().author_hash@)
                            &&& next.message@ == "msg "@ + step.message@.id
                            &&& !next.prefer_local
                        },
                        Err(e) => e is Sql && store::failed_last(
                            old(self).cache(),
                            final(self).cache(),
                        ),
                    }
                },
            },
    {
        match outcome {
            Err(e) => return Err(SyncError::Io(e)),
            Ok(()) => {},
        }
        match self.store.upsert_message(&step.message) {
            Ok(_) => {},
            Err(e) => return Err(SyncError::from(e)),
        }
        let path = text::wrap("chat/", self.identity.author_hash.as_str(), ".jsonl");
        let message = text::concat("msg ", step.message.id.as_str());
        Ok(ToAdd { outcome: step.message, path, message, prefer_local: false })
    }

    /// What the logs hold that the cache did not know yet, oldest first. All of it is
    /// stored in the cache. A line that is no message is passed over. A log that
    /// cannot be read ends the matter; what stood before it stays stored.
    pub fn reconcile(&mut self, logs: &Vec<ChatLog>) -> (r: Result<Vec<Message>, SyncError>)
        ensures
            reconciles(old(self), final(self), logs@, r),
    {
        let mut fresh: Vec<Message> = Vec::new();
        let ghost before = self.store;
        let ghost mut done: Seq<MessageView> = Seq::empty();
        let ghost mut flags: Seq<bool> = Seq::empty();
        let mut i: usize = 0;
        proof {
            merge::lemma_hands_over_nothing(before);
            assert(store::message_views(fresh@) == merge::picked(done, flags));
            assert(logs@.skip(0) == logs@);
            assert(done + merge::readable(logs@) == merge::readable(logs@));
        }
        while i < logs.len()
            invariant
                i <= logs.len(),
                before == old(self).cache(),
                self.same_room(old(self)),
                done + merge::readable(logs@.skip(i as int)) == merge::readable(logs@),
                merge::first_unreadable(logs@.skip(i as int)) == merge::first_unreadable(logs@),
                merge::hands_over(before, self.store, done, flags),
                store::message_views(fresh@) == merge::picked(done, flags),
            decreases logs.len() - i,
        {
            let ghost rest = logs@.skip(i as int);
            assert(rest.skip(1) == logs@.skip(i + 1));
            assert(rest[0] == logs@[i as int]);
            match &logs[i] {
                ChatLog::Unreadable(e) => {
                    assert(done + merge::readable(rest) == done);
                    assert(merge::hands_over(before, self.store, merge::readable(logs@), flags));
                    return Err(SyncError::Io(e.clone()));
                },
                ChatLog::Lines(lines) => {
                    let ghost here = self.store;
                    let ghost seen = store::message_views(fresh@);
                    let ghost news = merge::parsed(lines@);
                    match merge::absorb(&mut self.store, lines, &mut fresh) {
                        Ok(()) => {},
                        Err(e) => {
                            proof {
                                let more = merge::readable(logs@.skip(i + 1));
                                assert(merge::readable(logs@) == done + (news + more));
                                let told = choose|new: Seq<bool>| #[trigger]
                                    merge::fails_at(here, self.store, news, new)
                                        && store::message_views(fresh@) == seen + merge::picked(
                                        news.take(new.len() as int),
                                        new,
                                    );
                                merge::lemma_fails_at_chain(
                                    before,
                                    here,
                                    self.store,
                                    done,
                                    flags,
                                    news,
                                    told,
                                    more,
                                );
                            }
                            return Err(SyncError::from(e));
                        },
                    }
                    proof {
                        let told = choose|new: Seq<bool>| #[trigger]
                            merge::hands_over(here, self.store, news, new)
                                && store::message_views(fresh@) == seen + merge::picked(news, new);
                        merge::lemma_hands_over_chain(
                            before,
                            here,
                            self.store,
                            done,
                            flags,
                            news,
                            told,
                        );
                        assert(done + merge::readable(rest) == (done + news) + merge::readable(
                            logs@.skip(i + 1),
                        ));
                        done = done + news;
                        flags = flags + told;
                    }
                },
            }
            i += 1;
        }
        proof {
            assert(logs@.skip(i as int) == Seq::<ChatLog>::empty());
            assert(done + Seq::<MessageView>::empty() == done);
            assert(done == merge::readable(logs@));
            merge::oldest_first_loses_nothing(store::message_views(fresh@));
            merge::lemma_picked_came_in(done, flags);
            assert(merge::hands_over(before, self.store, merge::readable(logs@), flags));
        }
        let sorted = merge::sort_oldest_first(&fresh);
        assert(merge::hands_out(
            before,
            self.store,
            merge::readable(logs@),
            store::message_views(sorted@),
        ));
        Ok(sorted)
    }

    /// What is new in the room once the clone has been updated. Where that failed,
    /// the first part of the result warns of it, and the local state still counts: a
    /// new room has nothing to update from, and a peer may be offline.
    pub fn poll(&mut self, pull: Result<(), GitError>, logs: &Vec<ChatLog>) -> (r: (
        Option<String>,
        Result<Vec<Message>, SyncError>,
    ))
        ensures
            reconciles(old(self), final(self), logs@, r.1),
            text::opt_text(r.0) == (match pull {
                Ok(()) => None,
                Err(e) => Some(
                    "warning: pull failed (continuing with local state): "@
                        + git::git_error_text(e),
                ),
            }),
    {
        let warning = match pull {
            Ok(()) => None,
            Err(e) => Some(
                text::concat(
                    "warning: pull failed (continuing with local state): ",
                    e.text().as_str(),
                ),
            ),
        };
        (warning, self.reconcile(logs))
    }

    /// The first step of writing a document: it is to replace what stands at `path`.
    pub fn write_doc(&self, path: &str, body: &str) -> (r: ToWrite)
        ensures
            r.path@ == path@,
            r.body@ == body@,
    {
        ToWrite { path: path.to_owned(), body: body.to_owned() }
    }

    /// The second step of writing a document: once it is written, it is indexed in
    /// place of what was indexed for its path; then it is to be put before the next
    /// commit. Where the peer has changed the document too, this version wins.
    pub fn written(&mut self, step: ToWrite, outcome: Result<(), String>) -> (r: Result<
        ToAdd<()>,
        SyncError,
    >)
        ensures
            final(self).same_room(old(self)),
            match outcome {
                Err(e) => r == Err::<ToAdd<()>, SyncError>(SyncError::Io(e)) && final(self).cache()
                    == old(self).cache(),
                Ok(()) => {
                    &&& store::indexes(
                        old(self).cache(),
                        final(self).cache(),
                        step.path@,
                        step.body@,
                    )
                    &&& r is Ok <==> store::took_all(old(self).cache(), final(self).cache())
                    &&& match r {
                        Ok(next) => {
                            &&& next.path@ == step.path@
                            &&& next.message@ == "doc "@ + step.path@
                            &&& next.prefer_local
                        },
                        Err(e) => e is Sql && store::failed_last(
                            old(self).cache(),
                            final(self).cache(),
                        ),
                    }
                },
            },
    {
        match outcome {
            Err(e) => return Err(SyncError::Io(e)),
            Ok(()) => {},
        }
        match self.store.index_doc(step.path.as_str(), step.body.as_str()) {
            Ok(()) => {},
            Err(e) => return Err(SyncError::from(e)),
        }
        let message = text::concat("doc ", step.path.as_str());
        Ok(ToAdd { outcome: (), path: step.path, message, prefer_local: true })
    }
}

/// A message with the given id, author and time, which carries the tags of its body.
pub open spec fn composed(
    author: Seq<char>,
    id: Seq<char>,
    ts: i64,
    body: Seq<char>,
    kind: Kind,
    model: Option<Seq<char>>,
) -> MessageView {
    MessageView { id, author, kind, model, ts, body, tags: message::hashtags(body) }
}

/// Whether the step appends the line of `message` to the log of the author.
pub open spec fn is_append_of(step: ToAppend, message: Message, author_hash: Seq<char>) -> bool {
    &&& step.message == message
    &&& step.file@ == log_name(author_hash)
    &&& step.line@ == json::json_text(message::message_record(message@))
    &&& json::is_one_line_object(step.line@)
    &&& message::line_read(step.line@) == Some(message@)
}

/// What it means that a room took in the logs with the outcome `r`: every message of
/// them was handed to the cache, and what the cache answered to be new is handed out,
/// oldest first, unless a log could not be read or the cache failed. Where nothing else
/// uses the cache, that is what it did not know, and it holds all of it.
pub open spec fn reconciles(
    before: &SyncEngine,
    after: &SyncEngine,
    logs: Seq<ChatLog>,
    r: Result<Vec<Message>, SyncError>,
) -> bool {
    &&& after.same_room(before)
    &&& store::follows(before.cache(), after.cache())
    &&& match r {
        Ok(fresh) => {
            &&& merge::first_unreadable(logs) is None
            &&& merge::by_age(store::message_views(fresh@))
            &&& forall|m: MessageView| #[trigger]
                store::message_views(fresh@).contains(m) ==> merge::readable(logs).contains(m)
            &&& merge::hands_out(
                before.cache(),
                after.cache(),
                merge::readable(logs),
                store::message_views(fresh@),
            )
        },
        Err(SyncError::Io(t)) => {
            &&& merge::first_unreadable(logs) == Some(t@)
            &&& exists|new: Seq<bool>|
                merge::hands_over(before.cache(), after.cache(), merge::readable(logs), new)
        },
        Err(e) => {
            &&& e is Sql
            &&& exists|new: Seq<bool>|
                merge::fails_at(before.cache(), after.cache(), merge::readable(logs), new)
        },
    }
}

/// A look at the room fails just where a log could not be read or the database failed at
/// a statement; where neither happened, it brings what was unknown, oldest first, and the
/// cache holds all of it.
pub proof fn look_brings_the_news(
    before: SyncEngine,
    after: SyncEngine,
    logs: Seq<ChatLog>,
    r: Result<Vec<Message>, SyncError>,
)
    requires
        reconciles(&before, &after, logs, r),
    ensures
        r is Ok <==> merge::first_unreadable(logs) is None && store::took_all(
            before.cache(),
            after.cache(),
        ),
        r is Err && r->Err_0 is Sql <==> store::failed_last(before.cache(), after.cache()),
        before.cache().owned() && r is Ok ==> store::message_views(r->Ok_0@)
            == merge::oldest_first(
            merge::fresh_of(before.cache().messages(), merge::readable(logs)),
        ),
        before.cache().owned() && r is Ok ==> merge::absorbs(
            before.cache(),
            after.cache(),
            merge::readable(logs),
        ),
{
    let t = store::answers(before.cache(), after.cache());
    if t.len() > 0 {
        assert(t[t.len() - 1] == t.last());
    }
}

/// A look at the room brings just one message for each id in the logs that was unknown,
/// and nothing else, oldest first. Afterwards just these ids and those that were known
/// before are known, and what was known is as it was.
pub proof fn look_is_complete(
    before: SyncEngine,
    after: SyncEngine,
    logs: Seq<ChatLog>,
    news: Vec<Message>,
)
    requires
        before.cache().owned(),
        reconciles(&before, &after, logs, Ok(news)),
    ensures
        merge::by_age(store::message_views(news@)),
        forall|i: int|
            0 <= i < news@.len() ==> merge::readable(logs).contains((#[trigger] news@[i])@)
                && !before.cache().messages().contains_key(news@[i]@.id),
        forall|i: int, j: int|
            0 <= i < j < news@.len() ==> (#[trigger] news@[i])@.id != (#[trigger] news@[j])@.id,
        forall|k: int|
            0 <= k < merge::readable(logs).len() && !before.cache().messages().contains_key(
                (#[trigger] merge::readable(logs)[k]).id,
            ) ==> exists|i: int|
                0 <= i < news@.len() && (#[trigger] news@[i])@.id == merge::readable(logs)[k].id,
        forall|id: Seq<char>| #[trigger]
            after.cache().messages().contains_key(id) <==> before.cache().messages().contains_key(
                id,
            ) || exists|k: int|
                0 <= k < merge::readable(logs).len() && (#[trigger] merge::readable(logs)[k]).id
                    == id,
        forall|id: Seq<char>| #[trigger]
            before.cache().messages().contains_key(id) ==> after.cache().messages()[id]
                == before.cache().messages()[id],
{
    look_brings_the_news(before, after, logs, Ok(news));
    let rows = before.cache().messages();
    let ms = merge::readable(logs);
    let fresh = merge::fresh_of(rows, ms);
    let views = store::message_views(news@);
    merge::merging_keeps_what_is_known(rows, ms);
    merge::news_comes_once(rows, ms);
    merge::oldest_first_loses_nothing(fresh);
    assert forall|i: int| 0 <= i < news@.len() implies ms.contains((#[trigger] news@[i])@)
        && !rows.contains_key(news@[i]@.id) by {
        assert(views[i] == news@[i]@);
        assert(views.contains(views[i]));
        assert(fresh.contains(views[i]));
    }
    merge::lemma_distinct_ids_stay(fresh);
    assert forall|i: int, j: int| 0 <= i < j < news@.len() implies (#[trigger] news@[i])@.id != (
    #[trigger] news@[j])@.id by {
        assert(views[i] == news@[i]@ && views[j] == news@[j]@);
    }
    assert forall|k: int|
        0 <= k < ms.len() && !rows.contains_key((#[trigger] ms[k]).id) implies exists|i: int|
        0 <= i < news@.len() && (#[trigger] news@[i])@.id == ms[k].id by {
        let j = choose|j: int| 0 <= j < fresh.len() && (#[trigger] fresh[j]).id == ms[k].id;
        assert(fresh.contains(fresh[j]));
        assert(views.contains(fresh[j]));
        let i = choose|i: int| 0 <= i < views.len() && views[i] == fresh[j];
        assert(news@[i]@.id == ms[k].id);
    }
}

/// Looking again at logs that have not changed brings nothing and changes nothing.
pub proof fn second_look_brings_nothing(
    before: SyncEngine,
    here: SyncEngine,
    after: SyncEngine,
    logs: Seq<ChatLog>,
    first: Result<Vec<Message>, SyncError>,
    second: Result<Vec<Message>, SyncError>,
)
    requires
        before.cache().owned(),
        reconciles(&before, &here, logs, first),
        first is Ok,
        reconciles(&here, &after, logs, second),
        store::took_all(here.cache(), after.cache()),
    ensures
        second is Ok,
        second->Ok_0@.len() == 0,
        after.cache().same_contents(&here.cache()),
{
    look_brings_the_news(before, here, logs, first);
    look_brings_the_news(here, after, logs, second);
    let ms = merge::readable(logs);
    merge::second_reading_brings_nothing(before.cache().messages(), ms);
    assert(merge::oldest_first(Seq::<MessageView>::empty()) == Seq::<MessageView>::empty());
    assert(store::message_views(second->Ok_0@).len() == second->Ok_0@.len());
}

/// Whether a look at the room, a message that was sent or a document that was written
/// leads from `before` to `after`.
pub open spec fn moves_on(before: SyncEngine, after: SyncEngine) -> bool {
    ||| exists|logs: Seq<ChatLog>, r: Result<Vec<Message>, SyncError>|
        reconciles(&before, &after, logs, r)
    ||| exists|m: MessageView| store::upserts(before.cache(), after.cache(), m)
    ||| exists|path: Seq<char>, body: Seq<char>|
        store::indexes(before.cache(), after.cache(), path, body)
}

proof fn lemma_look_keeps(
    before: SyncEngine,
    after: SyncEngine,
    logs: Seq<ChatLog>,
    r: Result<Vec<Message>, SyncError>,
    id: Seq<char>,
)
    requires
        before.cache().owned(),
        before.cache().messages().contains_key(id),
        reconciles(&before, &after, logs, r),
    ensures
        after.cache().messages().contains_key(id),
        after.cache().messages()[id] == before.cache().messages()[id],
        r is Ok ==> forall|i: int| 0 <= i < r->Ok_0@.len() ==> (#[trigger] r->Ok_0@[i])@.id != id,
{
    let rows = before.cache().messages();
    let ms = merge::readable(logs);
    look_brings_the_news(before, after, logs, r);
    if r is Err && r->Err_0 is Sql {
        let new = choose|new: Seq<bool>|
            merge::fails_at(before.cache(), after.cache(), ms, new);
        merge::merging_keeps_what_is_known(rows, ms.take(new.len() as int));
    } else {
        merge::merging_keeps_what_is_known(rows, ms);
        if r is Ok {
            let fresh = merge::fresh_of(rows, ms);
            let news = store::message_views(r->Ok_0@);
            merge::news_comes_once(rows, ms);
            merge::oldest_first_loses_nothing(fresh);
            assert forall|i: int| 0 <= i < r->Ok_0@.len() implies (#[trigger] r->Ok_0@[i])@.id
                != id by {
                assert(news[i] == r->Ok_0@[i]@);
                assert(news.contains(news[i]));
                assert(fresh.contains(news[i]));
            }
        }
    }
}

proof fn lemma_move_keeps(before: SyncEngine, after: SyncEngine, id: Seq<char>)
    requires
        before.cache().owned(),
        before.cache().messages().contains_key(id),
        moves_on(before, after),
    ensures
        after.cache().owned(),
        after.cache().messages().contains_key(id),
        after.cache().messages()[id] == before.cache().messages()[id],
{
    if exists|logs: Seq<ChatLog>, r: Result<Vec<Message>, SyncError>|
        reconciles(&before, &after, logs, r) {
        let (logs, r) = choose|logs: Seq<ChatLog>, r: Result<Vec<Message>, SyncError>|
            reconciles(&before, &after, logs, r);
        lemma_look_keeps(before, after, logs, r, id);
    }
}

/// What the cache knows it knows for good, whatever happens in the room, and it never
/// comes back as news: of the states `room` that follow one another, in none does a look
/// bring a message with an id that was known in the first.
pub proof fn known_message_never_comes_back(room: Seq<SyncEngine>, id: Seq<char>)
    requires
        room.len() > 0,
        room[0].cache().owned(),
        room[0].cache().messages().contains_key(id),
        forall|i: int| 0 <= i < room.len() - 1 ==> moves_on(#[trigger] room[i], room[i + 1]),
    ensures
        forall|i: int|
            0 <= i < room.len() ==> (#[trigger] room[i]).cache().owned()
                && room[i].cache().messages().contains_key(id) && room[i].cache().messages()[id]
                == room[0].cache().messages()[id],
        forall|i: int, after: SyncEngine, logs: Seq<ChatLog>, news: Vec<Message>, k: int|
            0 <= i < room.len() && 0 <= k < news@.len() && #[trigger] reconciles(
                &room[i],
                &after,
                logs,
                Ok(news),
            ) ==> (#[trigger] news@[k])@.id != id,
    decreases room.len(),
{
    if room.len() > 1 {
        let less = room.drop_last();
        assert forall|i: int| 0 <= i < less.len() - 1 implies moves_on(
            #[trigger] less[i],
            less[i + 1],
        ) by {
            assert(less[i] == room[i]);
            assert(less[i + 1] == room[i + 1]);
        }
        known_message_never_comes_back(less, id);
        let k = room.len() - 2;
        assert(less[k] == room[k]);
        assert(moves_on(room[k], room[k + 1]));
        lemma_move_keeps(room[k], room[k + 1], id);
        assert forall|i: int| 0 <= i < room.len() implies (#[trigger] room[i]).cache().owned()
            && room[i].cache().messages().contains_key(id) && room[i].cache().messages()[id]
            == room[0].cache().messages()[id] by {
            if i < less.len() {
                assert(less[i] == room[i]);
            }
        }
    }
    assert forall|i: int, after: SyncEngine, logs: Seq<ChatLog>, news: Vec<Message>, k: int|
        0 <= i < room.len() && 0 <= k < news@.len() && #[trigger] reconciles(
            &room[i],
            &after,
            logs,
            Ok(news),
        ) implies (#[trigger] news@[k])@.id != id by {
        lemma_look_keeps(room[i], after, logs, Ok(news), id);
    }
}

/// Whatever happens in the room, the index of the cache keeps just one row for each
/// stored message and for each document, as long as the database takes the statements.
pub proof fn room_stays_in_step(before: SyncEngine, after: SyncEngine)
    requires
        before.cache().owned(),
        store::in_step(before.cache().messages(), before.cache().index()),
        moves_on(before, after),
        store::took_all(before.cache(), after.cache()),
    ensures
        store::in_step(after.cache().messages(), after.cache().index()),
{
    let rows = before.cache().messages();
    let index = before.cache().index();
    let t = store::answers(before.cache(), after.cache());
    if exists|logs: Seq<ChatLog>, r: Result<Vec<Message>, SyncError>|
        reconciles(&before, &after, logs, r) {
        let (logs, r) = choose|logs: Seq<ChatLog>, r: Result<Vec<Message>, SyncError>|
            reconciles(&before, &after, logs, r);
        look_brings_the_news(before, after, logs, r);
        if t.len() > 0 {
            assert(t[t.len() - 1] is Some);
        }
        merge::merging_keeps_step(rows, index, merge::readable(logs));
    } else if exists|m: MessageView| store::upserts(before.cache(), after.cache(), m) {
        let m = choose|m: MessageView| store::upserts(before.cache(), after.cache(), m);
        assert(t[0] is Some);
        if !rows.contains_key(m.id) {
            assert(t[1] is Some);
            store::new_message_keeps_step(rows, index, m);
        }
    } else {
        let (path, body) = choose|path: Seq<char>, body: Seq<char>|
            store::indexes(before.cache(), after.cache(), path, body);
        assert(t[0] is Some);
        assert(t[1] is Some);
        store::document_keeps_step(rows, index, path, body);
    }
}

/// A message that was sent never comes back to its sender as news: once the cache took
/// it, its id is known, and so is that of a message that was known before.
pub proof fn own_message_is_no_news(
    before: SyncEngine,
    here: SyncEngine,
    after: SyncEngine,
    m: MessageView,
    logs: Seq<ChatLog>,
    r: Result<Vec<Message>, SyncError>,
)
    requires
        before.cache().owned(),
        store::upserts(before.cache(), here.cache(), m),
        store::took_all(before.cache(), here.cache()),
        reconciles(&here, &after, logs, r),
    ensures
        here.cache().messages().contains_key(m.id),
        after.cache().messages().contains_key(m.id),
        r is Ok ==> forall|i: int|
            0 <= i < r->Ok_0@.len() ==> (#[trigger] r->Ok_0@[i])@.id != m.id,
{
    let t = store::answers(before.cache(), here.cache());
    assert(t[0] is Some);
    lemma_look_keeps(here, after, logs, r, m.id);
}

/// A reading of the clock is what the clock told when it was asked.
pub(crate) proof fn reading_is_what_the_clock_told(seconds: Option<u64>)
    ensures
        is_reading(seconds) <==> call_ensures(clock, (), seconds),
{
}

/// A time stamp is the number of seconds that the clock told, to the second, as far as
/// 63 bits count them, and zero before the epoch. So later readings get later stamps.
pub proof fn stamp_is_the_reading(seconds: Option<u64>, r: i64)
    requires
        call_ensures(timestamp, (seconds,), r),
    ensures
        seconds is None ==> r == 0,
        seconds is Some && seconds->0 <= i64::MAX ==> r as int == seconds->0 as int,
{
}

/// A sent message carries the time of the clock: the clock was read, and the message
/// is stamped with just the whole seconds that it told, or with zero where it stood
/// before the epoch. It says what was given, as a message of the user.
pub proof fn sent_message_says_what_was_given(
    engine: &SyncEngine,
    body: &str,
    kind: Kind,
    model: Option<String>,
    r: Result<ToAppend, SyncError>,
) -> (seconds: Option<u64>)
    requires
        call_ensures(SyncEngine::send, (engine, body, kind, model), r),
    ensures
        r is Ok,
        is_reading(seconds),
        seconds is None ==> r->Ok_0.message.ts == 0,
        seconds is Some && seconds->0 <= i64::MAX ==> r->Ok_0.message.ts as int
            == seconds->0 as int,
        r->Ok_0.message.body@ == body@,
        r->Ok_0.message.author@ == engine.user().name@,
        r->Ok_0.message.kind == kind,
        model is None <==> r->Ok_0.message.model is None,
        model is Some ==> r->Ok_0.message.model->0@ == model->0@,
        message::line_read(r->Ok_0.line@) == Some(r->Ok_0.message@),
        r->Ok_0.file@ == engine.user().author_hash@ + ".jsonl"@,
{
    let step = r->Ok_0;
    assert(step.message@.model == text::opt_text(model));
    choose|seconds: Option<u64>| #[trigger]
        is_reading(seconds) && step.message.ts == (match seconds {
            Some(s) => s as i64,
            None => 0i64,
        })
}

/// Of two readings of the clock the later one gives the later time stamp.
pub proof fn time_orders_what_is_sent(a: u64, b: u64, first: i64, second: i64)
    requires
        call_ensures(timestamp, (Some(a),), first),
        call_ensures(timestamp, (Some(b),), second),
        a <= i64::MAX,
        b <= i64::MAX,
    ensures
        a < b <==> first < second,
{
}

/// Appending the line of a message to a log adds just that record: the records before
/// it stay what they were, and no part of the message is taken for another record.
pub proof fn appended_line_is_one_record(log: Seq<char>, line: Seq<char>)
    requires
        text::is_complete(log),
        json::is_one_line_object(line),
    ensures
        records_in(text::lines_of(log + line.push('\n'))) == records_in(text::lines_of(log)).push(
            line,
        ),
        text::is_complete(log + line.push('\n')),
{
    let p = text::other_than('\n');
    let tail = line.push('\n');
    text::lemma_lines_concat(log, tail);
    assert forall|i: int| 0 <= i < line.len() implies p(#[trigger] tail[i]) by {
        assert(tail[i] == line[i]);
    }
    text::lemma_span_is(tail, p, line.len());
    assert(tail.take(line.len() as int) == line);
    assert(tail.skip(line.len() as int + 1) == Seq::<char>::empty());
    assert(text::lines_of(tail.skip(line.len() as int + 1)) == Seq::<Seq<char>>::empty());
    assert(text::lines_of(tail) == seq![line]);
    let before = text::lines_of(log);
    let all = before + seq![line];
    assert(all.drop_last() == before);
    let none = Seq::<char>::empty();
    assert(line == none + line + none);
    text::lemma_trimmed_is(line, none, line, none);
}

/// What is sent arrives: once its line is appended to a log, the log has one record
/// more, which reads back as the message.
pub proof fn sent_message_arrives(
    log: Seq<char>,
    step: ToAppend,
    message: Message,
    author_hash: Seq<char>,
)
    requires
        text::is_complete(log),
        is_append_of(step, message, author_hash),
    ensures
        ({
            let before = records_in(text::lines_of(log));
            let after = records_in(text::lines_of(log + step.line@.push('\n')));
            &&& after.len() == before.len() + 1
            &&& after.drop_last() == before
            &&& message::line_read(after.last()) == Some(message@)
        }),
{
    appended_line_is_one_record(log, step.line@);
    let before = records_in(text::lines_of(log));
    assert(before.push(step.line@).drop_last() == before);
}

/// Two authors never write to the same log, so that their pushes never conflict.
pub proof fn authors_have_logs_of_their_own(a: Seq<char>, b: Seq<char>)
    requires
        a != b,
    ensures
        log_path(a) != log_path(b),
        log_name(a) != log_name(b),
{
    let dir = "chat/"@;
    let end = ".jsonl"@;
    if log_name(a) == log_name(b) {
        assert(a == (a + end).take((a + end).len() - end.len()));
        assert(b == (b + end).take((b + end).len() - end.len()));
    }
    if log_path(a) == log_path(b) {
        assert(a == (dir + a + end).subrange(dir.len() as int, (dir + a + end).len() - end.len()));
        assert(b == (dir + b + end).subrange(dir.len() as int, (dir + b + end).len() - end.len()));
    }
}

proof fn lemma_records_concat(a: Seq<Seq<char>>, b: Seq<Seq<char>>)
    ensures
        records_in(a + b) == records_in(a) + records_in(b),
    decreases b.len(),
{
    if b.len() == 0 {
        assert(a + b =~= a);
        assert(records_in(a) + records_in(b) =~= records_in(a));
    } else {
        lemma_records_concat(a, b.drop_last());
        assert((a + b).drop_last() =~= a + b.drop_last());
        assert((a + b).last() == b.last());
        assert(records_in(a + b) =~= records_in(a) + records_in(b));
    }
}

/// Every line of a log is a record, unless it is blank: the records of two logs, one
/// behind the other, are those of the one and then those of the other, and a log of one
/// line has that line as its record, without the white space around it.
pub proof fn every_line_is_a_record(
    first: &str,
    second: &str,
    both: &str,
    of_first: Vec<String>,
    of_second: Vec<String>,
    of_both: Vec<String>,
)
    requires
        call_ensures(log_records, (first,), of_first),
        call_ensures(log_records, (second,), of_second),
        call_ensures(log_records, (both,), of_both),
        both@ == first@ + second@,
        first@.len() == 0 || first@.last() == '\n',
    ensures
        text::texts(of_both@) == text::texts(of_first@) + text::texts(of_second@),
        !first@.contains('\n') ==> of_first@.len() == 0,
        second@.len() > 0 && !second@.contains('\n') && (exists|i: int|
            0 <= i < second@.len() && !text::is_white(#[trigger] second@[i])) ==> of_second@.len()
            == 1 && text::has(second@, of_second@[0]@) && !text::is_white(of_second@[0]@[0])
            && !text::is_white(of_second@[0]@.last()) && of_second@[0]@ == text::trimmed(second@),
{
    text::lemma_lines_concat(first@, second@);
    lemma_records_concat(text::lines_of(first@), text::lines_of(second@));
    if !first@.contains('\n') && first@.len() > 0 {
        assert(first@.contains(first@.last()));
    }
    assert(text::texts(of_first@).len() == of_first@.len());
    if second@.len() > 0 && !second@.contains('\n') && (exists|i: int|
        0 <= i < second@.len() && !text::is_white(#[trigger] second@[i])) {
        let s = second@;
        text::text_without_a_break_is_one_line(s);
        let t = text::trimmed(s);
        let cut = text::lemma_trimmed(s);
        let i = choose|i: int| 0 <= i < s.len() && !text::is_white(#[trigger] s[i]);
        if t.len() == 0 {
            assert(s =~= cut.0 + cut.1);
            if i < cut.0.len() {
                assert(s[i] == cut.0[i]);
            } else {
                assert(s[i] == cut.1[i - cut.0.len()]);
            }
        }
        let lines = seq![s];
        assert(lines.drop_last() =~= Seq::<Seq<char>>::empty());
        assert(records_in(lines.drop_last()) =~= Seq::<Seq<char>>::empty());
        assert(records_in(lines) =~= seq![t]);
        assert(text::texts(of_second@)[0] == of_second@[0]@);
        let at = cut.0.len() as int;
        assert(s.subrange(at, at + t.len()) =~= t);
        assert(text::stands_at(s, t, at));
    }
}

/// What is put before the commit of a message is the file that its line was appended to,
/// in the directory of the logs.
pub proof fn committed_log_is_the_appended_one(engine: &SyncEngine, message: Message, r: Result<
    ToAppend,
    SyncError,
>)
    requires
        call_ensures(SyncEngine::begin_send, (engine, message), r),
    ensures
        r is Ok,
        r->Ok_0.message == message,
        log_path(engine.user().author_hash@) == CHAT_DIR@ + "/"@ + r->Ok_0.file@,
        r->Ok_0.file@.len() == engine.user().author_hash@.len() + 6,
        r->Ok_0.file@.take(engine.user().author_hash@.len() as int) == engine.user().author_hash@,
{
    reveal_strlit("chat");
    reveal_strlit("/");
    reveal_strlit("chat/");
    reveal_strlit(".jsonl");
    assert(CHAT_DIR@ + "/"@ =~= "chat/"@);
    assert(log_path(engine.user().author_hash@) =~= CHAT_DIR@ + "/"@ + r->Ok_0.file@);
    assert(r->Ok_0.file@.take(engine.user().author_hash@.len() as int)
        =~= engine.user().author_hash@);
}

/// What is written of a document is all of it, where it was asked for.
pub proof fn document_is_written_whole(engine: &SyncEngine, path: &str, body: &str, r: ToWrite)
    requires
        call_ensures(SyncEngine::write_doc, (engine, path, body), r),
    ensures
        r.path@ == path@,
        r.body@ == body@,
{
}

/// What an error says ends with what was reported, in full.
pub proof fn sync_failure_says_why(e: SyncError, r: String, why: String)
    requires
        call_ensures(SyncError::text, (&e,), r),
        e == SyncError::Io(why) || e == SyncError::Json(why) || e == SyncError::Sql(why) || e
            == SyncError::PushFailed(why),
    ensures
        why@.is_suffix_of(r@),
{
    assert(r@.skip(r@.len() - why@.len()) =~= why@);
}

/// A message that was appended goes on its way unchanged, with a commit that names it and
/// whose file is the user's own log; it does not win over what the peer wrote.
pub proof fn sent_message_goes_on_unchanged<T>(
    add: ToAdd<T>,
    c: GitCommand,
    run: GitRun,
    committed: Result<ToCommit<T>, GitError>,
)
    requires
        call_ensures(ToAdd::<T>::command, (&add,), c),
        call_ensures(ToAdd::<T>::ran, (add, run), committed),
    ensures
        c matches GitCommand::Add { paths } && paths@.len() == 1 && paths@[0]@ == add.path@,
        committed is Ok <==> run is Ok && run->Ok_0.success,
        committed is Ok ==> committed->Ok_0.outcome == add.outcome && committed->Ok_0.message@
            == add.message@ && committed->Ok_0.prefer_local == add.prefer_local,
{
    let said = text::texts(c->paths@);
    assert(said.len() == c->paths@.len());
    assert(said[0] == c->paths@[0]@);
}

/// A commit goes to the peer by a push that is tried five times at most, and the local side
/// wins just where that was asked for; what was sent is handed out only where the push went
/// through.
pub proof fn commit_is_pushed<T>(
    commit: ToCommit<T>,
    c: GitCommand,
    push: ToPush<T>,
    git: &Git,
    retry: PushRetry,
    outcome: Result<PushOutcome, GitError>,
    r: Result<T, SyncError>,
)
    requires
        call_ensures(ToCommit::<T>::command, (&commit,), c),
        call_ensures(ToPush::<T>::retry, (&push, git), retry),
        call_ensures(ToPush::<T>::pushed, (push, outcome), r),
    ensures
        c matches GitCommand::Commit { message } && message@ == commit.message@,
        retry.max_attempts == 5,
        retry.rejections == 0,
        retry.prefer_local == push.prefer_local,
        r is Ok <==> outcome is Ok && outcome->Ok_0 is Pushed,
        r is Ok ==> r->Ok_0 == push.outcome,
{
}

/// Once the line of a message is appended, the message is known to the cache and the log it
/// was appended to is put before the commit, which names the message and does not win over
/// what the peer wrote. A line that could not be appended is reported, and nothing is
/// stored.
pub proof fn appended_message_is_known(
    e: &mut SyncEngine,
    step: ToAppend,
    outcome: Result<(), String>,
    r: Result<ToAdd<Message>, SyncError>,
)
    requires
        call_ensures(SyncEngine::appended, (e, step, outcome), r),
    ensures
        outcome matches Err(t) ==> r == Err::<ToAdd<Message>, SyncError>(SyncError::Io(t))
            && final(e).cache() == old(e).cache(),
        r is Ok ==> outcome is Ok,
        r is Ok ==> r->Ok_0.outcome == step.message,
        r is Ok ==> r->Ok_0.path@ == CHAT_DIR@ + "/"@ + old(e).user().author_hash@ + "."@
            + LOG_EXTENSION@,
        r is Ok ==> text::has(r->Ok_0.message@, step.message.id@),
        r is Ok ==> !r->Ok_0.prefer_local,
        r is Ok && old(e).cache().owned() ==> final(e).cache().messages().contains_key(
            step.message.id@,
        ),
        r is Ok && old(e).cache().owned() && !old(e).cache().messages().contains_key(
            step.message.id@,
        ) ==> store::message_of(final(e).cache().messages()[step.message.id@]) == step.message@,
        final(e).user() == old(e).user(),
{
    if r is Ok {
        reveal_strlit("chat");
        reveal_strlit("/");
        reveal_strlit("chat/");
        reveal_strlit(".jsonl");
        reveal_strlit(".");
        reveal_strlit("jsonl");
        let hash = old(e).user().author_hash@;
        assert(r->Ok_0.path@ =~= CHAT_DIR@ + "/"@ + hash + "."@ + LOG_EXTENSION@);
        let id = step.message.id@;
        let at = "msg "@.len() as int;
        assert(r->Ok_0.message@.subrange(at, at + id.len()) =~= id);
        assert(text::stands_at(r->Ok_0.message@, id, at));
        let t = store::answers(old(e).cache(), final(e).cache());
        assert(t[0] is Some);
        store::message_survives_storage(step.message@);
    }
}

/// Once a document is written, it is put before the commit at the path where it was written,
/// and it wins over what the peer wrote; what can be found of it is its whole text.
pub proof fn written_document_is_known(
    e: &mut SyncEngine,
    step: ToWrite,
    outcome: Result<(), String>,
    r: Result<ToAdd<()>, SyncError>,
)
    requires
        call_ensures(SyncEngine::written, (e, step, outcome), r),
    ensures
        outcome matches Err(t) ==> r == Err::<ToAdd<()>, SyncError>(SyncError::Io(t))
            && final(e).cache() == old(e).cache(),
        r is Ok ==> outcome is Ok,
        r is Ok ==> r->Ok_0.path@ == step.path@,
        r is Ok ==> text::has(r->Ok_0.message@, step.path@),
        r is Ok ==> r->Ok_0.prefer_local,
        r is Ok && old(e).cache().owned() ==> final(e).cache().messages()
            == old(e).cache().messages(),
        r is Ok && old(e).cache().owned() ==> exists|row: crate::sql::IndexRow| #[trigger]
            final(e).cache().index().count(row) == 1 && row.kind == "doc"@ && row.ref_id
                == step.path@ && row.body == step.body@,
{
    if r is Ok {
        let path = step.path@;
        let at = "doc "@.len() as int;
        assert(r->Ok_0.message@.subrange(at, at + path.len()) =~= path);
        assert(text::stands_at(r->Ok_0.message@, path, at));
        if old(e).cache().owned() {
            store::accepted_document_replaces_the_old(
                old(e).cache(),
                final(e).cache(),
                path,
                step.body@,
            );
            let row = store::doc_row(path, step.body@);
            assert(final(e).cache().index().count(row) == 1);
        }
    }
}

/// A look at the room brings every message of the logs that was unknown, and nothing but
/// messages of the logs that were unknown, each id once, oldest first; afterwards all of the
/// logs is known. That the clone could not be updated is only a warning, which says why.
pub proof fn look_brings_every_unknown_message(
    e: &mut SyncEngine,
    pull: Result<(), GitError>,
    logs: &Vec<ChatLog>,
    r: (Option<String>, Result<Vec<Message>, SyncError>),
    i: int,
    j: int,
    k: int,
)
    requires
        call_ensures(SyncEngine::poll, (e, pull, logs), r),
        old(e).cache().owned(),
        r.1 is Ok,
        0 <= i < logs@.len(),
        logs@[i] is Lines,
        0 <= j < logs@[i]->Lines_0@.len(),
        logs@[i]->Lines_0@[j] is Some,
        0 <= k < r.1->Ok_0@.len(),
    ensures
        r.0 is None <==> pull is Ok,
        pull matches Err(why) ==> text::has(r.0->0@, git::git_error_text(why)),
        forall|x: int| 0 <= x < logs@.len() ==> (#[trigger] logs@[x]) is Lines,
        ({
            let known = old(e).cache().messages();
            let news = r.1->Ok_0@;
            let m = logs@[i]->Lines_0@[j]->0@;
            &&& final(e).cache().messages().contains_key(m.id)
            &&& known.contains_key(m.id) || exists|n: int|
                0 <= n < news.len() && (#[trigger] news[n])@.id == m.id
            &&& !known.contains_key(news[k]@.id)
            &&& exists|x: int, y: int|
                0 <= x < logs@.len() && 0 <= y < logs@[x]->Lines_0@.len() && (
                #[trigger] logs@[x]->Lines_0@[y]) is Some && logs@[x]->Lines_0@[y]->0@ == news[k]@
            &&& forall|n: int| 0 <= n < k ==> (#[trigger] news[n])@.id != news[k]@.id
            &&& forall|n: int| 0 <= n < k ==> (#[trigger] news[n]).ts <= news[k].ts
        }),
{
    let news = r.1->Ok_0;
    let (before, after) = (*old(e), *final(e));
    assert(reconciles(&before, &after, logs@, Ok(news)));
    merge::lemma_all_read(logs@);
    look_is_complete(before, after, logs@, news);
    let m = logs@[i]->Lines_0@[j]->0@;
    merge::every_record_comes_in(logs@, m);
    merge::every_record_comes_in(logs@, news@[k]@);
    let ms = merge::readable(logs@);
    assert(ms.contains(m));
    let x = choose|x: int| 0 <= x < ms.len() && ms[x] == m;
    assert(ms[x].id == m.id);
    let views = store::message_views(news@);
    assert forall|n: int| 0 <= n < k implies (#[trigger] news@[n]).ts <= news@[k].ts by {
        assert(views[n] == news@[n]@ && views[k] == news@[k]@);
        assert(!merge::older(views[k], views[n]));
    }
    if pull is Err {
        let why = git::git_error_text(pull->Err_0);
        let said = r.0->0@;
        assert(text::opt_text(r.0) == Some(said));
        let at = "warning: pull failed (continuing with local state): "@.len() as int;
        assert(said.subrange(at, at + why.len()) =~= why);
        assert(text::stands_at(said, why, at));
    }
}

/// A message that is composed says what was given, as a message of the user.
pub proof fn composed_message_says_what_was_given(
    e: &SyncEngine,
    id: &str,
    ts: i64,
    body: &str,
    kind: Kind,
    model: Option<String>,
    m: Message,
)
    requires
        call_ensures(SyncEngine::compose, (e, id, ts, body, kind, model), m),
    ensures
        m.id@ == id@,
        m.ts == ts,
        m.body@ == body@,
        m.kind == kind,
        m.author@ == e.user().name@,
        text::opt_text(m.model) == text::opt_text(model),
{
    assert(m@.model == text::opt_text(m.model));
}

/// Just the files with the extension of a log are read as logs.
pub proof fn logs_are_known_by_their_extension(extension: Option<&str>, r: bool)
    requires
        call_ensures(is_log, (extension,), r),
    ensures
        r <==> extension is Some && extension->0@ == seq!['j', 's', 'o', 'n', 'l'],
{
    reveal_strlit("jsonl");
    assert("jsonl"@ =~= seq!['j', 's', 'o', 'n', 'l']);
}

} // verus!
