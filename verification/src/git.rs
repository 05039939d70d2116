//! The transport: which git commands the room runs, with which arguments, and what
//! it makes of their output. Running them is left to the caller.

use crate::text;
use std::path::PathBuf;
use vstd::prelude::*;

verus! {

/// A path in the file system.
#[verifier::external_type_specification]
#[verifier::external_body]
pub struct ExPathBuf(PathBuf);

/// A clone of the room's repository.
pub struct Git {
    pub(crate) repo: PathBuf,
}

impl Git {
    /// The clone at `repo`.
    pub fn new(repo: PathBuf) -> (g: Git)
        ensures
            g.path() == repo,
    {
        Git { repo }
    }

    /// Where the clone is.
    pub closed spec fn path(&self) -> PathBuf {
        self.repo
    }

    /// Where the clone is.
    pub fn repo(&self) -> (r: &PathBuf)
        ensures
            *r == self.path(),
    {
        &self.repo
    }

    /// The command that clones `url` into `dest`.
    pub fn clone(url: &str, dest: &str) -> (c: GitCommand)
        ensures
            c matches GitCommand::Clone { url: u, dest: d } && u@ == url@ && d@ == dest@,
    {
        GitCommand::Clone { url: url.to_owned(), dest: dest.to_owned() }
    }

    /// The clone at `dest`, once the command that clones `url` has been run.
    pub fn cloned(url: &str, dest: PathBuf, run: GitRun) -> (r: Result<Git, GitError>)
        ensures
            succeeded(run) ==> (r matches Ok(g) && g.path() == dest),
            !succeeded(run) ==> (r matches Err(e) && is_failure_of(e, run, "clone "@ + url@)),
    {
        match (GitCommand::Clone { url: url.to_owned(), dest: String::new() }).checked(run) {
            Ok(_) => Ok(Git { repo: dest }),
            Err(e) => Err(e),
        }
    }

    /// The command that puts `paths` before the next commit.
    pub fn add(&self, paths: Vec<String>) -> (c: GitCommand)
        ensures
            c == (GitCommand::Add { paths }),
    {
        GitCommand::Add { paths }
    }

    /// The command that commits what was put before it.
    pub fn commit(&self, message: &str) -> (c: GitCommand)
        ensures
            c matches GitCommand::Commit { message: m } && m@ == message@,
    {
        GitCommand::Commit { message: message.to_owned() }
    }

    /// The command that names the branch which is checked out.
    pub fn current_branch(&self) -> (c: GitCommand)
        ensures
            c == GitCommand::CurrentBranch,
    {
        GitCommand::CurrentBranch
    }

    /// The command that rebases `branch`, which is checked out, onto its remote
    /// counterpart.
    pub fn pull_rebase(&self, branch: &str) -> (c: GitCommand)
        ensures
            c matches GitCommand::PullRebase { branch: b } && b@ == branch@,
    {
        GitCommand::PullRebase { branch: branch.to_owned() }
    }

    /// The same, but the local side wins where both sides changed a line. What a
    /// rebase replays is "theirs" to git.
    pub fn pull_rebase_prefer_local(&self, branch: &str) -> (c: GitCommand)
        ensures
            c matches GitCommand::PullRebasePreferLocal { branch: b } && b@ == branch@,
    {
        GitCommand::PullRebasePreferLocal { branch: branch.to_owned() }
    }

    /// The first command on the way to `branch`: checking it out. A name that git
    /// would read as an option is refused.
    pub fn ensure_branch(&self, branch: &str) -> (r: Result<GitCommand, GitError>)
        ensures
            "-"@.is_prefix_of(branch@) ==> (r matches Err(GitError::Failed { cmd, code, stderr })
                && cmd@ == "ensure_branch"@ && code is None && stderr@
                == "refusing branch name starting with '-': "@ + branch@),
            !"-"@.is_prefix_of(branch@) ==> (r matches Ok(GitCommand::Checkout { branch: b }) && b@
                == branch@),
    {
        if text::starts_with(branch, "-") {
            let stderr = text::concat("refusing branch name starting with '-': ", branch);
            return Err(GitError::Failed { cmd: "ensure_branch".to_owned(), code: None, stderr });
        }
        Ok(GitCommand::Checkout { branch: branch.to_owned() })
    }

    /// The command that pushes what is checked out.
    pub fn push(&self) -> (c: GitCommand)
        ensures
            c == GitCommand::Push,
    {
        GitCommand::Push
    }

    /// A push that rebases and tries again after a collision, up to `max_attempts`
    /// times.
    pub fn push_with_retry(&self, max_attempts: u32) -> (p: PushRetry)
        ensures
            p.wf(),
            p == (PushRetry { max_attempts, prefer_local: false, rejections: 0 }),
    {
        PushRetry { max_attempts, prefer_local: false, rejections: 0 }
    }

    /// The same, but the local side wins where both sides changed a line.
    pub fn push_with_retry_local_wins(&self, max_attempts: u32) -> (p: PushRetry)
        ensures
            p.wf(),
            p == (PushRetry { max_attempts, prefer_local: true, rejections: 0 }),
    {
        PushRetry { max_attempts, prefer_local: true, rejections: 0 }
    }
}

/// What became of a push. `Rejected` is a collision with another push, which a
/// rebase can solve; `Failed` is everything else.
#[derive(Debug, Clone, PartialEq, Eq)]
pub enum PushOutcome {
    Pushed,
    Rejected,
    Failed(String),
}

/// Why a git command did not do what it was asked to.
#[derive(Debug)]
pub enum GitError {
    /// git could not be started.
    Spawn(String),
    /// git ran and reported a failure.
    Failed { cmd: String, code: Option<i32>, stderr: String },
}

/// `code` the way it is shown: `None`, or the number in `Some(..)`.
pub open spec fn code_text(code: Option<i32>) -> Seq<char> {
    match code {
        None => "None"@,
        Some(n) => "Some("@ + signed_text(n as int) + ")"@,
    }
}

/// `n` in decimal digits, with a minus sign where it is negative.
pub open spec fn signed_text(n: int) -> Seq<char> {
    if n < 0 {
        "-"@ + text::decimal((-n) as nat)
    } else {
        text::decimal(n as nat)
    }
}

/// What an error says.
pub open spec fn git_error_text(e: GitError) -> Seq<char> {
    match e {
        GitError::Spawn(t) => "could not run git (is it on PATH?): "@ + t@,
        GitError::Failed { cmd, code, stderr } => "git "@ + cmd@ + " failed (code "@ + code_text(
            code,
        ) + "): "@ + stderr@,
    }
}

impl GitError {
    /// What happened, in words.
    pub fn text(&self) -> (r: String)
        ensures
            r@ == git_error_text(*self),
    {
        match self {
            GitError::Spawn(t) => {
                let mut r = "could not run git (is it on PATH?): ".to_owned();
                r.append(t.as_str());
                r
            },
            GitError::Failed { cmd, code, stderr } => {
                let mut r = "git ".to_owned();
                r.append(cmd.as_str());
                r.append(" failed (code ");
                match *code {
                    None => {
                        r.append("None");
                    },
                    Some(n) => {
                        let ghost before = r@;
                        r.append("Some(");
                        if n < 0 {
                            r.append("-");
                            r.append(text::decimal_text((-(n as i64)) as u64).as_str());
                        } else {
                            r.append(text::decimal_text(n as u64).as_str());
                        }
                        r.append(")");
                        assert(r@ == before + code_text(*code));
                    },
                }
                r.append("): ");
                r.append(stderr.as_str());
                r
            },
        }
    }
}

/// What a finished command left behind.
pub struct GitOutput {
    pub success: bool,
    pub code: Option<i32>,
    pub stdout: Vec<u8>,
    pub stderr: Vec<u8>,
}

/// What came of running a command: its output, or why it could not be started.
pub type GitRun = Result<GitOutput, String>;

/// Whether a command ran and succeeded.
pub open spec fn succeeded(run: GitRun) -> bool {
    run matches Ok(out) && out.success
}

/// Whether `e` reports why the command with the name `label` failed.
pub open spec fn is_failure_of(e: GitError, run: GitRun, label: Seq<char>) -> bool {
    match run {
        Err(t) => e == GitError::Spawn(t),
        Ok(out) => e matches GitError::Failed { cmd, code, stderr } && cmd@ == label && code
            == out.code && stderr@ == text::trimmed(text::lossy_text(out.stderr@)),
    }
}

/// A git command that the room runs.
pub enum GitCommand {
    Clone { url: String, dest: String },
    Add { paths: Vec<String> },
    Commit { message: String },
    CurrentBranch,
    /// Rebases the branch onto its remote counterpart.
    PullRebase { branch: String },
    /// The same, but what is replayed wins where both sides changed a line.
    PullRebasePreferLocal { branch: String },
    Checkout { branch: String },
    CheckoutNew { branch: String },
    Push,
    /// Reads one setting of the configuration.
    Config { key: String },
}

/// The arguments of a command.
pub open spec fn argv_of(c: GitCommand) -> Seq<Seq<char>> {
    match c {
        GitCommand::Clone { url, dest } => seq!["clone"@, "--"@, url@, dest@],
        GitCommand::Add { paths } => seq!["add"@, "--"@] + text::texts(paths@),
        GitCommand::Commit { message } => seq!["commit"@, "-m"@, message@],
        GitCommand::CurrentBranch => seq!["rev-parse"@, "--abbrev-ref"@, "HEAD"@],
        GitCommand::PullRebase { branch } => seq!["pull"@, "--rebase"@, "origin"@, branch@],
        GitCommand::PullRebasePreferLocal { branch } => seq![
            "-c"@,
            "core.editor=true"@,
            "pull"@,
            "--rebase"@,
            "-X"@,
            "theirs"@,
            "origin"@,
            branch@,
        ],
        GitCommand::Checkout { branch } => seq!["checkout"@, branch@],
        GitCommand::CheckoutNew { branch } => seq!["checkout"@, "-b"@, branch@],
        GitCommand::Push => seq!["push"@, "--porcelain"@, "origin"@, "HEAD"@],
        GitCommand::Config { key } => seq!["config"@, "--get"@, key@],
    }
}

/// How a command is named where its failure is reported.
pub open spec fn label_of(c: GitCommand) -> Seq<char> {
    match c {
        GitCommand::Clone { url, dest } => "clone "@ + url@,
        _ => text::joined(argv_of(c), " "@),
    }
}

/// The texts of `parts` as strings of their own.
fn strings(parts: &Vec<&str>) -> (r: Vec<String>)
    ensures
        text::texts(r@) == parts@.map_values(|p: &str| p@),
{
    let mut r: Vec<String> = Vec::new();
    let mut i: usize = 0;
    while i < parts.len()
        invariant
            i == r.len() <= parts.len(),
            forall|j: int| 0 <= j < i ==> (#[trigger] r@[j])@ == parts@[j]@,
        decreases parts.len() - i,
    {
        r.push(parts[i].to_owned());
        i += 1;
    }
    assert(text::texts(r@) == parts@.map_values(|p: &str| p@));
    r
}

impl GitCommand {
    /// The arguments of the command.
    pub fn argv(&self) -> (r: Vec<String>)
        ensures
            text::texts(r@) == argv_of(*self),
    {
        let parts: Vec<&str> = match self {
            GitCommand::Clone { url, dest } => vec!["clone", "--", url.as_str(), dest.as_str()],
            GitCommand::Add { paths } => {
                let mut parts: Vec<&str> = vec!["add", "--"];
                let mut i: usize = 0;
                while i < paths.len()
                    invariant
                        i <= paths.len(),
                        parts.len() == i + 2,
                        parts@[0]@ == "add"@,
                        parts@[1]@ == "--"@,
                        forall|j: int| 0 <= j < i ==> (#[trigger] parts@[j + 2])@ == paths@[j]@,
                    decreases paths.len() - i,
                {
                    parts.push(paths[i].as_str());
                    i += 1;
                }
                parts
            },
            GitCommand::Commit { message } => vec!["commit", "-m", message.as_str()],
            GitCommand::CurrentBranch => vec!["rev-parse", "--abbrev-ref", "HEAD"],
            GitCommand::PullRebase { branch } => vec![
                "pull",
                "--rebase",
                "origin",
                branch.as_str(),
            ],
            GitCommand::PullRebasePreferLocal { branch } => vec![
                "-c",
                "core.editor=true",
                "pull",
                "--rebase",
                "-X",
                "theirs",
                "origin",
                branch.as_str(),
            ],
            GitCommand::Checkout { branch } => vec!["checkout", branch.as_str()],
            GitCommand::CheckoutNew { branch } => vec!["checkout", "-b", branch.as_str()],
            GitCommand::Push => vec!["push", "--porcelain", "origin", "HEAD"],
            GitCommand::Config { key } => vec!["config", "--get", key.as_str()],
        };
        proof {
            let said = parts@.map_values(|p: &str| p@);
            let wanted = argv_of(*self);
            assert(said.len() == wanted.len());
            assert forall|i: int| 0 <= i < said.len() implies said[i] == wanted[i] by {
                if *self is Add && i >= 2 {
                    assert(parts@[(i - 2) + 2]@ == self->paths@[i - 2]@);
                }
            }
            assert(said == wanted);
        }
        strings(&parts)
    }

    /// How the command is named where its failure is reported.
    pub fn label(&self) -> (r: String)
        ensures
            r@ == label_of(*self),
    {
        match self {
            GitCommand::Clone { url, dest: _ } => {
                let mut r = "clone ".to_owned();
                r.append(url.as_str());
                r
            },
            _ => {
                let args = self.argv();
                text::join(&args, " ")
            },
        }
    }

    /// What a command that has to succeed wrote to its output, or why it failed.
    pub fn checked(&self, run: GitRun) -> (r: Result<String, GitError>)
        ensures
            match run {
                Err(e) => r == Err::<String, GitError>(GitError::Spawn(e)),
                Ok(out) => if out.success {
                    r matches Ok(t) && t@ == text::lossy_text(out.stdout@)
                } else {
                    r matches Err(GitError::Failed { cmd, code, stderr }) && cmd@ == label_of(*self)
                        && code == out.code && stderr@ == text::trimmed(
                        text::lossy_text(out.stderr@),
                    )
                },
            },
    {
        match run {
            Err(e) => Err(GitError::Spawn(e)),
            Ok(out) => if out.success {
                Ok(text::lossy(&out.stdout))
            } else {
                Err(
                    GitError::Failed {
                        cmd: self.label(),
                        code: out.code,
                        stderr: text::trim(text::lossy(&out.stderr).as_str()),
                    },
                )
            },
        }
    }
}

/// The variables that every command runs with: plain English output, and no prompt
/// for a missing credential.
pub fn environment() -> (r: Vec<(&'static str, &'static str)>)
    ensures
        r@.map_values(|v: (&'static str, &'static str)| (v.0@, v.1@)) == seq![
            ("LC_ALL"@, "C"@),
            ("LANG"@, "C"@),
            ("GIT_TERMINAL_PROMPT"@, "0"@),
        ],
{
    let r: Vec<(&'static str, &'static str)> = vec![
        ("LC_ALL", "C"),
        ("LANG", "C"),
        ("GIT_TERMINAL_PROMPT", "0"),
    ];
    assert(r@.map_values(|v: (&'static str, &'static str)| (v.0@, v.1@)) == seq![
        ("LC_ALL"@, "C"@),
        ("LANG"@, "C"@),
        ("GIT_TERMINAL_PROMPT"@, "0"@),
    ]);
    r
}

/// Whether a line of the machine-readable output of a push reports a collision: it
/// starts with an exclamation mark and names one of the reasons.
pub open spec fn is_collision_line(l: Seq<char>) -> bool {
    &&& "!"@.is_prefix_of(l)
    &&& text::has(l, "non-fast-forward"@) || text::has(l, "[rejected]"@) || text::has(
        l,
        "fetch first"@,
    )
}

/// Whether the machine-readable output of a push reports a collision.
pub open spec fn reports_collision(stdout: Seq<char>) -> bool {
    exists|i: int|
        0 <= i < text::lines_of(stdout).len() && #[trigger] is_collision_line(
            text::lines_of(stdout)[i],
        )
}

/// Whether `r` is what a push with this exit status and output came to.
pub open spec fn is_push_outcome(
    r: PushOutcome,
    success: bool,
    stdout: Seq<char>,
    stderr: Seq<char>,
) -> bool {
    match r {
        PushOutcome::Pushed => success,
        PushOutcome::Rejected => !success && reports_collision(stdout),
        PushOutcome::Failed(e) => !success && !reports_collision(stdout) && e@ == text::trimmed(
            stderr,
        ),
    }
}

/// What a push came to. Only the exit status and the machine-readable output
/// decide; what git says to humans is passed on with a failure, and never read.
pub fn classify_push(success: bool, stdout: &str, stderr: &str) -> (r: PushOutcome)
    ensures
        is_push_outcome(r, success, stdout@, stderr@),
{
    if success {
        return PushOutcome::Pushed;
    }
    let lines = text::lines(stdout);
    let mut i: usize = 0;
    while i < lines.len()
        invariant
            i <= lines.len(),
            !success,
            text::texts(lines@) == text::lines_of(stdout@),
            forall|j: int| 0 <= j < i ==> !is_collision_line(#[trigger] lines@[j]@),
        decreases lines.len() - i,
    {
        let l = lines[i].as_str();
        if text::starts_with(l, "!") && (text::contains(l, "non-fast-forward") || text::contains(
            l,
            "[rejected]",
        ) || text::contains(l, "fetch first")) {
            assert(is_collision_line(text::lines_of(stdout@)[i as int]));
            return PushOutcome::Rejected;
        }
        i += 1;
    }
    assert forall|j: int| 0 <= j < text::lines_of(stdout@).len() implies !#[trigger]
    is_collision_line(text::lines_of(stdout@)[j]) by {
        assert(text::texts(lines@)[j] == lines@[j]@);
    }
    PushOutcome::Failed(text::trim(stderr))
}

/// What the push command came to, or why it could not be started.
pub fn push_outcome(run: GitRun) -> (r: Result<PushOutcome, GitError>)
    ensures
        match run {
            Err(e) => r == Err::<PushOutcome, GitError>(GitError::Spawn(e)),
            Ok(out) => r matches Ok(o) && is_push_outcome(
                o,
                out.success,
                text::lossy_text(out.stdout@),
                text::lossy_text(out.stderr@),
            ),
        },
{
    match run {
        Err(e) => Err(GitError::Spawn(e)),
        Ok(out) => Ok(
            classify_push(
                out.success,
                text::lossy(&out.stdout).as_str(),
                text::lossy(&out.stderr).as_str(),
            ),
        ),
    }
}

/// The branch that `GitCommand::CurrentBranch` names, or why it failed.
pub fn branch_name(run: GitRun) -> (r: Result<String, GitError>)
    ensures
        match run {
            Err(e) => r == Err::<String, GitError>(GitError::Spawn(e)),
            Ok(out) => if out.success {
                r matches Ok(b) && b@ == text::trimmed(text::lossy_text(out.stdout@))
            } else {
                r matches Err(GitError::Failed { cmd, code, stderr }) && cmd@ == label_of(
                    GitCommand::CurrentBranch,
                ) && code == out.code && stderr@ == text::trimmed(text::lossy_text(out.stderr@))
            },
        },
{
    match GitCommand::CurrentBranch.checked(run) {
        Ok(t) => Ok(text::trim(t.as_str())),
        Err(e) => Err(e),
    }
}

/// The second command on the way to `branch`, once checking it out has been tried:
/// none where that succeeded, else creating the branch from where the clone stands.
pub fn after_checkout(branch: &str, run: GitRun) -> (r: Result<Option<GitCommand>, GitError>)
    ensures
        match run {
            Err(e) => r == Err::<Option<GitCommand>, GitError>(GitError::Spawn(e)),
            Ok(out) => if out.success {
                r == Ok::<Option<GitCommand>, GitError>(None)
            } else {
                r matches Ok(Some(GitCommand::CheckoutNew { branch: b })) && b@ == branch@
            },
        },
{
    match run {
        Err(e) => Err(GitError::Spawn(e)),
        Ok(out) => if out.success {
            Ok(None)
        } else {
            Ok(Some(GitCommand::CheckoutNew { branch: branch.to_owned() }))
        },
    }
}

/// A push that is tried again after a collision, up to a bound.
pub struct PushRetry {
    pub max_attempts: u32,
    /// Whether the local side wins where both sides changed the same.
    pub prefer_local: bool,
    /// How many pushes collided so far.
    pub rejections: u32,
}

/// What a push that may be tried again does next.
pub enum PushStep {
    Push,
    Rebase,
    Done(Result<PushOutcome, GitError>),
}

/// What follows a push that came to `outcome`: a collision leads to a rebase while
/// attempts are left, and everything else ends the matter.
pub open spec fn step_after_push(s: PushRetry, outcome: Result<PushOutcome, GitError>) -> PushStep {
    if outcome == Ok::<PushOutcome, GitError>(PushOutcome::Rejected) && s.rejections + 1
        < s.max_attempts {
        PushStep::Rebase
    } else {
        PushStep::Done(outcome)
    }
}

impl PushRetry {
    /// Whether fewer pushes collided than the bound allows.
    pub open spec fn wf(&self) -> bool {
        self.rejections == 0 || self.rejections < self.max_attempts
    }

    /// What to do once a push came to `outcome`.
    pub fn pushed(self, outcome: Result<PushOutcome, GitError>) -> (r: (PushRetry, PushStep))
        ensures
            self.wf() ==> r.0.wf(),
            r.1 == step_after_push(self, outcome),
            r.0 == (if r.1 is Rebase {
                PushRetry { rejections: (self.rejections + 1) as u32, ..self }
            } else {
                self
            }),
    {
        match outcome {
            Ok(PushOutcome::Rejected) => if self.rejections < self.max_attempts && self.rejections
                + 1 < self.max_attempts {
                let next = PushRetry {
                    max_attempts: self.max_attempts,
                    prefer_local: self.prefer_local,
                    rejections: self.rejections + 1,
                };
                (next, PushStep::Rebase)
            } else {
                (self, PushStep::Done(Ok(PushOutcome::Rejected)))
            },
            other => (self, PushStep::Done(other)),
        }
    }

    /// The command of the rebase after a collision, where `branch` is checked out.
    pub fn rebase(&self, git: &Git, branch: &str) -> (c: GitCommand)
        ensures
            self.prefer_local ==> (c matches GitCommand::PullRebasePreferLocal { branch: b } && b@
                == branch@),
            !self.prefer_local ==> (c matches GitCommand::PullRebase { branch: b } && b@ == branch@),
    {
        if self.prefer_local {
            git.pull_rebase_prefer_local(branch)
        } else {
            git.pull_rebase(branch)
        }
    }

    /// What to do once the rebase after a collision is over.
    pub fn rebased(&self, outcome: Result<(), GitError>) -> (r: PushStep)
        ensures
            r == (match outcome {
                Ok(()) => PushStep::Push,
                Err(e) => PushStep::Done(Err(e)),
            }),
    {
        match outcome {
            Ok(()) => PushStep::Push,
            Err(e) => PushStep::Done(Err(e)),
        }
    }
}

/// Where the `k`-th push of a run comes to `outcomes(k)`, and every rebase
/// succeeds: the last push of the run, if the push with the number `from` is made.
pub open spec fn last_push(
    s: PushRetry,
    outcomes: spec_fn(nat) -> Result<PushOutcome, GitError>,
    from: nat,
) -> nat
    decreases s.max_attempts - from,
{
    let now = PushRetry { rejections: from as u32, ..s };
    if from < s.max_attempts && step_after_push(now, outcomes(from)) is Rebase {
        last_push(s, outcomes, from + 1)
    } else {
        from
    }
}

proof fn lemma_last_push(
    s: PushRetry,
    outcomes: spec_fn(nat) -> Result<PushOutcome, GitError>,
    from: nat,
)
    requires
        from == 0 || from < s.max_attempts,
    ensures
        from <= last_push(s, outcomes, from),
        last_push(s, outcomes, from) == 0 || last_push(s, outcomes, from) < s.max_attempts,
        forall|k: nat|
            from <= k < last_push(s, outcomes, from) ==> #[trigger] outcomes(k) == Ok::<
                PushOutcome,
                GitError,
            >(PushOutcome::Rejected),
        outcomes(last_push(s, outcomes, from)) == Ok::<PushOutcome, GitError>(PushOutcome::Rejected)
            ==> last_push(s, outcomes, from) + 1 >= s.max_attempts,
    decreases s.max_attempts - from,
{
    let now = PushRetry { rejections: from as u32, ..s };
    if from < s.max_attempts && step_after_push(now, outcomes(from)) is Rebase {
        lemma_last_push(s, outcomes, from + 1);
    }
}

/// A push that is tried again makes at most as many pushes as its bound says, or
/// one where the bound is zero. Every push but the last collided, so a failure is
/// never followed by another push; and a collision is reported only when the bound
/// is used up.
pub proof fn push_is_bounded(
    max_attempts: u32,
    prefer_local: bool,
    outcomes: spec_fn(nat) -> Result<PushOutcome, GitError>,
)
    ensures
        ({
            let s = PushRetry { max_attempts, prefer_local, rejections: 0 };
            let n = last_push(s, outcomes, 0);
            &&& n + 1 <= max_attempts || n == 0
            &&& forall|k: nat|
                k < n ==> #[trigger] outcomes(k) == Ok::<PushOutcome, GitError>(
                    PushOutcome::Rejected,
                )
            &&& outcomes(n) == Ok::<PushOutcome, GitError>(PushOutcome::Rejected) ==> n + 1
                >= max_attempts
        }),
{
    lemma_last_push(PushRetry { max_attempts, prefer_local, rejections: 0 }, outcomes, 0);
}

/// A successful push is never taken for anything else, whatever it printed; and
/// what a push printed for humans never decides between a collision and a failure.
pub proof fn only_status_and_porcelain_decide(
    a: PushOutcome,
    b: PushOutcome,
    success: bool,
    stdout: Seq<char>,
    stderr_a: Seq<char>,
    stderr_b: Seq<char>,
)
    requires
        is_push_outcome(a, success, stdout, stderr_a),
        is_push_outcome(b, success, stdout, stderr_b),
    ensures
        success ==> a is Pushed,
        a is Pushed <==> b is Pushed,
        a is Rejected <==> b is Rejected,
        a is Failed <==> b is Failed,
{
}

/// Whether git reads the argument at `i` as an option: it starts with a hyphen, and no
/// `--` before it ends the options.
pub open spec fn reads_as_option(argv: Seq<Seq<char>>, i: int) -> bool {
    &&& "-"@.is_prefix_of(argv[i])
    &&& forall|j: int| 0 <= j < i ==> #[trigger] argv[j] != "--"@
}

/// Where the texts that a user gave stand among the arguments of a command.
pub open spec fn first_given(c: GitCommand) -> int {
    match c {
        GitCommand::Checkout { .. } => 1,
        _ => 2,
    }
}

/// No address, path or branch that a user gives is read as an option, whatever it says,
/// once `ensure_branch` has let a branch pass.
pub proof fn given_text_is_no_option(c: GitCommand, i: int)
    requires
        match c {
            GitCommand::Clone { .. } => true,
            GitCommand::Add { .. } => true,
            GitCommand::Checkout { branch } => !"-"@.is_prefix_of(branch@),
            GitCommand::CheckoutNew { branch } => !"-"@.is_prefix_of(branch@),
            _ => false,
        },
        first_given(c) <= i < argv_of(c).len(),
    ensures
        !reads_as_option(argv_of(c), i),
{
    match c {
        GitCommand::Clone { .. } | GitCommand::Add { .. } => {
            assert(argv_of(c)[1] == "--"@);
        },
        _ => {},
    }
}

/// What git is told holds what was given, as arguments of their own and in full: the
/// address and the place of a clone, all paths, the whole message of a commit, the branch,
/// the setting. What is fetched is rebased upon, what is pushed is what is checked out, and
/// only the rebase that prefers the local side says so.
pub proof fn git_is_told_what_was_given(c: GitCommand, r: Vec<String>)
    requires
        call_ensures(GitCommand::argv, (&c,), r),
    ensures
        r@.len() >= 2,
        c matches GitCommand::Clone { url, dest } ==> r@.len() == 4 && r@[0]@ == "clone"@ && r@[2]@
            == url@ && r@[3]@ == dest@,
        c matches GitCommand::Add { paths } ==> r@[0]@ == "add"@ && text::texts(r@).skip(2)
            == text::texts(paths@),
        c matches GitCommand::Commit { message } ==> r@.len() == 3 && r@[0]@ == "commit"@ && r@[1]@
            == "-m"@ && r@[2]@ == message@,
        c matches GitCommand::PullRebase { branch } ==> r@[0]@ == "pull"@ && r@[1]@ == "--rebase"@
            && r@[r@.len() - 2]@ == "origin"@ && r@.last()@ == branch@ && r@.len() == 4,
        c matches GitCommand::PullRebasePreferLocal { branch } ==> r@.len() == 8 && r@[2]@
            == "pull"@ && r@[3]@ == "--rebase"@ && r@[4]@ == "-X"@ && r@[5]@ == "theirs"@ && r@[6]@
            == "origin"@ && r@.last()@ == branch@,
        c matches GitCommand::Checkout { branch } ==> r@.len() == 2 && r@[0]@ == "checkout"@
            && r@[1]@ == branch@,
        c matches GitCommand::CheckoutNew { branch } ==> r@.len() == 3 && r@[0]@ == "checkout"@
            && r@[1]@ == "-b"@ && r@[2]@ == branch@,
        c is Push ==> r@.len() == 4 && r@[0]@ == "push"@ && r@[2]@ == "origin"@ && r@[3]@
            == "HEAD"@,
        c matches GitCommand::Config { key } ==> r@.len() == 3 && r@[0]@ == "config"@ && r@[2]@
            == key@,
{
    let said = text::texts(r@);
    assert(said.len() == r@.len());
    assert forall|i: int| 0 <= i < r@.len() implies said[i] == (#[trigger] r@[i])@ by {}
    match c {
        GitCommand::Add { paths } => {
            assert(said.skip(2) =~= text::texts(paths@));
        },
        _ => {},
    }
}

/// A push that failed is a collision just where a line of its machine-readable output
/// starts with an exclamation mark and names a collision; else what git said is handed on
/// in full, but for the white space around it. A push that succeeded is neither.
pub proof fn collision_is_read_from_a_line(
    success: bool,
    stdout: &str,
    stderr: &str,
    r: PushOutcome,
) -> (cut: (Seq<char>, Seq<char>))
    requires
        call_ensures(classify_push, (success, stdout, stderr), r),
    ensures
        r is Pushed <==> success,
        r is Rejected <==> !success && exists|i: int|
            {
                let line = #[trigger] text::lines_of(stdout@)[i];
                &&& 0 <= i < text::lines_of(stdout@).len()
                &&& line.len() > 0 && line[0] == '!'
                &&& text::has(line, "non-fast-forward"@) || text::has(line, "[rejected]"@)
                    || text::has(line, "fetch first"@)
            },
        r matches PushOutcome::Failed(e) ==> {
            &&& stderr@ == cut.0 + e@ + cut.1
            &&& forall|i: int| 0 <= i < cut.0.len() ==> text::is_white(#[trigger] cut.0[i])
            &&& forall|i: int| 0 <= i < cut.1.len() ==> text::is_white(#[trigger] cut.1[i])
        },
{
    reveal_strlit("!");
    let lines = text::lines_of(stdout@);
    assert forall|i: int| 0 <= i < lines.len() implies ("!"@.is_prefix_of(#[trigger] lines[i])
        <==> lines[i].len() > 0 && lines[i][0] == '!') by {
        let l = lines[i];
        if l.len() > 0 {
            assert(l.take(1) =~= seq![l[0]]);
            assert("!"@ =~= seq!['!']);
            assert(seq![l[0]][0] == l[0] && seq!['!'][0] == '!');
        }
    }
    if r is Rejected {
        let i = choose|i: int| 0 <= i < lines.len() && #[trigger] is_collision_line(lines[i]);
        assert("!"@.is_prefix_of(lines[i]));
    }
    if exists|i: int|
        {
            let line = #[trigger] lines[i];
            &&& 0 <= i < lines.len()
            &&& line.len() > 0 && line[0] == '!'
            &&& text::has(line, "non-fast-forward"@) || text::has(line, "[rejected]"@) || text::has(
                line,
                "fetch first"@,
            )
        } {
        let i = choose|i: int|
            {
                let line = #[trigger] lines[i];
                &&& 0 <= i < lines.len()
                &&& line.len() > 0 && line[0] == '!'
                &&& text::has(line, "non-fast-forward"@) || text::has(line, "[rejected]"@)
                    || text::has(line, "fetch first"@)
            };
        assert("!"@.is_prefix_of(lines[i]));
        assert(is_collision_line(lines[i]));
    }
    text::lemma_trimmed(stderr@)
}

/// After a collision the push is tried again while attempts are left, in the same way and
/// against the same bound; nothing else is ever tried again.
pub proof fn only_a_collision_is_tried_again(
    s: PushRetry,
    outcome: Result<PushOutcome, GitError>,
    r: (PushRetry, PushStep),
)
    requires
        call_ensures(PushRetry::pushed, (s, outcome), r),
    ensures
        r.0.max_attempts == s.max_attempts,
        r.0.prefer_local == s.prefer_local,
        r.1 is Rebase <==> outcome is Ok && outcome->Ok_0 is Rejected && s.rejections + 1
            < s.max_attempts,
        r.1 is Rebase ==> r.0.rejections == s.rejections + 1,
        r.1 is Rebase || r.1 == PushStep::Done(outcome),
{
}

/// What git says of a failure is handed on, with the command that failed.
pub proof fn failure_is_named(cmd: String, code: Option<i32>, stderr: String, r: String)
    requires
        call_ensures(GitError::text, (&GitError::Failed { cmd, code, stderr },), r),
    ensures
        text::has(r@, cmd@),
        stderr@.is_suffix_of(r@),
{
    let at = "git "@.len() as int;
    assert(r@.subrange(at, at + cmd@.len()) =~= cmd@);
    assert(text::stands_at(r@, cmd@, at));
    assert(r@.skip(r@.len() - stderr@.len()) =~= stderr@);
}

/// What a command wrote is handed on as it was where it succeeded, and what it complained
/// of, but for the white space around it, where it did not.
pub proof fn output_is_handed_on(c: GitCommand, out: GitOutput, r: Result<String, GitError>)
    requires
        call_ensures(GitCommand::checked, (&c, Ok::<GitOutput, String>(out)), r),
    ensures
        r is Ok <==> out.success,
        r is Ok ==> r->Ok_0@ == text::lossy_text(out.stdout@),
        r is Err ==> r->Err_0 is Failed && r->Err_0->code == out.code && text::has(
            text::lossy_text(out.stderr@),
            r->Err_0->stderr@,
        ),
{
    if r is Err {
        let all = text::lossy_text(out.stderr@);
        let (a, b) = text::lemma_trimmed(all);
        let said = r->Err_0->stderr@;
        let at = a.len() as int;
        assert(all.subrange(at, at + said.len()) =~= said);
        assert(text::stands_at(all, said, at));
    }
}

/// A room is entered on the branch that was asked for: it is checked out, and where that
/// fails it is created, under the same name. A name that git would take for an option is
/// refused, and no other is.
pub proof fn branch_is_the_one_asked_for(
    git: &Git,
    branch: &str,
    first: Result<GitCommand, GitError>,
    run: GitRun,
    second: Result<Option<GitCommand>, GitError>,
)
    requires
        call_ensures(Git::ensure_branch, (git, branch), first),
        call_ensures(after_checkout, (branch, run), second),
    ensures
        first is Err <==> branch@.len() > 0 && branch@[0] == '-',
        first is Ok ==> first->Ok_0 is Checkout && first->Ok_0->Checkout_branch@ == branch@,
        second is Err <==> run is Err,
        second is Ok ==> (second->Ok_0 is None <==> run->Ok_0.success),
        second is Ok && second->Ok_0 is Some ==> second->Ok_0->0 is CheckoutNew
            && second->Ok_0->0->CheckoutNew_branch@ == branch@,
{
    reveal_strlit("-");
    let b = branch@;
    assert("-"@ =~= seq!['-']);
    if b.len() > 0 {
        assert(b.take(1) =~= seq![b[0]]);
        assert(seq![b[0]][0] == b[0] && seq!['-'][0] == '-');
    }
}

/// After a collision the branch that is checked out is rebased, and the local side wins just
/// where that was asked for; then the push is tried again, and a rebase that failed ends it.
pub proof fn collision_is_solved_as_asked(
    s: PushRetry,
    git: &Git,
    branch: &str,
    c: GitCommand,
    outcome: Result<(), GitError>,
    next: PushStep,
)
    requires
        call_ensures(PushRetry::rebase, (&s, git, branch), c),
        call_ensures(PushRetry::rebased, (&s, outcome), next),
    ensures
        c is PullRebasePreferLocal <==> s.prefer_local,
        c is PullRebase <==> !s.prefer_local,
        s.prefer_local ==> c->PullRebasePreferLocal_branch@ == branch@,
        !s.prefer_local ==> c->PullRebase_branch@ == branch@,
        next is Push <==> outcome is Ok,
        outcome matches Err(e) ==> next == PushStep::Done(Err(e)),
{
}

/// The branch that is checked out is what git names, without the white space around it.
pub proof fn branch_is_what_git_names(out: GitOutput, r: Result<String, GitError>) -> (cut: (
    Seq<char>,
    Seq<char>,
))
    requires
        call_ensures(branch_name, (Ok::<GitOutput, String>(out),), r),
    ensures
        r is Ok <==> out.success,
        r is Ok ==> text::lossy_text(out.stdout@) == cut.0 + r->Ok_0@ + cut.1,
        forall|i: int| 0 <= i < cut.0.len() ==> text::is_white(#[trigger] cut.0[i]),
        forall|i: int| 0 <= i < cut.1.len() ==> text::is_white(#[trigger] cut.1[i]),
{
    text::lemma_trimmed(text::lossy_text(out.stdout@))
}

} // verus!
