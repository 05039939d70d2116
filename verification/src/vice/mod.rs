//! The scribe: a model that answers questions in the room and writes documents.

pub mod client;
pub mod tools;

use crate::config::{self, ConfigError};
use crate::json;
use crate::message::Kind;
use crate::store::Store;
use crate::sync::{self, SyncEngine, SyncError, ToAppend, ToWrite};
use crate::text;
use serde_json::Value;
use vstd::prelude::*;

verus! {

/// Why the scribe did not do what it was asked to.
#[derive(Debug)]
pub enum ViceError {
    Tool(String),
    /// The model kept calling tools until its steps were used up.
    LoopExhausted,
    Sync(SyncError),
    Sql(String),
    Json(String),
    Model(String),
    Config(ConfigError),
    BadPath(String),
}

/// What an error says.
pub open spec fn vice_error_text(e: ViceError) -> Seq<char> {
    match e {
        ViceError::Tool(t) => "tool error: "@ + t@,
        ViceError::LoopExhausted => "@vice gave up after too many tool calls"@,
        ViceError::Sync(e) => sync::sync_error_text(e),
        ViceError::Sql(t) => "sqlite: "@ + t@,
        ViceError::Json(t) => "json: "@ + t@,
        ViceError::Model(t) => "model error: "@ + t@,
        ViceError::Config(e) => config::config_error_text(e),
        ViceError::BadPath(t) => "bad doc path: "@ + t@,
    }
}

impl ViceError {
    /// What happened, in words.
    pub fn text(&self) -> (r: String)
        ensures
            r@ == vice_error_text(*self),
    {
        match self {
            ViceError::Tool(t) => text::concat("tool error: ", t.as_str()),
            ViceError::LoopExhausted => "@vice gave up after too many tool calls".to_owned(),
            ViceError::Sync(e) => e.text(),
            ViceError::Sql(t) => text::concat("sqlite: ", t.as_str()),
            ViceError::Json(t) => text::concat("json: ", t.as_str()),
            ViceError::Model(t) => text::concat("model error: ", t.as_str()),
            ViceError::Config(e) => e.text(),
            ViceError::BadPath(t) => text::concat("bad doc path: ", t.as_str()),
        }
    }
}

impl From<SyncError> for ViceError {
    fn from(e: SyncError) -> (r: ViceError) {
        ViceError::Sync(e)
    }
}

impl vstd::std_specs::convert::FromSpecImpl<SyncError> for ViceError {
    open spec fn obeys_from_spec() -> bool {
        true
    }

    open spec fn from_spec(e: SyncError) -> ViceError {
        ViceError::Sync(e)
    }
}

/// A call of a tool that a model asks for.
#[derive(Debug, Clone, PartialEq, Eq)]
pub struct ToolCall {
    pub id: String,
    pub name: String,
    pub args: Value,
}

/// One turn of a model: it asks for tools, or says its final word.
#[derive(Debug, Clone)]
pub enum Turn {
    ToolCalls(Vec<ToolCall>),
    Final(String),
}

/// The answer of a tool to the call with the same id.
#[derive(Debug, Clone)]
pub struct ToolResult {
    pub id: String,
    pub content: String,
}

/// A round of tool calls with their answers.
#[derive(Debug, Clone)]
pub struct Step {
    pub calls: Vec<ToolCall>,
    pub results: Vec<ToolResult>,
}

/// A conversation that a model is asked to go on with.
#[derive(Debug, Clone)]
pub struct Convo {
    pub system: String,
    pub user: String,
    pub steps: Vec<Step>,
}

/// Whether the call `c` may come to `r`.
pub open spec fn call_outcome(store: Store, c: ToolCall, r: Result<String, ViceError>) -> bool {
    tools::tool_outcome(store, c.name@, json::value_of(c.args), r)
}

/// Whether `results` answers each of `calls` in its order, under its id.
pub open spec fn answers(store: Store, calls: Seq<ToolCall>, results: Seq<ToolResult>) -> bool {
    &&& results.len() == calls.len()
    &&& forall|i: int|
        0 <= i < results.len() ==> (#[trigger] results[i]).id@ == calls[i].id@ && call_outcome(
            store,
            calls[i],
            Ok(results[i].content),
        )
}

/// Whether `outcomes` is what the first of `calls` came to: up to the first that failed,
/// or all of them.
pub open spec fn ran(
    store: Store,
    calls: Seq<ToolCall>,
    outcomes: Seq<Result<String, ViceError>>,
) -> bool {
    &&& outcomes.len() <= calls.len()
    &&& forall|i: int|
        0 <= i < outcomes.len() ==> call_outcome(store, calls[i], #[trigger] outcomes[i])
    &&& forall|i: int| 0 <= i < outcomes.len() - 1 ==> #[trigger] outcomes[i] is Ok
    &&& outcomes.len() < calls.len() ==> outcomes.len() > 0 && outcomes.last() is Err
}

/// Whether `r` is what follows from `outcomes`: the answer to each of `calls`, under its
/// id, or the failure with which they end.
pub open spec fn gathers(
    calls: Seq<ToolCall>,
    outcomes: Seq<Result<String, ViceError>>,
    r: Result<Vec<ToolResult>, ViceError>,
) -> bool {
    if outcomes.len() > 0 && outcomes.last() is Err {
        r == Err::<Vec<ToolResult>, ViceError>(outcomes.last()->Err_0)
    } else {
        &&& r is Ok
        &&& r->Ok_0@.len() == outcomes.len()
        &&& forall|i: int|
            0 <= i < outcomes.len() ==> (#[trigger] r->Ok_0@[i]).id@ == calls[i].id@
                && r->Ok_0@[i].content == outcomes[i]->Ok_0
    }
}

/// Whether the tools of one turn may come to `r`.
pub open spec fn tools_come_to(
    store: Store,
    calls: Seq<ToolCall>,
    r: Result<Vec<ToolResult>, ViceError>,
) -> bool {
    exists|outcomes: Seq<Result<String, ViceError>>| #[trigger]
        ran(store, calls, outcomes) && gathers(calls, outcomes, r)
}

/// Where no tool fails, all of them are answered.
pub proof fn tools_that_succeed_are_answered(
    store: Store,
    calls: Seq<ToolCall>,
    outcomes: Seq<Result<String, ViceError>>,
    r: Result<Vec<ToolResult>, ViceError>,
)
    requires
        ran(store, calls, outcomes),
        gathers(calls, outcomes, r),
        forall|i: int| 0 <= i < outcomes.len() ==> #[trigger] outcomes[i] is Ok,
    ensures
        r is Ok,
        answers(store, calls, r->Ok_0@),
{
    if outcomes.len() > 0 {
        assert(outcomes[outcomes.len() - 1] is Ok);
    }
    let results = r->Ok_0@;
    assert forall|i: int| 0 <= i < results.len() implies (#[trigger] results[i]).id@ == calls[i].id@
        && call_outcome(store, calls[i], Ok(results[i].content)) by {
        assert(outcomes[i] == Ok::<String, ViceError>(results[i].content));
    }
}

/// What follows from what a tool came to: its answer joins `results` under the id of its
/// call, or its failure ends the matter.
pub fn tool_ran(
    results: Vec<ToolResult>,
    call: &ToolCall,
    outcome: Result<String, ViceError>,
) -> (r: Result<Vec<ToolResult>, ViceError>)
    ensures
        match outcome {
            Ok(content) => {
                &&& r is Ok
                &&& r->Ok_0@.len() == results@.len() + 1
                &&& r->Ok_0@.drop_last() == results@
                &&& r->Ok_0@.last().id@ == call.id@
                &&& r->Ok_0@.last().content == content
            },
            Err(e) => r == Err::<Vec<ToolResult>, ViceError>(e),
        },
{
    match outcome {
        Ok(content) => {
            let ghost before = results@;
            let mut more = results;
            more.push(ToolResult { id: call.id.clone(), content });
            assert(more@.drop_last() == before);
            Ok(more)
        },
        Err(e) => Err(e),
    }
}

/// Runs the tools of one turn in order, up to the first that fails.
pub fn run_tools(store: &Store, calls: &Vec<ToolCall>) -> (r: Result<Vec<ToolResult>, ViceError>)
    ensures
        tools_come_to(*store, calls@, r),
{
    let mut results: Vec<ToolResult> = Vec::new();
    let ghost mut outcomes: Seq<Result<String, ViceError>> = Seq::empty();
    let mut i: usize = 0;
    while i < calls.len()
        invariant
            i == results.len() <= calls.len(),
            outcomes.len() == i,
            forall|j: int|
                0 <= j < i ==> #[trigger] outcomes[j] is Ok && call_outcome(
                    *store,
                    calls@[j],
                    outcomes[j],
                ),
            forall|j: int|
                0 <= j < i ==> (#[trigger] results@[j]).id@ == calls@[j].id@ && results@[j].content
                    == outcomes[j]->Ok_0,
        decreases calls.len() - i,
    {
        let outcome = tools::exec_tool(store, calls[i].name.as_str(), &calls[i].args);
        let ghost before = results@;
        let ghost more = outcomes.push(outcome);
        match tool_ran(results, &calls[i], outcome) {
            Ok(rs) => {
                proof {
                    assert forall|j: int| 0 <= j < i + 1 implies (#[trigger] rs@[j]).id@
                        == calls@[j].id@ && rs@[j].content == more[j]->Ok_0 by {
                        if j < i {
                            assert(rs@.drop_last()[j] == before[j]);
                        }
                    }
                    outcomes = more;
                }
                results = rs;
            },
            Err(e) => {
                proof {
                    assert(ran(*store, calls@, more));
                    assert(gathers(calls@, more, Err(e)));
                }
                return Err(e);
            },
        }
        i += 1;
    }
    assert(ran(*store, calls@, outcomes) && gathers(calls@, outcomes, Ok(results)));
    Ok(results)
}

/// A conversation in which it is the model's turn.
pub struct ToolLoop {
    pub convo: Convo,
    /// How many turns the model has left, this one among them.
    pub left: usize,
}

/// What comes next in a conversation.
pub enum LoopStep {
    /// The model is to be asked.
    Ask(ToolLoop),
    /// The conversation is over.
    Done(Result<String, ViceError>),
}

/// Begins a conversation in which the model has at most `max_steps` turns.
pub fn run_tool_loop(system: &str, user: &str, max_steps: usize) -> (r: LoopStep)
    ensures
        begins(r, system@, user@, max_steps),
{
    if max_steps == 0 {
        return LoopStep::Done(Err(ViceError::LoopExhausted));
    }
    LoopStep::Ask(
        ToolLoop {
            convo: Convo { system: system.to_owned(), user: user.to_owned(), steps: Vec::new() },
            left: max_steps,
        },
    )
}

/// Whether a conversation of at most `max_steps` turns begins with `step`: the model is
/// to be asked, unless it has no turn.
pub open spec fn begins(
    step: LoopStep,
    system: Seq<char>,
    user: Seq<char>,
    max_steps: usize,
) -> bool {
    if max_steps == 0 {
        step == LoopStep::Done(Err(ViceError::LoopExhausted))
    } else {
        &&& step is Ask
        &&& step->Ask_0.convo.system@ == system
        &&& step->Ask_0.convo.user@ == user
        &&& step->Ask_0.convo.steps@.len() == 0
        &&& step->Ask_0.left == max_steps
    }
}

/// Whether `step` is what follows once the tools that the model asked for came to
/// `outcome`: a failure ends the conversation, and so does the last turn; else the model
/// is asked again, with the calls and their answers added.
pub open spec fn goes_on(
    l: ToolLoop,
    calls: Vec<ToolCall>,
    outcome: Result<Vec<ToolResult>, ViceError>,
    step: LoopStep,
) -> bool {
    match outcome {
        Err(e) => step == LoopStep::Done(Err(e)),
        Ok(results) => if l.left <= 1 {
            step == LoopStep::Done(Err(ViceError::LoopExhausted))
        } else {
            &&& step is Ask
            &&& step->Ask_0.left + 1 == l.left
            &&& step->Ask_0.convo.system == l.convo.system
            &&& step->Ask_0.convo.user == l.convo.user
            &&& step->Ask_0.convo.steps@ == l.convo.steps@.push((Step { calls, results }))
        },
    }
}

/// Whether `step` is what follows the model's `turn`, where the tools that it asked for
/// came to `outcome`.
pub open spec fn comes_next(
    l: ToolLoop,
    turn: Result<Turn, ViceError>,
    outcome: Result<Vec<ToolResult>, ViceError>,
    step: LoopStep,
) -> bool {
    match turn {
        Err(e) => step == LoopStep::Done(Err(e)),
        Ok(Turn::Final(t)) => step == LoopStep::Done(Ok(t)),
        Ok(Turn::ToolCalls(calls)) => goes_on(l, calls, outcome, step),
    }
}

/// Whether the tools that the model asked for in its `turn` may come to `outcome`.
pub open spec fn turn_comes_to(
    store: Store,
    turn: Result<Turn, ViceError>,
    outcome: Result<Vec<ToolResult>, ViceError>,
) -> bool {
    turn matches Ok(Turn::ToolCalls(calls)) ==> tools_come_to(store, calls@, outcome)
}

impl ToolLoop {
    /// What comes next once the tools that the model asked for have been run.
    pub fn tools_ran(
        self,
        calls: Vec<ToolCall>,
        outcome: Result<Vec<ToolResult>, ViceError>,
    ) -> (r: LoopStep)
        ensures
            goes_on(self, calls, outcome, r),
    {
        let results = match outcome {
            Ok(results) => results,
            Err(e) => return LoopStep::Done(Err(e)),
        };
        if self.left <= 1 {
            return LoopStep::Done(Err(ViceError::LoopExhausted));
        }
        let mut convo = self.convo;
        convo.steps.push(Step { calls, results });
        LoopStep::Ask(ToolLoop { convo, left: self.left - 1 })
    }

    /// What comes next once the model has taken its turn. The tools that it asks for
    /// are run on the cache, in the last turn too; the first that fails ends the
    /// conversation.
    pub fn answered(self, turn: Result<Turn, ViceError>, store: &Store) -> (r: LoopStep)
        ensures
            exists|outcome: Result<Vec<ToolResult>, ViceError>| #[trigger]
                turn_comes_to(*store, turn, outcome) && comes_next(self, turn, outcome, r),
    {
        match turn {
            Err(e) => {
                let ghost none = Err::<Vec<ToolResult>, ViceError>(ViceError::LoopExhausted);
                assert(turn_comes_to(*store, turn, none));
                LoopStep::Done(Err(e))
            },
            Ok(Turn::Final(t)) => {
                let ghost none = Err::<Vec<ToolResult>, ViceError>(ViceError::LoopExhausted);
                assert(turn_comes_to(*store, turn, none));
                LoopStep::Done(Ok(t))
            },
            Ok(Turn::ToolCalls(calls)) => {
                let outcome = run_tools(store, &calls);
                assert(turn_comes_to(*store, turn, outcome));
                self.tools_ran(calls, outcome)
            },
        }
    }
}

/// Whether a conversation of at most `max_steps` turns has come to `steps`, where `turns`
/// is what the model said in turn and `outcomes` what the tools came to.
pub open spec fn unfolds(
    steps: Seq<LoopStep>,
    system: Seq<char>,
    user: Seq<char>,
    max_steps: usize,
    turns: Seq<Result<Turn, ViceError>>,
    outcomes: Seq<Result<Vec<ToolResult>, ViceError>>,
) -> bool {
    &&& steps.len() > 0
    &&& begins(steps[0], system, user, max_steps)
    &&& forall|i: int|
        0 <= i < steps.len() - 1 ==> (#[trigger] steps[i]) is Ask && comes_next(
            steps[i]->Ask_0,
            turns[i],
            outcomes[i],
            steps[i + 1],
        )
}

/// Whether `l` shows the model the first `n` of its turns, with the answers of the tools.
pub open spec fn shows(
    l: ToolLoop,
    system: Seq<char>,
    user: Seq<char>,
    n: int,
    turns: Seq<Result<Turn, ViceError>>,
    outcomes: Seq<Result<Vec<ToolResult>, ViceError>>,
) -> bool {
    &&& l.convo.system@ == system
    &&& l.convo.user@ == user
    &&& l.convo.steps@.len() == n
    &&& forall|j: int|
        0 <= j < n ==> turns[j] == Ok::<Turn, ViceError>(
            Turn::ToolCalls((#[trigger] l.convo.steps@[j]).calls),
        ) && outcomes[j] == Ok::<Vec<ToolResult>, ViceError>(l.convo.steps@[j].results)
}

proof fn lemma_turn(
    steps: Seq<LoopStep>,
    system: Seq<char>,
    user: Seq<char>,
    max_steps: usize,
    turns: Seq<Result<Turn, ViceError>>,
    outcomes: Seq<Result<Vec<ToolResult>, ViceError>>,
    i: int,
)
    requires
        unfolds(steps, system, user, max_steps, turns, outcomes),
        0 <= i < steps.len(),
        steps[i] is Ask,
    ensures
        steps[i]->Ask_0.left + i == max_steps,
        steps[i]->Ask_0.left > 0,
        shows(steps[i]->Ask_0, system, user, i, turns, outcomes),
    decreases i,
{
    if i > 0 {
        let l = steps[i - 1]->Ask_0;
        assert(steps[i - 1] is Ask && comes_next(
            l,
            turns[i - 1],
            outcomes[i - 1],
            steps[i - 1 + 1],
        ));
        lemma_turn(steps, system, user, max_steps, turns, outcomes, i - 1);
        let next = steps[i]->Ask_0;
        assert forall|j: int| 0 <= j < i implies turns[j] == Ok::<Turn, ViceError>(
            Turn::ToolCalls((#[trigger] next.convo.steps@[j]).calls),
        ) && outcomes[j] == Ok::<Vec<ToolResult>, ViceError>(next.convo.steps@[j].results) by {
            if j < i - 1 {
                assert(next.convo.steps@[j] == l.convo.steps@[j]);
            }
        }
    }
}

/// However often a model asks for tools, it gets at most `max_steps` turns; and at
/// each turn it sees what was said before, every call with its answer.
pub proof fn conversation_is_bounded(
    steps: Seq<LoopStep>,
    system: Seq<char>,
    user: Seq<char>,
    max_steps: usize,
    turns: Seq<Result<Turn, ViceError>>,
    outcomes: Seq<Result<Vec<ToolResult>, ViceError>>,
)
    requires
        unfolds(steps, system, user, max_steps, turns, outcomes),
    ensures
        steps.len() <= max_steps + 1,
        forall|i: int|
            0 <= i < steps.len() && (#[trigger] steps[i]) is Ask ==> i < max_steps && shows(
                steps[i]->Ask_0,
                system,
                user,
                i,
                turns,
                outcomes,
            ),
{
    assert forall|i: int| 0 <= i < steps.len() && (#[trigger] steps[i]) is Ask implies i < max_steps
        && shows(steps[i]->Ask_0, system, user, i, turns, outcomes) by {
        lemma_turn(steps, system, user, max_steps, turns, outcomes, i);
    }
    if steps.len() > 1 {
        assert(steps[steps.len() - 2] is Ask);
    }
}

/// Where no turn fails and no tool fails, the model's first final word is what a
/// conversation comes to, and the model was asked till then and not again. Where it has
/// not come within `max_steps` turns, the model was asked that often, and the
/// conversation is exhausted.
pub proof fn final_word_decides(
    steps: Seq<LoopStep>,
    system: Seq<char>,
    user: Seq<char>,
    max_steps: usize,
    turns: Seq<Result<Turn, ViceError>>,
    outcomes: Seq<Result<Vec<ToolResult>, ViceError>>,
    k: int,
)
    requires
        unfolds(steps, system, user, max_steps, turns, outcomes),
        steps.last() is Done,
        0 <= k <= max_steps,
        forall|i: int|
            0 <= i < k ==> (#[trigger] turns[i]) is Ok && turns[i]->Ok_0 is ToolCalls
                && outcomes[i] is Ok,
        k < max_steps ==> turns[k] is Ok && turns[k]->Ok_0 is Final,
    ensures
        k < max_steps ==> steps.len() == k + 2 && steps.last() == LoopStep::Done(
            Ok(turns[k]->Ok_0->Final_0),
        ),
        k == max_steps ==> steps.len() == k + 1 && steps.last() == LoopStep::Done(
            Err(ViceError::LoopExhausted),
        ),
{
    conversation_is_bounded(steps, system, user, max_steps, turns, outcomes);
    let n = steps.len() - 1;
    if n > 0 {
        assert(steps[n - 1] is Ask && comes_next(
            steps[n - 1]->Ask_0,
            turns[n - 1],
            outcomes[n - 1],
            steps[n - 1 + 1],
        ));
        lemma_turn(steps, system, user, max_steps, turns, outcomes, n - 1);
        if n - 1 > k {
            let seen = steps[n - 1]->Ask_0.convo.steps@[k];
            assert(turns[k] == Ok::<Turn, ViceError>(Turn::ToolCalls(seen.calls)));
        } else if n - 1 < k {
            assert(turns[n - 1] is Ok);
        }
    }
}

/// What the scribe is asked to do.
#[derive(Debug, PartialEq, Eq)]
pub enum ViceCommand {
    /// Answer in the room.
    Reply(String),
    /// Write the notes.
    WriteNotes(String),
    /// Write the document at `path`.
    Write { path: String, instruction: String },
}

/// Whether `r` is what `text`, which follows the scribe's name, asks for. `write` and
/// `notes` count only as whole words, and whatever is no request to write is a
/// question.
pub open spec fn is_command(r: ViceCommand, text: Seq<char>) -> bool {
    let said = text::trimmed(text);
    let (first, behind) = text::split_word(said);
    let (second, last) = text::split_word(text::trimmed(behind));
    match r {
        ViceCommand::Reply(q) => first != "write"@ && q@ == said,
        ViceCommand::WriteNotes(instruction) => first == "write"@ && second == "notes"@
            && instruction@ == text::trimmed(last),
        ViceCommand::Write { path, instruction } => first == "write"@ && second != "notes"@ && path@
            == second && instruction@ == text::trimmed(last),
    }
}

/// What `text`, which follows the scribe's name, asks for.
pub fn parse_command(text: &str) -> (r: ViceCommand)
    ensures
        is_command(r, text@),
{
    let said = text::trim(text);
    let (first, behind) = text::split_first_word(said.as_str());
    if !text::same(first.as_str(), "write") {
        return ViceCommand::Reply(said);
    }
    let rest = text::trim(behind.as_str());
    let (second, last) = text::split_first_word(rest.as_str());
    let instruction = text::trim(last.as_str());
    if text::same(second.as_str(), "notes") {
        ViceCommand::WriteNotes(instruction)
    } else {
        ViceCommand::Write { path: second, instruction }
    }
}

/// A text asks for just one thing.
pub proof fn command_is_unique(a: ViceCommand, b: ViceCommand, text: Seq<char>)
    requires
        is_command(a, text),
        is_command(b, text),
    ensures
        match (a, b) {
            (ViceCommand::Reply(x), ViceCommand::Reply(y)) => x@ == y@,
            (ViceCommand::WriteNotes(x), ViceCommand::WriteNotes(y)) => x@ == y@,
            (
                ViceCommand::Write { path: p, instruction: x },
                ViceCommand::Write { path: q, instruction: y },
            ) => p@ == q@ && x@ == y@,
            _ => false,
        },
{
}

/// Where the notes are.
pub const DEFAULT_NOTES_PATH: &'static str = "docs/notes.md";

/// What a model is told before it answers a question.
pub const REPLY_SYSTEM: &'static str =
    "You are @vice, a scribe and memory for two developers planning software. Answer concisely. Use the search_chat and get_messages tools to ground answers in what was actually said.";

/// What a model is told before it writes a document.
pub const NOTES_SYSTEM: &'static str =
    "You are @vice, the scribe for two developers. Produce the FULL markdown document body requested — no preamble, no code fences around the whole thing. Use search_chat and get_messages to ground the notes in the real discussion.";

/// How many turns a model gets.
pub const MAX_STEPS: usize = 8;

/// Whether a path leads out of the directory of the documents, or might on some
/// system: it goes up, is absolute, or names a drive.
pub open spec fn is_unsafe(path: Seq<char>) -> bool {
    ||| text::has(path, ".."@)
    ||| "/"@.is_prefix_of(path)
    ||| "\\"@.is_prefix_of(path)
    ||| text::has(path, ":"@)
}

/// The place of a document in the directory of the documents.
pub open spec fn doc_path(path: Seq<char>) -> Seq<char> {
    if "docs/"@.is_prefix_of(path) {
        path
    } else {
        "docs/"@ + path
    }
}

/// The place of the document that the user calls `path`, in the directory of the
/// documents. A path that leads elsewhere is refused.
pub fn safe_doc_path(path: &str) -> (r: Result<String, ViceError>)
    ensures
        match r {
            Ok(p) => path@.len() > 0 && !is_unsafe(path@) && p@ == doc_path(path@),
            Err(ViceError::BadPath(e)) => if path@.len() == 0 {
                e@ == "empty path"@
            } else {
                is_unsafe(path@) && e@ == path@
            },
            Err(_) => false,
        },
{
    if path.is_empty() {
        return Err(ViceError::BadPath("empty path".to_owned()));
    }
    if text::contains(path, "..") || text::starts_with(path, "/") || text::starts_with(path, "\\")
        || text::contains(path, ":") {
        return Err(ViceError::BadPath(path.to_owned()));
    }
    if text::starts_with(path, "docs/") {
        Ok(path.to_owned())
    } else {
        Ok(text::concat("docs/", path))
    }
}

/// An accepted document stays where it belongs: its path leads into the directory of
/// the documents, and neither up from there nor to a drive. Its path is accepted as it
/// is.
pub proof fn document_stays_in_place(path: Seq<char>)
    requires
        path.len() > 0,
        !is_unsafe(path),
    ensures
        "docs/"@.is_prefix_of(doc_path(path)),
        !is_unsafe(doc_path(path)),
        doc_path(doc_path(path)) == doc_path(path),
{
    reveal_strlit("docs/");
    reveal_strlit("..");
    reveal_strlit(":");
    reveal_strlit("/");
    reveal_strlit("\\");
    let p = doc_path(path);
    assert("docs/"@.is_prefix_of(p));
    assert forall|i: int| !text::stands_at(p, ".."@, i) by {
        if text::stands_at(p, ".."@, i) {
            assert(p.subrange(i, i + 2)[0] == '.');
            if p != path {
                assert(i >= 5);
                assert(p.subrange(i, i + 2) == path.subrange(i - 5, i - 5 + 2));
                assert(text::stands_at(path, ".."@, i - 5));
            }
        }
    }
    assert forall|i: int| !text::stands_at(p, ":"@, i) by {
        if text::stands_at(p, ":"@, i) {
            assert(p.subrange(i, i + 1)[0] == ':');
            if p != path {
                assert(i >= 5);
                assert(p.subrange(i, i + 1) == path.subrange(i - 5, i - 5 + 1));
                assert(text::stands_at(path, ":"@, i - 5));
            }
        }
    }
    assert(p[0] == 'd');
}

/// An accepted path is kept as a whole: the place of the document ends with the path that
/// was given, and before it stands nothing or `docs/`. Whatever may be accepted is, and
/// what is refused is named.
pub proof fn path_is_kept_whole(path: &str, r: Result<String, ViceError>)
    requires
        call_ensures(safe_doc_path, (path,), r),
    ensures
        r is Ok <==> path@.len() > 0 && !text::has(path@, ".."@) && !text::has(path@, ":"@)
            && path@[0] != '/' && path@[0] != '\\',
        r is Ok ==> {
            let place = r->Ok_0@;
            let n = place.len() - path@.len();
            &&& n == 0 || n == 5
            &&& place.skip(n) == path@
            &&& place.take(5) == seq!['d', 'o', 'c', 's', '/']
        },
{
    reveal_strlit("docs/");
    reveal_strlit("/");
    reveal_strlit("\\");
    let p = path@;
    if p.len() > 0 {
        assert("/"@.is_prefix_of(p) <==> p[0] == '/') by {
            assert(p.take(1) =~= seq![p[0]]);
            assert("/"@ =~= seq!['/']);
            assert(seq![p[0]][0] == p[0] && seq!['/'][0] == '/');
        }
        assert("\\"@.is_prefix_of(p) <==> p[0] == '\\') by {
            assert(p.take(1) =~= seq![p[0]]);
            assert("\\"@ =~= seq!['\\']);
            assert(seq![p[0]][0] == p[0] && seq!['\\'][0] == '\\');
        }
    }
    if r is Ok {
        let place = r->Ok_0@;
        assert("docs/"@ =~= seq!['d', 'o', 'c', 's', '/']);
        assert(place.skip(place.len() - p.len()) =~= p);
        assert(place.take(5) =~= seq!['d', 'o', 'c', 's', '/']);
    }
}

/// Two accepted paths that do not name the directory of the documents themselves are the
/// same document only where they are the same path.
pub proof fn paths_have_places_of_their_own(
    a: &str,
    b: &str,
    first: Result<String, ViceError>,
    second: Result<String, ViceError>,
)
    requires
        call_ensures(safe_doc_path, (a,), first),
        call_ensures(safe_doc_path, (b,), second),
        first is Ok,
        second is Ok,
        "docs/"@.is_prefix_of(a@) <==> "docs/"@.is_prefix_of(b@),
    ensures
        first->Ok_0@ == second->Ok_0@ <==> a@ == b@,
{
    path_is_kept_whole(a, first);
    path_is_kept_whole(b, second);
    let p = first->Ok_0@;
    let q = second->Ok_0@;
    reveal_strlit("docs/");
    if p == q {
        if a@.len() != b@.len() {
            assert(p.take(5) =~= a@.take(5) || p.take(5) =~= b@.take(5));
        }
    }
}

proof fn lemma_notes_path()
    ensures
        "docs/"@.is_prefix_of(DEFAULT_NOTES_PATH@),
        !is_unsafe(DEFAULT_NOTES_PATH@),
{
    reveal_strlit("docs/notes.md");
    reveal_strlit("docs/");
    reveal_strlit("..");
    reveal_strlit(":");
    reveal_strlit("/");
    reveal_strlit("\\");
    let p = DEFAULT_NOTES_PATH@;
    assert(p.take(5) == "docs/"@);
    assert forall|i: int| !text::stands_at(p, ".."@, i) by {
        if text::stands_at(p, ".."@, i) {
            assert(p.subrange(i, i + 2)[0] == '.');
            assert(p.subrange(i, i + 2)[1] == '.');
        }
    }
    assert forall|i: int| !text::stands_at(p, ":"@, i) by {
        if text::stands_at(p, ":"@, i) {
            assert(p.subrange(i, i + 1)[0] == ':');
        }
    }
    assert(p.take(1)[0] == 'd');
}

/// What becomes of the text that a model produces.
pub enum Goal {
    /// It is posted in the room.
    Reply,
    /// It is written to the document at `path`.
    Doc { path: String },
}

/// A request that a model is to work on.
pub struct Task {
    pub goal: Goal,
    pub first: LoopStep,
}

/// Whether `t` has a model work with the given instructions.
pub open spec fn is_task(t: Task, system: Seq<char>, user: Seq<char>) -> bool {
    begins(t.first, system, user, MAX_STEPS)
}

/// Begins the work on a command. A document whose path is not accepted is refused
/// before the model is asked. Whatever the command, nothing is written outside the
/// directory of the documents.
pub fn dispatch(cmd: ViceCommand) -> (r: Result<Task, ViceError>)
    ensures
        r matches Ok(t) ==> (t.goal matches Goal::Doc { path } ==> "docs/"@.is_prefix_of(path@)
            && !is_unsafe(path@)),
        match cmd {
            ViceCommand::Reply(q) => r matches Ok(t) && t.goal is Reply && is_task(
                t,
                REPLY_SYSTEM@,
                q@,
            ),
            ViceCommand::WriteNotes(instruction) => r matches Ok(t) && (t.goal matches Goal::Doc {
                path,
            } && path@ == DEFAULT_NOTES_PATH@) && is_task(t, NOTES_SYSTEM@, instruction@),
            ViceCommand::Write { path, instruction } => match r {
                Ok(t) => path@.len() > 0 && !is_unsafe(path@) && (t.goal matches Goal::Doc {
                    path: p,
                } && p@ == doc_path(path@)) && is_task(t, NOTES_SYSTEM@, instruction@),
                Err(ViceError::BadPath(e)) => if path@.len() == 0 {
                    e@ == "empty path"@
                } else {
                    is_unsafe(path@) && e@ == path@
                },
                Err(_) => false,
            },
        },
{
    proof {
        lemma_notes_path();
    }
    match cmd {
        ViceCommand::Reply(q) => Ok(
            Task { goal: Goal::Reply, first: run_tool_loop(REPLY_SYSTEM, q.as_str(), MAX_STEPS) },
        ),
        ViceCommand::WriteNotes(instruction) => Ok(
            write_task(DEFAULT_NOTES_PATH.to_owned(), instruction.as_str()),
        ),
        ViceCommand::Write { path, instruction } => match safe_doc_path(path.as_str()) {
            Ok(p) => {
                proof {
                    document_stays_in_place(path@);
                }
                Ok(write_task(p, instruction.as_str()))
            },
            Err(e) => Err(e),
        },
    }
}

/// Begins the work on the document at `path`.
fn write_task(path: String, instruction: &str) -> (t: Task)
    ensures
        t.goal == (Goal::Doc { path }),
        is_task(t, NOTES_SYSTEM@, instruction@),
{
    Task { goal: Goal::Doc { path }, first: run_tool_loop(NOTES_SYSTEM, instruction, MAX_STEPS) }
}

/// The first step of what becomes of a text.
pub enum Posting {
    Send(ToAppend),
    Write(ToWrite),
}

/// Whether `step` sends `body` as a message of the model `model` in the user's name.
pub open spec fn posts(
    step: ToAppend,
    engine: &SyncEngine,
    body: Seq<char>,
    model: Seq<char>,
) -> bool {
    &&& sync::is_append_of(step, step.message, engine.user().author_hash@)
    &&& sync::is_random_uuid(step.message@.id)
    &&& sync::is_clock_time(step.message@.ts)
    &&& step.message@ == sync::composed(
        engine.user().name@,
        step.message@.id,
        step.message@.ts,
        body,
        Kind::Ai,
        Some(model),
    )
}

/// Posts or writes the text that the model with the name `model_id` produced.
pub fn deliver(goal: &Goal, text: &str, model_id: &str, engine: &SyncEngine) -> (r: Result<
    Posting,
    ViceError,
>)
    ensures
        match goal {
            Goal::Reply => r matches Ok(Posting::Send(step)) && posts(
                step,
                engine,
                text@,
                model_id@,
            ),
            Goal::Doc { path } => r matches Ok(Posting::Write(step)) && step.path@ == path@
                && step.body@ == text@,
        },
{
    match goal {
        Goal::Reply => match engine.send(text, Kind::Ai, Some(model_id.to_owned())) {
            Ok(step) => Ok(Posting::Send(step)),
            Err(e) => Err(ViceError::from(e)),
        },
        Goal::Doc { path } => Ok(Posting::Write(engine.write_doc(path.as_str(), text))),
    }
}

/// Tells the room that the document at `path` has been written.
pub fn announce(path: &str, model_id: &str, engine: &SyncEngine) -> (r: Result<
    ToAppend,
    ViceError,
>)
    ensures
        r matches Ok(step) && posts(step, engine, "wrote "@ + path@, model_id@),
{
    let body = text::concat("wrote ", path);
    match engine.send(body.as_str(), Kind::Ai, Some(model_id.to_owned())) {
        Ok(step) => Ok(step),
        Err(e) => Err(ViceError::from(e)),
    }
}

/// Whether all of `s` is white space.
pub open spec fn is_gap(s: Seq<char>) -> bool {
    forall|i: int| 0 <= i < s.len() ==> text::is_white(#[trigger] s[i])
}

proof fn lemma_split(s: Seq<char>) -> (gap: Seq<char>)
    ensures
        s == text::split_word(s).0 + gap + text::split_word(s).1,
        gap.len() == 0 ==> text::split_word(s).1.len() == 0,
        is_gap(gap),
        forall|i: int|
            0 <= i < text::split_word(s).0.len() ==> !text::is_white(
                #[trigger] text::split_word(s).0[i],
            ),
        s.len() > 0 && !text::is_white(s[0]) ==> text::split_word(s).0.len() > 0,
{
    text::lemma_span(s, text::black());
    let n = text::span(s, text::black()) as int;
    let first = text::split_word(s).0;
    assert forall|i: int| 0 <= i < first.len() implies !text::is_white(#[trigger] first[i]) by {
        assert(first[i] == s[i]);
        assert(text::black()(s[i]));
    }
    if n < s.len() {
        assert(!text::black()(s[n]));
        let gap = seq![s[n]];
        assert(s =~= first + gap + text::split_word(s).1);
        gap
    } else {
        let gap = Seq::<char>::empty();
        assert(s =~= first + gap + text::split_word(s).1);
        gap
    }
}

proof fn lemma_gaps(a: Seq<char>, b: Seq<char>)
    requires
        is_gap(a),
        is_gap(b),
    ensures
        is_gap(a + b),
{
    assert forall|i: int| 0 <= i < (a + b).len() implies text::is_white(#[trigger] (a + b)[i]) by {
        if i < a.len() {
            assert((a + b)[i] == a[i]);
        } else {
            assert((a + b)[i] == b[i - a.len()]);
        }
    }
}

/// Nothing of what the scribe is told is lost but white space: a question is all that was
/// said; a request to write notes is `write`, `notes` and the whole instruction; and one to
/// write a document is `write`, its path, which holds no white space, and the whole
/// instruction. `cut` is the white space before, between and behind.
#[verifier::spinoff_prover]
#[verifier::rlimit(60)]
pub proof fn request_is_kept_whole(text: &str, r: ViceCommand) -> (cut: (
    Seq<char>,
    Seq<char>,
    Seq<char>,
    Seq<char>,
))
    requires
        call_ensures(parse_command, (text,), r),
    ensures
        is_gap(cut.0),
        is_gap(cut.1),
        is_gap(cut.2),
        is_gap(cut.3),
        match r {
            ViceCommand::Reply(q) => text@ == cut.0 + q@ + cut.3,
            ViceCommand::WriteNotes(instruction) => text@ == cut.0 + "write"@ + cut.1 + "notes"@
                + cut.2 + instruction@ + cut.3 && cut.1.len() > 0 && (instruction@.len() > 0
                ==> cut.2.len() > 0),
            ViceCommand::Write { path, instruction } => text@ == cut.0 + "write"@ + cut.1 + path@
                + cut.2 + instruction@ + cut.3 && path@ != "notes"@ && (path@.len() > 0
                ==> cut.1.len() > 0) && (instruction@.len() > 0 ==> cut.2.len() > 0) && forall|
                i: int,
            |
                0 <= i < path@.len() ==> !text::is_white(#[trigger] path@[i]),
        },
{
    reveal_strlit("write");
    reveal_strlit("notes");
    let said = text::trimmed(text@);
    let (before, after) = text::lemma_trimmed(text@);
    if r is Reply {
        (before, Seq::empty(), Seq::empty(), after)
    } else {
        let (first, behind) = text::split_word(said);
        let g1 = lemma_split(said);
        let rest = text::trimmed(behind);
        let (b1, a1) = text::lemma_trimmed(behind);
        let (second, last) = text::split_word(rest);
        let g2 = lemma_split(rest);
        let instruction = text::trimmed(last);
        let (b2, a2) = text::lemma_trimmed(last);
        lemma_gaps(g1, b1);
        lemma_gaps(g2, b2);
        lemma_gaps(a2, a1);
        lemma_gaps(a2 + a1, after);
        let (c1, c2, c3) = (g1 + b1, g2 + b2, a2 + a1 + after);
        assert(last =~= b2 + instruction + a2);
        assert(rest =~= second + g2 + last);
        assert(behind =~= b1 + rest + a1);
        assert(said =~= first + g1 + behind);
        assert(text@ =~= before + said + after);
        assert(text@ =~= before + first + c1 + second + c2 + instruction + c3);
        if second.len() > 0 && c1.len() == 0 {
            assert(rest.len() > 0);
            assert(behind.len() > 0);
        }
        if instruction.len() > 0 && c2.len() == 0 {
            assert(last.len() > 0);
        }
        (before, c1, c2, c3)
    }
}

/// The scribe writes only where `write` is the first word, as a whole word: what starts
/// otherwise is a question, and what starts so never is.
pub proof fn only_write_writes(text: &str, r: ViceCommand, behind: Seq<char>, word: Seq<char>)
    requires
        call_ensures(parse_command, (text,), r),
        text@ == word + behind,
        word.len() > 0,
        forall|i: int| 0 <= i < word.len() ==> !text::is_white(#[trigger] word[i]),
        behind.len() == 0 || text::is_white(behind[0]),
    ensures
        r is Reply <==> word != "write"@,
{
    let said = text::trimmed(text@);
    let (before, after) = text::lemma_trimmed(text@);
    assert(text@[0] == word[0]);
    if before.len() > 0 {
        assert(text@[0] == before[0]);
    }
    assert(said + after =~= text@);
    if said.len() < word.len() {
        assert(text@[said.len() as int] == after[0]);
        assert(text@[said.len() as int] == word[said.len() as int]);
    }
    assert forall|i: int| 0 <= i < word.len() implies text::black()(#[trigger] said[i]) by {
        assert(said[i] == text@[i]);
        assert(text@[i] == word[i]);
    }
    if word.len() < said.len() {
        assert(said[word.len() as int] == text@[word.len() as int]);
        assert(text@[word.len() as int] == behind[0]);
    }
    text::lemma_span_is(said, text::black(), word.len());
    let first = text::split_word(said).0;
    assert(first =~= word) by {
        assert forall|i: int| 0 <= i < word.len() implies first[i] == word[i] by {
            assert(said[i] == text@[i]);
        }
    }
}

/// The scribe works on what was said: the model is given the question or the instruction
/// as it is, and what it produces goes to the room for a question and else to a document,
/// the notes or the one that was named.
pub proof fn task_follows_the_command(cmd: ViceCommand, r: Result<Task, ViceError>)
    requires
        call_ensures(dispatch, (cmd,), r),
    ensures
        cmd matches ViceCommand::Reply(q) ==> r is Ok && r->Ok_0.goal is Reply
            && r->Ok_0.first is Ask && r->Ok_0.first->Ask_0.convo.user@ == q@,
        cmd matches ViceCommand::WriteNotes(i) ==> r is Ok && r->Ok_0.goal is Doc
            && r->Ok_0.goal->path@ == DEFAULT_NOTES_PATH@ && r->Ok_0.first is Ask
            && r->Ok_0.first->Ask_0.convo.user@ == i@,
        r is Ok && r->Ok_0.goal is Reply ==> cmd is Reply,
        cmd matches ViceCommand::Write { path, instruction } ==> r is Ok ==> r->Ok_0.goal is Doc
            && r->Ok_0.first is Ask && r->Ok_0.first->Ask_0.convo.user@ == instruction@,
        r is Ok ==> r->Ok_0.first->Ask_0.left == 8 && r->Ok_0.first->Ask_0.convo.steps@.len() == 0,
        r is Ok && !(cmd is Reply) ==> r->Ok_0.first->Ask_0.convo.system@ == NOTES_SYSTEM@,
        r is Ok && cmd is Reply ==> r->Ok_0.first->Ask_0.convo.system@ == REPLY_SYSTEM@,
{
}

/// A document that the scribe is asked to write is written at the place of the path that
/// was named, and it is refused just where the path is.
pub proof fn task_writes_where_it_was_asked_to(
    path: String,
    instruction: String,
    s: &str,
    place: Result<String, ViceError>,
    r: Result<Task, ViceError>,
)
    requires
        s@ == path@,
        call_ensures(safe_doc_path, (s,), place),
        call_ensures(dispatch, (ViceCommand::Write { path, instruction },), r),
    ensures
        r is Ok <==> place is Ok,
        r is Ok ==> r->Ok_0.goal is Doc && r->Ok_0.goal->path@ == place->Ok_0@,
{
}

/// What a model produces is handed on whole: an answer is posted as a message of the model
/// in the user's name, stamped with the time of the clock, and a document is written as it
/// was produced, where it was asked for.
pub proof fn product_is_handed_on_whole(
    goal: &Goal,
    text: &str,
    model_id: &str,
    engine: &SyncEngine,
    r: Result<Posting, ViceError>,
)
    requires
        call_ensures(deliver, (goal, text, model_id, engine), r),
    ensures
        r is Ok,
        goal is Reply ==> r->Ok_0 is Send && {
            let m = r->Ok_0->Send_0.message;
            &&& m.body@ == text@
            &&& m.kind == Kind::Ai
            &&& m.model is Some && m.model->0@ == model_id@
            &&& m.author@ == engine.user().name@
            &&& sync::is_clock_time(m.ts)
        },
        *goal matches Goal::Doc { path } ==> r->Ok_0 is Write && r->Ok_0->Write_0.path@ == path@
            && r->Ok_0->Write_0.body@ == text@,
{
    if goal is Reply {
        let m = r->Ok_0->Send_0.message;
        assert(m@.model == Some(model_id@));
    }
}

/// The room is told of a document by its path, as a message of the model.
pub proof fn document_is_announced_by_its_path(
    path: &str,
    model_id: &str,
    engine: &SyncEngine,
    r: Result<ToAppend, ViceError>,
)
    requires
        call_ensures(announce, (path, model_id, engine), r),
    ensures
        r is Ok,
        text::has(r->Ok_0.message.body@, path@),
        r->Ok_0.message.kind == Kind::Ai,
        r->Ok_0.message.model is Some && r->Ok_0.message.model->0@ == model_id@,
        r->Ok_0.message.author@ == engine.user().name@,
        sync::is_clock_time(r->Ok_0.message.ts),
{
    let m = r->Ok_0.message;
    assert(m@.model == Some(model_id@));
    let at = "wrote "@.len() as int;
    assert(m.body@.subrange(at, at + path@.len()) =~= path@);
    assert(text::stands_at(m.body@, path@, at));
}

/// What an error says ends with what was reported, in full.
pub proof fn vice_failure_says_why(e: ViceError, r: String, why: String)
    requires
        call_ensures(ViceError::text, (&e,), r),
        e == ViceError::Tool(why) || e == ViceError::Sql(why) || e == ViceError::Json(why) || e
            == ViceError::Model(why) || e == ViceError::BadPath(why),
    ensures
        why@.is_suffix_of(r@),
{
    assert(r@.skip(r@.len() - why@.len()) =~= why@);
}

} // verus!
