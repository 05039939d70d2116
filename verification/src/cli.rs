//! The arguments of the program.

use crate::session;
use crate::text;
use vstd::prelude::*;

verus! {

/// How `join` is used.
pub const JOIN_USAGE: &'static str = "usage: agent-collab join <repo-url> <topic>";

/// How `start` is used.
pub const START_USAGE: &'static str = "usage: agent-collab start <topic>";

/// How the program is used.
pub const USAGE: &'static str =
    "usage:\n  agent-collab join <repo-url> <topic>\n  agent-collab start <topic>";

/// What the user is told who has no scribe.
pub const NO_VICE_NOTE: &'static str =
    "note: @vice disabled — add a .vice.toml (provider/model/api_key_env) to enable it";

/// What the program is asked to do.
#[derive(Debug, PartialEq, Eq)]
pub enum Command {
    /// Clone the repository at `url` into `dir`, and enter the room on `topic`.
    Join { url: String, topic: String, dir: String },
    /// Enter the room on `topic` in the current directory.
    Start { topic: String },
    /// The command lacks an argument; the text says how it is used.
    Incomplete(String),
    /// No such command.
    Unknown,
}

/// Whether `r` is what the arguments ask for. The first of them is the program's own
/// name, and what follows those that are needed is passed over.
pub open spec fn is_request(r: Command, args: Seq<Seq<char>>) -> bool {
    if args.len() > 1 && args[1] == "join"@ {
        if args.len() > 3 {
            r matches Command::Join { url, topic, dir } && url@ == args[2] && topic@ == args[3]
                && dir@ == session::clone_dir(args[2])
        } else {
            r matches Command::Incomplete(t) && t@ == JOIN_USAGE@
        }
    } else if args.len() > 1 && args[1] == "start"@ {
        if args.len() > 2 {
            r matches Command::Start { topic } && topic@ == args[2]
        } else {
            r matches Command::Incomplete(t) && t@ == START_USAGE@
        }
    } else {
        r is Unknown
    }
}

/// What the arguments ask for.
pub fn parse_args(args: &Vec<String>) -> (r: Command)
    ensures
        is_request(r, text::texts(args@)),
{
    if args.len() < 2 {
        return Command::Unknown;
    }
    assert(text::texts(args@)[1] == args@[1]@);
    if text::same(args[1].as_str(), "join") {
        if args.len() < 4 {
            return Command::Incomplete(JOIN_USAGE.to_owned());
        }
        let url = args[2].clone();
        let dir = session::derive_clone_dir(url.as_str());
        Command::Join { url, topic: args[3].clone(), dir }
    } else if text::same(args[1].as_str(), "start") {
        if args.len() < 3 {
            return Command::Incomplete(START_USAGE.to_owned());
        }
        Command::Start { topic: args[2].clone() }
    } else {
        Command::Unknown
    }
}

/// What the user is told before a repository is cloned.
pub fn cloning_note(url: &str, dir: &str) -> (r: String)
    ensures
        r@ == "cloning "@ + url@ + " -> "@ + dir@ + " ..."@,
{
    let mut r = text::wrap("cloning ", url, " -> ");
    r.append(dir);
    r.append(" ...");
    r
}

/// What a user types behind the name of the program is taken as it is: the address and the
/// topic of a room to join, or the topic of a room to start. A command that lacks an
/// argument, and one that is not known, does nothing.
pub proof fn arguments_are_taken_as_given(args: &Vec<String>, r: Command)
    requires
        call_ensures(parse_args, (args,), r),
    ensures
        r matches Command::Join { url, topic, dir } ==> args@.len() > 3 && args@[1]@ == "join"@
            && url@ == args@[2]@ && topic@ == args@[3]@,
        r matches Command::Start { topic } ==> args@.len() > 2 && args@[1]@ == "start"@ && topic@
            == args@[2]@,
        args@.len() > 3 && args@[1]@ == "join"@ ==> r is Join,
        args@.len() > 2 && args@[1]@ == "start"@ ==> r is Start,
        r is Unknown <==> args@.len() < 2 || (args@[1]@ != "join"@ && args@[1]@ != "start"@),
{
    reveal_strlit("join");
    reveal_strlit("start");
    assert("join"@.len() != "start"@.len());
    let said = text::texts(args@);
    assert(said.len() == args@.len());
    if args@.len() > 1 {
        assert(said[1] == args@[1]@);
    }
    if args@.len() > 2 {
        assert(said[2] == args@[2]@);
    }
    if args@.len() > 3 {
        assert(said[3] == args@[3]@);
    }
}

/// A repository is cloned into the directory that is derived from its address.
pub proof fn clone_goes_where_the_address_says(
    args: &Vec<String>,
    r: Command,
    url: &str,
    dir: String,
)
    requires
        call_ensures(parse_args, (args,), r),
        call_ensures(session::derive_clone_dir, (url,), dir),
        r is Join,
        r->url@ == url@,
    ensures
        r->dir@ == dir@,
{
    let said = text::texts(args@);
    assert(said.len() == args@.len());
    assert(said[2] == args@[2]@);
}

} // verus!
