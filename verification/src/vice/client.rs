//! What a model is sent and what is made of its reply. The calls over the network are
//! left to the caller.

use crate::config::{Config, ConfigError};
use crate::text;
use crate::vice::tools::{self, ToolSpec};
use crate::vice::{Convo, Step, ToolCall, ToolResult, Turn, ViceError};
use vstd::prelude::*;

verus! {

/// What it takes to reach a model.
pub struct ClientSettings {
    pub api_key: String,
    pub model: String,
    /// Where the provider is, if not where it usually is.
    pub base_url: Option<String>,
    pub tools: Vec<ToolSpec>,
}

impl ClientSettings {
    /// The settings for a configuration, where `key` is what the environment variable
    /// named by it holds. Without a key nothing is ever sent.
    pub fn new(cfg: &Config, key: Option<String>) -> (r: Result<ClientSettings, ViceError>)
        ensures
            match key {
                Some(k) => r matches Ok(s) && s.api_key == k && s.model@ == cfg.model@
                    && text::opt_text(s.base_url) == text::opt_text(cfg.base_url)
                    && tools::describes_tools(s.tools@),
                None => r matches Err(ViceError::Config(ConfigError::MissingKeyEnv(v))) && v@
                    == cfg.api_key_env@,
            },
    {
        match cfg.resolve_api_key(key) {
            Ok(api_key) => Ok(
                ClientSettings {
                    api_key,
                    model: cfg.model.clone(),
                    base_url: cfg.base_url.clone(),
                    tools: tools::tool_specs(),
                },
            ),
            Err(e) => Err(ViceError::Config(e)),
        }
    }
}

/// A message of a request to a model.
pub enum RequestMessage<'a> {
    System(&'a str),
    User(&'a str),
    /// The calls of one round, as the model made them.
    Calls(&'a Vec<ToolCall>),
    /// The answer to one call.
    Response(&'a ToolResult),
}

/// What a message of a request says.
pub enum RequestView {
    System(Seq<char>),
    User(Seq<char>),
    Calls(Seq<ToolCall>),
    Response(ToolResult),
}

/// What a message of a request says.
pub open spec fn request_view(m: RequestMessage<'_>) -> RequestView {
    match m {
        RequestMessage::System(t) => RequestView::System(t@),
        RequestMessage::User(t) => RequestView::User(t@),
        RequestMessage::Calls(c) => RequestView::Calls(c@),
        RequestMessage::Response(r) => RequestView::Response(*r),
    }
}

/// What the messages of a request say.
pub open spec fn request_views(ms: Seq<RequestMessage<'_>>) -> Seq<RequestView> {
    ms.map_values(|m: RequestMessage<'_>| request_view(m))
}

/// The messages for one round: the calls, then one answer for each.
pub open spec fn round(step: Step) -> Seq<RequestView> {
    seq![RequestView::Calls(step.calls@)] + step.results@.map_values(
        |r: ToolResult| RequestView::Response(r),
    )
}

/// The messages for some rounds.
pub open spec fn rounds(steps: Seq<Step>) -> Seq<RequestView>
    decreases steps.len(),
{
    if steps.len() == 0 {
        Seq::empty()
    } else {
        rounds(steps.drop_last()) + round(steps.last())
    }
}

/// The messages of the request for the next turn of a conversation.
pub open spec fn request_of(convo: Convo) -> Seq<RequestView> {
    seq![RequestView::System(convo.system@), RequestView::User(convo.user@)] + rounds(
        convo.steps@,
    )
}

/// The messages of the request for the next turn of a conversation.
pub fn build_request(convo: &Convo) -> (r: Vec<RequestMessage<'_>>)
    ensures
        request_views(r@) == request_of(*convo),
{
    let mut r: Vec<RequestMessage<'_>> = vec![
        RequestMessage::System(convo.system.as_str()),
        RequestMessage::User(convo.user.as_str()),
    ];
    let ghost head = seq![RequestView::System(convo.system@), RequestView::User(convo.user@)];
    let mut i: usize = 0;
    assert(request_views(r@) == head + rounds(convo.steps@.take(0)));
    while i < convo.steps.len()
        invariant
            i <= convo.steps.len(),
            request_views(r@) == head + rounds(convo.steps@.take(i as int)),
        decreases convo.steps.len() - i,
    {
        let step = &convo.steps[i];
        let ghost before = request_views(r@);
        let ghost responses = step.results@.map_values(
            |x: ToolResult| RequestView::Response(x),
        );
        r.push(RequestMessage::Calls(&step.calls));
        let mut j: usize = 0;
        assert(request_views(r@) == before.push(RequestView::Calls(step.calls@))
            + responses.take(0));
        while j < step.results.len()
            invariant
                j <= step.results.len(),
                responses == step.results@.map_values(|x: ToolResult| RequestView::Response(x)),
                request_views(r@) == before.push(RequestView::Calls(step.calls@))
                    + responses.take(j as int),
            decreases step.results.len() - j,
        {
            let ghost sofar = request_views(r@);
            r.push(RequestMessage::Response(&step.results[j]));
            assert(request_views(r@) == sofar.push(responses[j as int]));
            assert(responses.take(j + 1) == responses.take(j as int).push(responses[j as int]));
            j += 1;
        }
        proof {
            let some = convo.steps@.take(i + 1);
            assert(some.drop_last() == convo.steps@.take(i as int));
            assert(some.last() == *step);
            assert(responses.take(j as int) == responses);
            assert(request_views(r@) == head + rounds(some));
        }
        i += 1;
    }
    assert(convo.steps@.take(convo.steps.len() as int) == convo.steps@);
    r
}

/// The turn that a reply amounts to: the tools that it asks for, or else its text.
pub fn turn_of(calls: Vec<ToolCall>, first_text: Option<String>) -> (t: Turn)
    ensures
        calls@.len() > 0 ==> t == Turn::ToolCalls(calls),
        calls@.len() == 0 ==> (t matches Turn::Final(s) && s@ == (match first_text {
            Some(x) => x@,
            None => Seq::empty(),
        })),
{
    if calls.len() == 0 {
        match first_text {
            Some(x) => Turn::Final(x),
            None => Turn::Final(String::new()),
        }
    } else {
        Turn::ToolCalls(calls)
    }
}

/// Where the messages for the round with the number `k` begin in a request.
pub open spec fn round_at(steps: Seq<Step>, k: int) -> int
    decreases k,
{
    if k <= 0 {
        2
    } else {
        round_at(steps, k - 1) + 1 + steps[k - 1].results@.len()
    }
}

proof fn lemma_rounds(steps: Seq<Step>, n: int)
    requires
        0 <= n <= steps.len(),
    ensures
        rounds(steps.take(n)).len() + 2 == round_at(steps, n),
    decreases n,
{
    if n == 0 {
        assert(steps.take(0) =~= Seq::<Step>::empty());
    } else {
        lemma_rounds(steps, n - 1);
        assert(steps.take(n).drop_last() =~= steps.take(n - 1));
        assert(steps.take(n).last() == steps[n - 1]);
    }
}

proof fn lemma_round_stands(steps: Seq<Step>, n: int, k: int)
    requires
        0 <= k < n <= steps.len(),
    ensures
        2 <= round_at(steps, k) <= round_at(steps, k + 1) <= round_at(steps, n),
        rounds(steps.take(n)).subrange(round_at(steps, k) - 2, round_at(steps, k + 1) - 2) == round(
            steps[k],
        ),
    decreases n,
{
    lemma_rounds(steps, n);
    lemma_rounds(steps, n - 1);
    lemma_rounds(steps, k);
    let before = rounds(steps.take(n - 1));
    let all = rounds(steps.take(n));
    assert(steps.take(n).drop_last() =~= steps.take(n - 1));
    assert(steps.take(n).last() == steps[n - 1]);
    assert(all == before + round(steps[n - 1]));
    let (from, to) = (round_at(steps, k) - 2, round_at(steps, k + 1) - 2);
    if k < n - 1 {
        lemma_round_stands(steps, n - 1, k);
        assert(all.subrange(from, to) =~= before.subrange(from, to));
    } else {
        assert(all.subrange(from, to) =~= round(steps[k]));
    }
}

/// A request tells the model the whole conversation, in its order: the instructions, the
/// request of the user, and of every round `k` the calls and behind them each answer `j`.
pub proof fn request_tells_everything(
    convo: &Convo,
    r: Vec<RequestMessage<'_>>,
    k: int,
    j: int,
)
    requires
        call_ensures(build_request, (convo,), r),
    ensures
        r@.len() == round_at(convo.steps@, convo.steps@.len() as int),
        r@.len() >= 2,
        request_view(r@[0]) == RequestView::System(convo.system@),
        request_view(r@[1]) == RequestView::User(convo.user@),
        0 <= k < convo.steps@.len() ==> 2 <= round_at(convo.steps@, k) < r@.len() && request_view(
            r@[round_at(convo.steps@, k)],
        ) == RequestView::Calls(convo.steps@[k].calls@),
        0 <= k < convo.steps@.len() && 0 <= j < convo.steps@[k].results@.len() ==> 2 <= round_at(
            convo.steps@,
            k,
        ) && round_at(convo.steps@, k) + 1 + j < r@.len() && request_view(
            r@[round_at(convo.steps@, k) + 1 + j],
        ) == RequestView::Response(convo.steps@[k].results@[j]),
{
    let steps = convo.steps@;
    let n = steps.len() as int;
    lemma_rounds(steps, n);
    assert(steps.take(n) =~= steps);
    let views = request_views(r@);
    assert(views.len() == r@.len());
    assert(views[0] == request_view(r@[0]) && views[1] == request_view(r@[1]));
    if 0 <= k < n {
        lemma_round_stands(steps, n, k);
        let at = round_at(steps, k);
        let part = rounds(steps).subrange(at - 2, round_at(steps, k + 1) - 2);
        assert(part[0] == rounds(steps)[at - 2]);
        assert(views[at] == request_view(r@[at]));
        assert(views[at] == rounds(steps)[at - 2]);
        if 0 <= j < steps[k].results@.len() {
            assert(part[1 + j] == rounds(steps)[at - 2 + 1 + j]);
            assert(views[at + 1 + j] == request_view(r@[at + 1 + j]));
            assert(views[at + 1 + j] == rounds(steps)[at - 2 + 1 + j]);
        }
    }
}

/// A reply that asks for tools is never taken for a final word, and all the tools it asks
/// for are run; a reply that asks for none is a final word, and its text is all of it.
pub proof fn reply_is_taken_whole(calls: Vec<ToolCall>, first_text: Option<String>, t: Turn)
    requires
        call_ensures(turn_of, (calls, first_text), t),
    ensures
        t is Final <==> calls@.len() == 0,
        t is ToolCalls ==> t->ToolCalls_0@ == calls@,
        t is Final && first_text is Some ==> t->Final_0@ == first_text->0@,
        t is Final && first_text is None ==> t->Final_0@.len() == 0,
{
}

/// The model is reached with the key that the environment holds, under the name and at the
/// place that the configuration gives; without a key it is not reached at all.
pub proof fn settings_follow_the_configuration(cfg: &Config, key: Option<String>, r: Result<
    ClientSettings,
    ViceError,
>)
    requires
        call_ensures(ClientSettings::new, (cfg, key), r),
    ensures
        r is Ok <==> key is Some,
        r is Ok ==> r->Ok_0.api_key@ == key->0@,
        r is Ok ==> r->Ok_0.model@ == cfg.model@,
        r is Ok ==> text::opt_text(r->Ok_0.base_url) == text::opt_text(cfg.base_url),
        r is Ok ==> r->Ok_0.tools@.len() == 2,
{
}

} // verus!
