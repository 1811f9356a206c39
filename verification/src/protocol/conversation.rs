//! Conversation operations on the wire: who a turn is attributed to, which
//! agent answers, what each agent event becomes on the stream (with the
//! client-tool forwards it triggers), and the answers to a send and to a
//! tool reply.
//!
//! Driving the runtime and the stream is the server's loop; it hands each
//! agent event to [`relay`] and writes out what comes back.

use crate::agent::event::{AgentEvent, AgentResponse};
use crate::bridge::{ClientBridge, Resolution};
use crate::model::{Tool, ToolCall};
use crate::protocol::message::{event_usage_fits, spec_run_usage, usage_fits, wire_form, StreamEvent, TokenUsage};
use crate::text::string_of;
use vstd::prelude::*;

verus! {

/// Who a conversation is created by: the sender, or `user` without one.
pub open spec fn creator_of(sender: Seq<char>) -> Seq<char> {
    if sender.len() == 0 {
        "user"@
    } else {
        sender
    }
}

/// Who a conversation is created by.
pub fn created_by(sender: &str) -> (r: String)
    ensures
        r@ == creator_of(sender@),
{
    if sender.is_empty() {
        string_of("user")
    } else {
        string_of(sender)
    }
}

/// The agent that answers: the guest when there is one, else the agent.
pub fn responding_agent(agent: &str, guest: &str) -> (r: String)
    ensures
        r@ == if guest@.len() == 0 {
            agent@
        } else {
            guest@
        },
{
    if guest.is_empty() {
        string_of(agent)
    } else {
        string_of(guest)
    }
}

/// Record the tools the client declared for the conversation (even none:
/// declaring nothing means having no client tools) and hand them on to the
/// run.
pub fn resolve_client_tools<S>(bridge: &mut ClientBridge<S>, conversation_id: u64, tools: Vec<Tool>) -> (r: Vec<Tool>)
    requires
        old(bridge).wf(),
    ensures
        final(bridge).wf(),
        r == tools,
        final(bridge).conversations().dom() == old(bridge).conversations().dom().insert(conversation_id),
        crate::text::views(final(bridge).conversations()[conversation_id]@) == tools@.map_values(|t: Tool| t.name@),
        forall|c: u64| c != conversation_id && old(bridge).conversations().contains_key(c)
            ==> #[trigger] final(bridge).conversations()[c] == old(bridge).conversations()[c],
        final(bridge).calls() == old(bridge).calls(),
{
    bridge.register_tools(conversation_id, &tools);
    tools
}

/// Whether `e` is the forward of call `c` in `conversation_id`.
pub open spec fn is_forward_of(e: StreamEvent, c: ToolCall, conversation_id: u64) -> bool {
    e matches StreamEvent::ToolCallForward { call_id, name, arguments, conversation_id: conv } && call_id@ == c.id@
        && name@ == c.name@ && arguments@ == c.arguments@ && conv == conversation_id
}

/// The calls among `calls` that are client tools of the conversation.
pub open spec fn client_calls<S>(bridge: ClientBridge<S>, conversation_id: u64, calls: Seq<ToolCall>) -> Seq<ToolCall> {
    calls.filter(|c: ToolCall| bridge.owns(conversation_id, c.name@))
}

/// The forwards a run's dispatch of `calls` triggers: one per call of a
/// client tool of the conversation, in call order.
pub fn client_forwards<S>(bridge: &ClientBridge<S>, conversation_id: u64, calls: &Vec<ToolCall>) -> (r: Vec<StreamEvent>)
    ensures
        r@.len() == client_calls(*bridge, conversation_id, calls@).len(),
        forall|i: int| 0 <= i < r@.len() ==> is_forward_of(#[trigger] r@[i], client_calls(*bridge, conversation_id, calls@)[i], conversation_id),
{
    let ghost pred = |c: ToolCall| bridge.owns(conversation_id, c.name@);
    let mut out: Vec<StreamEvent> = Vec::new();
    let mut i: usize = 0;
    proof {
        reveal(Seq::filter);
        assert(calls@.take(0).filter(pred) =~= Seq::<ToolCall>::empty());
    }
    while i < calls.len()
        invariant
            i <= calls@.len(),
            pred == (|c: ToolCall| bridge.owns(conversation_id, c.name@)),
            out@.len() == calls@.take(i as int).filter(pred).len(),
            forall|k: int| 0 <= k < out@.len() ==> is_forward_of(#[trigger] out@[k], calls@.take(i as int).filter(pred)[k], conversation_id),
        decreases calls@.len() - i,
    {
        proof {
            calls@.take(i as int).lemma_filter_push(calls@[i as int], pred);
            assert(calls@.take(i as int).push(calls@[i as int]) =~= calls@.take(i as int + 1));
        }
        let c = &calls[i];
        if bridge.is_client_tool(conversation_id, c.name.as_str()) {
            out.push(StreamEvent::ToolCallForward {
                call_id: c.id.clone(),
                name: c.name.clone(),
                arguments: c.arguments.clone(),
                conversation_id,
            });
        }
        i += 1;
    }
    assert(calls@.take(i as int) =~= calls@);
    out
}

/// What one agent event puts on the stream of a persisted conversation:
/// its wire form, then the forwards of the client-tool calls it starts;
/// and whether the stream ends with it.
pub fn relay<S>(bridge: &ClientBridge<S>, conversation_id: u64, responding: &str, event: AgentEvent) -> (r: (
    Vec<StreamEvent>,
    bool,
))
    requires
        event_usage_fits(event),
    ensures
        r.1 == (event is Done),
        r.0@.len() >= 1,
        wire_form(event, responding@, r.0@[0]),
        match event {
            AgentEvent::ToolCallsStart(calls) => {
                &&& r.0@.len() == 1 + client_calls(*bridge, conversation_id, calls@).len()
                &&& forall|i: int| 1 <= i < r.0@.len() ==> is_forward_of(#[trigger] r.0@[i], client_calls(*bridge, conversation_id, calls@)[i - 1], conversation_id)
            },
            _ => r.0@.len() == 1,
        },
{
    let is_done = match &event {
        AgentEvent::Done(_) => true,
        _ => false,
    };
    let forwards = match &event {
        AgentEvent::ToolCallsStart(calls) => client_forwards(bridge, conversation_id, calls),
        _ => Vec::new(),
    };
    let mut out: Vec<StreamEvent> = Vec::new();
    out.push(event.to_stream(responding));
    let mut forwards = forwards;
    let ghost fw = forwards@;
    out.append(&mut forwards);
    assert forall|k: int| 1 <= k < out@.len() implies #[trigger] out@[k] == fw[k - 1] by {}
    (out, is_done)
}

/// The closing event of a stream that ran out without a `Done`.
pub fn stream_end(responding: &str) -> (r: StreamEvent)
    ensures
        r matches StreamEvent::End { agent, error, model, usage } && agent@ == responding@ && error@.len() == 0
            && model@.len() == 0 && usage is None,
{
    StreamEvent::End { agent: string_of(responding), error: String::new(), model: String::new(), usage: None }
}

/// The answer to a client's tool reply: refused when the call already had
/// one; otherwise what became of it.
pub fn reply_to_tool<S>(bridge: &mut ClientBridge<S>, conversation_id: u64, call_id: &str, output: String, is_error: bool) -> (r: Result<Resolution<S>, String>)
    requires
        old(bridge).wf(),
    ensures
        final(bridge).wf(),
        final(bridge).conversations() == old(bridge).conversations(),
        final(bridge).calls().listeners() == old(bridge).calls().listeners(),
        match r {
            Ok(res) => !(res is Duplicate) && crate::bridge::resolved(old(bridge).calls().pending(), final(bridge).calls().pending(),
                conversation_id, call_id@, crate::bridge::reply_result(output, is_error), res),
            Err(e) => e@ == "duplicate reply for call_id '"@ + call_id@ + "'"@ && crate::bridge::resolved(
                old(bridge).calls().pending(),
                final(bridge).calls().pending(),
                conversation_id,
                call_id@,
                crate::bridge::reply_result(output, is_error),
                Resolution::Duplicate,
            ),
        },
{
    let res = bridge.try_resolve(conversation_id, call_id, output, is_error);
    match res {
        Resolution::Duplicate => {
            let mut e = string_of("duplicate reply for call_id '");
            e.append(call_id);
            e.append("'");
            Err(e)
        },
        other => Ok(other),
    }
}

/// The answer to a non-streamed send.
pub struct SendResponse {
    pub agent: String,
    pub content: String,
    pub model: String,
    pub usage: Option<TokenUsage>,
}

/// The answer to a send of `agent` whose run ended with `response`: the
/// final text (empty without one), the model and the run's total usage.
pub fn send_response(agent: String, response: AgentResponse) -> (r: SendResponse)
    requires
        usage_fits(response.steps@),
    ensures
        r.agent == agent,
        r.content@ == match response.final_response {
            Some(s) => s@,
            None => Seq::empty(),
        },
        r.model == response.model,
        r.usage == Some(spec_run_usage(response.steps@)),
{
    let usage = Some(response.usage());
    SendResponse {
        agent,
        content: match response.final_response {
            Some(s) => s,
            None => String::new(),
        },
        model: response.model,
        usage,
    }
}

/// How a search over past conversations runs.
pub struct SearchOptions {
    pub limit: usize,
    pub context_before: usize,
    pub context_after: usize,
    pub agent_filter: Option<String>,
    pub sender_filter: Option<String>,
}

/// A search request as it comes off the wire; absent numbers take the
/// index's defaults and empty names filter nothing.
pub struct SearchRequest {
    pub query: String,
    pub limit: Option<u32>,
    pub context_before: Option<u32>,
    pub context_after: Option<u32>,
    pub agent: String,
    pub sender: String,
}

/// A name filter: `None` for the empty name.
pub open spec fn filter_of(name: String) -> Option<String> {
    if name@.len() == 0 {
        None
    } else {
        Some(name)
    }
}

/// The options of a search request, with `defaults` for what it leaves out.
pub fn search_options(req: SearchRequest, defaults: &SearchOptions) -> (r: SearchOptions)
    ensures
        r.limit == match req.limit {
            Some(n) => n as usize,
            None => defaults.limit,
        },
        r.context_before == match req.context_before {
            Some(n) => n as usize,
            None => defaults.context_before,
        },
        r.context_after == match req.context_after {
            Some(n) => n as usize,
            None => defaults.context_after,
        },
        r.agent_filter == filter_of(req.agent),
        r.sender_filter == filter_of(req.sender),
{
    let limit = match req.limit {
        Some(n) => n as usize,
        None => defaults.limit,
    };
    let context_before = match req.context_before {
        Some(n) => n as usize,
        None => defaults.context_before,
    };
    let context_after = match req.context_after {
        Some(n) => n as usize,
        None => defaults.context_after,
    };
    let agent_filter = if req.agent.as_str().is_empty() {
        None
    } else {
        Some(req.agent)
    };
    let sender_filter = if req.sender.as_str().is_empty() {
        None
    } else {
        Some(req.sender)
    };
    SearchOptions { limit, context_before, context_after, agent_filter, sender_filter }
}

/// The role of a history message on the wire, by its raw name.
pub fn role_name(role: crate::model::Role) -> (r: String)
    ensures
        r@ == match role {
            crate::model::Role::User => "user"@,
            crate::model::Role::Assistant => "assistant"@,
            crate::model::Role::System => "system"@,
        },
{
    match role {
        crate::model::Role::User => string_of("user"),
        crate::model::Role::Assistant => string_of("assistant"),
        crate::model::Role::System => string_of("system"),
    }
}

} // verus!
