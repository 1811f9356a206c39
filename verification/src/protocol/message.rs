//! Wire protocol stream events and the conversion of agent loop events
//! into them.

use crate::agent::event::{AgentEvent, AgentResponse, AgentStep, AgentStopReason};
use crate::model::{ToolCall, Usage};
use crate::text::string_of;
use vstd::prelude::*;

verus! {

/// Token counts reported on the wire; the optional axes are absent when
/// zero.
#[derive(Clone, Copy, Debug, PartialEq, Eq, Structural)]
pub struct TokenUsage {
    pub prompt_tokens: u32,
    pub completion_tokens: u32,
    pub total_tokens: u32,
    pub cache_hit_tokens: Option<u32>,
    pub cache_miss_tokens: Option<u32>,
    pub reasoning_tokens: Option<u32>,
}

/// A tool call as the wire describes it.
#[derive(Clone, Debug)]
pub struct ToolCallInfo {
    pub name: String,
    pub arguments: String,
}

/// One event of a streamed response on the wire.
#[derive(Clone, Debug)]
pub enum StreamEvent {
    Start { agent: String },
    TextStart { agent: String },
    Chunk { content: String },
    TextEnd { agent: String },
    ThinkingStart { agent: String },
    Thinking { content: String },
    ThinkingEnd { agent: String },
    ToolStart { calls: Vec<ToolCallInfo> },
    ToolResult { call_id: String, output: String, duration_ms: u64, is_error: bool },
    ToolsComplete,
    ContextUsage { usage: Option<TokenUsage> },
    UserSteered { content: String },
    ToolCallForward { call_id: String, name: String, arguments: String, conversation_id: u64 },
    End { agent: String, error: String, model: String, usage: Option<TokenUsage> },
}

// ── Usage ───────────────────────────────────────────────────────────

/// `Some(n)` when `n > 0`, else `None`.
pub open spec fn nonzero(n: int) -> Option<u32> {
    if n > 0 {
        Some(n as u32)
    } else {
        None
    }
}

/// Sum of a per-step quantity over a list of steps.
pub open spec fn sum_steps(steps: Seq<AgentStep>, f: spec_fn(Usage) -> int) -> int
    decreases steps.len(),
{
    if steps.len() == 0 {
        0
    } else {
        sum_steps(steps.drop_last(), f) + f(steps.last().usage)
    }
}

pub open spec fn prompt_of(u: Usage) -> int {
    u.spec_prompt()
}

pub open spec fn completion_of(u: Usage) -> int {
    u.spec_completion()
}

pub open spec fn total_of(u: Usage) -> int {
    u.spec_total()
}

pub open spec fn cache_read_of(u: Usage) -> int {
    u.cache_read_tokens as int
}

pub open spec fn cache_write_of(u: Usage) -> int {
    u.cache_write_tokens as int
}

pub open spec fn reasoning_of(u: Usage) -> int {
    u.reasoning_tokens as int
}

/// The run's totals fit the wire's 32-bit counters.
pub open spec fn usage_fits(steps: Seq<AgentStep>) -> bool {
    &&& sum_steps(steps, |u: Usage| total_of(u)) <= u32::MAX
    &&& sum_steps(steps, |u: Usage| cache_read_of(u)) <= u32::MAX
    &&& sum_steps(steps, |u: Usage| cache_write_of(u)) <= u32::MAX
}

/// The sums a usage line reports fit 32-bit counters: prompt, completion
/// and cache-read tokens over every step.
pub open spec fn report_fits(steps: Seq<AgentStep>) -> bool {
    &&& sum_steps(steps, |u: Usage| prompt_of(u)) <= u32::MAX
    &&& sum_steps(steps, |u: Usage| completion_of(u)) <= u32::MAX
    &&& sum_steps(steps, |u: Usage| cache_read_of(u)) <= u32::MAX
}

/// Totals over every step of a run.
pub open spec fn spec_run_usage(steps: Seq<AgentStep>) -> TokenUsage {
    TokenUsage {
        prompt_tokens: sum_steps(steps, |u: Usage| prompt_of(u)) as u32,
        completion_tokens: sum_steps(steps, |u: Usage| completion_of(u)) as u32,
        total_tokens: sum_steps(steps, |u: Usage| total_of(u)) as u32,
        cache_hit_tokens: nonzero(sum_steps(steps, |u: Usage| cache_read_of(u))),
        cache_miss_tokens: nonzero(sum_steps(steps, |u: Usage| cache_write_of(u))),
        reasoning_tokens: nonzero(sum_steps(steps, |u: Usage| reasoning_of(u))),
    }
}

/// Each partial sum of a non-negative quantity is bounded by the full sum.
pub proof fn lemma_sum_prefix(steps: Seq<AgentStep>, f: spec_fn(Usage) -> int, k: int)
    requires
        0 <= k <= steps.len(),
        forall|u: Usage| #[trigger] f(u) >= 0,
    ensures
        0 <= sum_steps(steps.take(k), f) <= sum_steps(steps, f),
    decreases steps.len() - k,
{
    if k < steps.len() {
        lemma_sum_prefix(steps, f, k + 1);
        assert(steps.take(k + 1).drop_last() =~= steps.take(k));
    } else {
        assert(steps.take(k) =~= steps);
    }
    lemma_sum_nonneg(steps.take(k), f);
}

proof fn lemma_sum_nonneg(steps: Seq<AgentStep>, f: spec_fn(Usage) -> int)
    requires
        forall|u: Usage| #[trigger] f(u) >= 0,
    ensures
        sum_steps(steps, f) >= 0,
    decreases steps.len(),
{
    if steps.len() > 0 {
        lemma_sum_nonneg(steps.drop_last(), f);
    }
}

impl AgentResponse {
    /// Total usage across every step of a run.
    pub fn usage(&self) -> (r: TokenUsage)
        requires
            usage_fits(self.steps@),
        ensures
            r == spec_run_usage(self.steps@),
    {
        let mut prompt: u32 = 0;
        let mut completion: u32 = 0;
        let mut total: u32 = 0;
        let mut cache_hit: u32 = 0;
        let mut cache_miss: u32 = 0;
        let mut reasoning: u32 = 0;
        let ghost steps = self.steps@;
        let mut i: usize = 0;
        while i < self.steps.len()
            invariant
                steps == self.steps@,
                usage_fits(steps),
                i <= steps.len(),
                prompt == sum_steps(steps.take(i as int), |u: Usage| prompt_of(u)),
                completion == sum_steps(steps.take(i as int), |u: Usage| completion_of(u)),
                total == sum_steps(steps.take(i as int), |u: Usage| total_of(u)),
                cache_hit == sum_steps(steps.take(i as int), |u: Usage| cache_read_of(u)),
                cache_miss == sum_steps(steps.take(i as int), |u: Usage| cache_write_of(u)),
                reasoning == sum_steps(steps.take(i as int), |u: Usage| reasoning_of(u)),
            decreases steps.len() - i,
        {
            let u = self.steps[i].usage;
            proof {
                let t = steps.take(i + 1);
                assert(t.drop_last() =~= steps.take(i as int));
                assert(t.last() == steps[i as int]);
                lemma_sum_prefix(steps, |u: Usage| total_of(u), i + 1);
                lemma_sum_prefix(steps, |u: Usage| prompt_of(u), i + 1);
                lemma_sum_prefix(steps, |u: Usage| completion_of(u), i + 1);
                lemma_sum_prefix(steps, |u: Usage| cache_read_of(u), i + 1);
                lemma_sum_prefix(steps, |u: Usage| cache_write_of(u), i + 1);
                lemma_sum_prefix(steps, |u: Usage| reasoning_of(u), i + 1);
                lemma_sums_bounded_by_total(t);
            }
            prompt = prompt + u.prompt_tokens();
            completion = completion + u.completion_tokens();
            total = total + u.total_tokens();
            cache_hit = cache_hit + u.cache_read_tokens;
            cache_miss = cache_miss + u.cache_write_tokens;
            reasoning = reasoning + u.reasoning_tokens;
            i += 1;
        }
        assert(steps.take(i as int) =~= steps);
        TokenUsage {
            prompt_tokens: prompt,
            completion_tokens: completion,
            total_tokens: total,
            cache_hit_tokens: if cache_hit > 0 {
                Some(cache_hit)
            } else {
                None
            },
            cache_miss_tokens: if cache_miss > 0 {
                Some(cache_miss)
            } else {
                None
            },
            reasoning_tokens: if reasoning > 0 {
                Some(reasoning)
            } else {
                None
            },
        }
    }
}

/// The prompt, completion and reasoning totals never exceed the grand total.
proof fn lemma_sums_bounded_by_total(steps: Seq<AgentStep>)
    ensures
        sum_steps(steps, |u: Usage| prompt_of(u)) <= sum_steps(steps, |u: Usage| total_of(u)),
        sum_steps(steps, |u: Usage| completion_of(u)) <= sum_steps(steps, |u: Usage| total_of(u)),
        sum_steps(steps, |u: Usage| reasoning_of(u)) <= sum_steps(steps, |u: Usage| completion_of(u)),
        sum_steps(steps, |u: Usage| prompt_of(u)) + sum_steps(steps, |u: Usage| completion_of(u))
            == sum_steps(steps, |u: Usage| total_of(u)),
    decreases steps.len(),
{
    if steps.len() > 0 {
        lemma_sums_bounded_by_total(steps.drop_last());
    }
    lemma_sum_nonneg(steps, |u: Usage| prompt_of(u));
    lemma_sum_nonneg(steps, |u: Usage| completion_of(u));
    lemma_sum_nonneg(steps, |u: Usage| reasoning_of(u));
}

/// The wire counts of a single model call.
pub open spec fn spec_token_usage(u: Usage) -> TokenUsage {
    TokenUsage {
        prompt_tokens: u.spec_prompt() as u32,
        completion_tokens: u.spec_completion() as u32,
        total_tokens: u.spec_total() as u32,
        cache_hit_tokens: nonzero(u.cache_read_tokens as int),
        cache_miss_tokens: nonzero(u.cache_write_tokens as int),
        reasoning_tokens: nonzero(u.reasoning_tokens as int),
    }
}

/// The wire counts of a single model call.
pub fn token_usage(u: &Usage) -> (r: TokenUsage)
    requires
        u.spec_total() <= u32::MAX,
    ensures
        r == spec_token_usage(*u),
{
    TokenUsage {
        prompt_tokens: u.prompt_tokens(),
        completion_tokens: u.completion_tokens(),
        total_tokens: u.total_tokens(),
        cache_hit_tokens: if u.cache_read_tokens > 0 {
            Some(u.cache_read_tokens)
        } else {
            None
        },
        cache_miss_tokens: if u.cache_write_tokens > 0 {
            Some(u.cache_write_tokens)
        } else {
            None
        },
        reasoning_tokens: if u.reasoning_tokens > 0 {
            Some(u.reasoning_tokens)
        } else {
            None
        },
    }
}

// ── Agent events on the wire ────────────────────────────────────────

/// The wire description of tool calls; arguments are kept when `with_args`.
pub open spec fn calls_info_view(calls: Seq<ToolCall>, with_args: bool) -> Seq<(Seq<char>, Seq<char>)> {
    calls.map_values(
        |c: ToolCall|
            (c.name@, if with_args {
                c.arguments@
            } else {
                Seq::empty()
            }),
    )
}

/// The views of a list of wire tool call descriptions.
pub open spec fn infos_view(infos: Seq<ToolCallInfo>) -> Seq<(Seq<char>, Seq<char>)> {
    infos.map_values(|i: ToolCallInfo| (i.name@, i.arguments@))
}

/// Describe tool calls for the wire.
pub fn tool_call_infos(calls: &Vec<ToolCall>, with_args: bool) -> (r: Vec<ToolCallInfo>)
    ensures
        infos_view(r@) == calls_info_view(calls@, with_args),
{
    let mut r: Vec<ToolCallInfo> = Vec::new();
    let mut i: usize = 0;
    while i < calls.len()
        invariant
            i <= calls@.len(),
            infos_view(r@) =~= calls_info_view(calls@.take(i as int), with_args),
        decreases calls@.len() - i,
    {
        let info = ToolCallInfo {
            name: calls[i].name.clone(),
            arguments: if with_args {
                calls[i].arguments.clone()
            } else {
                String::new()
            },
        };
        let ghost before = r@;
        r.push(info);
        proof {
            assert(calls@.take(i + 1) =~= calls@.take(i as int).push(calls@[i as int]));
            assert(infos_view(r@) =~= infos_view(before).push((info.name@, info.arguments@)));
            assert(calls_info_view(calls@.take(i + 1), with_args) =~= calls_info_view(
                calls@.take(i as int),
                with_args,
            ).push((info.name@, info.arguments@)));
        }
        i += 1;
    }
    assert(calls@.take(i as int) =~= calls@);
    r
}

/// The usage of every event can be reported on the wire.
pub open spec fn event_usage_fits(event: AgentEvent) -> bool {
    match event {
        AgentEvent::ContextUsage { usage } => usage.spec_total() <= u32::MAX,
        AgentEvent::Done(resp) => usage_fits(resp.steps@),
        _ => true,
    }
}

/// The error text a finished run reports: its error, or empty.
pub open spec fn done_error(resp: AgentResponse) -> Seq<char> {
    match resp.stop_reason {
        AgentStopReason::Error(e) => e@,
        _ => Seq::empty(),
    }
}

/// `e` is the wire form of `event` for `responding`: text and thinking
/// boundaries and the end carry the responding agent; a tool result carries
/// its output either way with an error flag; the end carries the run's
/// error, model and total usage.
pub open spec fn wire_form(event: AgentEvent, responding: Seq<char>, e: StreamEvent) -> bool {
    match event {
        AgentEvent::TextStart => e matches StreamEvent::TextStart { agent } && agent@
            == responding,
        AgentEvent::TextDelta(t) => e matches StreamEvent::Chunk { content } && content@
            == t@,
        AgentEvent::TextEnd => e matches StreamEvent::TextEnd { agent } && agent@
            == responding,
        AgentEvent::ThinkingStart => e matches StreamEvent::ThinkingStart { agent }
            && agent@ == responding,
        AgentEvent::ThinkingDelta(t) => e matches StreamEvent::Thinking { content }
            && content@ == t@,
        AgentEvent::ThinkingEnd => e matches StreamEvent::ThinkingEnd { agent } && agent@
            == responding,
        AgentEvent::ToolCallsBegin(calls) => e matches StreamEvent::ToolStart { calls: infos }
            && infos_view(infos@) == calls_info_view(calls@, false),
        AgentEvent::ToolCallsStart(calls) => e matches StreamEvent::ToolStart { calls: infos }
            && infos_view(infos@) == calls_info_view(calls@, true),
        AgentEvent::ToolResult { call_id, output, duration_ms } => e matches StreamEvent::ToolResult {
            call_id: c,
            output: o,
            duration_ms: d,
            is_error,
        } && c@ == call_id@ && d == duration_ms && is_error == output is Err && o@ == match output {
            Ok(s) => s@,
            Err(s) => s@,
        },
        AgentEvent::ToolCallsComplete => e is ToolsComplete,
        AgentEvent::ContextUsage { usage } => e matches StreamEvent::ContextUsage { usage: u }
            && u == Some(spec_token_usage(usage)),
        AgentEvent::UserSteered { content } => e matches StreamEvent::UserSteered { content: c }
            && c@ == content@,
        AgentEvent::Done(resp) => e matches StreamEvent::End { agent, error, model, usage }
            && agent@ == responding && error@ == done_error(resp) && model@
            == resp.model@ && usage == Some(spec_run_usage(resp.steps@)),
    }
}

impl AgentEvent {
    /// Map one agent loop event to its wire event. Text and thinking
    /// boundaries and the end carry the responding agent; a tool result
    /// carries its output either way with an error flag; the end carries the
    /// run's error, model and total usage.
    pub fn to_stream(self, responding_agent: &str) -> (r: StreamEvent)
        requires
            event_usage_fits(self),
        ensures
            wire_form(self, responding_agent@, r),
    {
        match self {
            AgentEvent::TextStart => StreamEvent::TextStart { agent: string_of(responding_agent) },
            AgentEvent::TextDelta(text) => StreamEvent::Chunk { content: text },
            AgentEvent::TextEnd => StreamEvent::TextEnd { agent: string_of(responding_agent) },
            AgentEvent::ThinkingStart => StreamEvent::ThinkingStart {
                agent: string_of(responding_agent),
            },
            AgentEvent::ThinkingDelta(text) => StreamEvent::Thinking { content: text },
            AgentEvent::ThinkingEnd => StreamEvent::ThinkingEnd { agent: string_of(responding_agent) },
            AgentEvent::ToolCallsBegin(calls) => StreamEvent::ToolStart {
                calls: tool_call_infos(&calls, false),
            },
            AgentEvent::ToolCallsStart(calls) => StreamEvent::ToolStart {
                calls: tool_call_infos(&calls, true),
            },
            AgentEvent::ToolResult { call_id, output, duration_ms } => {
                let is_error = output.is_err();
                let output = match output {
                    Ok(s) => s,
                    Err(s) => s,
                };
                StreamEvent::ToolResult { call_id, output, duration_ms, is_error }
            },
            AgentEvent::ToolCallsComplete => StreamEvent::ToolsComplete,
            AgentEvent::ContextUsage { usage } => StreamEvent::ContextUsage {
                usage: Some(token_usage(&usage)),
            },
            AgentEvent::UserSteered { content } => StreamEvent::UserSteered { content },
            AgentEvent::Done(resp) => {
                let error = match &resp.stop_reason {
                    AgentStopReason::Error(e) => e.clone(),
                    _ => String::new(),
                };
                let usage = Some(resp.usage());
                StreamEvent::End {
                    agent: string_of(responding_agent),
                    error,
                    model: resp.model,
                    usage,
                }
            },
        }
    }
}

} // verus!
