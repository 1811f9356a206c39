//! The runtime environment's event broadcast: what each agent event
//! becomes on the console subscription, and the truncation of tool output.

use crate::agent::event::{AgentEvent, AgentResponse};
use crate::model::{ToolCall, Usage};
use crate::protocol::message::{
    ToolCallInfo, cache_read_of, calls_info_view, completion_of, infos_view, lemma_sum_prefix, nonzero, prompt_of,
    report_fits, spec_run_usage, sum_steps, tool_call_infos, usage_fits,
};
use crate::text::{
    byte_len, byte_len_within, chars_of, string_from_range, fitting_chars, fitting_prefix, join, len_utf8, lemma_byte_len_prefix,
    lemma_byte_len_take, push_char, push_joined, push_range, string_of, utf8_len, views,
};
use vstd::prelude::*;
use vstd::string::StringSliceAdditionalSpecFns;

verus! {

/// Tool result output is truncated to this many bytes in the broadcast.
pub const MAX_TOOL_OUTPUT_BROADCAST: usize = 2048;

/// The marker appended to truncated output.
pub open spec fn truncation_marker() -> Seq<char> {
    "…[truncated]"@
}

/// `s` cut to at most `max` bytes on a character boundary: unchanged when
/// it fits; else the marker alone when `max` leaves no room beside it;
/// else the longest prefix that fits beside the marker, then the marker.
pub open spec fn spec_truncate(s: Seq<char>, max: int) -> Seq<char> {
    let m = truncation_marker();
    if byte_len(s) <= max {
        s
    } else if max <= byte_len(m) {
        m
    } else {
        s.take(fitting_chars(s, max - byte_len(m), 0)) + m
    }
}

/// Truncate `s` to at most `max` bytes for the broadcast.
pub fn truncate_for_broadcast(s: &str, max: usize) -> (r: String)
    ensures
        r@ == spec_truncate(s@, max as int),
{
    let v = chars_of(s);
    let ghost sv = v@;
    if byte_len_within(&v, max).is_some() {
        return string_of(s);
    }
    let marker = "…[truncated]";
    let m = chars_of(marker);
    let mlen = match byte_len_within(&m, max) {
        Some(n) => {
            if n == max {
                return string_of(marker);
            }
            n
        },
        None => {
            return string_of(marker);
        },
    };
    let budget = max - mlen;
    let k = fitting_prefix(&v, budget);
    let mut r = String::new();
    push_range(&mut r, &v, 0, k);
    r.append(marker);
    assert(sv.subrange(0, k as int) =~= sv.take(k as int));
    r
}

// ── Decimal numbers ─────────────────────────────────────────────────

/// The decimal digits of `n`.
pub open spec fn decimal(n: nat) -> Seq<char>
    decreases n,
{
    if n < 10 {
        seq![digit_char(n)]
    } else {
        decimal(n / 10).push(digit_char(n % 10))
    }
}

/// The character of a decimal digit.
pub open spec fn digit_char(d: nat) -> char {
    (('0' as u32) + d) as char
}

/// The decimal representation of `n` (`u64::to_string`).
pub fn decimal_string(n: u64) -> (r: String)
    ensures
        r@ == decimal(n as nat),
    decreases n,
{
    let d: u8 = (n % 10) as u8;
    let c: char = (48u8 + d) as char;
    let mut r = if n < 10 {
        String::new()
    } else {
        decimal_string(n / 10)
    };
    push_char(&mut r, c);
    proof {
        if n < 10 {
            assert(r@ =~= seq![digit_char(n as nat)]);
        }
    }
    r
}

/// A broadcast tool output never takes more than the limit, as long as the
/// limit leaves room for the truncation marker.
pub proof fn lemma_truncated_output_fits(s: Seq<char>, max: int)
    requires
        max >= byte_len(truncation_marker()),
    ensures
        byte_len(spec_truncate(s, max)) <= max,
{
    let m = truncation_marker();
    if byte_len(s) > max && max > byte_len(m) {
        assert(s.take(0) =~= Seq::<char>::empty());
        assert(vstd::utf8::encode_utf8(Seq::<char>::empty()) =~= Seq::<u8>::empty());
        crate::text::lemma_fitting_chars_fits(s, max - byte_len(m), 0);
        crate::text::lemma_byte_len_concat(s.take(fitting_chars(s, max - byte_len(m), 0)), m);
    }
}

/// Output that fits is broadcast unchanged.
pub proof fn lemma_short_output_unchanged(s: Seq<char>, max: int)
    requires
        byte_len(s) <= max,
    ensures
        spec_truncate(s, max) == s,
{
}

// ── Labels and usage lines ──────────────────────────────────────────

/// The name `serde_json` gives: the string value under `key` of the JSON
/// object `json`, when `json` parses as an object holding a string there.
pub uninterp spec fn json_string_field(json: Seq<char>, key: Seq<char>) -> Option<Seq<char>>;

/// The string under `key` in the JSON object `json` (`serde_json::from_str`
/// to a `Value`, then `get` and `as_str`).
#[verifier::external_body]
fn json_string_at(json: &str, key: &str) -> (r: Option<String>)
    ensures
        crate::model::opt_view(r) == json_string_field(json@, key@),
{
    match serde_json::from_str::<serde_json::Value>(json) {
        Ok(v) => match v.get(key) {
            Some(c) => match c.as_str() {
                Some(s) => Some(s.to_owned()),
                None => None,
            },
            None => None,
        },
        Err(_) => None,
    }
}

/// The first line of `s` (`str::lines`): up to the first `\n`, without a
/// `\r` just before it; all of `s` when it has no `\n`.
pub open spec fn first_line(s: Seq<char>) -> Seq<char> {
    if s.contains('\n') {
        let i = choose|i: int| 0 <= i < s.len() && s[i] == '\n' && forall|j: int| 0 <= j < i ==> s[j] != '\n';
        let l = s.take(i);
        if l.len() > 0 && l.last() == '\r' {
            l.drop_last()
        } else {
            l
        }
    } else {
        s
    }
}

/// The first line of `s`.
pub fn first_line_of(s: &str) -> (r: String)
    ensures
        r@ == first_line(s@),
{
    let v = chars_of(s);
    let mut i: usize = 0;
    while i < v.len() && v[i] != '\n'
        invariant
            i <= v@.len(),
            v@ == s@,
            forall|j: int| 0 <= j < i ==> v@[j] != '\n',
        decreases v@.len() - i,
    {
        i += 1;
    }
    if i == v.len() {
        assert(v@.take(i as int) =~= v@);
        return string_of(s);
    }
    proof {
        let c = choose|c: int| 0 <= c < s@.len() && s@[c] == '\n' && forall|j: int| 0 <= j < c ==> s@[j] != '\n';
        assert(s@.contains('\n')) by {
            assert(s@[i as int] == '\n');
        }
        assert(0 <= c < s@.len() && s@[c] == '\n' && forall|j: int| 0 <= j < c ==> s@[j] != '\n');
        if c < i {
            assert(v@[c] != '\n');
        } else if c > i {
            assert(s@[i as int] != '\n');
        }
    }
    let end = if i > 0 && v[i - 1] == '\r' { i - 1 } else { i };
    assert(v@.subrange(0, end as int) =~= if end < i { v@.take(i as int).drop_last() } else { v@.take(i as int) });
    string_from_range(&v, 0, end)
}

/// How a tool call reads on the console: a `bash` call whose arguments
/// hold a `command` string shows `bash(<first line>)`; anything else its
/// name.
pub open spec fn call_label(c: ToolCall) -> Seq<char> {
    if c.name@ == "bash"@ && json_string_field(c.arguments@, "command"@) is Some {
        "bash("@ + first_line(json_string_field(c.arguments@, "command"@)->0) + ")"@
    } else {
        c.name@
    }
}

/// The console label of a tool call.
pub fn tool_call_label(c: &ToolCall) -> (r: String)
    ensures
        r@ == call_label(*c),
{
    if crate::model::str_eq(c.name.as_str(), "bash") {
        match json_string_at(c.arguments.as_str(), "command") {
            Some(cmd) => {
                let mut r = string_of("bash(");
                let line = first_line_of(cmd.as_str());
                r.append(line.as_str());
                r.append(")");
                return r;
            },
            None => {},
        }
    }
    c.name.clone()
}

/// The labels of a list of tool calls.
pub open spec fn call_labels(calls: Seq<ToolCall>) -> Seq<Seq<char>> {
    calls.map_values(|c: ToolCall| call_label(c))
}

/// The console labels of a list of tool calls, in order.
pub fn tool_call_labels(calls: &Vec<ToolCall>) -> (r: Vec<String>)
    ensures
        views(r@) == call_labels(calls@),
{
    let mut out: Vec<String> = Vec::new();
    let mut i: usize = 0;
    while i < calls.len()
        invariant
            i <= calls@.len(),
            views(out@) == call_labels(calls@).take(i as int),
        decreases calls@.len() - i,
    {
        let l = tool_call_label(&calls[i]);
        let ghost prev = out@;
        out.push(l);
        assert(views(out@) == views(prev).push(l@));
        assert(call_labels(calls@).take(i as int + 1) == call_labels(calls@).take(i as int).push(call_label(calls@[i as int])));
        i += 1;
    }
    assert(call_labels(calls@).take(i as int) == call_labels(calls@));
    out
}

/// The usage line of a run over its humanized token counts: the model, the
/// prompt size (with the cached part when there is one) and the output.
pub fn usage_line(model: &str, prompt: &str, cached: Option<&str>, completion: &str) -> (r: String)
    ensures
        r@ == match cached {
            Some(c) => model@ + " "@ + prompt@ + " in ("@ + c@ + " cached) / "@ + completion@ + " out"@,
            None => model@ + " "@ + prompt@ + " in / "@ + completion@ + " out"@,
        },
{
    let mut r = string_of(model);
    r.append(" ");
    r.append(prompt);
    match cached {
        Some(c) => {
            r.append(" in (");
            r.append(c);
            r.append(" cached) / ");
        },
        None => {
            r.append(" in / ");
        },
    }
    r.append(completion);
    r.append(" out");
    r
}

/// The figures a run's usage line reports: none for a run without steps;
/// else its total prompt tokens, its cached prompt tokens when there are
/// any, and its total completion tokens.
pub fn usage_report(response: &AgentResponse) -> (r: Option<(u32, Option<u32>, u32)>)
    requires
        report_fits(response.steps@),
    ensures
        response.steps@.len() == 0 ==> r is None,
        response.steps@.len() > 0 ==> r == Some(
            (
                sum_steps(response.steps@, |u: Usage| prompt_of(u)) as u32,
                nonzero(sum_steps(response.steps@, |u: Usage| cache_read_of(u))),
                sum_steps(response.steps@, |u: Usage| completion_of(u)) as u32,
            ),
        ),
{
    if response.steps.len() == 0 {
        return None;
    }
    let ghost steps = response.steps@;
    let mut prompt: u32 = 0;
    let mut completion: u32 = 0;
    let mut cache_hit: u32 = 0;
    let mut i: usize = 0;
    while i < response.steps.len()
        invariant
            steps == response.steps@,
            report_fits(steps),
            i <= steps.len(),
            prompt == sum_steps(steps.take(i as int), |u: Usage| prompt_of(u)),
            completion == sum_steps(steps.take(i as int), |u: Usage| completion_of(u)),
            cache_hit == sum_steps(steps.take(i as int), |u: Usage| cache_read_of(u)),
        decreases steps.len() - i,
    {
        let u = response.steps[i].usage;
        proof {
            let t = steps.take(i + 1);
            assert(t.drop_last() =~= steps.take(i as int));
            assert(t.last() == steps[i as int]);
            lemma_sum_prefix(steps, |u: Usage| prompt_of(u), i + 1);
            lemma_sum_prefix(steps, |u: Usage| completion_of(u), i + 1);
            lemma_sum_prefix(steps, |u: Usage| cache_read_of(u), i + 1);
            lemma_sum_prefix(steps, |u: Usage| prompt_of(u), i as int);
            lemma_sum_prefix(steps, |u: Usage| completion_of(u), i as int);
        }
        prompt = prompt + u.prompt_tokens();
        completion = completion + u.completion_tokens();
        cache_hit = cache_hit + u.cache_read_tokens;
        i += 1;
    }
    assert(steps.take(i as int) =~= steps);
    let cached = if cache_hit > 0 {
        Some(cache_hit)
    } else {
        None
    };
    Some((prompt, cached, completion))
}

/// The failure of a call no hook and no client tool answers.
pub fn tool_not_registered(name: &str) -> (r: String)
    ensures
        r@ == "tool not registered: "@ + name@,
{
    let mut r = string_of("tool not registered: ");
    r.append(name);
    r
}

// ── Console events ──────────────────────────────────────────────────

/// The kind of a console agent event.
#[derive(PartialEq, Eq, Structural, Clone, Copy, Debug)]
pub enum AgentEventKind {
    TextStart,
    TextDelta,
    TextEnd,
    ThinkingStart,
    ThinkingDelta,
    ThinkingEnd,
    ToolStart,
    ToolResult,
    ToolsComplete,
    Done,
}

/// What an agent event puts on the console subscription.
pub struct EventPayload {
    pub kind: AgentEventKind,
    pub content: String,
    pub tool_calls: Vec<ToolCallInfo>,
    pub tool_output: String,
    pub tool_is_error: bool,
}

impl EventPayload {
    /// A payload of the given kind with nothing else in it.
    pub fn of(kind: AgentEventKind) -> (r: EventPayload)
        ensures
            r.kind == kind,
            r.content@.len() == 0,
            r.tool_calls@.len() == 0,
            r.tool_output@.len() == 0,
            !r.tool_is_error,
    {
        EventPayload {
            kind,
            content: String::new(),
            tool_calls: Vec::new(),
            tool_output: String::new(),
            tool_is_error: false,
        }
    }
}

/// The console payload of an agent event: deltas carry their text; tool
/// starts carry the calls and their labels joined by `", "`; tool results
/// carry `"{duration}ms"`, the output truncated to
/// [`MAX_TOOL_OUTPUT_BROADCAST`] bytes and the error flag; the end carries
/// the usage line. Streaming-only tool announcements, usage reports and
/// steering produce nothing.
///
/// `usage_line` is the formatted usage of a finished run (see
/// [`usage_line`]), which the caller renders.
pub fn event_payload(event: &AgentEvent, usage_line: String) -> (r: Option<
    EventPayload,
>)
    ensures
        match event {
            AgentEvent::ToolCallsBegin(_) => r is None,
            AgentEvent::ContextUsage { .. } => r is None,
            AgentEvent::UserSteered { .. } => r is None,
            AgentEvent::TextStart => r matches Some(p) && p.kind == AgentEventKind::TextStart
                && p.content@.len() == 0,
            AgentEvent::TextEnd => r matches Some(p) && p.kind == AgentEventKind::TextEnd
                && p.content@.len() == 0,
            AgentEvent::ThinkingStart => r matches Some(p) && p.kind
                == AgentEventKind::ThinkingStart && p.content@.len() == 0,
            AgentEvent::ThinkingEnd => r matches Some(p) && p.kind == AgentEventKind::ThinkingEnd
                && p.content@.len() == 0,
            AgentEvent::ToolCallsComplete => r matches Some(p) && p.kind
                == AgentEventKind::ToolsComplete && p.content@.len() == 0,
            AgentEvent::TextDelta(t) => r matches Some(p) && p.kind == AgentEventKind::TextDelta
                && p.content@ == t@,
            AgentEvent::ThinkingDelta(t) => r matches Some(p) && p.kind
                == AgentEventKind::ThinkingDelta && p.content@ == t@,
            AgentEvent::ToolCallsStart(calls) => r matches Some(p) && p.kind
                == AgentEventKind::ToolStart && p.content@ == join(call_labels(calls@), ", "@)
                && infos_view(p.tool_calls@) == calls_info_view(calls@, true),
            AgentEvent::ToolResult { output, duration_ms, .. } => r matches Some(p) && p.kind
                == AgentEventKind::ToolResult && p.content@ == decimal(*duration_ms as nat) + "ms"@
                && p.tool_is_error == output is Err && p.tool_output@ == spec_truncate(
                match output {
                    Ok(s) => s@,
                    Err(s) => s@,
                },
                MAX_TOOL_OUTPUT_BROADCAST as int,
            ),
            AgentEvent::Done(_) => r matches Some(p) && p.kind == AgentEventKind::Done
                && p.content@ == usage_line@,
        },
        r matches Some(p) ==> (!(*event is ToolCallsStart) ==> p.tool_calls@.len() == 0),
        r matches Some(p) ==> (!(*event is ToolResult) ==> p.tool_output@.len() == 0 && !p.tool_is_error),
{
    match event {
        AgentEvent::TextStart => Some(EventPayload::of(AgentEventKind::TextStart)),
        AgentEvent::TextDelta(text) => {
            let mut p = EventPayload::of(AgentEventKind::TextDelta);
            p.content = text.clone();
            Some(p)
        },
        AgentEvent::TextEnd => Some(EventPayload::of(AgentEventKind::TextEnd)),
        AgentEvent::ThinkingStart => Some(EventPayload::of(AgentEventKind::ThinkingStart)),
        AgentEvent::ThinkingDelta(text) => {
            let mut p = EventPayload::of(AgentEventKind::ThinkingDelta);
            p.content = text.clone();
            Some(p)
        },
        AgentEvent::ThinkingEnd => Some(EventPayload::of(AgentEventKind::ThinkingEnd)),
        AgentEvent::ToolCallsBegin(_) => None,
        AgentEvent::ToolCallsStart(calls) => {
            let mut p = EventPayload::of(AgentEventKind::ToolStart);
            let labels = tool_call_labels(calls);
            let mut content = String::new();
            push_joined(&mut content, &labels, ", ");
            p.content = content;
            p.tool_calls = tool_call_infos(calls, true);
            Some(p)
        },
        AgentEvent::ToolResult { output, duration_ms, .. } => {
            let is_error = output.is_err();
            let text: &str = match output {
                Ok(s) => s.as_str(),
                Err(s) => s.as_str(),
            };
            let mut content = decimal_string(*duration_ms);
            content.append("ms");
            let mut p = EventPayload::of(AgentEventKind::ToolResult);
            p.content = content;
            p.tool_output = truncate_for_broadcast(text, MAX_TOOL_OUTPUT_BROADCAST);
            p.tool_is_error = is_error;
            Some(p)
        },
        AgentEvent::ToolCallsComplete => Some(EventPayload::of(AgentEventKind::ToolsComplete)),
        AgentEvent::ContextUsage { .. } => None,
        AgentEvent::UserSteered { .. } => None,
        AgentEvent::Done(_) => {
            let mut p = EventPayload::of(AgentEventKind::Done);
            p.content = usage_line;
            Some(p)
        },
    }
}

} // verus!
