//! The scripted test provider's streams: chat-completion chunks as plain
//! values, the fixtures tests build them with, and how a chunk stream is
//! encoded as Messages-API stream events.
//!
//! Only the first choice of a chunk is read. Text and reasoning deltas go
//! to the current content block; every tool-call delta that carries an id
//! opens a new block (the index counts up by one), and its argument
//! fragment goes to that block; a finish reason becomes the message's stop
//! reason.

use crate::agent::run::BlockDelta;
use crate::model::FinishReason;
use crate::text::{chars_of, push_char, string_of};
use vstd::prelude::*;

verus! {

/// A tool call as scripted: its position in the response, id, function
/// name and JSON arguments.
pub struct ScriptedToolCall {
    pub index: Option<u32>,
    pub id: String,
    pub name: String,
    pub arguments: String,
}

/// A streamed fragment of a tool call.
pub struct ToolCallDelta {
    pub index: u32,
    /// Present on the first fragment of a call.
    pub id: Option<String>,
    pub name: Option<String>,
    pub arguments: Option<String>,
}

/// The delta of one choice of a streamed chunk.
pub struct ChunkChoice {
    pub content: Option<String>,
    pub reasoning_content: Option<String>,
    pub tool_calls: Option<Vec<ToolCallDelta>>,
    pub finish_reason: Option<FinishReason>,
}

/// One chunk of a streamed chat completion.
pub struct ChatChunk {
    pub choices: Vec<ChunkChoice>,
}

/// One Messages-API stream event.
pub enum MessagesEvent {
    /// A delta to the content block at `index`.
    ContentBlockDelta { index: u32, delta: BlockDelta },
    /// A tool-use block opens at `index`.
    ToolUseStart { index: u32, id: String, name: String },
    /// The message ends for `stop_reason`.
    MessageDelta { stop_reason: String },
}

/// A [`MessagesEvent`] with its strings read as characters.
pub enum EventView {
    Text { index: int, text: Seq<char> },
    Thinking { index: int, text: Seq<char> },
    InputJson { index: int, json: Seq<char> },
    ToolUseStart { index: int, id: Seq<char>, name: Seq<char> },
    Stop { reason: Seq<char> },
}

impl MessagesEvent {
    pub open spec fn view_of(&self) -> EventView {
        match self {
            MessagesEvent::ContentBlockDelta { index, delta } => match delta {
                BlockDelta::Text(t) => EventView::Text { index: *index as int, text: t@ },
                BlockDelta::Thinking(t) => EventView::Thinking { index: *index as int, text: t@ },
                BlockDelta::InputJson(j) => EventView::InputJson { index: *index as int, json: j@ },
            },
            MessagesEvent::ToolUseStart { index, id, name } => EventView::ToolUseStart {
                index: *index as int,
                id: id@,
                name: name@,
            },
            MessagesEvent::MessageDelta { stop_reason } => EventView::Stop { reason: stop_reason@ },
        }
    }
}

/// The characters of an optional string; none when absent.
pub open spec fn or_empty(s: Option<String>) -> Seq<char> {
    match s {
        Some(x) => x@,
        None => Seq::empty(),
    }
}

/// The views of a list of events.
pub open spec fn events_view(events: Seq<MessagesEvent>) -> Seq<EventView> {
    events.map_values(|e: MessagesEvent| e.view_of())
}

/// The Messages-API stop reason of a finish reason.
pub open spec fn stop_reason_of(r: FinishReason) -> Seq<char> {
    match r {
        FinishReason::Length => "max_tokens"@,
        FinishReason::ToolCalls => "tool_use"@,
        _ => "end_turn"@,
    }
}

/// The number of tool-call deltas that open a block.
pub open spec fn starts(deltas: Seq<ToolCallDelta>) -> nat
    decreases deltas.len(),
{
    if deltas.len() == 0 {
        0
    } else {
        starts(deltas.drop_last()) + if deltas.last().id is Some {
            1nat
        } else {
            0nat
        }
    }
}

/// The events of a run of tool-call deltas from block `index`, and the
/// block index after them.
pub open spec fn tool_events(index: int, deltas: Seq<ToolCallDelta>) -> (Seq<EventView>, int)
    decreases deltas.len(),
{
    if deltas.len() == 0 {
        (Seq::empty(), index)
    } else {
        let (evs, i) = tool_events(index, deltas.drop_last());
        let d = deltas.last();
        let j = if d.id is Some {
            i + 1
        } else {
            i
        };
        let start = match d.id {
            Some(id) => seq![EventView::ToolUseStart { index: j, id: id@, name: or_empty(d.name) }],
            None => Seq::empty(),
        };
        let args = match d.arguments {
            Some(a) => seq![EventView::InputJson { index: j, json: a@ }],
            None => Seq::empty(),
        };
        (evs + start + args, j)
    }
}

/// The events of a chunk read from block `index`, and the block index
/// after it: its first choice's text, then reasoning, then tool-call
/// deltas, then stop reason.
pub open spec fn chunk_events(index: int, chunk: ChatChunk) -> (Seq<EventView>, int) {
    if chunk.choices@.len() == 0 {
        (Seq::empty(), index)
    } else {
        let c = chunk.choices@[0];
        let text = match c.content {
            Some(t) => seq![EventView::Text { index, text: t@ }],
            None => Seq::empty(),
        };
        let thinking = match c.reasoning_content {
            Some(t) => seq![EventView::Thinking { index, text: t@ }],
            None => Seq::empty(),
        };
        let (tools, j) = match c.tool_calls {
            Some(v) => tool_events(index, v@),
            None => (Seq::empty(), index),
        };
        let stop = match c.finish_reason {
            Some(r) => seq![EventView::Stop { reason: stop_reason_of(r) }],
            None => Seq::empty(),
        };
        (text + thinking + tools + stop, j)
    }
}

/// The number of blocks a chunk opens.
pub open spec fn chunk_starts(chunk: ChatChunk) -> nat {
    if chunk.choices@.len() == 0 {
        0
    } else {
        match chunk.choices@[0].tool_calls {
            Some(v) => starts(v@),
            None => 0,
        }
    }
}

/// Tool-call deltas advance the block index by the blocks they open.
pub proof fn lemma_tool_events_advance(index: int, deltas: Seq<ToolCallDelta>)
    ensures
        tool_events(index, deltas).1 == index + starts(deltas),
    decreases deltas.len(),
{
    if deltas.len() > 0 {
        lemma_tool_events_advance(index, deltas.drop_last());
    }
}

/// The stop reason of a finish reason.
fn stop_reason(r: &FinishReason) -> (s: String)
    ensures
        s@ == stop_reason_of(*r),
{
    match r {
        FinishReason::Length => string_of("max_tokens"),
        FinishReason::ToolCalls => string_of("tool_use"),
        _ => string_of("end_turn"),
    }
}

/// Encodes a chat-completion stream as Messages-API events, chunk by
/// chunk; it remembers the index of the current content block.
pub struct MessagesEncoder {
    pub block_index: u32,
}

impl MessagesEncoder {
    /// Before the first chunk: block 0.
    pub fn new() -> (r: MessagesEncoder)
        ensures
            r.block_index == 0,
    {
        MessagesEncoder { block_index: 0 }
    }

    /// The events of the next chunk of the stream.
    pub fn on_chunk(&mut self, chunk: &ChatChunk) -> (r: Vec<MessagesEvent>)
        requires
            old(self).block_index + chunk_starts(*chunk) <= u32::MAX,
        ensures
            (events_view(r@), final(self).block_index as int) == chunk_events(
                old(self).block_index as int,
                *chunk,
            ),
    {
        let ghost start = self.block_index as int;
        let mut out: Vec<MessagesEvent> = Vec::new();
        if chunk.choices.len() == 0 {
            assert(events_view(out@) =~= Seq::<EventView>::empty());
            return out;
        }
        let c = &chunk.choices[0];
        let index = self.block_index;
        match &c.content {
            Some(t) => out.push(
                MessagesEvent::ContentBlockDelta { index, delta: BlockDelta::Text(t.clone()) },
            ),
            None => {},
        }
        match &c.reasoning_content {
            Some(t) => out.push(
                MessagesEvent::ContentBlockDelta { index, delta: BlockDelta::Thinking(t.clone()) },
            ),
            None => {},
        }
        let ghost head = events_view(out@);
        proof {
            let text = match chunk.choices@[0].content {
                Some(t) => seq![EventView::Text { index: start, text: t@ }],
                None => Seq::<EventView>::empty(),
            };
            let thinking = match chunk.choices@[0].reasoning_content {
                Some(t) => seq![EventView::Thinking { index: start, text: t@ }],
                None => Seq::<EventView>::empty(),
            };
            assert(head =~= text + thinking);
        }
        match &c.tool_calls {
            Some(calls) => {
                proof {
                    lemma_tool_events_advance(start, calls@);
                }
                let mut k: usize = 0;
                assert(calls@.take(0) =~= Seq::<ToolCallDelta>::empty());
                assert(head + Seq::<EventView>::empty() =~= head);
                while k < calls.len()
                    invariant
                        k <= calls@.len(),
                        start + starts(calls@) <= u32::MAX,
                        events_view(out@) == head + tool_events(start, calls@.take(k as int)).0,
                        self.block_index as int == tool_events(start, calls@.take(k as int)).1,
                        self.block_index as int == start + starts(calls@.take(k as int)),
                    decreases calls@.len() - k,
                {
                    let d = &calls[k];
                    proof {
                        let t = calls@.take(k + 1);
                        assert(t.drop_last() =~= calls@.take(k as int));
                        assert(t.last() == calls@[k as int]);
                        lemma_tool_events_advance(start, t);
                        lemma_starts_prefix(calls@, k + 1);
                    }
                    let ghost before = events_view(out@);
                    match &d.id {
                        Some(id) => {
                            self.block_index = self.block_index + 1;
                            let name = match &d.name {
                                Some(n) => n.clone(),
                                None => String::new(),
                            };
                            out.push(
                                MessagesEvent::ToolUseStart { index: self.block_index, id: id.clone(), name },
                            );
                        },
                        None => {},
                    }
                    match &d.arguments {
                        Some(a) => out.push(
                            MessagesEvent::ContentBlockDelta {
                                index: self.block_index,
                                delta: BlockDelta::InputJson(a.clone()),
                            },
                        ),
                        None => {},
                    }
                    proof {
                        let j = self.block_index as int;
                        let st = match calls@[k as int].id {
                            Some(id) => seq![EventView::ToolUseStart { index: j, id: id@, name: or_empty(calls@[k as int].name) }],
                            None => Seq::<EventView>::empty(),
                        };
                        let ar = match calls@[k as int].arguments {
                            Some(a) => seq![EventView::InputJson { index: j, json: a@ }],
                            None => Seq::<EventView>::empty(),
                        };
                        assert(events_view(out@) =~= before + st + ar);
                    }
                    k += 1;
                }
                assert(calls@.take(k as int) =~= calls@);
            },
            None => {},
        }
        let ghost mid = events_view(out@);
        match &c.finish_reason {
            Some(r) => {
                let s = stop_reason(r);
                out.push(MessagesEvent::MessageDelta { stop_reason: s });
            },
            None => {},
        }
        proof {
            let stop = match chunk.choices@[0].finish_reason {
                Some(r) => seq![EventView::Stop { reason: stop_reason_of(r) }],
                None => Seq::<EventView>::empty(),
            };
            assert(events_view(out@) =~= mid + stop);
        }
        out
    }
}

/// The blocks opened by a prefix are no more than those of the whole.
proof fn lemma_starts_prefix(deltas: Seq<ToolCallDelta>, k: int)
    requires
        0 <= k <= deltas.len(),
    ensures
        starts(deltas.take(k)) <= starts(deltas),
    decreases deltas.len() - k,
{
    if k < deltas.len() {
        lemma_starts_prefix(deltas, k + 1);
        let t = deltas.take(k + 1);
        assert(t.drop_last() =~= deltas.take(k));
    } else {
        assert(deltas.take(k) =~= deltas);
    }
}

// ── Fixtures ────────────────────────────────────────────────────────

/// Whether `c` is a chunk of one choice whose delta has exactly these
/// parts.
pub open spec fn single_choice(
    c: ChatChunk,
    content: Option<Seq<char>>,
    reasoning: Option<Seq<char>>,
    finish: Option<FinishReason>,
) -> bool {
    &&& c.choices@.len() == 1
    &&& crate::model::opt_view(c.choices@[0].content) == content
    &&& crate::model::opt_view(c.choices@[0].reasoning_content) == reasoning
    &&& c.choices@[0].tool_calls is None
    &&& c.choices@[0].finish_reason == finish
}

/// A chunk of one choice with the given parts.
fn chunk_of(
    content: Option<String>,
    reasoning_content: Option<String>,
    tool_calls: Option<Vec<ToolCallDelta>>,
    finish_reason: Option<FinishReason>,
) -> (r: ChatChunk)
    ensures
        r.choices@.len() == 1,
        r.choices@[0].content == content,
        r.choices@[0].reasoning_content == reasoning_content,
        r.choices@[0].tool_calls == tool_calls,
        r.choices@[0].finish_reason == finish_reason,
{
    let mut choices: Vec<ChunkChoice> = Vec::new();
    choices.push(ChunkChoice { content, reasoning_content, tool_calls, finish_reason });
    ChatChunk { choices }
}

/// A streaming chunk carrying only a content delta.
pub fn text_chunk(content: &str) -> (r: ChatChunk)
    ensures
        single_choice(r, Some(content@), None, None),
{
    chunk_of(Some(string_of(content)), None, None, None)
}

/// A streaming chunk carrying only a reasoning-content delta.
pub fn thinking_chunk(content: &str) -> (r: ChatChunk)
    ensures
        single_choice(r, None, Some(content@), None),
{
    chunk_of(None, Some(string_of(content)), None, None)
}

/// A streaming chunk carrying both content and reasoning in the same delta.
pub fn mixed_chunk(content: &str, reasoning: &str) -> (r: ChatChunk)
    ensures
        single_choice(r, Some(content@), Some(reasoning@), None),
{
    chunk_of(Some(string_of(content)), Some(string_of(reasoning)), None, None)
}

/// A terminating stream chunk with the given finish reason and no delta
/// content.
pub fn finish_chunk(reason: FinishReason) -> (r: ChatChunk)
    ensures
        single_choice(r, None, None, Some(reason)),
{
    chunk_of(None, None, None, Some(reason))
}

/// A scripted tool call as one streamed delta carrying its whole name and
/// arguments; a call without a position is at 0.
pub fn tool_call_delta(tc: &ScriptedToolCall) -> (r: ToolCallDelta)
    ensures
        r.index == match tc.index {
            Some(i) => i,
            None => 0,
        },
        r.id == Some(tc.id),
        r.name == Some(tc.name),
        r.arguments == Some(tc.arguments),
{
    ToolCallDelta {
        index: match tc.index {
            Some(i) => i,
            None => 0,
        },
        id: Some(tc.id.clone()),
        name: Some(tc.name.clone()),
        arguments: Some(tc.arguments.clone()),
    }
}

/// Whether `d` is the single delta of scripted call `tc`.
pub open spec fn delta_of(tc: ScriptedToolCall, d: ToolCallDelta) -> bool {
    &&& d.index == match tc.index {
        Some(i) => i,
        None => 0u32,
    }
    &&& d.id == Some(tc.id)
    &&& d.name == Some(tc.name)
    &&& d.arguments == Some(tc.arguments)
}

/// The stream of a model that calls tools this turn: one chunk carrying a
/// delta per call, in order, then a `ToolCalls` finish.
pub fn tool_chunks(calls: Vec<ScriptedToolCall>) -> (r: Vec<ChatChunk>)
    ensures
        r@.len() == 2,
        r@[0].choices@.len() == 1,
        r@[0].choices@[0].content is None,
        r@[0].choices@[0].reasoning_content is None,
        r@[0].choices@[0].finish_reason is None,
        r@[0].choices@[0].tool_calls matches Some(ds) && ds@.len() == calls@.len() && forall|i: int|
            0 <= i < calls@.len() ==> delta_of(calls@[i], #[trigger] ds@[i]),
        single_choice(r@[1], None, None, Some(FinishReason::ToolCalls)),
{
    let mut deltas: Vec<ToolCallDelta> = Vec::new();
    let mut i: usize = 0;
    while i < calls.len()
        invariant
            i <= calls@.len(),
            deltas@.len() == i,
            forall|j: int| 0 <= j < i ==> delta_of(calls@[j], #[trigger] deltas@[j]),
        decreases calls@.len() - i,
    {
        deltas.push(tool_call_delta(&calls[i]));
        i += 1;
    }
    let mut out: Vec<ChatChunk> = Vec::new();
    out.push(chunk_of(None, None, Some(deltas), None));
    out.push(finish_chunk(FinishReason::ToolCalls));
    out
}

/// `text` as one content chunk per character, then a `Stop` finish.
pub fn text_chunks(text: &str) -> (r: Vec<ChatChunk>)
    ensures
        r@.len() == text@.len() + 1,
        forall|i: int| 0 <= i < text@.len() ==> single_choice(#[trigger] r@[i], Some(seq![text@[i]]), None, None),
        single_choice(r@[text@.len() as int], None, None, Some(FinishReason::Stop)),
{
    let v = chars_of(text);
    let mut out: Vec<ChatChunk> = Vec::new();
    let mut i: usize = 0;
    while i < v.len()
        invariant
            v@ == text@,
            i <= v@.len(),
            out@.len() == i,
            forall|j: int| 0 <= j < i ==> single_choice(#[trigger] out@[j], Some(seq![text@[j]]), None, None),
        decreases v@.len() - i,
    {
        let mut one = String::new();
        push_char(&mut one, v[i]);
        assert(one@ =~= seq![text@[i as int]]);
        out.push(chunk_of(Some(one), None, None, None));
        i += 1;
    }
    out.push(finish_chunk(FinishReason::Stop));
    out
}

} // verus!
