//! Context compaction: the request that asks the model to summarize a
//! conversation, and the summary read back from its reply.

use crate::agent::config::AgentConfig;
use crate::agent::request::{messages_view, AgentRequest};
use crate::model::{BlockView, Content, ContentBlock, ContentView, HistoryEntry, Message, MessageView, ToolResultContent};
use crate::text::{byte_len, chars_of, fitting_chars, fitting_prefix, push_range, string_of};
use vstd::prelude::*;

verus! {

/// What a tool result longer than the limit is cut to: the longest prefix
/// that fits in `max` bytes on a character boundary, then a marker.
pub open spec fn clipped_tool_text(s: Seq<char>, max: int) -> Seq<char> {
    if byte_len(s) > max {
        s.take(fitting_chars(s, max, 0)) + "... [truncated]"@
    } else {
        s
    }
}

/// A block with its text tool result clipped.
pub open spec fn clipped_block(b: BlockView, max: int) -> BlockView {
    match b {
        BlockView::ToolResultText { tool_use_id, name, text } => BlockView::ToolResultText {
            tool_use_id,
            name,
            text: clipped_tool_text(text, max),
        },
        _ => b,
    }
}

/// A message with every text tool result clipped.
pub open spec fn clipped_message(m: MessageView, max: int) -> MessageView {
    match m.content {
        ContentView::Text(_) => m,
        ContentView::Blocks(bs) => MessageView {
            role: m.role,
            content: ContentView::Blocks(bs.map_values(|b: BlockView| clipped_block(b, max))),
        },
    }
}

/// The opening message that carries the agent's own system prompt.
pub open spec fn identity_message(system_prompt: Seq<char>) -> MessageView {
    MessageView {
        role: "user"@,
        content: ContentView::Text("Agent system prompt (preserve identity/profile info):\n"@ + system_prompt),
    }
}

/// The messages of a compaction request: the agent's system prompt when it
/// has one, then the history as wire messages with long tool results
/// clipped.
pub open spec fn compact_messages(system_prompt: Seq<char>, history: Seq<HistoryEntry>, max: int) -> Seq<MessageView> {
    let body = history.map_values(|e: HistoryEntry| clipped_message(e.spec_wire_message(), max));
    if system_prompt.len() == 0 {
        body
    } else {
        seq![identity_message(system_prompt)] + body
    }
}

/// Clip a tool result text that is longer than `max` bytes.
pub fn clip_tool_text(text: &str, max: usize) -> (r: String)
    ensures
        r@ == clipped_tool_text(text@, max as int),
{
    let v = chars_of(text);
    let k = fitting_prefix(&v, max);
    if k == v.len() {
        proof {
            assert(v@.take(k as int) =~= v@);
        }
        return string_of(text);
    }
    proof {
        // One more character would not fit, so the whole text does not.
        crate::text::lemma_byte_len_take(v@, k as int);
        crate::text::lemma_byte_len_prefix(v@, k + 1, v@.len() as int);
        assert(v@.take(v@.len() as int) =~= v@);
    }
    let mut r = String::new();
    push_range(&mut r, &v, 0, k);
    r.append("... [truncated]");
    assert(v@.subrange(0, k as int) =~= v@.take(k as int));
    r
}

/// A message with its text tool results clipped to `max` bytes.
pub fn clip_message(m: Message, max: usize) -> (r: Message)
    ensures
        r.view_of() == clipped_message(m.view_of(), max as int),
{
    let Message { role, content } = m;
    match content {
        Content::Text(t) => Message { role, content: Content::Text(t) },
        Content::Blocks(bs) => {
            let ghost orig = bs@;
            let mut out: Vec<ContentBlock> = Vec::new();
            let mut i: usize = 0;
            while i < bs.len()
                invariant
                    bs@ == orig,
                    i <= orig.len(),
                    crate::model::blocks_view(out@) == crate::model::blocks_view(orig).take(i as int).map_values(
                        |b: BlockView| clipped_block(b, max as int),
                    ),
                decreases orig.len() - i,
            {
                let b = match &bs[i] {
                    ContentBlock::ToolResult { tool_use_id, name, content: ToolResultContent::Text(t) } => {
                        ContentBlock::ToolResult {
                            tool_use_id: tool_use_id.clone(),
                            name: crate::model::copy_opt_string(name),
                            content: ToolResultContent::Text(clip_tool_text(t.as_str(), max)),
                        }
                    },
                    other => other.copy(),
                };
                let ghost prev = out@;
                out.push(b);
                assert(crate::model::blocks_view(out@) == crate::model::blocks_view(prev).push(b.view_of()));
                assert(crate::model::blocks_view(orig).take(i as int + 1) == crate::model::blocks_view(orig).take(
                    i as int,
                ).push(orig[i as int].view_of()));
                i += 1;
            }
            assert(crate::model::blocks_view(orig).take(i as int) == crate::model::blocks_view(orig));
            Message { role, content: Content::Blocks(out) }
        },
    }
}

/// Build the request that asks the model to summarize `history`: the
/// compaction instructions as system prompt, the agent's own system prompt
/// as opening message when it has one, then the history with tool results
/// longer than `tool_max_len` bytes clipped. No tools, no thinking.
pub fn compact_request(
    config: &AgentConfig,
    compact_prompt: &str,
    tool_max_len: usize,
    history: &Vec<HistoryEntry>,
) -> (r: AgentRequest)
    ensures
        r.model@ == config.model@,
        messages_view(r.messages@) == compact_messages(config.system_prompt@, history@, tool_max_len as int),
        r.max_tokens == 4096,
        r.system matches Some(s) && s@ == compact_prompt@,
        r.tools is None,
        r.tool_choice is None,
        r.thinking is None,
{
    let mut messages: Vec<Message> = Vec::new();
    let ghost body = history@.map_values(
        |e: HistoryEntry| clipped_message(e.spec_wire_message(), tool_max_len as int),
    );
    let ghost head: Seq<MessageView> = if config.system_prompt@.len() == 0 {
        Seq::empty()
    } else {
        seq![identity_message(config.system_prompt@)]
    };
    if !config.system_prompt.as_str().is_empty() {
        let mut text = string_of("Agent system prompt (preserve identity/profile info):\n");
        text.append(config.system_prompt.as_str());
        messages.push(Message { role: string_of("user"), content: Content::Text(text) });
    }
    assert(messages_view(messages@) == head);
    let mut i: usize = 0;
    while i < history.len()
        invariant
            i <= history@.len(),
            body == history@.map_values(
                |e: HistoryEntry| clipped_message(e.spec_wire_message(), tool_max_len as int),
            ),
            messages_view(messages@) == head + body.take(i as int),
        decreases history@.len() - i,
    {
        let m = clip_message(history[i].to_wire_message(), tool_max_len);
        let ghost prev = messages@;
        messages.push(m);
        assert(messages_view(messages@) == messages_view(prev).push(m.view_of()));
        assert(body.take(i as int + 1) == body.take(i as int).push(body[i as int]));
        i += 1;
    }
    assert(body.take(i as int) == body);
    AgentRequest {
        model: config.model.clone(),
        messages,
        max_tokens: crate::agent::request::default_max_tokens(),
        system: Some(string_of(compact_prompt)),
        tools: None,
        tool_choice: None,
        thinking: None,
    }
}

/// The first non-empty text block of a reply.
pub open spec fn first_nonempty_text(blocks: Seq<BlockView>) -> Option<Seq<char>>
    decreases blocks.len(),
{
    if blocks.len() == 0 {
        None
    } else {
        match blocks[0] {
            BlockView::Text { text } => if text.len() > 0 {
                Some(text)
            } else {
                first_nonempty_text(blocks.drop_first())
            },
            _ => first_nonempty_text(blocks.drop_first()),
        }
    }
}

/// The summary in a compaction reply: its first non-empty text block, or
/// `None` when it has none.
pub fn compact_summary(reply: &Vec<ContentBlock>) -> (r: Option<String>)
    ensures
        match r {
            Some(s) => first_nonempty_text(crate::model::blocks_view(reply@)) == Some(s@),
            None => first_nonempty_text(crate::model::blocks_view(reply@)) is None,
        },
{
    let ghost bv = crate::model::blocks_view(reply@);
    assert(bv.subrange(0, bv.len() as int) =~= bv);
    let mut i: usize = 0;
    while i < reply.len()
        invariant
            i <= reply@.len(),
            bv == crate::model::blocks_view(reply@),
            first_nonempty_text(bv) == first_nonempty_text(bv.subrange(i as int, bv.len() as int)),
        decreases reply@.len() - i,
    {
        let ghost rest = bv.subrange(i as int, bv.len() as int);
        assert(rest.drop_first() == bv.subrange(i as int + 1, bv.len() as int));
        match &reply[i] {
            ContentBlock::Text { text } => {
                if !text.as_str().is_empty() {
                    return Some(text.clone());
                }
            },
            _ => {},
        }
        i += 1;
    }
    None
}

} // verus!
