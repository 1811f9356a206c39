//! The LLM wire model the agent reads and writes — messages, content
//! blocks, tool calls and usage — and the conversation [`HistoryEntry`].
//!
//! These hold as plain values what the agent logic reads of the provider
//! wire types; JSON payloads (tool inputs, schemas) travel as their text.

use crate::text::{chars_eq, chars_of, string_of};
use vstd::prelude::*;

verus! {

/// Whether two strings are equal.
pub fn str_eq(a: &str, b: &str) -> (r: bool)
    ensures
        r == (a@ == b@),
{
    let x = chars_of(a);
    let y = chars_of(b);
    chars_eq(&x, &y)
}

/// A copy of `s` with the same characters.
pub fn copy_string(s: &String) -> (r: String)
    ensures
        r@ == s@,
{
    s.clone()
}

/// A copy of an optional string.
pub fn copy_opt_string(s: &Option<String>) -> (r: Option<String>)
    ensures
        opt_view(r) == opt_view(*s),
{
    match s {
        Some(x) => Some(x.clone()),
        None => None,
    }
}

/// An optional string by its view.
pub open spec fn opt_view(s: Option<String>) -> Option<Seq<char>> {
    match s {
        Some(x) => Some(x@),
        None => None,
    }
}

/// The speaker of a message.
#[derive(PartialEq, Eq, Structural, Clone, Copy, Debug)]
pub enum Role {
    System,
    User,
    Assistant,
}

/// Which tool the model is asked to call.
#[derive(Clone, Debug)]
pub enum ToolChoice {
    Disabled,
    Auto,
    Required,
    Function { name: String },
}

impl ToolChoice {
    /// Read a tool choice by name (`ToolChoice::from(&str)`): `"none"`
    /// disables tools, `"auto"` and `"required"` are themselves, and any
    /// other name asks for the function of that name.
    pub fn from_name(value: &str) -> (r: ToolChoice)
        ensures
            value@ == "none"@ ==> r is Disabled,
            value@ == "auto"@ ==> r is Auto,
            value@ == "required"@ ==> r is Required,
            value@ != "none"@ && value@ != "auto"@ && value@ != "required"@ ==> (r matches ToolChoice::Function {
                name,
            } && name@ == value@),
    {
        proof {
            reveal_strlit("none");
            reveal_strlit("auto");
            reveal_strlit("required");
            assert("auto"@[0] != "none"@[0]);
            assert("required"@.len() != "none"@.len());
            assert("required"@.len() != "auto"@.len());
        }
        if str_eq(value, "none") {
            ToolChoice::Disabled
        } else if str_eq(value, "auto") {
            ToolChoice::Auto
        } else if str_eq(value, "required") {
            ToolChoice::Required
        } else {
            ToolChoice::Function { name: string_of(value) }
        }
    }
}

/// Why a model response ended.
#[derive(Clone, Debug)]
pub enum FinishReason {
    Stop,
    Length,
    ToolCalls,
    ContentFilter,
    Custom(String),
}

impl FinishReason {
    /// The finish reason of a Messages-API stop reason
    /// (`anthropic::finish_reason`): `end_turn`, `max_tokens` and
    /// `tool_use` are stop, length and tool calls; anything else is kept as
    /// a custom reason.
    pub fn from_stop_reason(reason: &str) -> (r: FinishReason)
        ensures
            reason@ == "end_turn"@ ==> r is Stop,
            reason@ == "max_tokens"@ ==> r is Length,
            reason@ == "tool_use"@ ==> r is ToolCalls,
            reason@ != "end_turn"@ && reason@ != "max_tokens"@ && reason@ != "tool_use"@ ==> (r matches FinishReason::Custom(
                s,
            ) && s@ == reason@),
    {
        proof {
            reveal_strlit("end_turn");
            reveal_strlit("max_tokens");
            reveal_strlit("tool_use");
            assert("end_turn"@[0] != "max_tokens"@[0]);
            assert("end_turn"@[0] != "tool_use"@[0]);
            assert("max_tokens"@[0] != "tool_use"@[0]);
        }
        if str_eq(reason, "end_turn") {
            FinishReason::Stop
        } else if str_eq(reason, "max_tokens") {
            FinishReason::Length
        } else if str_eq(reason, "tool_use") {
            FinishReason::ToolCalls
        } else {
            FinishReason::Custom(string_of(reason))
        }
    }
}

/// A tool call requested by the model; `arguments` is JSON text.
#[derive(Clone, Debug)]
pub struct ToolCall {
    pub id: String,
    pub name: String,
    pub arguments: String,
}

/// A tool schema advertised to the model; `parameters` is JSON-schema text.
#[derive(Clone, Debug)]
pub struct Tool {
    pub name: String,
    pub description: String,
    pub parameters: Option<String>,
}

/// A copy of a tool schema.
pub fn copy_tool(t: &Tool) -> (r: Tool)
    ensures
        r == *t,
{
    Tool {
        name: t.name.clone(),
        description: t.description.clone(),
        parameters: match &t.parameters {
            Some(p) => Some(p.clone()),
            None => None,
        },
    }
}

/// The content of a tool result.
#[derive(Clone, Debug)]
pub enum ToolResultContent {
    Text(String),
    /// Structured content, carried as its JSON text.
    Json(String),
}

/// A content block within a message; JSON payloads are carried as text.
#[derive(Clone, Debug)]
pub enum ContentBlock {
    Text { text: String },
    ToolUse { id: String, name: String, input: String },
    ToolResult { tool_use_id: String, name: Option<String>, content: ToolResultContent },
    Thinking { thinking: String, signature: Option<String> },
    Image { source: String },
}

/// Message content: either a plain string or a list of blocks.
#[derive(Clone, Debug)]
pub enum Content {
    Text(String),
    Blocks(Vec<ContentBlock>),
}

/// A wire-level message.
#[derive(Clone, Debug)]
pub struct Message {
    pub role: String,
    pub content: Content,
}

// ── Views ───────────────────────────────────────────────────────────

/// A content block with its strings read as characters.
pub enum BlockView {
    Text { text: Seq<char> },
    ToolUse { id: Seq<char>, name: Seq<char>, input: Seq<char> },
    ToolResultText { tool_use_id: Seq<char>, name: Option<Seq<char>>, text: Seq<char> },
    ToolResultJson { tool_use_id: Seq<char>, name: Option<Seq<char>>, json: Seq<char> },
    Thinking { thinking: Seq<char>, signature: Option<Seq<char>> },
    Image { source: Seq<char> },
}

/// Message content with its strings read as characters.
pub enum ContentView {
    Text(Seq<char>),
    Blocks(Seq<BlockView>),
}

/// A message with its strings read as characters.
pub struct MessageView {
    pub role: Seq<char>,
    pub content: ContentView,
}

impl ContentBlock {
    pub open spec fn view_of(&self) -> BlockView {
        match self {
            ContentBlock::Text { text } => BlockView::Text { text: text@ },
            ContentBlock::ToolUse { id, name, input } => BlockView::ToolUse {
                id: id@,
                name: name@,
                input: input@,
            },
            ContentBlock::ToolResult { tool_use_id, name, content } => match content {
                ToolResultContent::Text(t) => BlockView::ToolResultText {
                    tool_use_id: tool_use_id@,
                    name: opt_view(*name),
                    text: t@,
                },
                ToolResultContent::Json(j) => BlockView::ToolResultJson {
                    tool_use_id: tool_use_id@,
                    name: opt_view(*name),
                    json: j@,
                },
            },
            ContentBlock::Thinking { thinking, signature } => BlockView::Thinking {
                thinking: thinking@,
                signature: opt_view(*signature),
            },
            ContentBlock::Image { source } => BlockView::Image { source: source@ },
        }
    }

    /// A copy of this block.
    pub fn copy(&self) -> (r: ContentBlock)
        ensures
            r.view_of() == self.view_of(),
    {
        match self {
            ContentBlock::Text { text } => ContentBlock::Text { text: text.clone() },
            ContentBlock::ToolUse { id, name, input } => ContentBlock::ToolUse {
                id: id.clone(),
                name: name.clone(),
                input: input.clone(),
            },
            ContentBlock::ToolResult { tool_use_id, name, content } => ContentBlock::ToolResult {
                tool_use_id: tool_use_id.clone(),
                name: copy_opt_string(name),
                content: match content {
                    ToolResultContent::Text(t) => ToolResultContent::Text(t.clone()),
                    ToolResultContent::Json(j) => ToolResultContent::Json(j.clone()),
                },
            },
            ContentBlock::Thinking { thinking, signature } => ContentBlock::Thinking {
                thinking: thinking.clone(),
                signature: copy_opt_string(signature),
            },
            ContentBlock::Image { source } => ContentBlock::Image { source: source.clone() },
        }
    }
}

/// The views of a list of blocks.
pub open spec fn blocks_view(blocks: Seq<ContentBlock>) -> Seq<BlockView> {
    blocks.map_values(|b: ContentBlock| b.view_of())
}

/// A copy of a list of blocks.
pub fn copy_blocks(blocks: &Vec<ContentBlock>) -> (r: Vec<ContentBlock>)
    ensures
        blocks_view(r@) == blocks_view(blocks@),
{
    let mut r: Vec<ContentBlock> = Vec::new();
    let mut i: usize = 0;
    while i < blocks.len()
        invariant
            i <= blocks@.len(),
            blocks_view(r@) =~= blocks_view(blocks@).take(i as int),
        decreases blocks@.len() - i,
    {
        let b = blocks[i].copy();
        r.push(b);
        assert(blocks_view(blocks@).take(i + 1) =~= blocks_view(blocks@).take(i as int).push(
            blocks@[i as int].view_of(),
        ));
        assert(blocks_view(r@) =~= blocks_view(blocks@).take(i + 1));
        i += 1;
    }
    r
}

impl Content {
    pub open spec fn view_of(&self) -> ContentView {
        match self {
            Content::Text(t) => ContentView::Text(t@),
            Content::Blocks(b) => ContentView::Blocks(blocks_view(b@)),
        }
    }
}

impl Message {
    pub open spec fn view_of(&self) -> MessageView {
        MessageView { role: self.role@, content: self.content.view_of() }
    }

    /// A copy of this message.
    pub fn copy(&self) -> (r: Message)
        ensures
            r.view_of() == self.view_of(),
    {
        Message {
            role: self.role.clone(),
            content: match &self.content {
                Content::Text(t) => Content::Text(t.clone()),
                Content::Blocks(b) => Content::Blocks(copy_blocks(b)),
            },
        }
    }

    /// A user message holding one text block.
    pub fn user(text: String) -> (r: Message)
        ensures
            r.view_of() == (MessageView {
                role: "user"@,
                content: ContentView::Blocks(seq![BlockView::Text { text: text@ }]),
            }),
    {
        let mut blocks: Vec<ContentBlock> = Vec::new();
        blocks.push(ContentBlock::Text { text });
        let r = Message { role: string_of("user"), content: Content::Blocks(blocks) };
        assert(blocks_view(blocks@) =~= seq![BlockView::Text { text: text@ }]);
        r
    }

    /// A tool result: a `tool_result` block inside a user message.
    pub fn tool(tool_use_id: String, name: String, content: String) -> (r: Message)
        ensures
            r.view_of() == (MessageView {
                role: "user"@,
                content: ContentView::Blocks(
                    seq![
                        BlockView::ToolResultText {
                            tool_use_id: tool_use_id@,
                            name: Some(name@),
                            text: content@,
                        },
                    ],
                ),
            }),
    {
        let mut blocks: Vec<ContentBlock> = Vec::new();
        let ghost (a, b, c) = (tool_use_id@, name@, content@);
        blocks.push(
            ContentBlock::ToolResult {
                tool_use_id,
                name: Some(name),
                content: ToolResultContent::Text(content),
            },
        );
        let r = Message { role: string_of("user"), content: Content::Blocks(blocks) };
        assert(blocks_view(blocks@) =~= seq![
            BlockView::ToolResultText { tool_use_id: a, name: Some(b), text: c },
        ]);
        r
    }

    /// The first non-empty text of this message: plain-text content as is,
    /// else the first non-empty `text` block, else the first non-empty text
    /// `tool_result`.
    pub open spec fn spec_text(&self) -> Option<Seq<char>> {
        match self.content.view_of() {
            ContentView::Text(t) => if t.len() > 0 {
                Some(t)
            } else {
                None
            },
            ContentView::Blocks(bs) => match first_text_block(bs) {
                Some(t) => Some(t),
                None => first_text_result(bs),
            },
        }
    }

    /// See [`Message::spec_text`].
    pub fn text(&self) -> (r: Option<&str>)
        ensures
            r matches Some(s) ==> self.spec_text() == Some(s@),
            r is None <==> self.spec_text() is None,
    {
        match &self.content {
            Content::Text(t) => {
                if !t.as_str().is_empty() {
                    Some(t.as_str())
                } else {
                    None
                }
            },
            Content::Blocks(bs) => {
                let mut i: usize = 0;
                assert(blocks_view(bs@).skip(0) =~= blocks_view(bs@));
                while i < bs.len()
                    invariant
                        i <= bs@.len(),
                        self.content.view_of() == ContentView::Blocks(blocks_view(bs@)),
                        first_text_block(blocks_view(bs@)) == first_text_block(
                            blocks_view(bs@).skip(i as int),
                        ),
                    decreases bs@.len() - i,
                {
                    proof {
                        assert(blocks_view(bs@).skip(i as int)[0] == bs@[i as int].view_of());
                        assert(blocks_view(bs@).skip(i as int).drop_first() =~= blocks_view(
                            bs@,
                        ).skip(i + 1));
                    }
                    if let ContentBlock::Text { text } = &bs[i] {
                        if !text.as_str().is_empty() {
                            return Some(text.as_str());
                        }
                    }
                    i += 1;
                }
                assert(blocks_view(bs@).skip(i as int) =~= Seq::<BlockView>::empty());
                let mut j: usize = 0;
                assert(blocks_view(bs@).skip(0) =~= blocks_view(bs@));
                while j < bs.len()
                    invariant
                        j <= bs@.len(),
                        self.content.view_of() == ContentView::Blocks(blocks_view(bs@)),
                        first_text_result(blocks_view(bs@)) == first_text_result(
                            blocks_view(bs@).skip(j as int),
                        ),
                        first_text_block(blocks_view(bs@)) is None,
                    decreases bs@.len() - j,
                {
                    proof {
                        assert(blocks_view(bs@).skip(j as int)[0] == bs@[j as int].view_of());
                        assert(blocks_view(bs@).skip(j as int).drop_first() =~= blocks_view(
                            bs@,
                        ).skip(j + 1));
                    }
                    if let ContentBlock::ToolResult { content: ToolResultContent::Text(s), .. } =
                        &bs[j] {
                        if !s.as_str().is_empty() {
                            return Some(s.as_str());
                        }
                    }
                    j += 1;
                }
                assert(blocks_view(bs@).skip(j as int) =~= Seq::<BlockView>::empty());
                None
            },
        }
    }

    /// The tool calls of this message, in block order.
    pub open spec fn spec_tool_calls(&self) -> Seq<ToolCallView> {
        match self.content.view_of() {
            ContentView::Text(_) => Seq::empty(),
            ContentView::Blocks(bs) => tool_uses_of(bs),
        }
    }
}

/// The first non-empty `text` block.
pub open spec fn first_text_block(bs: Seq<BlockView>) -> Option<Seq<char>>
    decreases bs.len(),
{
    if bs.len() == 0 {
        None
    } else {
        match bs[0] {
            BlockView::Text { text } => if text.len() > 0 {
                Some(text)
            } else {
                first_text_block(bs.drop_first())
            },
            _ => first_text_block(bs.drop_first()),
        }
    }
}

/// The first non-empty `thinking` block.
pub open spec fn first_thinking(bs: Seq<BlockView>) -> Option<Seq<char>>
    decreases bs.len(),
{
    if bs.len() == 0 {
        None
    } else {
        match bs[0] {
            BlockView::Thinking { thinking, .. } => if thinking.len() > 0 {
                Some(thinking)
            } else {
                first_thinking(bs.drop_first())
            },
            _ => first_thinking(bs.drop_first()),
        }
    }
}

/// The `tool_use_id` of the first `tool_result` block.
pub open spec fn first_result_id(bs: Seq<BlockView>) -> Option<Seq<char>>
    decreases bs.len(),
{
    if bs.len() == 0 {
        None
    } else {
        match bs[0] {
            BlockView::ToolResultText { tool_use_id, .. } => Some(tool_use_id),
            BlockView::ToolResultJson { tool_use_id, .. } => Some(tool_use_id),
            _ => first_result_id(bs.drop_first()),
        }
    }
}

/// The first non-empty text `tool_result`.
pub open spec fn first_text_result(bs: Seq<BlockView>) -> Option<Seq<char>>
    decreases bs.len(),
{
    if bs.len() == 0 {
        None
    } else {
        match bs[0] {
            BlockView::ToolResultText { text, .. } => if text.len() > 0 {
                Some(text)
            } else {
                first_text_result(bs.drop_first())
            },
            _ => first_text_result(bs.drop_first()),
        }
    }
}

/// A tool call with its strings read as characters.
pub struct ToolCallView {
    pub id: Seq<char>,
    pub name: Seq<char>,
    pub arguments: Seq<char>,
}

impl ToolCall {
    pub open spec fn view_of(&self) -> ToolCallView {
        ToolCallView { id: self.id@, name: self.name@, arguments: self.arguments@ }
    }
}

/// The views of a list of tool calls.
pub open spec fn calls_view(calls: Seq<ToolCall>) -> Seq<ToolCallView> {
    calls.map_values(|c: ToolCall| c.view_of())
}

/// The `tool_use` blocks of a block list, as tool calls.
pub open spec fn tool_uses_of(bs: Seq<BlockView>) -> Seq<ToolCallView>
    decreases bs.len(),
{
    if bs.len() == 0 {
        Seq::empty()
    } else {
        let rest = tool_uses_of(bs.drop_last());
        match bs.last() {
            BlockView::ToolUse { id, name, input } => rest.push(
                ToolCallView { id, name, arguments: input },
            ),
            _ => rest,
        }
    }
}

/// The tool calls in a list of content blocks (`tool_use` blocks, in order).
pub fn extract_tool_calls(blocks: &Vec<ContentBlock>) -> (r: Vec<ToolCall>)
    ensures
        calls_view(r@) == tool_uses_of(blocks_view(blocks@)),
{
    let mut r: Vec<ToolCall> = Vec::new();
    let mut i: usize = 0;
    while i < blocks.len()
        invariant
            i <= blocks@.len(),
            calls_view(r@) == tool_uses_of(blocks_view(blocks@).take(i as int)),
        decreases blocks@.len() - i,
    {
        proof {
            assert(blocks_view(blocks@).take(i + 1).drop_last() =~= blocks_view(blocks@).take(
                i as int,
            ));
            assert(blocks_view(blocks@).take(i + 1).last() == blocks@[i as int].view_of());
        }
        if let ContentBlock::ToolUse { id, name, input } = &blocks[i] {
            let call = ToolCall { id: id.clone(), name: name.clone(), arguments: input.clone() };
            r.push(call);
            assert(calls_view(r@) =~= tool_uses_of(blocks_view(blocks@).take(i as int)).push(
                call.view_of(),
            ));
        }
        i += 1;
    }
    assert(blocks_view(blocks@).take(i as int) =~= blocks_view(blocks@));
    r
}

/// The `tool_use` block of a tool call: its arguments read as JSON, `{}`
/// when they do not parse.
pub open spec fn tool_use_of_call(c: ToolCallView) -> BlockView {
    BlockView::ToolUse {
        id: c.id,
        name: c.name,
        input: match json_value_text(c.arguments) {
            Some(t) => t,
            None => "{}"@,
        },
    }
}

/// The JSON value `text` parses to, serialized again (`serde_json`); `None`
/// when `text` is not JSON.
pub uninterp spec fn json_value_text(text: Seq<char>) -> Option<Seq<char>>;

/// Parse `text` as a JSON value with `serde_json::from_str` and carry it on
/// as its serialized text. The contract names the result: whether it parses
/// and what it serializes to are `serde_json`'s, a function of `text` alone.
#[verifier::external_body]
fn parse_json_value(text: &str) -> (r: Option<String>)
    ensures
        opt_view(r) == json_value_text(text@),
{
    serde_json::from_str::<serde_json::Value>(text).ok().map(|v| v.to_string())
}

// ── History ─────────────────────────────────────────────────────────

/// A single conversation history entry: the wire message plus runtime
/// state (who produced it, who sent it, whether the runtime injected it).
#[derive(Clone, Debug)]
pub struct HistoryEntry {
    /// Which agent produced this assistant message. Empty = the
    /// conversation's primary agent.
    pub agent: String,
    /// The sender identity (runtime-only).
    pub sender: String,
    /// Whether this entry was auto-injected by the runtime (runtime-only).
    pub auto_injected: bool,
    /// The wire-level message sent to providers.
    pub message: Message,
}

/// The role a message's role string reads as: `"assistant"`, `"system"`,
/// anything else is a user message.
pub open spec fn role_of(role: Seq<char>) -> Role {
    if role == "assistant"@ {
        Role::Assistant
    } else if role == "system"@ {
        Role::System
    } else {
        Role::User
    }
}

/// `prefix + agent + infix + text + suffix`, the guest-message wrapper.
pub open spec fn wrap_from_agent(agent: Seq<char>, text: Seq<char>) -> Seq<char> {
    "<from agent=\""@ + agent + "\">\n"@ + text + "\n</from>"@
}

/// A block as sent for a guest agent: text blocks are wrapped.
pub open spec fn wrap_block(agent: Seq<char>, b: BlockView) -> BlockView {
    match b {
        BlockView::Text { text } => BlockView::Text { text: wrap_from_agent(agent, text) },
        other => other,
    }
}

impl HistoryEntry {
    /// Wrap an existing message.
    pub fn from_message(message: Message) -> (r: HistoryEntry)
        ensures
            r.agent@.len() == 0,
            r.sender@.len() == 0,
            !r.auto_injected,
            r.message == message,
    {
        HistoryEntry { agent: String::new(), sender: String::new(), auto_injected: false, message }
    }

    /// Create a new user entry.
    pub fn user(content: &str) -> (r: HistoryEntry)
        ensures
            r.agent@.len() == 0,
            r.sender@.len() == 0,
            !r.auto_injected,
            r.message.view_of() == (MessageView {
                role: "user"@,
                content: ContentView::Blocks(seq![BlockView::Text { text: content@ }]),
            }),
    {
        Self::from_message(Message::user(string_of(content)))
    }

    /// Create a new user entry with sender identity.
    pub fn user_with_sender(content: &str, sender: &str) -> (r: HistoryEntry)
        ensures
            r.agent@.len() == 0,
            r.sender@ == sender@,
            !r.auto_injected,
            r.message.view_of() == (MessageView {
                role: "user"@,
                content: ContentView::Blocks(seq![BlockView::Text { text: content@ }]),
            }),
    {
        let mut entry = Self::user(content);
        entry.sender = string_of(sender);
        entry
    }

    /// Create a new tool-result entry.
    pub fn tool(content: &str, call_id: &str, name: &str) -> (r: HistoryEntry)
        ensures
            r.agent@.len() == 0,
            r.sender@.len() == 0,
            !r.auto_injected,
            r.message.view_of() == (MessageView {
                role: "user"@,
                content: ContentView::Blocks(
                    seq![
                        BlockView::ToolResultText {
                            tool_use_id: call_id@,
                            name: Some(name@),
                            text: content@,
                        },
                    ],
                ),
            }),
    {
        Self::from_message(Message::tool(string_of(call_id), string_of(name), string_of(content)))
    }

    /// The blocks of an assistant message: the reasoning (when non-empty),
    /// the text (when non-empty, or when there are no tool calls), then one
    /// `tool_use` per call, whose input is the call's arguments read as JSON
    /// (`{}` when they do not parse).
    pub open spec fn spec_assistant_blocks(
        text: Seq<char>,
        reasoning: Option<Seq<char>>,
        calls: Seq<ToolCallView>,
    ) -> Seq<BlockView> {
        (match reasoning {
            Some(r) => if r.len() > 0 {
                seq![BlockView::Thinking { thinking: r, signature: None }]
            } else {
                Seq::empty()
            },
            None => Seq::empty(),
        }) + (if text.len() > 0 || calls.len() == 0 {
            seq![BlockView::Text { text }]
        } else {
            Seq::empty()
        }) + calls.map_values(|c: ToolCallView| tool_use_of_call(c))
    }

    /// Create a new assistant entry from text, optional reasoning and tool
    /// calls.
    pub fn assistant(content: &str, reasoning: Option<String>, tool_calls: Option<&[ToolCall]>) -> (r:
        HistoryEntry)
        ensures
            r.agent@.len() == 0,
            r.sender@.len() == 0,
            !r.auto_injected,
            r.message.view_of() == (MessageView {
                role: "assistant"@,
                content: ContentView::Blocks(
                    Self::spec_assistant_blocks(
                        content@,
                        opt_view(reasoning),
                        match tool_calls {
                            Some(c) => calls_view(c@),
                            None => Seq::empty(),
                        },
                    ),
                ),
            }),
    {
        let ghost calls = match tool_calls {
            Some(c) => calls_view(c@),
            None => Seq::<ToolCallView>::empty(),
        };
        let mut blocks: Vec<ContentBlock> = Vec::new();
        let ghost rview = opt_view(reasoning);
        match reasoning {
            Some(r) => {
                if !r.as_str().is_empty() {
                    blocks.push(ContentBlock::Thinking { thinking: r, signature: None });
                }
            },
            None => {},
        }
        let ghost b0 = blocks_view(blocks@);
        let n_calls = match tool_calls {
            Some(c) => c.len(),
            None => 0,
        };
        if !content.is_empty() || n_calls == 0 {
            blocks.push(ContentBlock::Text { text: string_of(content) });
        }
        let ghost b1 = blocks_view(blocks@);
        assert(b1 =~= b0 + (if content@.len() > 0 || calls.len() == 0 {
            seq![BlockView::Text { text: content@ }]
        } else {
            Seq::empty()
        }));
        if let Some(cs) = tool_calls {
            let mut i: usize = 0;
            while i < cs.len()
                invariant
                    i <= cs@.len(),
                    calls == calls_view(cs@),
                    blocks_view(blocks@) =~= b1 + calls.take(i as int).map_values(|c: ToolCallView| tool_use_of_call(c)),
                decreases cs@.len() - i,
            {
                let c = &cs[i];
                let parsed = parse_json_value(c.arguments.as_str());
                let input = match parsed {
                    Some(t) => t,
                    None => string_of("{}"),
                };
                assert(calls[i as int] == c.view_of());
                assert(input@ == match json_value_text(c.arguments@) {
                    Some(t) => t,
                    None => "{}"@,
                });
                let b = ContentBlock::ToolUse { id: c.id.clone(), name: c.name.clone(), input };
                let ghost before = blocks@;
                blocks.push(b);
                proof {
                    assert(calls.take(i + 1) =~= calls.take(i as int).push(calls[i as int]));
                    assert(blocks_view(blocks@) =~= blocks_view(before).push(b.view_of()));
                    assert(b.view_of() == tool_use_of_call(calls[i as int]));
                }
                i += 1;
            }
            assert(calls.take(i as int) =~= calls);
        } else {
            assert(calls.map_values(|c: ToolCallView| tool_use_of_call(c)) =~= Seq::<BlockView>::empty());
        }
        let r = Self::from_message(
            Message { role: string_of("assistant"), content: Content::Blocks(blocks) },
        );
        assert(blocks_view(blocks@) =~= Self::spec_assistant_blocks(content@, rview, calls));
        r
    }

    /// Create a new system entry: held in history for the runtime's own
    /// bookkeeping (the wire has no system role; it is hoisted into the
    /// request's system prompt).
    pub fn system(content: &str) -> (r: HistoryEntry)
        ensures
            r.agent@.len() == 0,
            r.sender@.len() == 0,
            !r.auto_injected,
            r.message.view_of() == (MessageView {
                role: "system"@,
                content: ContentView::Blocks(seq![BlockView::Text { text: content@ }]),
            }),
    {
        let mut blocks: Vec<ContentBlock> = Vec::new();
        blocks.push(ContentBlock::Text { text: string_of(content) });
        let m = Message { role: string_of("system"), content: Content::Blocks(blocks) };
        assert(blocks_view(blocks@) =~= seq![BlockView::Text { text: content@ }]);
        Self::from_message(m)
    }

    /// The reasoning of the message: its first non-empty `thinking` block,
    /// or `""`.
    pub fn reasoning(&self) -> (r: &str)
        ensures
            r@ == match self.message.content.view_of() {
                ContentView::Blocks(bs) => match first_thinking(bs) {
                    Some(t) => t,
                    None => Seq::empty(),
                },
                ContentView::Text(_) => Seq::empty(),
            },
    {
        proof {
            reveal_strlit("");
        }
        match &self.message.content {
            Content::Text(_) => "",
            Content::Blocks(bs) => {
                let mut i: usize = 0;
                assert(blocks_view(bs@).skip(0) =~= blocks_view(bs@));
                while i < bs.len()
                    invariant
                        i <= bs@.len(),
                        first_thinking(blocks_view(bs@)) == first_thinking(blocks_view(bs@).skip(i as int)),
                        self.message.content.view_of() == ContentView::Blocks(blocks_view(bs@)),
                    decreases bs@.len() - i,
                {
                    proof {
                        assert(blocks_view(bs@).skip(i as int)[0] == bs@[i as int].view_of());
                        assert(blocks_view(bs@).skip(i as int).drop_first() =~= blocks_view(bs@).skip(i + 1));
                    }
                    if let ContentBlock::Thinking { thinking, .. } = &bs[i] {
                        if !thinking.as_str().is_empty() {
                            return thinking.as_str();
                        }
                    }
                    i += 1;
                }
                assert(blocks_view(bs@).skip(i as int) =~= Seq::<BlockView>::empty());
                ""
            },
        }
    }

    /// The tool calls of the message (its `tool_use` blocks, in order).
    pub fn tool_calls(&self) -> (r: Vec<ToolCall>)
        ensures
            calls_view(r@) == self.message.spec_tool_calls(),
    {
        match &self.message.content {
            Content::Text(_) => {
                assert(calls_view(Seq::<ToolCall>::empty()) =~= Seq::<ToolCallView>::empty());
                Vec::new()
            },
            Content::Blocks(bs) => extract_tool_calls(bs),
        }
    }

    /// The `tool_use_id` of the first `tool_result` block, or `""`.
    pub fn tool_call_id(&self) -> (r: &str)
        ensures
            r@ == match self.message.content.view_of() {
                ContentView::Blocks(bs) => match first_result_id(bs) {
                    Some(id) => id,
                    None => Seq::empty(),
                },
                ContentView::Text(_) => Seq::empty(),
            },
    {
        proof {
            reveal_strlit("");
        }
        match &self.message.content {
            Content::Text(_) => "",
            Content::Blocks(bs) => {
                let mut i: usize = 0;
                assert(blocks_view(bs@).skip(0) =~= blocks_view(bs@));
                while i < bs.len()
                    invariant
                        i <= bs@.len(),
                        first_result_id(blocks_view(bs@)) == first_result_id(blocks_view(bs@).skip(i as int)),
                        self.message.content.view_of() == ContentView::Blocks(blocks_view(bs@)),
                    decreases bs@.len() - i,
                {
                    proof {
                        assert(blocks_view(bs@).skip(i as int)[0] == bs@[i as int].view_of());
                        assert(blocks_view(bs@).skip(i as int).drop_first() =~= blocks_view(bs@).skip(i + 1));
                    }
                    if let ContentBlock::ToolResult { tool_use_id, .. } = &bs[i] {
                        return tool_use_id.as_str();
                    }
                    i += 1;
                }
                assert(blocks_view(bs@).skip(i as int) =~= Seq::<BlockView>::empty());
                ""
            },
        }
    }

    /// Mark this entry as auto-injected (chainable).
    pub fn auto_injected(self) -> (r: HistoryEntry)
        ensures
            r.auto_injected,
            r.agent == self.agent,
            r.sender == self.sender,
            r.message == self.message,
    {
        let mut e = self;
        e.auto_injected = true;
        e
    }

    /// The role of the underlying message.
    pub open spec fn spec_role(&self) -> Role {
        role_of(self.message.role@)
    }

    /// The role of the underlying message.
    pub fn role(&self) -> (r: Role)
        ensures
            r == self.spec_role(),
    {
        if str_eq(self.message.role.as_str(), "assistant") {
            Role::Assistant
        } else if str_eq(self.message.role.as_str(), "system") {
            Role::System
        } else {
            Role::User
        }
    }

    /// The text content of the message, or `""` if absent / empty.
    pub fn text(&self) -> (r: &str)
        ensures
            r@ == match self.message.spec_text() {
                Some(t) => t,
                None => Seq::empty(),
            },
    {
        match self.message.text() {
            Some(t) => t,
            None => {
                proof {
                    reveal_strlit("");
                }
                ""
            },
        }
    }

    /// The wire message sent for this entry: a guest assistant message
    /// (non-empty `agent`) has each text block wrapped in
    /// `<from agent="...">` tags; everything else goes out unchanged.
    pub open spec fn spec_wire_message(&self) -> MessageView {
        let m = self.message.view_of();
        if self.spec_role() != Role::Assistant || self.agent@.len() == 0 {
            m
        } else {
            match m.content {
                ContentView::Text(_) => m,
                ContentView::Blocks(bs) => MessageView {
                    role: m.role,
                    content: ContentView::Blocks(
                        bs.map_values(|b: BlockView| wrap_block(self.agent@, b)),
                    ),
                },
            }
        }
    }

    /// Project to a `Message` for sending to a provider.
    pub fn to_wire_message(&self) -> (r: Message)
        ensures
            r.view_of() == self.spec_wire_message(),
    {
        if self.role() != Role::Assistant || self.agent.as_str().is_empty() {
            return self.message.copy();
        }
        match &self.message.content {
            Content::Text(t) => self.message.copy(),
            Content::Blocks(bs) => {
                let mut out: Vec<ContentBlock> = Vec::new();
                let mut i: usize = 0;
                while i < bs.len()
                    invariant
                        i <= bs@.len(),
                        blocks_view(out@) =~= blocks_view(bs@).take(i as int).map_values(
                            |b: BlockView| wrap_block(self.agent@, b),
                        ),
                    decreases bs@.len() - i,
                {
                    let b = match &bs[i] {
                        ContentBlock::Text { text } => {
                            let mut w = string_of("<from agent=\"");
                            w.append(self.agent.as_str());
                            w.append("\">\n");
                            w.append(text.as_str());
                            w.append("\n</from>");
                            ContentBlock::Text { text: w }
                        },
                        other => other.copy(),
                    };
                    assert(b.view_of() == wrap_block(self.agent@, bs@[i as int].view_of()));
                    let ghost before = out@;
                    out.push(b);
                    proof {
                        let f = |b: BlockView| wrap_block(self.agent@, b);
                        assert(blocks_view(bs@).take(i + 1) =~= blocks_view(bs@).take(
                            i as int,
                        ).push(bs@[i as int].view_of()));
                        assert(blocks_view(out@) =~= blocks_view(before).push(b.view_of()));
                        assert(blocks_view(bs@).take(i + 1).map_values(f) =~= blocks_view(
                            bs@,
                        ).take(i as int).map_values(f).push(f(bs@[i as int].view_of())));
                    }
                    i += 1;
                }
                assert(blocks_view(bs@).take(i as int) =~= blocks_view(bs@));
                Message { role: self.message.role.clone(), content: Content::Blocks(out) }
            },
        }
    }
}

/// The sender of the last user entry of `history`, or empty.
pub open spec fn spec_last_sender(history: Seq<HistoryEntry>) -> Seq<char>
    decreases history.len(),
{
    if history.len() == 0 {
        Seq::empty()
    } else if history.last().spec_role() == Role::User {
        history.last().sender@
    } else {
        spec_last_sender(history.drop_last())
    }
}

/// A guest agent's reply is marked with its speaker when it goes to the
/// model: for an assistant entry with a non-empty agent, every text block
/// becomes `<from agent="…">\n…\n</from>` and every other block stays, so
/// the message sent differs whenever it has a text block. Any other entry
/// goes out as stored.
pub proof fn lemma_guest_replies_are_marked(e: HistoryEntry)
    ensures
        e.spec_wire_message().role == e.message.view_of().role,
        (e.message.role@ != "assistant"@ || e.agent@.len() == 0) ==> e.spec_wire_message() == e.message.view_of(),
        (e.message.role@ == "assistant"@ && e.agent@.len() > 0) ==> match e.message.view_of().content {
            ContentView::Text(t) => e.spec_wire_message().content == ContentView::Text(t),
            ContentView::Blocks(bs) => e.spec_wire_message().content matches ContentView::Blocks(ws) && ws.len()
                == bs.len() && forall|i: int|
                0 <= i < bs.len() ==> match #[trigger] bs[i] {
                    BlockView::Text { text } => ws[i] == BlockView::Text {
                        text: "<from agent=\""@ + e.agent@ + "\">\n"@ + text + "\n</from>"@,
                    },
                    other => ws[i] == other,
                },
        },
        (e.message.role@ == "assistant"@ && e.agent@.len() > 0) ==> (e.message.view_of().content matches ContentView::Blocks(bs)
            && exists|i: int| 0 <= i < bs.len() && #[trigger] bs[i] is Text) ==> e.spec_wire_message()
            != e.message.view_of(),
{
    reveal_strlit("assistant");
    reveal_strlit("<from agent=\"");
    reveal_strlit("\">\n");
    reveal_strlit("\n</from>");
    if e.message.role@ == "assistant"@ && e.agent@.len() > 0 {
        assert(e.spec_role() == Role::Assistant);
        match e.message.view_of().content {
            ContentView::Text(_) => {},
            ContentView::Blocks(bs) => {
                let ws = bs.map_values(|b: BlockView| wrap_block(e.agent@, b));
                assert(e.spec_wire_message().content == ContentView::Blocks(ws));
                if exists|i: int| 0 <= i < bs.len() && #[trigger] bs[i] is Text {
                    let i = choose|i: int| 0 <= i < bs.len() && #[trigger] bs[i] is Text;
                    let t = bs[i]->Text_text;
                    assert(ws[i] == BlockView::Text { text: wrap_from_agent(e.agent@, t) });
                    assert(wrap_from_agent(e.agent@, t).len() > t.len());
                    assert(ws[i] != bs[i]);
                    assert(ws != bs);
                }
            },
        }
    } else {
        if e.message.role@ != "assistant"@ {
            assert(e.spec_role() != Role::Assistant);
        }
    }
}

/// Whether an entry is a user entry: its role is neither assistant nor
/// system.
pub open spec fn is_user_entry(e: HistoryEntry) -> bool {
    e.message.role@ != "assistant"@ && e.message.role@ != "system"@
}

/// The sender of a history is that of its latest user entry: the user
/// entry with no user entry after it. With no user entry it is empty.
pub proof fn lemma_last_sender_is_latest_user(h: Seq<HistoryEntry>)
    ensures
        forall|i: int|
            0 <= i < h.len() && is_user_entry(#[trigger] h[i]) && (forall|j: int| i < j < h.len() ==> !is_user_entry(h[j]))
                ==> spec_last_sender(h) == h[i].sender@,
        (forall|j: int| 0 <= j < h.len() ==> !is_user_entry(#[trigger] h[j])) ==> spec_last_sender(h).len() == 0,
    decreases h.len(),
{
    if h.len() > 0 {
        let t = h.drop_last();
        lemma_last_sender_is_latest_user(t);
        let n = h.len() - 1;
        assert(is_user_entry(h[n]) <==> h.last().spec_role() == Role::User);
        assert forall|i: int|
            0 <= i < h.len() && is_user_entry(#[trigger] h[i]) && (forall|j: int| i < j < h.len() ==> !is_user_entry(h[j]))
                implies spec_last_sender(h) == h[i].sender@ by {
            if i < n {
                assert(!is_user_entry(h[n]));
                assert(t[i] == h[i]);
                assert forall|j: int| i < j < t.len() implies !is_user_entry(t[j]) by {
                    assert(t[j] == h[j]);
                }
            }
        }
        if forall|j: int| 0 <= j < h.len() ==> !is_user_entry(#[trigger] h[j]) {
            assert(!is_user_entry(h[n]));
            assert forall|j: int| 0 <= j < t.len() implies !is_user_entry(#[trigger] t[j]) by {
                assert(t[j] == h[j]);
                assert(!is_user_entry(h[j]));
            }
        }
    }
}

/// Extract sender from the last user entry in history.
pub fn last_sender(history: &Vec<HistoryEntry>) -> (r: String)
    ensures
        r@ == spec_last_sender(history@),
{
    let mut i = history.len();
    assert(history@.take(i as int) =~= history@);
    while i > 0
        invariant
            i <= history@.len(),
            spec_last_sender(history@) == spec_last_sender(history@.take(i as int)),
        decreases i,
    {
        proof {
            assert(history@.take(i as int).drop_last() =~= history@.take(i - 1));
            assert(history@.take(i as int).last() == history@[i - 1]);
        }
        if history[i - 1].role() == Role::User {
            return history[i - 1].sender.clone();
        }
        i -= 1;
    }
    String::new()
}

// ── Usage ───────────────────────────────────────────────────────────

/// Token usage of one model call. Axes are disjoint: input read fresh,
/// input served from / written to the prompt cache, output, and reasoning.
#[derive(Clone, Copy, Debug, Default)]
pub struct Usage {
    pub input_tokens: u32,
    pub cache_read_tokens: u32,
    pub cache_write_tokens: u32,
    pub output_tokens: u32,
    pub reasoning_tokens: u32,
}

impl Usage {
    /// Total prompt size (cached + uncached + writes).
    pub open spec fn spec_prompt(&self) -> int {
        self.input_tokens + self.cache_read_tokens + self.cache_write_tokens
    }

    /// Total completion size including reasoning.
    pub open spec fn spec_completion(&self) -> int {
        self.output_tokens + self.reasoning_tokens
    }

    /// Prompt plus completion.
    pub open spec fn spec_total(&self) -> int {
        self.spec_prompt() + self.spec_completion()
    }

    /// Total prompt size (cached + uncached + writes).
    pub fn prompt_tokens(&self) -> (r: u32)
        requires
            self.spec_prompt() <= u32::MAX,
        ensures
            r == self.spec_prompt(),
    {
        self.input_tokens + self.cache_read_tokens + self.cache_write_tokens
    }

    /// Total completion size including reasoning.
    pub fn completion_tokens(&self) -> (r: u32)
        requires
            self.spec_completion() <= u32::MAX,
        ensures
            r == self.spec_completion(),
    {
        self.output_tokens + self.reasoning_tokens
    }

    /// Prompt plus completion.
    pub fn total_tokens(&self) -> (r: u32)
        requires
            self.spec_total() <= u32::MAX,
        ensures
            r == self.spec_total(),
    {
        self.prompt_tokens() + self.completion_tokens()
    }
}

} // verus!
