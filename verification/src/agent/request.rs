//! Building the model request for one agent round: the system prompt,
//! the history as wire messages, the advertised tools, the tool choice and
//! the thinking budget.
//!
//! The request is put on the wire by the caller, which also merges
//! consecutive tool-result messages and pairs every tool use with a result
//! there (the provider crate's `Messages` operations on its wire type).

use crate::agent::config::AgentConfig;
use crate::model::{copy_string, HistoryEntry, Message, MessageView, Tool, ToolChoice};
use crate::text::string_of;
use vstd::prelude::*;

verus! {

/// How the tool choice reads on the wire.
#[derive(Debug)]
pub enum WireToolChoice {
    /// `{"type": "auto"}`
    Auto,
    /// `{"type": "any"}`
    Any,
    /// `{"type": "tool", "name": ...}`
    Tool { name: String },
    /// `{"type": "none"}`
    Nothing,
}

/// A tool as advertised to the model.
pub struct WireTool {
    pub name: String,
    pub description: String,
    /// JSON schema of the input, as text.
    pub input_schema: String,
}

/// Extended-thinking settings of a request.
pub struct ThinkingConfig {
    /// Always `"enabled"` for agent requests.
    pub kind: String,
    pub budget_tokens: Option<u32>,
}

/// One model request.
pub struct AgentRequest {
    pub model: String,
    pub messages: Vec<Message>,
    pub max_tokens: u32,
    pub system: Option<String>,
    pub tools: Option<Vec<WireTool>>,
    pub tool_choice: Option<WireToolChoice>,
    pub thinking: Option<ThinkingConfig>,
}

/// The input schema advertised for a tool that declares none.
pub open spec fn default_input_schema() -> Seq<char> {
    "{\"type\":\"object\"}"@
}

/// The provider crate's default output budget (`DEFAULT_MAX_TOKENS`).
#[verifier::external_body]
pub(crate) fn default_max_tokens() -> (r: u32)
    ensures
        r == 4096,
{
    crabllm_core::anthropic::DEFAULT_MAX_TOKENS
}

/// The tool choice in force: the override when given, else the agent's.
pub open spec fn resolved_choice(config: AgentConfig, choice_override: Option<ToolChoice>) -> ToolChoice {
    match choice_override {
        Some(c) => c,
        None => config.tool_choice,
    }
}

/// Whether `w` is how `c` reads on the wire.
pub open spec fn wire_choice_of(c: ToolChoice, w: WireToolChoice) -> bool {
    match c {
        ToolChoice::Auto => w is Auto,
        ToolChoice::Required => w is Any,
        ToolChoice::Function { name } => w matches WireToolChoice::Tool { name: n } && n@ == name@,
        ToolChoice::Disabled => w is Nothing,
    }
}

/// Whether `w` advertises `t`.
pub open spec fn wire_tool_of(t: Tool, w: WireTool) -> bool {
    &&& w.name@ == t.name@
    &&& w.description@ == t.description@
    &&& w.input_schema@ == match t.parameters {
        Some(p) => p@,
        None => default_input_schema(),
    }
}

/// The history as wire messages, in order.
pub open spec fn wire_history(history: Seq<HistoryEntry>) -> Seq<MessageView> {
    history.map_values(|e: HistoryEntry| e.spec_wire_message())
}

/// The messages of a request by their views.
pub open spec fn messages_view(messages: Seq<Message>) -> Seq<MessageView> {
    messages.map_values(|m: Message| m.view_of())
}

/// How a tool choice reads on the wire.
pub fn tool_choice_to_wire(c: &ToolChoice) -> (r: WireToolChoice)
    ensures
        wire_choice_of(*c, r),
{
    match c {
        ToolChoice::Auto => WireToolChoice::Auto,
        ToolChoice::Required => WireToolChoice::Any,
        ToolChoice::Function { name } => WireToolChoice::Tool { name: copy_string(name) },
        ToolChoice::Disabled => WireToolChoice::Nothing,
    }
}

/// The tools as advertised to the model.
pub fn tools_to_wire(tools: &Vec<Tool>) -> (r: Vec<WireTool>)
    ensures
        r@.len() == tools@.len(),
        forall|i: int| 0 <= i < tools@.len() ==> wire_tool_of(tools@[i], #[trigger] r@[i]),
{
    let mut out: Vec<WireTool> = Vec::new();
    let mut i: usize = 0;
    while i < tools.len()
        invariant
            i <= tools@.len(),
            out@.len() == i,
            forall|j: int| 0 <= j < i ==> wire_tool_of(tools@[j], #[trigger] out@[j]),
        decreases tools@.len() - i,
    {
        let t = &tools[i];
        let schema = match &t.parameters {
            Some(p) => copy_string(p),
            None => string_of("{\"type\":\"object\"}"),
        };
        out.push(WireTool { name: copy_string(&t.name), description: copy_string(&t.description), input_schema: schema });
        i += 1;
    }
    out
}

/// Copy a tool choice.
pub(crate) fn copy_choice(c: &ToolChoice) -> (r: ToolChoice)
    ensures
        r == *c,
{
    match c {
        ToolChoice::Disabled => ToolChoice::Disabled,
        ToolChoice::Auto => ToolChoice::Auto,
        ToolChoice::Required => ToolChoice::Required,
        ToolChoice::Function { name } => ToolChoice::Function { name: name.clone() },
    }
}

/// Build the request for one round from the agent's configuration, its
/// tools and the history. An override takes precedence over the configured
/// tool choice; a disabled choice, or no tools, advertises no tools and no
/// choice. The system prompt is sent only when non-empty; thinking, when
/// enabled, gets the whole output budget but one token.
pub fn build_request(
    config: &AgentConfig,
    tools: &Vec<Tool>,
    history: &Vec<HistoryEntry>,
    tool_choice_override: Option<&ToolChoice>,
) -> (r: AgentRequest)
    ensures
        r.model@ == config.model@,
        messages_view(r.messages@) == wire_history(history@),
        r.max_tokens == 4096,
        r.system == (if config.system_prompt@.len() == 0 { None } else { Some(config.system_prompt) }),
        ({
            let choice = resolved_choice(*config, match tool_choice_override {
                Some(c) => Some(*c),
                None => None,
            });
            if choice is Disabled || tools@.len() == 0 {
                r.tools is None && r.tool_choice is None
            } else {
                &&& r.tools matches Some(ws) && ws@.len() == tools@.len()
                    && forall|i: int| 0 <= i < tools@.len() ==> wire_tool_of(tools@[i], #[trigger] ws@[i])
                &&& r.tool_choice matches Some(w) && wire_choice_of(choice, w)
            }
        }),
        match r.thinking {
            Some(t) => config.thinking && t.kind@ == "enabled"@ && t.budget_tokens == Some(4095u32),
            None => !config.thinking,
        },
{
    let mut messages: Vec<Message> = Vec::new();
    let mut i: usize = 0;
    while i < history.len()
        invariant
            i <= history@.len(),
            messages_view(messages@) == wire_history(history@).take(i as int),
        decreases history@.len() - i,
    {
        let m = history[i].to_wire_message();
        let ghost prev = messages@;
        messages.push(m);
        assert(messages_view(messages@) == messages_view(prev).push(m.view_of()));
        assert(wire_history(history@).take(i as int + 1) == wire_history(history@).take(i as int).push(
            history@[i as int].spec_wire_message(),
        ));
        i += 1;
    }
    assert(wire_history(history@).take(i as int) == wire_history(history@));

    let system = if config.system_prompt.as_str().is_empty() {
        None
    } else {
        Some(config.system_prompt.clone())
    };

    let choice = match tool_choice_override {
        Some(c) => copy_choice(c),
        None => copy_choice(&config.tool_choice),
    };
    let is_disabled = match choice {
        ToolChoice::Disabled => true,
        _ => false,
    };
    let (wire_tools, wire_choice) = if is_disabled || tools.len() == 0 {
        (None, None)
    } else {
        (Some(tools_to_wire(tools)), Some(tool_choice_to_wire(&choice)))
    };

    let max_tokens = default_max_tokens();
    let thinking = if config.thinking {
        Some(ThinkingConfig { kind: string_of("enabled"), budget_tokens: Some(max_tokens - 1) })
    } else {
        None
    };

    AgentRequest {
        model: config.model.clone(),
        messages,
        max_tokens,
        system,
        tools: wire_tools,
        tool_choice: wire_choice,
        thinking,
    }
}

} // verus!
