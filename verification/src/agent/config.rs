//! Agent configuration: identity, system prompt, model and limits.

use crate::model::ToolChoice;
use crate::text::string_of;
use vstd::prelude::*;

verus! {

/// Default maximum iterations for agent execution.
pub const DEFAULT_MAX_ITERATIONS: usize = 16;

/// Agent configuration.
pub struct AgentConfig {
    /// Agent identifier.
    pub name: String,
    /// Human-readable description.
    pub description: String,
    /// System prompt sent before each LLM request.
    pub system_prompt: String,
    /// Model to use (the agent loop sends this name with each request).
    pub model: String,
    /// Maximum iterations before stopping.
    pub max_iterations: usize,
    /// Controls which tool the model calls.
    pub tool_choice: ToolChoice,
    /// Whether extended thinking is requested.
    pub thinking: bool,
}

impl Default for AgentConfig {
    fn default() -> (r: Self)
        ensures
            r.name@.len() == 0,
            r.description@.len() == 0,
            r.system_prompt@.len() == 0,
            r.model@.len() == 0,
            !r.thinking,
            r.max_iterations == DEFAULT_MAX_ITERATIONS,
            r.tool_choice is Auto,
    {
        AgentConfig {
            name: String::new(),
            description: String::new(),
            system_prompt: String::new(),
            model: String::new(),
            thinking: false,
            max_iterations: DEFAULT_MAX_ITERATIONS,
            tool_choice: ToolChoice::Auto,
        }
    }
}

impl AgentConfig {
    /// A config with the given name and defaults for everything else.
    pub fn new(name: &str) -> (r: Self)
        ensures
            r.name@ == name@,
            r.description@.len() == 0,
            r.system_prompt@.len() == 0,
            r.model@.len() == 0,
            !r.thinking,
            r.max_iterations == DEFAULT_MAX_ITERATIONS,
            r.tool_choice is Auto,
    {
        let mut c = Self::default();
        c.name = string_of(name);
        c
    }

    /// Set the system prompt.
    pub fn system_prompt(self, prompt: &str) -> (r: Self)
        ensures
            r.system_prompt@ == prompt@,
            r.name == self.name,
            r.description == self.description,
            r.model == self.model,
            r.max_iterations == self.max_iterations,
            r.tool_choice == self.tool_choice,
            r.thinking == self.thinking,
    {
        let mut c = self;
        c.system_prompt = string_of(prompt);
        c
    }

    /// Set the description.
    pub fn description(self, desc: &str) -> (r: Self)
        ensures
            r.description@ == desc@,
            r.name == self.name,
            r.system_prompt == self.system_prompt,
            r.model == self.model,
            r.max_iterations == self.max_iterations,
            r.tool_choice == self.tool_choice,
            r.thinking == self.thinking,
    {
        let mut c = self;
        c.description = string_of(desc);
        c
    }

    /// A copy of this configuration.
    pub fn copy(&self) -> (r: Self)
        ensures
            r == *self,
    {
        AgentConfig {
            name: self.name.clone(),
            description: self.description.clone(),
            system_prompt: self.system_prompt.clone(),
            model: self.model.clone(),
            max_iterations: self.max_iterations,
            tool_choice: crate::agent::request::copy_choice(&self.tool_choice),
            thinking: self.thinking,
        }
    }

    /// Set the model to use.
    pub fn model(self, name: &str) -> (r: Self)
        ensures
            r.model@ == name@,
            r.name == self.name,
            r.description == self.description,
            r.system_prompt == self.system_prompt,
            r.max_iterations == self.max_iterations,
            r.tool_choice == self.tool_choice,
            r.thinking == self.thinking,
    {
        let mut c = self;
        c.model = string_of(name);
        c
    }
}

} // verus!
