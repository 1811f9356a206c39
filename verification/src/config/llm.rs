//! Single-endpoint LLM configuration: one endpoint — a crabllm gateway by
//! default, or a provider named by `kind` — and how the daemon reaches it.

use crate::text::string_of;
use vstd::prelude::*;

verus! {

/// The LLM endpoint.
pub struct LlmConfig {
    /// Gateway origin, e.g. `http://localhost:5632`.
    pub base_url: String,
    /// Bearer token for the endpoint.
    pub api_key: String,
    /// Talk to a provider directly (`"anthropic"`, `"ollama"`, …) instead of
    /// through a gateway.
    pub kind: Option<String>,
}

/// How the default provider reaches the endpoint.
pub enum ProviderPlan {
    /// Through a gateway, which routes by each model's dialect.
    Gateway { base_url: String, api_key: String },
    /// Straight to one upstream of the given kind; the base URL only when
    /// one is configured.
    Direct { kind: String, api_key: String, base_url: Option<String> },
}

/// The plan for reaching the configured endpoint.
pub fn provider_plan(llm: &LlmConfig) -> (r: ProviderPlan)
    ensures
        match llm.kind {
            None => r matches ProviderPlan::Gateway { base_url, api_key } && base_url == llm.base_url && api_key
                == llm.api_key,
            Some(k) => r matches ProviderPlan::Direct { kind, api_key, base_url } && kind == k && api_key
                == llm.api_key && base_url == (if llm.base_url@.len() == 0 {
                None
            } else {
                Some(llm.base_url)
            }),
        },
{
    match &llm.kind {
        None => ProviderPlan::Gateway { base_url: llm.base_url.clone(), api_key: llm.api_key.clone() },
        Some(k) => ProviderPlan::Direct {
            kind: k.clone(),
            api_key: llm.api_key.clone(),
            base_url: if llm.base_url.as_str().is_empty() {
                None
            } else {
                Some(llm.base_url.clone())
            },
        },
    }
}

/// Whether there is an endpoint to ask for its models: a direct provider,
/// or a gateway with a base URL.
pub fn endpoint_configured(llm: &LlmConfig) -> (r: bool)
    ensures
        r == !(llm.kind is None && llm.base_url@.len() == 0),
{
    !(llm.kind.is_none() && llm.base_url.as_str().is_empty())
}

/// The model new installs default to: the first the endpoint serves, or
/// none (empty).
pub fn default_model(models: &Vec<String>) -> (r: String)
    ensures
        r@ == if models@.len() > 0 {
            models@[0]@
        } else {
            Seq::empty()
        },
{
    if models.len() > 0 {
        models[0].clone()
    } else {
        String::new()
    }
}

} // verus!
