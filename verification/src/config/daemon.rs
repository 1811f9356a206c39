//! Daemon configuration (`config.toml`): providers, deprecated MCP entries,
//! system settings, hook defaults, MCP environment and disabled items.
//!
//! Tables keyed by name are held as `(name, value)` pairs in key order, as
//! the TOML reader hands them over.

use crate::config::hooks::{HooksConfig, MemoryConfig};
use crate::config::system::SystemConfig;
use crate::model::copy_string;
use crate::text::{string_of, views};
use crate::model::str_eq;
use vstd::prelude::*;

verus! {

/// One provider definition (`[provider.<name>]`): what the daemon reads of
/// it is the model names it serves.
pub struct ProviderDef {
    /// Model names served by this provider.
    pub models: Vec<String>,
}

/// One MCP server declaration.
pub struct McpServerConfig {
    /// Server name; empty means "use the table key".
    pub name: String,
    /// Command to spawn (stdio servers).
    pub command: String,
    /// Command arguments.
    pub args: Vec<String>,
    /// Extra environment for the server process.
    pub env: Vec<(String, String)>,
    /// Endpoint URL (HTTP servers).
    pub url: Option<String>,
    /// Authorization value for the endpoint.
    pub auth: Option<String>,
    /// Restart the server when it exits.
    pub auto_restart: bool,
}

/// Disabled resources (providers, MCPs, skills), by name.
pub struct DisabledItems {
    pub providers: Vec<String>,
    pub mcps: Vec<String>,
    pub skills: Vec<String>,
}

/// Top-level daemon configuration (`config.toml`).
pub struct DaemonConfig {
    /// Provider definitions (`[provider.<name>]`), in key order.
    pub provider: Vec<(String, ProviderDef)>,
    /// **Deprecated**: MCP configs, now kept in manifests.
    pub mcps: Vec<(String, McpServerConfig)>,
    /// System configuration (default agent + task executor).
    pub system: SystemConfig,
    /// Built-in hook defaults.
    pub hooks: HooksConfig,
    /// Environment variables passed to all MCP server processes.
    pub env: Vec<(String, String)>,
    /// Disabled resources.
    pub disabled: DisabledItems,
}

// ── Duplicate model names ───────────────────────────────────────────

/// Every model name of every provider, provider by provider, in order.
pub open spec fn all_models(providers: Seq<(String, ProviderDef)>) -> Seq<Seq<char>>
    decreases providers.len(),
{
    if providers.len() == 0 {
        Seq::empty()
    } else {
        all_models(providers.drop_last()) + views(providers.last().1.models@)
    }
}

/// Whether `s[k]` already occurs before position `k`.
pub open spec fn repeats_earlier(s: Seq<Seq<char>>, k: int) -> bool {
    exists|j: int| 0 <= j < k && s[j] == s[k]
}

/// Whether some name occurs twice in `s`.
pub open spec fn has_repeat(s: Seq<Seq<char>>) -> bool {
    exists|k: int| 0 <= k < s.len() && repeats_earlier(s, k)
}

/// `k` is the first position whose name already occurred.
pub open spec fn is_first_repeat(s: Seq<Seq<char>>, k: int) -> bool {
    &&& 0 <= k < s.len()
    &&& repeats_earlier(s, k)
    &&& forall|i: int| 0 <= i < k ==> !repeats_earlier(s, i)
}

/// The refusal for a model name served twice.
pub open spec fn duplicate_model_message(model: Seq<char>) -> Seq<char> {
    "duplicate model name '"@ + model + "' across providers"@
}

/// What validating `providers` answers: the refusal naming the first model
/// name that was already seen, or success when every name is unique.
pub open spec fn providers_verdict(providers: Seq<(String, ProviderDef)>) -> Result<(), Seq<char>> {
    let s = all_models(providers);
    if has_repeat(s) {
        Err(duplicate_model_message(s[choose|k: int| is_first_repeat(s, k)]))
    } else {
        Ok(())
    }
}

/// A unit result by the view of its error.
pub open spec fn unit_result(r: Result<(), String>) -> Result<(), Seq<char>> {
    match r {
        Ok(()) => Ok(()),
        Err(e) => Err(e@),
    }
}

proof fn lemma_first_repeat_unique(s: Seq<Seq<char>>, k: int)
    requires
        is_first_repeat(s, k),
    ensures
        (choose|i: int| is_first_repeat(s, i)) == k,
{
    let c = choose|i: int| is_first_repeat(s, i);
    assert(is_first_repeat(s, c));
    if c < k {
        assert(!repeats_earlier(s, c));
    } else if c > k {
        assert(!repeats_earlier(s, k));
    }
}

/// All model names of `providers`, in order.
fn flatten_models(providers: &Vec<(String, ProviderDef)>) -> (r: Vec<String>)
    ensures
        views(r@) == all_models(providers@),
{
    let mut out: Vec<String> = Vec::new();
    let mut i: usize = 0;
    while i < providers.len()
        invariant
            i <= providers@.len(),
            views(out@) == all_models(providers@.take(i as int)),
        decreases providers@.len() - i,
    {
        assert(providers@.take(i as int + 1).drop_last() == providers@.take(i as int));
        let models = &providers[i].1.models;
        let ghost before = out@;
        let mut j: usize = 0;
        while j < models.len()
            invariant
                j <= models@.len(),
                views(out@) == views(before) + views(models@.take(j as int)),
            decreases models@.len() - j,
        {
            let ghost prev = out@;
            out.push(copy_string(&models[j]));
            assert(views(out@) == views(prev).push(models@[j as int]@));
            assert(views(models@.take(j as int + 1)) == views(models@.take(j as int)).push(models@[j as int]@));
            assert(views(out@) == views(before) + views(models@.take(j as int + 1)));
            j += 1;
        }
        assert(models@.take(j as int) == models@);
        i += 1;
    }
    assert(providers@.take(i as int) == providers@);
    out
}

/// Whether `v[k]` already occurs before position `k`.
fn occurs_before(v: &Vec<String>, k: usize) -> (r: bool)
    requires
        k < v@.len(),
    ensures
        r == repeats_earlier(views(v@), k as int),
{
    let mut j: usize = 0;
    while j < k
        invariant
            j <= k < v@.len(),
            forall|i: int| 0 <= i < j ==> views(v@)[i] != views(v@)[k as int],
        decreases k - j,
    {
        if str_eq(&v[j], &v[k]) {
            assert(views(v@)[j as int] == views(v@)[k as int]);
            return true;
        }
        j += 1;
    }
    false
}

/// The first position of `v` whose name already occurred, if any.
fn first_repeat(v: &Vec<String>) -> (r: Option<usize>)
    ensures
        match r {
            Some(k) => is_first_repeat(views(v@), k as int),
            None => !has_repeat(views(v@)),
        },
{
    let mut k: usize = 0;
    while k < v.len()
        invariant
            k <= v@.len(),
            forall|i: int| 0 <= i < k ==> !repeats_earlier(views(v@), i),
        decreases v@.len() - k,
    {
        if occurs_before(v, k) {
            return Some(k);
        }
        k += 1;
    }
    None
}

/// Validate provider definitions and reject duplicate model names: the
/// first model name (provider by provider, in order) that was already
/// served by an earlier entry is refused.
pub fn validate_providers(providers: &Vec<(String, ProviderDef)>) -> (r: Result<(), String>)
    ensures
        unit_result(r) == providers_verdict(providers@),
{
    let names = flatten_models(providers);
    match first_repeat(&names) {
        Some(k) => {
            proof {
                lemma_first_repeat_unique(views(names@), k as int);
            }
            let mut msg = string_of("duplicate model name '");
            msg.append(names[k].as_str());
            msg.append("' across providers");
            Err(msg)
        },
        None => Ok(()),
    }
}

// ── Normalizing a parsed configuration ──────────────────────────────

/// An MCP entry with an empty name takes its table key as name.
pub open spec fn effective_mcp_name(key: Seq<char>, name: Seq<char>) -> Seq<char> {
    if name.len() == 0 { key } else { name }
}

/// The memory hook settings after migrating a deprecated `[system.memory]`:
/// it is taken only while `[hooks.memory]` still holds the defaults.
pub open spec fn migrated_memory(hooks: MemoryConfig, legacy: Option<MemoryConfig>) -> MemoryConfig {
    match legacy {
        Some(m) => if hooks.recall_limit == 5 { m } else { hooks },
        None => hooks,
    }
}

/// The MCP entries with their names filled in.
fn fill_mcp_names(mcps: Vec<(String, McpServerConfig)>) -> (r: Vec<(String, McpServerConfig)>)
    ensures
        r@.len() == mcps@.len(),
        forall|i: int|
            0 <= i < mcps@.len() ==> {
                let (k, s) = #[trigger] mcps@[i];
                &&& r@[i].0@ == k@
                &&& r@[i].1.name@ == effective_mcp_name(k@, s.name@)
                &&& r@[i].1.command == s.command
                &&& r@[i].1.args == s.args
                &&& r@[i].1.env == s.env
                &&& r@[i].1.url == s.url
                &&& r@[i].1.auth == s.auth
                &&& r@[i].1.auto_restart == s.auto_restart
            },
{
    let ghost orig = mcps@;
    let mut out: Vec<(String, McpServerConfig)> = Vec::new();
    let mut rest = mcps;
    while rest.len() > 0
        invariant
            out@.len() + rest@.len() == orig.len(),
            rest@ == orig.subrange(out@.len() as int, orig.len() as int),
            forall|i: int|
                0 <= i < out@.len() ==> {
                    let (k, s) = #[trigger] orig[i];
                    &&& out@[i].0@ == k@
                    &&& out@[i].1.name@ == effective_mcp_name(k@, s.name@)
                    &&& out@[i].1.command == s.command
                    &&& out@[i].1.args == s.args
                    &&& out@[i].1.env == s.env
                    &&& out@[i].1.url == s.url
                    &&& out@[i].1.auth == s.auth
                    &&& out@[i].1.auto_restart == s.auto_restart
                },
        decreases rest@.len(),
    {
        let (key, server) = rest.remove(0);
        let name = if server.name.as_str().is_empty() { copy_string(&key) } else { server.name };
        let filled = McpServerConfig {
            name,
            command: server.command,
            args: server.args,
            env: server.env,
            url: server.url,
            auth: server.auth,
            auto_restart: server.auto_restart,
        };
        out.push((key, filled));
    }
    out
}

impl DaemonConfig {
    /// Finish a freshly parsed configuration: fill in MCP names from their
    /// keys, drop the deprecated `[system.bash]` (this hook set has no bash
    /// policy), migrate a deprecated `[system.memory]` into `[hooks.memory]`
    /// unless that was also set, and validate the providers.
    pub fn normalize(self) -> (r: Result<DaemonConfig, String>)
        ensures
            match r {
                Ok(c) => {
                    &&& providers_verdict(self.provider@) is Ok
                    &&& c.provider == self.provider
                    &&& c.mcps@.len() == self.mcps@.len()
                    &&& forall|i: int|
                        0 <= i < self.mcps@.len() ==> {
                            let (k, s) = #[trigger] self.mcps@[i];
                            &&& c.mcps@[i].0@ == k@
                            &&& c.mcps@[i].1.name@ == effective_mcp_name(k@, s.name@)
                            &&& c.mcps@[i].1.command == s.command
                            &&& c.mcps@[i].1.args == s.args
                            &&& c.mcps@[i].1.env == s.env
                            &&& c.mcps@[i].1.url == s.url
                            &&& c.mcps@[i].1.auth == s.auth
                            &&& c.mcps@[i].1.auto_restart == s.auto_restart
                        }
                    &&& c.system.crab == self.system.crab
                    &&& c.system.tasks == self.system.tasks
                    &&& c.system.legacy_bash is None
                    &&& c.system.legacy_memory is None
                    &&& c.hooks.memory == migrated_memory(self.hooks.memory, self.system.legacy_memory)
                    &&& c.env == self.env
                    &&& c.disabled == self.disabled
                },
                Err(e) => providers_verdict(self.provider@) == Err::<(), Seq<char>>(e@),
            },
    {
        let DaemonConfig { provider, mcps, system, hooks, env, disabled } = self;
        let mcps = fill_mcp_names(mcps);
        let SystemConfig { crab, tasks, legacy_bash: _, legacy_memory } = system;
        let memory = match legacy_memory {
            Some(m) => if hooks.memory.recall_limit == 5 { m } else { hooks.memory },
            None => hooks.memory,
        };
        match validate_providers(&provider) {
            Err(e) => Err(e),
            Ok(()) => Ok(DaemonConfig {
                provider,
                mcps,
                system: SystemConfig { crab, tasks, legacy_bash: None, legacy_memory: None },
                hooks: HooksConfig { memory },
                env,
                disabled,
            }),
        }
    }
}

} // verus!
