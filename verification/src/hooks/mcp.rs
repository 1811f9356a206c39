//! MCP tool hook: which MCP servers each agent declares, what changes when
//! an agent re-registers, and the environment each server is started with.
//!
//! Starting, sharing and stopping the server processes is the MCP
//! handler's work; this hook decides which of them to register and drop.

use crate::config::daemon::McpServerConfig;
use crate::table::{has_key, keys_distinct, lemma_map_of_at, lemma_map_of_push, map_of, NameTable};
use crate::text::{contains_str, join, push_joined, string_of, views};
use vstd::prelude::*;

verus! {

/// Call an MCP tool by name, or list available tools if no exact match.
pub struct Mcp {
    /// Tool name to call. If no exact match, returns fuzzy matches.
    /// Leave empty to list all available MCP tools.
    pub name: String,
    /// JSON-encoded arguments string (only used when calling a tool).
    pub args: Option<String>,
}

/// The names among `prior` that `current` no longer declares, in order.
pub open spec fn dropped_names(prior: Seq<Seq<char>>, current: Seq<Seq<char>>) -> Seq<Seq<char>>
    decreases prior.len(),
{
    if prior.len() == 0 {
        Seq::empty()
    } else {
        dropped_names(prior.drop_last(), current) + if current.contains(prior.last()) {
            Seq::<Seq<char>>::empty()
        } else {
            seq![prior.last()]
        }
    }
}

/// The MCP names an agent had declared before, by agent name.
pub open spec fn declared(agent_mcps: Map<Seq<char>, Vec<String>>, agent: Seq<char>) -> Seq<Seq<char>> {
    if agent_mcps.dom().contains(agent) {
        views(agent_mcps[agent]@)
    } else {
        Seq::empty()
    }
}

/// The environment a server runs with: its own variables, plus every
/// daemon-wide one it does not set itself.
pub open spec fn overlaid(env: Map<Seq<char>, String>, overlay: Map<Seq<char>, String>) -> Map<Seq<char>, String> {
    overlay.union_prefer_right(env)
}

/// `env` with the variables of `overlay` that it lacks added after its own.
pub fn overlay_env(env: &Vec<(String, String)>, overlay: &Vec<(String, String)>) -> (r: Vec<(String, String)>)
    requires
        keys_distinct(env@),
        keys_distinct(overlay@),
    ensures
        keys_distinct(r@),
        map_of(r@) == overlaid(map_of(env@), map_of(overlay@)),
{
    let mut out: Vec<(String, String)> = Vec::new();
    let mut i: usize = 0;
    assert(map_of(out@) =~= Map::<Seq<char>, String>::empty());
    while i < env.len()
        invariant
            i <= env@.len(),
            keys_distinct(env@),
            out@ == env@.take(i as int),
        decreases env@.len() - i,
    {
        out.push((env[i].0.clone(), env[i].1.clone()));
        assert(out@ =~= env@.take(i as int + 1));
        i += 1;
    }
    assert(out@ =~= env@);
    let mut j: usize = 0;
    while j < overlay.len()
        invariant
            j <= overlay@.len(),
            keys_distinct(out@),
            keys_distinct(overlay@),
            keys_distinct(env@),
            map_of(out@) == overlaid(map_of(env@), map_of(overlay@.take(j as int))),
        decreases overlay@.len() - j,
    {
        let ghost before = out@;
        let k = &overlay[j].0;
        let mut present = false;
        let mut p: usize = 0;
        while p < out.len()
            invariant
                p <= out@.len(),
                out@ == before,
                present ==> has_key(out@, k@),
                !present ==> forall|q: int| 0 <= q < p ==> out@[q].0@ != k@,
            decreases out@.len() - p,
        {
            if crate::model::str_eq(out[p].0.as_str(), k.as_str()) {
                present = true;
            }
            p += 1;
        }
        proof {
            let t = overlay@.take(j as int);
            let t2 = overlay@.take(j as int + 1);
            assert(t2 =~= t.push(overlay@[j as int]));
            lemma_map_of_push(t, overlay@[j as int].0, overlay@[j as int].1);
            assert(!has_key(t, k@)) by {
                if has_key(t, k@) {
                    let w = choose|w: int| 0 <= w < t.len() && #[trigger] t[w].0@ == k@;
                    assert(overlay@[w].0@ != overlay@[j as int].0@);
                }
            }
        }
        if !present {
            let entry = (k.clone(), overlay[j].1.clone());
            out.push(entry);
            proof {
                let t = overlay@.take(j as int);
                assert(!has_key(before, k@));
                assert(!map_of(before).dom().contains(k@));
                assert(!map_of(env@).dom().contains(k@));
                lemma_map_of_push(before, entry.0, entry.1);
                assert(map_of(overlay@.take(j as int + 1)) == map_of(t).insert(k@, overlay@[j as int].1));
                assert(map_of(out@) =~= overlaid(map_of(env@), map_of(overlay@.take(j as int + 1))));
            }
        } else {
            proof {
                let t = overlay@.take(j as int);
                assert(map_of(out@).dom().contains(k@));
                assert(!map_of(t).dom().contains(k@));
                assert(map_of(env@).dom().contains(k@));
                assert(map_of(overlay@.take(j as int + 1)) == map_of(t).insert(k@, overlay@[j as int].1));
                assert(map_of(out@) =~= overlaid(map_of(env@), map_of(overlay@.take(j as int + 1))));
            }
        }
        j += 1;
    }
    assert(overlay@.take(j as int) =~= overlay@);
    out
}

/// MCP subsystem state: the daemon-wide environment overlay and the MCP
/// names each agent currently declares.
pub struct McpHook {
    env_overlay: Vec<(String, String)>,
    agent_mcps: NameTable<Vec<String>>,
}

impl McpHook {
    /// The names each agent declares, by agent name.
    pub closed spec fn agent_mcps(&self) -> Map<Seq<char>, Vec<String>> {
        self.agent_mcps@
    }

    /// The daemon-wide environment overlay.
    pub closed spec fn env_overlay(&self) -> Seq<(String, String)> {
        self.env_overlay@
    }

    pub closed spec fn wf(&self) -> bool {
        self.agent_mcps.wf() && keys_distinct(self.env_overlay@)
    }

    /// A hook with the daemon-wide environment `env_overlay` (one entry per
    /// variable) and no agents.
    pub fn new(env_overlay: Vec<(String, String)>) -> (r: McpHook)
        requires
            keys_distinct(env_overlay@),
        ensures
            r.wf(),
            r.env_overlay() == env_overlay@,
            r.agent_mcps() == Map::<Seq<char>, Vec<String>>::empty(),
    {
        McpHook { env_overlay, agent_mcps: NameTable::new() }
    }

    /// Record that agent `name` now declares `configs`; the result lists the
    /// MCPs it declared before and no longer does, which are to be dropped.
    pub fn on_register_agent(&mut self, name: &str, configs: &Vec<McpServerConfig>) -> (r: Vec<String>)
        requires
            old(self).wf(),
        ensures
            final(self).wf(),
            final(self).env_overlay() == old(self).env_overlay(),
            final(self).agent_mcps().dom() == old(self).agent_mcps().dom().insert(name@),
            views(final(self).agent_mcps()[name@]@) == configs@.map_values(|c: McpServerConfig| c.name@),
            forall|a: Seq<char>| a != name@ && old(self).agent_mcps().dom().contains(a)
                ==> #[trigger] final(self).agent_mcps()[a] == old(self).agent_mcps()[a],
            views(r@) == dropped_names(declared(old(self).agent_mcps(), name@), configs@.map_values(
                |c: McpServerConfig| c.name@,
            )),
    {
        let mut names: Vec<String> = Vec::new();
        let mut i: usize = 0;
        while i < configs.len()
            invariant
                i <= configs@.len(),
                views(names@) == configs@.map_values(|c: McpServerConfig| c.name@).take(i as int),
            decreases configs@.len() - i,
        {
            let ghost prev = names@;
            names.push(configs[i].name.clone());
            assert(views(names@) == views(prev).push(configs@[i as int].name@));
            assert(configs@.map_values(|c: McpServerConfig| c.name@).take(i as int + 1)
                == configs@.map_values(|c: McpServerConfig| c.name@).take(i as int).push(configs@[i as int].name@));
            i += 1;
        }
        assert(configs@.map_values(|c: McpServerConfig| c.name@).take(i as int) == configs@.map_values(
            |c: McpServerConfig| c.name@,
        ));
        let prior: Vec<String> = match self.agent_mcps.remove(name) {
            Some(p) => p,
            None => Vec::new(),
        };
        assert(views(prior@) == declared(old(self).agent_mcps(), name@));
        let mut dropped: Vec<String> = Vec::new();
        let mut k: usize = 0;
        while k < prior.len()
            invariant
                k <= prior@.len(),
                views(dropped@) == dropped_names(views(prior@).take(k as int), views(names@)),
            decreases prior@.len() - k,
        {
            assert(views(prior@).take(k as int + 1).drop_last() == views(prior@).take(k as int));
            assert(views(prior@).take(k as int + 1).last() == prior@[k as int]@);
            if !contains_str(&names, prior[k].as_str()) {
                let ghost prev = dropped@;
                dropped.push(prior[k].clone());
                assert(views(dropped@) == views(prev).push(prior@[k as int]@));
            }
            k += 1;
        }
        assert(views(prior@).take(k as int) == views(prior@));
        self.agent_mcps.insert(string_of(name), names);
        dropped
    }

    /// Forget agent `name`; the result lists the MCPs it declared, which
    /// are to be dropped.
    pub fn on_unregister_agent(&mut self, name: &str) -> (r: Vec<String>)
        requires
            old(self).wf(),
        ensures
            final(self).wf(),
            final(self).env_overlay() == old(self).env_overlay(),
            final(self).agent_mcps() == old(self).agent_mcps().remove(name@),
            views(r@) == declared(old(self).agent_mcps(), name@),
    {
        match self.agent_mcps.remove(name) {
            Some(p) => p,
            None => Vec::new(),
        }
    }

    /// The MCP names agent `name` may call through the `mcp` tool.
    pub fn allowed_mcps(&self, name: &str) -> (r: Vec<String>)
        requires
            self.wf(),
        ensures
            views(r@) == declared(self.agent_mcps(), name@),
    {
        match self.agent_mcps.get(name) {
            Some(p) => {
                let mut out: Vec<String> = Vec::new();
                let mut i: usize = 0;
                while i < p.len()
                    invariant
                        i <= p@.len(),
                        views(out@) == views(p@).take(i as int),
                    decreases p@.len() - i,
                {
                    let ghost prev = out@;
                    out.push(p[i].clone());
                    assert(views(out@) == views(prev).push(p@[i as int]@));
                    assert(views(p@).take(i as int + 1) == views(p@).take(i as int).push(p@[i as int]@));
                    i += 1;
                }
                assert(views(p@).take(i as int) == views(p@));
                out
            },
            None => Vec::new(),
        }
    }

    /// The configuration a server is registered with: its own, with the
    /// daemon-wide variables it does not set added to its environment.
    pub fn effective_config(&self, cfg: &McpServerConfig) -> (r: McpServerConfig)
        requires
            self.wf(),
            keys_distinct(cfg.env@),
        ensures
            r.name@ == cfg.name@,
            r.command@ == cfg.command@,
            views(r.args@) == views(cfg.args@),
            keys_distinct(r.env@),
            map_of(r.env@) == overlaid(map_of(cfg.env@), map_of(self.env_overlay())),
            r.url == cfg.url,
            r.auth == cfg.auth,
            r.auto_restart == cfg.auto_restart,
    {
        let mut args: Vec<String> = Vec::new();
        let mut i: usize = 0;
        while i < cfg.args.len()
            invariant
                i <= cfg.args@.len(),
                views(args@) == views(cfg.args@).take(i as int),
            decreases cfg.args@.len() - i,
        {
            let ghost prev = args@;
            args.push(cfg.args[i].clone());
            assert(views(args@) == views(prev).push(cfg.args@[i as int]@));
            assert(views(cfg.args@).take(i as int + 1) == views(cfg.args@).take(i as int).push(cfg.args@[i as int]@));
            i += 1;
        }
        assert(views(cfg.args@).take(i as int) == views(cfg.args@));
        McpServerConfig {
            name: cfg.name.clone(),
            command: cfg.command.clone(),
            args,
            env: overlay_env(&cfg.env, &self.env_overlay),
            url: cfg.url.clone(),
            auth: cfg.auth.clone(),
            auto_restart: cfg.auto_restart,
        }
    }
}

/// The tools and scope line this hook contributes for an agent declaring
/// `mcps`: none without MCPs, else the `mcp` tool and an
/// `mcp servers: ...` line.
pub fn scoped_tools(mcps: &Vec<McpServerConfig>) -> (r: (Vec<String>, Option<String>))
    ensures
        mcps@.len() == 0 ==> r.0@.len() == 0 && r.1 is None,
        mcps@.len() > 0 ==> (views(r.0@) == seq!["mcp"@] && (r.1 matches Some(l) && l@ == "mcp servers: "@
            + join(mcps@.map_values(|c: McpServerConfig| c.name@), ", "@))),
{
    if mcps.len() == 0 {
        return (Vec::new(), None);
    }
    let mut names: Vec<String> = Vec::new();
    let mut i: usize = 0;
    while i < mcps.len()
        invariant
            i <= mcps@.len(),
            views(names@) == mcps@.map_values(|c: McpServerConfig| c.name@).take(i as int),
        decreases mcps@.len() - i,
    {
        let ghost prev = names@;
        names.push(mcps[i].name.clone());
        assert(views(names@) == views(prev).push(mcps@[i as int].name@));
        assert(mcps@.map_values(|c: McpServerConfig| c.name@).take(i as int + 1) == mcps@.map_values(
            |c: McpServerConfig| c.name@,
        ).take(i as int).push(mcps@[i as int].name@));
        i += 1;
    }
    assert(mcps@.map_values(|c: McpServerConfig| c.name@).take(i as int) == mcps@.map_values(
        |c: McpServerConfig| c.name@,
    ));
    let mut tools: Vec<String> = Vec::new();
    tools.push(string_of("mcp"));
    assert(views(tools@) =~= seq!["mcp"@]);
    let mut line = string_of("mcp servers: ");
    push_joined(&mut line, &names, ", ");
    (tools, Some(line))
}

/// Whether a call of tool `name` is the MCP hook's to answer.
pub fn owns_tool(name: &str) -> (r: bool)
    ensures
        r == (name@ == "mcp"@),
{
    crate::model::str_eq(name, "mcp")
}

} // verus!
