//! The harness registry's decisions: which member owns each tool name,
//! which agent may call which tool, how a sub-agent's scope is written into
//! its configuration, and what the members' usage notes add up to.
//!
//! Members are numbered in composition order (built-ins first, then the
//! consumer harnesses in declaration order); the registry itself holds the
//! members and asks each for its tools, notes and scope lines.

pub mod memory;

use crate::table::NameTable;
use crate::text::{contains_str, join, push_joined, string_of, views};
use vstd::prelude::*;

verus! {

/// Per-agent scope for dispatch enforcement. An empty list is unrestricted.
pub struct AgentScope {
    pub tools: Vec<String>,
}

impl Default for AgentScope {
    fn default() -> (r: AgentScope)
        ensures
            r.tools@.len() == 0,
    {
        AgentScope { tools: Vec::new() }
    }
}

// ── Tool ownership ──────────────────────────────────────────────────

/// The owners after `member` claims `names`.
pub open spec fn claimed(owners: Map<Seq<char>, usize>, names: Seq<Seq<char>>, member: usize) -> Map<Seq<char>, usize> {
    Map::new(
        |k: Seq<char>| owners.dom().contains(k) || names.contains(k),
        |k: Seq<char>| if names.contains(k) { member } else { owners[k] },
    )
}

/// The position of the first of `names` that already has an owner.
pub open spec fn first_taken(owners: Map<Seq<char>, usize>, names: Seq<Seq<char>>, i: int) -> bool {
    &&& 0 <= i < names.len()
    &&& owners.dom().contains(names[i])
    &&& forall|j: int| 0 <= j < i ==> !owners.dom().contains(#[trigger] names[j])
}

/// The refusal for a tool name that already has an owner.
pub open spec fn duplicate_tool_message(name: Seq<char>) -> Seq<char> {
    "duplicate tool: "@ + name
}

/// Which member answers each tool name.
pub struct DispatchIndex {
    owners: NameTable<usize>,
}

impl DispatchIndex {
    /// Tool name → member.
    pub closed spec fn owners(&self) -> Map<Seq<char>, usize> {
        self.owners@
    }

    pub closed spec fn wf(&self) -> bool {
        self.owners.wf()
    }

    /// No tool owned yet.
    pub fn new() -> (r: DispatchIndex)
        ensures
            r.wf(),
            r.owners() == Map::<Seq<char>, usize>::empty(),
    {
        DispatchIndex { owners: NameTable::new() }
    }

    /// Index one member's tools: refused, with nothing changed, when one of
    /// `names` already has an owner (the first such is named); otherwise
    /// every name is owned by `member`.
    pub fn index(&mut self, names: &Vec<String>, member: usize) -> (r: Result<(), String>)
        requires
            old(self).wf(),
        ensures
            final(self).wf(),
            match r {
                Ok(()) => {
                    &&& forall|j: int| 0 <= j < names@.len() ==> !old(self).owners().dom().contains(#[trigger] names@[j]@)
                    &&& final(self).owners() == claimed(old(self).owners(), views(names@), member)
                },
                Err(e) => exists|i: int|
                    first_taken(old(self).owners(), views(names@), i) && e@ == duplicate_tool_message(names@[i]@)
                        && final(self).owners() == old(self).owners(),
            },
    {
        let mut i: usize = 0;
        while i < names.len()
            invariant
                i <= names@.len(),
                self.wf(),
                forall|j: int| 0 <= j < i ==> !self.owners().dom().contains(#[trigger] names@[j]@),
            decreases names@.len() - i,
        {
            if self.owners.contains_key(names[i].as_str()) {
                let mut msg = string_of("duplicate tool: ");
                msg.append(names[i].as_str());
                proof {
                    assert(first_taken(self.owners(), views(names@), i as int));
                }
                return Err(msg);
            }
            i += 1;
        }
        let ghost start = self.owners();
        let mut k: usize = 0;
        assert(claimed(start, views(names@).take(0), member) =~= start);
        while k < names.len()
            invariant
                k <= names@.len(),
                self.wf(),
                self.owners() == claimed(start, views(names@).take(k as int), member),
            decreases names@.len() - k,
        {
            let ghost before = self.owners();
            self.owners.insert(names[k].clone(), member);
            proof {
                let t = views(names@).take(k as int);
                let t2 = views(names@).take(k as int + 1);
                assert(t2 =~= t.push(names@[k as int]@));
                assert forall|x: Seq<char>| t2.contains(x) <==> (t.contains(x) || x == names@[k as int]@) by {
                    if t2.contains(x) {
                        let w = choose|w: int| 0 <= w < t2.len() && t2[w] == x;
                        if w < t.len() {
                            assert(t[w] == x);
                        }
                    }
                    if t.contains(x) {
                        let w = choose|w: int| 0 <= w < t.len() && t[w] == x;
                        assert(t2[w] == x);
                    }
                    if x == names@[k as int]@ {
                        assert(t2[k as int] == x);
                    }
                }
                assert(self.owners() =~= claimed(start, t2, member));
            }
            k += 1;
        }
        assert(views(names@).take(k as int) =~= views(names@));
        Ok(())
    }

    /// The member that owns tool `name`, if any.
    pub fn owner(&self, name: &str) -> (r: Option<usize>)
        requires
            self.wf(),
        ensures
            match r {
                Some(m) => self.owners().dom().contains(name@) && m == self.owners()[name@],
                None => !self.owners().dom().contains(name@),
            },
    {
        match self.owners.get(name) {
            Some(m) => Some(*m),
            None => None,
        }
    }
}

// ── Scopes and dispatch ─────────────────────────────────────────────

/// Per-agent scopes, by agent id.
pub struct ScopeTable {
    scopes: NameTable<AgentScope>,
}

/// The tools an agent is restricted to, by id; an agent missing from the
/// map, or with an empty list, is unrestricted.
pub open spec fn scope_tools(scopes: Map<Seq<char>, AgentScope>, agent: Seq<char>) -> Seq<Seq<char>> {
    if scopes.dom().contains(agent) {
        views(scopes[agent].tools@)
    } else {
        Seq::empty()
    }
}

/// Whether `agent`'s scope keeps it from calling `name`.
pub open spec fn scope_denies(scopes: Map<Seq<char>, AgentScope>, agent: Seq<char>, name: Seq<char>) -> bool {
    scope_tools(scopes, agent).len() > 0 && !scope_tools(scopes, agent).contains(name)
}

impl ScopeTable {
    pub closed spec fn scopes(&self) -> Map<Seq<char>, AgentScope> {
        self.scopes@
    }

    pub closed spec fn wf(&self) -> bool {
        self.scopes.wf()
    }

    /// No agent scoped.
    pub fn new() -> (r: ScopeTable)
        ensures
            r.wf(),
            r.scopes() == Map::<Seq<char>, AgentScope>::empty(),
    {
        ScopeTable { scopes: NameTable::new() }
    }

    /// Record the tool whitelist of a resolved agent.
    pub fn on_resolve_agent(&mut self, id: &str, tools: Vec<String>)
        requires
            old(self).wf(),
        ensures
            final(self).wf(),
            final(self).scopes() == old(self).scopes().insert(id@, AgentScope { tools }),
    {
        self.scopes.insert(string_of(id), AgentScope { tools });
    }

    /// Drop the scope of a forgotten agent.
    pub fn on_forget_agent(&mut self, id: &str)
        requires
            old(self).wf(),
        ensures
            final(self).wf(),
            final(self).scopes() == old(self).scopes().remove(id@),
    {
        let _ = self.scopes.remove(id);
    }

    /// Whether `agent`'s scope keeps it from calling `name`.
    pub fn denies(&self, agent: &str, name: &str) -> (r: bool)
        requires
            self.wf(),
        ensures
            r == scope_denies(self.scopes(), agent@, name@),
    {
        match self.scopes.get(agent) {
            Some(scope) => scope.tools.len() > 0 && !contains_str(&scope.tools, name),
            None => false,
        }
    }
}

/// Where a tool call goes.
#[derive(Debug)]
pub enum Route {
    /// Refused by the caller's scope, with the reason.
    Denied(String),
    /// Handled by this member.
    Member(usize),
    /// No member owns the tool.
    Unhandled,
}

/// The refusal for a tool outside the caller's scope.
pub open spec fn not_available_message(name: Seq<char>) -> Seq<char> {
    "tool not available: "@ + name
}

/// Route a call of tool `name` by `agent`: the scope is enforced first,
/// then the call goes to the tool's owner.
pub fn route(scopes: &ScopeTable, index: &DispatchIndex, agent: &str, name: &str) -> (r: Route)
    requires
        scopes.wf(),
        index.wf(),
    ensures
        scope_denies(scopes.scopes(), agent@, name@) ==> (r matches Route::Denied(e) && e@ == not_available_message(name@)),
        !scope_denies(scopes.scopes(), agent@, name@) ==> match r {
            Route::Member(m) => index.owners().dom().contains(name@) && m == index.owners()[name@],
            Route::Unhandled => !index.owners().dom().contains(name@),
            Route::Denied(_) => false,
        },
{
    if scopes.denies(agent, name) {
        let mut msg = string_of("tool not available: ");
        msg.append(name);
        return Route::Denied(msg);
    }
    match index.owner(name) {
        Some(m) => Route::Member(m),
        None => Route::Unhandled,
    }
}

/// Once a member has indexed a tool, a call of it by an unrestricted agent
/// (or one whose scope lists it) goes to that member.
pub proof fn lemma_indexed_tool_routes_to_member(
    owners: Map<Seq<char>, usize>,
    names: Seq<Seq<char>>,
    member: usize,
    scopes: Map<Seq<char>, AgentScope>,
    agent: Seq<char>,
    j: int,
)
    requires
        0 <= j < names.len(),
        !scope_denies(scopes, agent, names[j]),
    ensures
        claimed(owners, names, member).dom().contains(names[j]),
        claimed(owners, names, member)[names[j]] == member,
{
    assert(names.contains(names[j]));
}

/// A scoped agent never reaches a tool outside its list, whoever owns it.
pub proof fn lemma_scope_is_enforced(scopes: Map<Seq<char>, AgentScope>, agent: Seq<char>, name: Seq<char>)
    requires
        scopes.dom().contains(agent),
        scopes[agent].tools@.len() > 0,
        !views(scopes[agent].tools@).contains(name),
    ensures
        scope_denies(scopes, agent, name),
{
}

// ── Agent build ─────────────────────────────────────────────────────

/// What the registry reads and writes of an agent's configuration when
/// building it: its description, the skills and MCP servers it declares,
/// and the tool whitelist.
pub struct AgentProfile {
    pub description: String,
    pub skills: Vec<String>,
    pub mcps: Vec<String>,
    pub tools: Vec<String>,
}

/// The members' usage notes, concatenated in order.
pub open spec fn usage_concat(usages: Seq<Option<String>>) -> Seq<char>
    decreases usages.len(),
{
    if usages.len() == 0 {
        Seq::empty()
    } else {
        usage_concat(usages.drop_last()) + match usages.last() {
            Some(u) => u@,
            None => Seq::empty(),
        }
    }
}

/// The combined usage note of the members: `None` when it is empty.
pub fn combined_usage(usages: &Vec<Option<String>>) -> (r: Option<String>)
    ensures
        match r {
            Some(u) => u@ == usage_concat(usages@) && u@.len() > 0,
            None => usage_concat(usages@).len() == 0,
        },
{
    let mut out = String::new();
    let mut i: usize = 0;
    while i < usages.len()
        invariant
            i <= usages@.len(),
            out@ == usage_concat(usages@.take(i as int)),
        decreases usages@.len() - i,
    {
        assert(usages@.take(i as int + 1).drop_last() == usages@.take(i as int));
        match &usages[i] {
            Some(u) => out.append(u.as_str()),
            None => {},
        }
        i += 1;
    }
    assert(usages@.take(i as int) == usages@);
    if out.as_str().is_empty() {
        None
    } else {
        Some(out)
    }
}

/// The tool whitelists of the members, concatenated in order.
pub open spec fn whitelist_of(scoped: Seq<(Vec<String>, Option<String>)>) -> Seq<Seq<char>>
    decreases scoped.len(),
{
    if scoped.len() == 0 {
        Seq::empty()
    } else {
        whitelist_of(scoped.drop_last()) + views(scoped.last().0@)
    }
}

/// The scope lines of the members, in order.
pub open spec fn scope_lines_of(scoped: Seq<(Vec<String>, Option<String>)>) -> Seq<Seq<char>>
    decreases scoped.len(),
{
    if scoped.len() == 0 {
        Seq::empty()
    } else {
        scope_lines_of(scoped.drop_last()) + match scoped.last().1 {
            Some(l) => seq![l@],
            None => Seq::empty(),
        }
    }
}

/// The block appended to a scoped agent's description.
pub open spec fn scope_block(lines: Seq<Seq<char>>) -> Seq<char> {
    "\n\n<scope>\n"@ + join(lines, "\n"@) + "\n</scope>"@
}

/// Apply the members' scoped tools (`scoped[i]` is what member `i` offers
/// this agent: its tools and an optional scope line). An agent that
/// declares no skills and no MCP servers is left as it is; otherwise its
/// whitelist becomes the members' tools and its description gains a
/// `<scope>` block when any member wrote a line.
pub fn apply_scope(profile: AgentProfile, scoped: &Vec<(Vec<String>, Option<String>)>) -> (r: AgentProfile)
    ensures
        r.skills == profile.skills,
        r.mcps == profile.mcps,
        if profile.skills@.len() == 0 && profile.mcps@.len() == 0 {
            r.description == profile.description && r.tools == profile.tools
        } else {
            &&& views(r.tools@) == whitelist_of(scoped@)
            &&& r.description@ == profile.description@ + if scope_lines_of(scoped@).len() == 0 {
                Seq::<char>::empty()
            } else {
                scope_block(scope_lines_of(scoped@))
            }
        },
{
    if profile.skills.len() == 0 && profile.mcps.len() == 0 {
        return profile;
    }
    let AgentProfile { description, skills, mcps, tools: _ } = profile;
    let mut whitelist: Vec<String> = Vec::new();
    let mut lines: Vec<String> = Vec::new();
    let mut i: usize = 0;
    while i < scoped.len()
        invariant
            i <= scoped@.len(),
            views(whitelist@) == whitelist_of(scoped@.take(i as int)),
            views(lines@) == scope_lines_of(scoped@.take(i as int)),
        decreases scoped@.len() - i,
    {
        assert(scoped@.take(i as int + 1).drop_last() == scoped@.take(i as int));
        let ghost w0 = whitelist@;
        let tools = &scoped[i].0;
        let mut j: usize = 0;
        while j < tools.len()
            invariant
                j <= tools@.len(),
                views(whitelist@) == views(w0) + views(tools@.take(j as int)),
            decreases tools@.len() - j,
        {
            let ghost p = whitelist@;
            whitelist.push(tools[j].clone());
            assert(views(whitelist@) == views(p).push(tools@[j as int]@));
            assert(views(tools@.take(j as int + 1)) == views(tools@.take(j as int)).push(tools@[j as int]@));
            j += 1;
        }
        assert(tools@.take(j as int) == tools@);
        match &scoped[i].1 {
            Some(l) => {
                let ghost p = lines@;
                lines.push(l.clone());
                assert(views(lines@) == views(p).push(l@));
            },
            None => {},
        }
        i += 1;
    }
    assert(scoped@.take(i as int) == scoped@);
    let mut description = description;
    if lines.len() > 0 {
        description.append("\n\n<scope>\n");
        push_joined(&mut description, &lines, "\n");
        description.append("\n</scope>");
    }
    AgentProfile { description, skills, mcps, tools: whitelist }
}

/// Build an agent's profile: the members' usage notes go after its
/// description, then the scope is applied.
pub fn on_build_agent(
    profile: AgentProfile,
    usages: &Vec<Option<String>>,
    scoped: &Vec<(Vec<String>, Option<String>)>,
) -> (r: AgentProfile)
    ensures
        r.skills == profile.skills,
        r.mcps == profile.mcps,
        if profile.skills@.len() == 0 && profile.mcps@.len() == 0 {
            r.description@ == profile.description@ + usage_concat(usages@) && r.tools == profile.tools
        } else {
            &&& views(r.tools@) == whitelist_of(scoped@)
            &&& r.description@ == profile.description@ + usage_concat(usages@) + if scope_lines_of(scoped@).len()
                == 0 {
                Seq::<char>::empty()
            } else {
                scope_block(scope_lines_of(scoped@))
            }
        },
{
    let mut p = profile;
    match combined_usage(usages) {
        Some(u) => p.description.append(u.as_str()),
        None => {
            assert(profile.description@ + usage_concat(usages@) =~= profile.description@);
        },
    }
    apply_scope(p, scoped)
}

/// A member of the harness registry.
#[derive(PartialEq, Eq, Structural, Clone, Copy, Debug)]
pub enum Member {
    /// The protocol harness, when one is installed.
    Berm,
    Mcp,
    Memory,
    /// The consumer harness registered at this position.
    Consumer(usize),
}

/// The members in composition order: the protocol harness when there is
/// one, then MCP and memory, then the consumers in registration order.
pub open spec fn composition(has_berm: bool, consumers: nat) -> Seq<Member> {
    (if has_berm {
        seq![Member::Berm]
    } else {
        Seq::empty()
    }) + seq![Member::Mcp, Member::Memory] + Seq::new(consumers, |i: int| Member::Consumer(i as usize))
}

/// The registry's members in composition order.
pub fn members(has_berm: bool, consumers: usize) -> (r: Vec<Member>)
    ensures
        r@ == composition(has_berm, consumers as nat),
{
    let mut out: Vec<Member> = Vec::new();
    if has_berm {
        out.push(Member::Berm);
    }
    out.push(Member::Mcp);
    out.push(Member::Memory);
    let ghost head = out@;
    let mut i: usize = 0;
    while i < consumers
        invariant
            i <= consumers,
            out@ == head + Seq::new(i as nat, |k: int| Member::Consumer(k as usize)),
        decreases consumers - i,
    {
        out.push(Member::Consumer(i));
        i += 1;
        assert(out@ =~= head + Seq::new(i as nat, |k: int| Member::Consumer(k as usize)));
    }
    assert(head =~= (if has_berm {
        seq![Member::Berm]
    } else {
        Seq::empty()
    }) + seq![Member::Mcp, Member::Memory]);
    out
}

/// The first member answer to a preprocess request, in composition order.
pub open spec fn first_answer(answers: Seq<Option<String>>) -> Option<String>
    decreases answers.len(),
{
    if answers.len() == 0 {
        None
    } else if answers[0] is Some {
        answers[0]
    } else {
        first_answer(answers.drop_first())
    }
}

/// Preprocess user content: the first member that rewrites it wins.
pub fn preprocess(answers: Vec<Option<String>>) -> (r: Option<String>)
    ensures
        r == first_answer(answers@),
{
    let ghost all = answers@;
    let mut rest = answers;
    assert(all.subrange(0, all.len() as int) =~= all);
    while rest.len() > 0
        invariant
            all == answers@,
            first_answer(all) == first_answer(rest@),
        decreases rest@.len(),
    {
        let ghost old_rest = rest@;
        let a = rest.remove(0);
        assert(rest@ =~= old_rest.drop_first());
        match a {
            Some(s) => {
                return Some(s);
            },
            None => {},
        }
    }
    None
}

/// The event published when an agent finishes: its source and payload.
pub fn done_event(agent: &str, final_response: &Option<String>) -> (r: (String, String))
    ensures
        r.0@ == "agent:"@ + agent@ + ":done"@,
        r.1@ == match final_response {
            Some(s) => s@,
            None => Seq::empty(),
        },
{
    let mut source = string_of("agent:");
    source.append(agent);
    source.append(":done");
    let payload = match final_response {
        Some(s) => s.clone(),
        None => String::new(),
    };
    (source, payload)
}

} // verus!
