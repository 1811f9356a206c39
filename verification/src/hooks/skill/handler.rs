//! Skill tool: slash-skill preprocessing, skill loading and discovery, and
//! the skills section of the system prompt.
//!
//! An agent's skill scope is the list of skills it may use; an empty list,
//! or no scope at all, leaves it unrestricted.

use crate::repos::skills::Skill;
use crate::text::{
    chars_of, contains_char, contains_infix, contains_str, has_infix, is_ascii_digit, is_ascii_lower, join,
    push_joined, skip_ws_forward, string_from_range, string_of, trim_start, views,
};
use vstd::prelude::*;

verus! {

/// Load a skill by name. Returns its instructions on exact match, or lists
/// matching skills otherwise.
pub struct SkillTool {
    /// Skill name to load. If no exact match, returns fuzzy matches.
    /// Leave empty to list all available skills.
    pub name: String,
}

/// The name `str::to_lowercase` gives: the Unicode lowercase mapping of
/// `s`, character by character in context.
pub uninterp spec fn unicode_lowercase(s: Seq<char>) -> Seq<char>;

/// `str::to_lowercase`.
#[verifier::external_body]
fn to_lowercase(s: &str) -> (r: String)
    ensures
        r@ == unicode_lowercase(s@),
{
    s.to_lowercase()
}

/// The skills an agent may use under `scope`; empty means all.
pub open spec fn allowed_of(scope: Option<&Vec<String>>) -> Seq<Seq<char>> {
    match scope {
        Some(v) => views(v@),
        None => Seq::empty(),
    }
}

/// Whether the scope keeps skill `name` from the agent.
pub open spec fn scope_excludes(allowed: Seq<Seq<char>>, name: Seq<char>) -> bool {
    allowed.len() > 0 && !allowed.contains(name)
}

/// Whether skill `i` is the first one called `name`.
pub open spec fn is_first_named(skills: Seq<Skill>, name: Seq<char>, i: int) -> bool {
    &&& 0 <= i < skills.len()
    &&& skills[i].name@ == name
    &&& forall|j: int| 0 <= j < i ==> skills[j].name@ != name
}

/// Whether some skill is called `name`.
pub open spec fn has_skill(skills: Seq<Skill>, name: Seq<char>) -> bool {
    exists|i: int| 0 <= i < skills.len() && skills[i].name@ == name
}

/// The body of the first skill called `name`.
pub open spec fn skill_body(skills: Seq<Skill>, name: Seq<char>) -> Seq<char> {
    skills[choose|i: int| is_first_named(skills, name, i)].body@
}

proof fn lemma_first_named_unique(skills: Seq<Skill>, name: Seq<char>, i: int)
    requires
        is_first_named(skills, name, i),
    ensures
        (choose|k: int| is_first_named(skills, name, k)) == i,
{
    let c = choose|k: int| is_first_named(skills, name, k);
    assert(is_first_named(skills, name, c));
    if c < i {
        assert(skills[c].name@ != name);
    } else if c > i {
        assert(skills[i].name@ != name);
    }
}

/// The index of the first skill called `name`, if any.
pub(crate) fn find_skill(skills: &Vec<Skill>, name: &str) -> (r: Option<usize>)
    ensures
        match r {
            Some(i) => is_first_named(skills@, name@, i as int),
            None => !has_skill(skills@, name@),
        },
{
    let mut i: usize = 0;
    while i < skills.len()
        invariant
            i <= skills@.len(),
            forall|j: int| 0 <= j < i ==> skills@[j].name@ != name@,
        decreases skills@.len() - i,
    {
        if crate::model::str_eq(skills[i].name.as_str(), name) {
            return Some(i);
        }
        i += 1;
    }
    None
}

// ── Slash skills ────────────────────────────────────────────────────

/// The characters a slash-skill name is made of.
pub open spec fn is_skill_name_char(c: char) -> bool {
    is_ascii_lower(c) || is_ascii_digit(c) || c == '-'
}

/// The length of the run of name characters at the start of `s`.
pub open spec fn name_len(s: Seq<char>) -> nat
    decreases s.len(),
{
    if s.len() > 0 && is_skill_name_char(s[0]) {
        1 + name_len(s.drop_first())
    } else {
        0
    }
}

/// A message that opens (after white space) with `/name`: the name and
/// what follows it.
pub open spec fn slash_command(content: Seq<char>) -> Option<(Seq<char>, Seq<char>)> {
    let t = trim_start(content);
    if t.len() > 0 && t[0] == '/' {
        let rest = t.drop_first();
        let e = name_len(rest) as int;
        Some((rest.take(e), rest.skip(e)))
    } else {
        None
    }
}

/// A loaded skill as injected into the message.
pub open spec fn skill_block(name: Seq<char>, body: Seq<char>) -> Seq<char> {
    "<skill name=\""@ + name + "\">\n"@ + body + "\n</skill>"@
}

/// What preprocessing makes of `content`: a `/name` message naming a skill
/// the agent may use becomes the rest of the message (if any), a blank
/// line, and the skill's body in a `<skill>` block; anything else is left
/// to other hooks (`None`).
pub open spec fn preprocessed(skills: Seq<Skill>, allowed: Seq<Seq<char>>, content: Seq<char>) -> Option<Seq<char>> {
    match slash_command(content) {
        None => None,
        Some((name, remainder)) => if name.len() == 0 || has_infix(name, ".."@) || scope_excludes(allowed, name)
            || !has_skill(skills, name) {
            None
        } else {
            let body = trim_start(remainder);
            let block = skill_block(name, skill_body(skills, name));
            if body.len() == 0 {
                Some(block)
            } else {
                Some(body + "\n\n"@ + block)
            }
        },
    }
}

/// A run of name characters has no `..` in it.
proof fn lemma_name_has_no_dots(name: Seq<char>)
    requires
        forall|k: int| 0 <= k < name.len() ==> is_skill_name_char(#[trigger] name[k]),
    ensures
        !has_infix(name, ".."@),
{
    reveal_strlit("..");
    if has_infix(name, ".."@) {
        let i = choose|i: int| 0 <= i && i + ".."@.len() <= name.len() && #[trigger] name.subrange(i, i + ".."@.len()) == ".."@;
        assert(name.subrange(i, i + 2)[0] == name[i]);
        assert(is_skill_name_char(name[i]));
    }
}

// ── Discovery ───────────────────────────────────────────────────────

/// Whether skill `s` is listed for a search: the agent may use it, and the
/// lowered query is empty or found in its lowered name or description.
pub open spec fn listed(
    s: Skill,
    allowed: Seq<Seq<char>>,
    query: Seq<char>,
    lower_name: Seq<char>,
    lower_description: Seq<char>,
) -> bool {
    &&& (allowed.len() == 0 || allowed.contains(s.name@))
    &&& (query.len() == 0 || has_infix(lower_name, query) || has_infix(lower_description, query))
}

/// The listing lines of a search over `skills`, whose lowered names and
/// descriptions are `lowered`.
pub open spec fn listing(
    skills: Seq<Skill>,
    lowered: Seq<(Seq<char>, Seq<char>)>,
    allowed: Seq<Seq<char>>,
    query: Seq<char>,
) -> Seq<Seq<char>>
    decreases skills.len(),
{
    if skills.len() == 0 || lowered.len() == 0 {
        Seq::empty()
    } else {
        let s = skills.last();
        let l = lowered.last();
        listing(skills.drop_last(), lowered.drop_last(), allowed, query) + if listed(s, allowed, query, l.0, l.1) {
            seq![s.name@ + ": "@ + s.description@]
        } else {
            Seq::empty()
        }
    }
}

/// The line a search lists for a skill.
pub open spec fn skill_line(s: Skill) -> Seq<char> {
    s.name@ + ": "@ + s.description@
}

/// A search lists exactly the skills the agent may use (every skill when
/// nothing is allowed explicitly) whose lower-cased name or lower-cased
/// description holds the query (every one for an empty query): each such
/// skill's `name: description` line is in the listing, and every line of
/// the listing is such a skill's line. So a skill found only by its
/// description is listed too.
pub proof fn lemma_listing_finds_name_or_description(
    skills: Seq<Skill>,
    lowered: Seq<(Seq<char>, Seq<char>)>,
    allowed: Seq<Seq<char>>,
    query: Seq<char>,
)
    requires
        lowered.len() == skills.len(),
    ensures
        forall|i: int|
            0 <= i < skills.len() && (allowed.len() == 0 || allowed.contains(#[trigger] skills[i].name@)) && (
            query.len() == 0 || has_infix(lowered[i].0, query) || has_infix(lowered[i].1, query))
                ==> listing(skills, lowered, allowed, query).contains(skill_line(skills[i])),
        forall|k: int|
            #![trigger listing(skills, lowered, allowed, query)[k]]
            0 <= k < listing(skills, lowered, allowed, query).len() ==> exists|i: int|
                0 <= i < skills.len() && listing(skills, lowered, allowed, query)[k] == #[trigger] skill_line(skills[i])
                    && (allowed.len() == 0 || allowed.contains(skills[i].name@)) && (query.len() == 0 || has_infix(
                    lowered[i].0,
                    query,
                ) || has_infix(lowered[i].1, query)),
    decreases skills.len(),
{
    reveal_strlit(": ");
    if skills.len() > 0 {
        let st = skills.drop_last();
        let lt = lowered.drop_last();
        lemma_listing_finds_name_or_description(st, lt, allowed, query);
        let prev = listing(st, lt, allowed, query);
        let n = skills.len() - 1;
        let sl = skills.last();
        let l = lowered.last();
        let tail = if listed(sl, allowed, query, l.0, l.1) {
            seq![sl.name@ + ": "@ + sl.description@]
        } else {
            Seq::<Seq<char>>::empty()
        };
        let all = listing(skills, lowered, allowed, query);
        assert(all == prev + tail);
        assert forall|i: int|
            0 <= i < skills.len() && (allowed.len() == 0 || allowed.contains(#[trigger] skills[i].name@)) && (
            query.len() == 0 || has_infix(lowered[i].0, query) || has_infix(lowered[i].1, query))
                implies all.contains(skill_line(skills[i])) by {
            if i < n {
                assert(st[i] == skills[i]);
                assert(lt[i] == lowered[i]);
                assert(prev.contains(skill_line(st[i])));
                let k = choose|k: int| 0 <= k < prev.len() && prev[k] == skill_line(st[i]);
                assert(all[k] == prev[k]);
            } else {
                assert(listed(sl, allowed, query, l.0, l.1));
                assert(all[prev.len() as int] == skill_line(sl));
            }
        }
        assert forall|k: int| #![trigger all[k]] 0 <= k < all.len() implies exists|i: int|
            0 <= i < skills.len() && all[k] == #[trigger] skill_line(skills[i]) && (allowed.len() == 0
                || allowed.contains(skills[i].name@)) && (query.len() == 0 || has_infix(lowered[i].0, query)
                || has_infix(lowered[i].1, query)) by {
            if k < prev.len() {
                assert(all[k] == prev[k]);
                let i = choose|i: int|
                    0 <= i < st.len() && prev[k] == #[trigger] skill_line(st[i]) && (allowed.len() == 0
                        || allowed.contains(st[i].name@)) && (query.len() == 0 || has_infix(lt[i].0, query)
                        || has_infix(lt[i].1, query));
                assert(st[i] == skills[i] && lt[i] == lowered[i]);
                assert(all[k] == skill_line(skills[i]));
            } else {
                assert(tail.len() > 0);
                assert(listed(sl, allowed, query, l.0, l.1));
                assert(skills[n] == sl);
                assert(all[k] == skill_line(skills[n]));
                assert(lowered[n] == l);
            }
        }
    }
}

/// What a search answers for its listing lines.
pub open spec fn search_text(lines: Seq<Seq<char>>) -> Seq<char> {
    if lines.len() == 0 {
        "no skills found"@
    } else {
        join(lines, "\n"@)
    }
}

/// What a search looks for: nothing (so everything matches) for an empty
/// name, else the name lower-cased.
pub open spec fn search_query(name: Seq<char>) -> Seq<char> {
    if name.len() == 0 {
        Seq::empty()
    } else {
        unicode_lowercase(name)
    }
}

/// What the skill tool answers for a call with `name`: refused outside
/// the agent's scope or for a name that could leave the skill directory;
/// the body of the skill called `name`; else a search of the skills the
/// agent may use (by lowered name and description). An empty name lists
/// every skill the agent may use.
pub open spec fn dispatch_text(
    skills: Seq<Skill>,
    allowed: Seq<Seq<char>>,
    name: Seq<char>,
) -> Result<Seq<char>, Seq<char>> {
    if name.len() > 0 && scope_excludes(allowed, name) {
        Err("skill not available: "@ + name)
    } else if has_infix(name, ".."@) || name.contains('/') || name.contains('\\') {
        Err("invalid skill name: "@ + name)
    } else if name.len() > 0 && has_skill(skills, name) {
        Ok(skill_body(skills, name))
    } else {
        Ok(search_text(listing(skills, lowered_of(skills), allowed, search_query(name))))
    }
}

/// The lowered names and descriptions of `skills`, pair by pair.
pub open spec fn lowered_of(skills: Seq<Skill>) -> Seq<(Seq<char>, Seq<char>)> {
    skills.map_values(|s: Skill| (unicode_lowercase(s.name@), unicode_lowercase(s.description@)))
}

/// The views of lowered pairs.
pub open spec fn pairs_view(p: Seq<(String, String)>) -> Seq<(Seq<char>, Seq<char>)> {
    p.map_values(|x: (String, String)| (x.0@, x.1@))
}

/// The listing lines of a search: the skills the agent may use whose
/// lowered name or description holds `query` (all of them for an empty
/// query), as `name: description`. `lowered[i]` is skill `i`'s lowered
/// name and description.
pub fn search_lines(
    skills: &Vec<Skill>,
    lowered: &Vec<(String, String)>,
    allowed: &Vec<String>,
    query: &str,
) -> (r: Vec<String>)
    requires
        lowered@.len() == skills@.len(),
    ensures
        views(r@) == listing(skills@, pairs_view(lowered@), views(allowed@), query@),
{
    let q = chars_of(query);
    let mut out: Vec<String> = Vec::new();
    let mut i: usize = 0;
    while i < skills.len()
        invariant
            i <= skills@.len(),
            lowered@.len() == skills@.len(),
            q@ == query@,
            views(out@) == listing(skills@.take(i as int), pairs_view(lowered@).take(i as int), views(allowed@), query@),
        decreases skills@.len() - i,
    {
        assert(skills@.take(i as int + 1).drop_last() == skills@.take(i as int));
        assert(pairs_view(lowered@).take(i as int + 1).drop_last() == pairs_view(lowered@).take(i as int));
        let s = &skills[i];
        let permitted = allowed.len() == 0 || contains_str(allowed, s.name.as_str());
        let hit = q.len() == 0 || contains_infix(&chars_of(lowered[i].0.as_str()), &q)
            || contains_infix(&chars_of(lowered[i].1.as_str()), &q);
        if permitted && hit {
            let mut line = s.name.clone();
            line.append(": ");
            line.append(s.description.as_str());
            let ghost prev = out@;
            out.push(line);
            assert(views(out@) == views(prev).push(line@));
        }
        i += 1;
    }
    assert(skills@.take(i as int) == skills@);
    assert(pairs_view(lowered@).take(i as int) == pairs_view(lowered@));
    out
}

/// Skill subsystem: tool dispatch and slash-skill preprocessing over a
/// snapshot of the discovered skills.
pub struct SkillHook {
    pub skills: Vec<Skill>,
}

impl SkillHook {
    pub fn new(skills: Vec<Skill>) -> (r: SkillHook)
        ensures
            r.skills == skills,
    {
        SkillHook { skills }
    }

    /// Expand a `/skill` message for an agent with skill scope `scope`.
    pub fn preprocess(&self, scope: Option<&Vec<String>>, content: &str) -> (r: Option<String>)
        ensures
            match r {
                Some(s) => preprocessed(self.skills@, allowed_of(scope), content@) == Some(s@),
                None => preprocessed(self.skills@, allowed_of(scope), content@) is None,
            },
    {
        let v = chars_of(content);
        let n = v.len();
        assert(v@.subrange(0, n as int) =~= v@);
        let a = skip_ws_forward(&v, 0, n);
        if a >= n || v[a] != '/' {
            return None;
        }
        let ghost t = v@.subrange(a as int, n as int);
        let ghost rest = t.drop_first();
        assert(rest =~= v@.subrange(a + 1, n as int));
        let start = a + 1;
        let mut e = start;
        while e < n && (('a' <= v[e] && v[e] <= 'z') || ('0' <= v[e] && v[e] <= '9') || v[e] == '-')
            invariant
                start <= e <= n,
                n == v@.len(),
                name_len(v@.subrange(start as int, n as int)) == (e - start) + name_len(v@.subrange(e as int, n as int)),
                forall|k: int| start <= k < e ==> is_skill_name_char(#[trigger] v@[k]),
            decreases n - e,
        {
            assert(v@.subrange(e as int, n as int).drop_first() =~= v@.subrange(e + 1, n as int));
            e += 1;
        }
        proof {
            if e < n {
                assert(v@.subrange(e as int, n as int)[0] == v@[e as int]);
            }
        }
        let ghost name_v = v@.subrange(start as int, e as int);
        assert(rest.take(e - start) =~= name_v);
        assert(rest.skip(e - start) =~= v@.subrange(e as int, n as int));
        if e == start {
            return None;
        }
        proof {
            assert forall|k: int| 0 <= k < name_v.len() implies is_skill_name_char(#[trigger] name_v[k]) by {
                assert(name_v[k] == v@[start + k]);
            }
            lemma_name_has_no_dots(name_v);
        }
        let name = string_from_range(&v, start, e);
        match scope {
            Some(allowed) => {
                if allowed.len() > 0 && !contains_str(allowed, name.as_str()) {
                    return None;
                }
            },
            None => {},
        }
        let idx = match find_skill(&self.skills, name.as_str()) {
            Some(i) => i,
            None => {
                return None;
            },
        };
        proof {
            lemma_first_named_unique(self.skills@, name@, idx as int);
        }
        let b = skip_ws_forward(&v, e, n);
        let mut block = string_of("<skill name=\"");
        block.append(name.as_str());
        block.append("\">\n");
        block.append(self.skills[idx].body.as_str());
        block.append("\n</skill>");
        if b == n {
            assert(v@.subrange(b as int, n as int).len() == 0);
            Some(block)
        } else {
            let mut out = string_from_range(&v, b, n);
            out.append("\n\n");
            out.append(block.as_str());
            Some(out)
        }
    }

    /// Answer a skill tool call with `name` from an agent with skill scope
    /// `scope`.
    pub fn dispatch(&self, scope: Option<&Vec<String>>, name: &str) -> (r: Result<String, String>)
        ensures
            match r {
                Ok(s) => dispatch_text(self.skills@, allowed_of(scope), name@) == Ok::<
                    Seq<char>,
                    Seq<char>,
                >(s@),
                Err(e) => dispatch_text(self.skills@, allowed_of(scope), name@) == Err::<
                    Seq<char>,
                    Seq<char>,
                >(e@),
            },
    {
        let empty: Vec<String> = Vec::new();
        let allowed: &Vec<String> = match scope {
            Some(a) => a,
            None => &empty,
        };
        assert(views(allowed@) == allowed_of(scope));
        let nv = chars_of(name);
        if nv.len() > 0 && allowed.len() > 0 && !contains_str(allowed, name) {
            let mut e = string_of("skill not available: ");
            e.append(name);
            return Err(e);
        }
        let dots = chars_of("..");
        if contains_infix(&nv, &dots) || contains_char(&nv, '/') || contains_char(&nv, '\\') {
            let mut e = string_of("invalid skill name: ");
            e.append(name);
            return Err(e);
        }
        if nv.len() > 0 {
            match find_skill(&self.skills, name) {
                Some(i) => {
                    proof {
                        lemma_first_named_unique(self.skills@, name@, i as int);
                    }
                    return Ok(self.skills[i].body.clone());
                },
                None => {},
            }
        }
        let query = if nv.len() == 0 {
            String::new()
        } else {
            to_lowercase(name)
        };
        let lowered = lower_all(&self.skills);
        let lines = search_lines(&self.skills, &lowered, allowed, query.as_str());
        if lines.len() == 0 {
            Ok(string_of("no skills found"))
        } else {
            let mut out = String::new();
            push_joined(&mut out, &lines, "\n");
            Ok(out)
        }
    }

    /// The skills section of the system prompt, or `None` without skills.
    pub fn system_prompt(&self) -> (r: Option<String>)
        ensures
            match r {
                Some(p) => self.skills@.len() > 0 && p@ == skill_prompt(self.skills@),
                None => self.skills@.len() == 0,
            },
    {
        build_skill_prompt(&self.skills)
    }

    /// The tools and scope line this hook contributes for an agent that
    /// declares `skills`: none without skills, else the `skill` tool and a
    /// `skills: ...` line.
    pub fn scoped_tools(&self, skills: &Vec<String>) -> (r: (Vec<String>, Option<String>))
        ensures
            skills@.len() == 0 ==> r.0@.len() == 0 && r.1 is None,
            skills@.len() > 0 ==> (views(r.0@) == seq!["skill"@] && (r.1 matches Some(l) && l@ == "skills: "@
                + join(views(skills@), ", "@))),
    {
        if skills.len() == 0 {
            return (Vec::new(), None);
        }
        let mut tools: Vec<String> = Vec::new();
        tools.push(string_of("skill"));
        assert(views(tools@) =~= seq!["skill"@]);
        let mut line = string_of("skills: ");
        push_joined(&mut line, skills, ", ");
        (tools, Some(line))
    }
}

/// `(lowercase name, lowercase description)` of every skill.
fn lower_all(skills: &Vec<Skill>) -> (r: Vec<(String, String)>)
    ensures
        pairs_view(r@) == lowered_of(skills@),
        r@.len() == skills@.len(),
{
    let mut out: Vec<(String, String)> = Vec::new();
    let mut i: usize = 0;
    while i < skills.len()
        invariant
            i <= skills@.len(),
            out@.len() == i,
            pairs_view(out@) == lowered_of(skills@).take(i as int),
        decreases skills@.len() - i,
    {
        let pair = (to_lowercase(skills[i].name.as_str()), to_lowercase(skills[i].description.as_str()));
        let ghost prev = out@;
        out.push(pair);
        assert(pairs_view(out@) == pairs_view(prev).push((pair.0@, pair.1@)));
        assert(lowered_of(skills@).take(i as int + 1) == lowered_of(skills@).take(i as int).push(
            lowered_of(skills@)[i as int],
        ));
        i += 1;
    }
    assert(lowered_of(skills@).take(i as int) == lowered_of(skills@));
    out
}

/// One skill's line in the prompt.
pub open spec fn prompt_line(s: Skill) -> Seq<char> {
    if s.description@.len() == 0 {
        "- "@ + s.name@
    } else {
        "- "@ + s.name@ + ": "@ + s.description@
    }
}

/// The skills section of the system prompt.
pub open spec fn skill_prompt(skills: Seq<Skill>) -> Seq<char> {
    "\n\n<resources>\nSkills:\nWhen a <skill> tag appears in a message, it has been pre-loaded by the system. Follow its instructions directly — do not announce or re-load it.\nUse the skill tool to discover available skills or load one by name.\n"@
        + join(skills.map_values(|s: Skill| prompt_line(s)), "\n"@) + "\n</resources>"@
}

/// Build the skills section of the system prompt; `None` without skills.
pub fn build_skill_prompt(skills: &Vec<Skill>) -> (r: Option<String>)
    ensures
        match r {
            Some(p) => skills@.len() > 0 && p@ == skill_prompt(skills@),
            None => skills@.len() == 0,
        },
{
    if skills.len() == 0 {
        return None;
    }
    let mut lines: Vec<String> = Vec::new();
    let mut i: usize = 0;
    while i < skills.len()
        invariant
            i <= skills@.len(),
            views(lines@) == skills@.map_values(|s: Skill| prompt_line(s)).take(i as int),
        decreases skills@.len() - i,
    {
        let s = &skills[i];
        let mut line = string_of("- ");
        line.append(s.name.as_str());
        if !s.description.as_str().is_empty() {
            line.append(": ");
            line.append(s.description.as_str());
        }
        let ghost prev = lines@;
        lines.push(line);
        assert(views(lines@) == views(prev).push(line@));
        assert(skills@.map_values(|s: Skill| prompt_line(s)).take(i as int + 1) == skills@.map_values(
            |s: Skill| prompt_line(s),
        ).take(i as int).push(prompt_line(skills@[i as int])));
        i += 1;
    }
    assert(skills@.map_values(|s: Skill| prompt_line(s)).take(i as int) == skills@.map_values(|s: Skill| prompt_line(s)));
    let mut out = string_of(
        "\n\n<resources>\nSkills:\nWhen a <skill> tag appears in a message, it has been pre-loaded by the system. Follow its instructions directly — do not announce or re-load it.\nUse the skill tool to discover available skills or load one by name.\n",
    );
    push_joined(&mut out, &lines, "\n");
    out.append("\n</resources>");
    Some(out)
}

} // verus!
