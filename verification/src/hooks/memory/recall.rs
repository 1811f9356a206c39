//! `recall` — keyword search over memory entries, and how its hits read.

use crate::hooks::memory::{limit_for, RecallLimits};
use crate::text::{join, push_joined, string_of, views};
use vstd::prelude::*;

verus! {

/// Search your memory entries by keyword. Returns ranked results.
pub struct Recall {
    /// Keyword or phrase to search your memory entries for.
    pub query: String,
    /// Maximum number of results to return. Defaults to 5.
    pub limit: Option<usize>,
}

/// One hit as the model reads it: its name as a heading, then its content.
pub open spec fn hit_text(name: Seq<char>, content: Seq<char>) -> Seq<char> {
    "## "@ + name + "\n"@ + content
}

/// The rendered hits, in rank order.
pub open spec fn hit_texts(hits: Seq<(String, String)>) -> Seq<Seq<char>> {
    hits.map_values(|h: (String, String)| hit_text(h.0@, h.1@))
}

/// What a recall answers for the ranked `hits` (name, content): a fixed
/// line when nothing matched, else the hits separated by rules.
pub open spec fn recall_text(hits: Seq<(String, String)>) -> Seq<char> {
    if hits.len() == 0 {
        "no memories found"@
    } else {
        join(hit_texts(hits), "\n---\n"@)
    }
}

/// Render the ranked search hits (name, content) of a recall.
pub fn format_recall(hits: &Vec<(String, String)>) -> (r: String)
    ensures
        r@ == recall_text(hits@),
{
    if hits.len() == 0 {
        return string_of("no memories found");
    }
    let mut parts: Vec<String> = Vec::new();
    let mut i: usize = 0;
    while i < hits.len()
        invariant
            i <= hits@.len(),
            views(parts@) == hit_texts(hits@).take(i as int),
        decreases hits@.len() - i,
    {
        let mut p = string_of("## ");
        p.append(hits[i].0.as_str());
        p.append("\n");
        p.append(hits[i].1.as_str());
        let ghost prev = parts@;
        parts.push(p);
        assert(views(parts@) == views(prev).push(p@));
        assert(hit_texts(hits@).take(i as int + 1) == hit_texts(hits@).take(i as int).push(hit_texts(hits@)[i as int]));
        i += 1;
    }
    assert(hit_texts(hits@).take(i as int) == hit_texts(hits@));
    let mut out = String::new();
    push_joined(&mut out, &parts, "\n---\n");
    out
}

/// The number of hits a recall asks for: the one given, else the agent's
/// registered limit.
pub fn effective_limit(limits: &RecallLimits, agent: &str, requested: Option<usize>) -> (r: usize)
    requires
        limits.wf(),
    ensures
        r == match requested {
            Some(n) => n,
            None => limit_for(limits.configs(), agent@),
        },
{
    match requested {
        Some(n) => n,
        None => limits.recall_limit(agent),
    }
}

} // verus!
