//! One-shot migrations of on-disk state. Each detects its own legacy shape
//! and is a no-op once upgraded.

use crate::doc::{
    at_most_once, aview, doc_view, find_first, lemma_array_view, lemma_table_view, lemma_tremove_gone, lemma_tset_keys,
    lemma_tset_lookup, lemma_tset_same, lemma_tview_push, lemma_tview_remove, lemma_tview_update, tlookup, tremove, tset,
    tview, Doc, DocView,
};
use crate::text::{chars_of, is_ascii_digit, string_of};
use vstd::prelude::*;

verus! {

/// Whether `s` has a `_`.
pub open spec fn has_underscore(s: Seq<char>) -> bool {
    s.contains('_')
}

/// The position of the last `_` in `s`.
pub open spec fn last_underscore(s: Seq<char>) -> int {
    choose|i: int| 0 <= i < s.len() && s[i] == '_' && forall|j: int| i < j < s.len() ==> s[j] != '_'
}

/// `<agent>_<sender>_<seq>`, the pre-ULID session directory name: after
/// its last `_` comes a non-empty run of ASCII digits, and another `_`
/// comes before that one (separating agent and sender).
pub open spec fn legacy_slug(name: Seq<char>) -> bool {
    has_underscore(name) && has_underscore(name.take(last_underscore(name))) && {
        let seq = name.skip(last_underscore(name) + 1);
        seq.len() > 0 && forall|k: int| 0 <= k < seq.len() ==> is_ascii_digit(#[trigger] seq[k])
    }
}

/// Whether `name` is a legacy session directory name.
pub fn is_legacy_slug(name: &str) -> (r: bool)
    ensures
        r == legacy_slug(name@),
{
    let v = chars_of(name);
    let mut i = v.len();
    while i > 0 && v[i - 1] != '_'
        invariant
            i <= v@.len(),
            v@ == name@,
            forall|j: int| i <= j < v@.len() ==> v@[j] != '_',
        decreases i,
    {
        i -= 1;
    }
    if i == 0 {
        assert forall|j: int| 0 <= j < v@.len() implies v@[j] != '_' by {}
        return false;
    }
    let u = i - 1;
    proof {
        assert(v@[u as int] == '_');
        assert(has_underscore(name@));
        let c = last_underscore(name@);
        assert(0 <= c < v@.len() && v@[c] == '_');
        if c < u {
            assert(v@[u as int] != '_');
        } else if c > u {
            assert(v@[c] != '_');
        }
        assert(c == u);
    }
    if i == v.len() {
        return false;
    }
    let mut p: usize = 0;
    while p < i - 1 && v[p] != '_'
        invariant
            p <= i - 1,
            i - 1 < v@.len(),
            v@ == name@,
            forall|j: int| 0 <= j < p ==> v@[j] != '_',
        decreases i - 1 - p,
    {
        p += 1;
    }
    if p == i - 1 {
        assert(!name@.take(i - 1).contains('_')) by {
            if name@.take(i - 1).contains('_') {
                let j = choose|j: int| 0 <= j < name@.take(i - 1).len() && #[trigger] name@.take(i - 1)[j] == '_';
                assert(v@[j] == '_');
            }
        }
        return false;
    }
    assert(name@.take(i - 1)[p as int] == '_');
    let mut k = i;
    while k < v.len()
        invariant
            1 <= i <= k <= v@.len(),
            v@ == name@,
            has_underscore(name@),
            last_underscore(name@) == i - 1,
            forall|j: int| i <= j < k ==> is_ascii_digit(#[trigger] v@[j]),
        decreases v@.len() - k,
    {
        if !('0' <= v[k] && v[k] <= '9') {
            assert(name@.skip(i as int)[k - i] == v@[k as int]);
            return false;
        }
        k += 1;
    }
    assert forall|j: int| 0 <= j < name@.skip(i as int).len() implies is_ascii_digit(#[trigger] name@.skip(i as int)[j]) by {
        assert(name@.skip(i as int)[j] == v@[i + j]);
    }
    true
}

// ── Inlining per-agent MCP configs ──────────────────────────────────

/// A server table taken from the registry for the reference `name`: it
/// keeps its own `name` entry, or gains one holding the reference.
pub open spec fn with_name(cfg: Seq<(Seq<char>, DocView)>, name: Seq<char>) -> Seq<(Seq<char>, DocView)> {
    if tlookup(cfg, "name"@) is Some {
        cfg
    } else {
        cfg.push(("name"@, DocView::Str(name)))
    }
}

/// An agent's `mcps` list with each name replaced by the registry's table
/// for it (names the registry lacks are dropped); other items stay.
pub open spec fn migrate_items(items: Seq<DocView>, registry: Seq<(Seq<char>, DocView)>) -> Seq<DocView>
    decreases items.len(),
{
    if items.len() == 0 {
        Seq::empty()
    } else {
        migrate_items(items.drop_last(), registry) + match items.last() {
            DocView::Str(n) => match tlookup(registry, n) {
                Some(DocView::Table(cfg)) => seq![DocView::Table(with_name(cfg, n))],
                _ => Seq::empty(),
            },
            other => seq![other],
        }
    }
}

/// The top-level MCP registry is dropped whenever it is a table, so the
/// settings lose that entry; dropping a non-empty registry is a change the
/// migration reports, so the file gets rewritten. A registry that is not a
/// table is left alone and nothing is reported.
pub proof fn lemma_dropped_registry_is_reported(t: Seq<(Seq<char>, DocView)>)
    ensures
        (tlookup(t, "mcps"@) matches Some(DocView::Table(r))) ==> inlined_settings(t).0.len() == t.len() - 1,
        (tlookup(t, "mcps"@) matches Some(DocView::Table(r)) && r.len() > 0) ==> inlined_settings(t).1,
        (tlookup(t, "mcps"@) matches Some(v) && !(v is Table)) ==> inlined_settings(t) == (t, false),
{
    if let Some(DocView::Table(r)) = tlookup(t, "mcps"@) {
        crate::doc::lemma_first_index_spec(t, "mcps"@);
        let t1 = tremove(t, "mcps"@);
        assert(t1.len() == t.len() - 1);
        if let Some(DocView::Table(agents)) = tlookup(t1, "agents"@) {
            let (migrated, any) = migrate_agents(agents, r);
            lemma_tset_keys(t1, "agents"@, DocView::Table(migrated), "agents"@);
        }
    }
}

/// Whether some item of the list is a name.
pub open spec fn has_name_item(items: Seq<DocView>) -> bool {
    exists|i: int| 0 <= i < items.len() && #[trigger] items[i] is Str
}

/// One agent after migration, and whether it changed: an agent table whose
/// `mcps` list names servers has those names inlined.
pub open spec fn migrate_agent(agent: DocView, registry: Seq<(Seq<char>, DocView)>) -> (DocView, bool) {
    match agent {
        DocView::Table(t) => match tlookup(t, "mcps"@) {
            Some(DocView::Array(items)) => if has_name_item(items) {
                (DocView::Table(tset(t, "mcps"@, DocView::Array(migrate_items(items, registry)))), true)
            } else {
                (agent, false)
            },
            _ => (agent, false),
        },
        _ => (agent, false),
    }
}

/// All agents after migration, and whether any changed.
pub open spec fn migrate_agents(agents: Seq<(Seq<char>, DocView)>, registry: Seq<(Seq<char>, DocView)>) -> (
    Seq<(Seq<char>, DocView)>,
    bool,
)
    decreases agents.len(),
{
    if agents.len() == 0 {
        (Seq::empty(), false)
    } else {
        let (init, any) = migrate_agents(agents.drop_last(), registry);
        let (a, changed) = migrate_agent(agents.last().1, registry);
        (init.push((agents.last().0, a)), any || changed)
    }
}

/// The settings after inlining, and whether they changed. A top-level
/// `mcps` that is not a table is left alone. Otherwise that registry is
/// dropped (a change when it had entries) and each agent's named MCPs are
/// inlined from it.
pub open spec fn inlined_settings(t: Seq<(Seq<char>, DocView)>) -> (Seq<(Seq<char>, DocView)>, bool) {
    match tlookup(t, "mcps"@) {
        Some(v) if !(v is Table) => (t, false),
        _ => {
            let registry = match tlookup(t, "mcps"@) {
                Some(DocView::Table(r)) => r,
                _ => Seq::empty(),
            };
            let t1 = tremove(t, "mcps"@);
            match tlookup(t1, "agents"@) {
                Some(DocView::Table(agents)) => {
                    let (migrated, any) = migrate_agents(agents, registry);
                    (tset(t1, "agents"@, DocView::Table(migrated)), registry.len() > 0 || any)
                },
                _ => (t1, registry.len() > 0),
            }
        },
    }
}

/// Whether some item of the list is a name.
fn has_name(items: &Vec<Doc>) -> (r: bool)
    ensures
        r == has_name_item(aview(items@)),
{
    let mut i: usize = 0;
    while i < items.len()
        invariant
            i <= items@.len(),
            forall|j: int| 0 <= j < i ==> !(aview(items@)[j] is Str),
        decreases items@.len() - i,
    {
        match &items[i] {
            Doc::Str(_) => {
                assert(aview(items@)[i as int] is Str);
                return true;
            },
            _ => {},
        }
        i += 1;
    }
    false
}

/// The registry's table for `name`, with the name filled in.
fn inlined_config(registry: &Vec<(String, Doc)>, name: &String) -> (r: Option<Doc>)
    ensures
        match tlookup(tview(registry@), name@) {
            Some(DocView::Table(cfg)) => r matches Some(d) && doc_view(d) == DocView::Table(with_name(cfg, name@)),
            _ => r is None,
        },
{
    let j = match find_first(registry, name.as_str()) {
        Some(j) => j,
        None => {
            return None;
        },
    };
    let copied = registry[j].1.copy();
    match copied {
        Doc::Table(mut cfg) => {
            proof {
                lemma_table_view(cfg);
            }
            match find_first(&cfg, "name") {
                Some(_) => {
                    proof {
                        lemma_table_view(cfg);
                    }
                    Some(Doc::Table(cfg))
                },
                None => {
                    let ghost before = cfg@;
                    let entry = (string_of("name"), Doc::Str(name.clone()));
                    cfg.push(entry);
                    proof {
                        lemma_tview_push(before, entry);
                        lemma_table_view(cfg);
                    }
                    Some(Doc::Table(cfg))
                },
            }
        },
        _ => None,
    }
}

/// An agent's `mcps` list with names inlined from the registry.
fn inline_items(items: &Vec<Doc>, registry: &Vec<(String, Doc)>) -> (r: Vec<Doc>)
    ensures
        aview(r@) == migrate_items(aview(items@), tview(registry@)),
{
    let mut out: Vec<Doc> = Vec::new();
    let mut i: usize = 0;
    while i < items.len()
        invariant
            i <= items@.len(),
            aview(out@) == migrate_items(aview(items@).take(i as int), tview(registry@)),
        decreases items@.len() - i,
    {
        let ghost prev = out@;
        assert(aview(items@).take(i as int + 1).drop_last() =~= aview(items@).take(i as int));
        assert(aview(items@).take(i as int + 1).last() == doc_view(items@[i as int]));
        match &items[i] {
            Doc::Str(n) => match inlined_config(registry, n) {
                Some(d) => {
                    out.push(d);
                    assert(aview(out@) =~= aview(prev).push(doc_view(d)));
                },
                None => {},
            },
            other => {
                let c = other.copy();
                out.push(c);
                assert(aview(out@) =~= aview(prev).push(doc_view(c)));
            },
        }
        i += 1;
    }
    assert(aview(items@).take(i as int) =~= aview(items@));
    out
}

/// One agent after migration, and whether it changed.
fn inline_agent(agent: Doc, registry: &Vec<(String, Doc)>) -> (r: (Doc, bool))
    ensures
        (doc_view(r.0), r.1) == migrate_agent(doc_view(agent), tview(registry@)),
{
    let ghost av = doc_view(agent);
    match agent {
        Doc::Table(mut t) => {
            proof {
                lemma_table_view(t);
            }
            let ghost tv = tview(t@);
            match find_first(&t, "mcps") {
                Some(i) => {
                    let ghost before = t@;
                    let (k, v) = t.remove(i);
                    match v {
                        Doc::Array(items) => {
                            proof {
                                lemma_array_view(items);
                            }
                            if has_name(&items) {
                                let new_items = inline_items(&items, registry);
                                let entry = (k, Doc::Array(new_items));
                                t.insert(i, entry);
                                proof {
                                    lemma_array_view(new_items);
                                    assert(t@ =~= before.update(i as int, entry));
                                    lemma_tview_update(before, i as int, entry);
                                    assert(tv[i as int].0 == "mcps"@);
                                    assert(entry.0@ == "mcps"@);
                                    assert(tview(t@) == tv.update(i as int, ("mcps"@, DocView::Array(aview(new_items@)))));
                                    lemma_table_view(t);
                                }
                                (Doc::Table(t), true)
                            } else {
                                let entry = (k, Doc::Array(items));
                                t.insert(i, entry);
                                proof {
                                    assert(t@ =~= before);
                                    lemma_table_view(t);
                                }
                                (Doc::Table(t), false)
                            }
                        },
                        other => {
                            let entry = (k, other);
                            t.insert(i, entry);
                            proof {
                                assert(t@ =~= before);
                                lemma_table_view(t);
                            }
                            (Doc::Table(t), false)
                        },
                    }
                },
                None => {
                    proof {
                        lemma_table_view(t);
                    }
                    (Doc::Table(t), false)
                },
            }
        },
        other => (other, false),
    }
}

/// All agents after migration, and whether any changed.
fn inline_agents(agents: Vec<(String, Doc)>, registry: &Vec<(String, Doc)>) -> (r: (Vec<(String, Doc)>, bool))
    ensures
        (tview(r.0@), r.1) == migrate_agents(tview(agents@), tview(registry@)),
{
    let ghost all = agents@;
    let total = agents.len();
    let mut rest = agents;
    let mut out: Vec<(String, Doc)> = Vec::new();
    let mut any = false;
    let mut taken: usize = 0;
    while rest.len() > 0
        invariant
            total == all.len(),
            taken + rest@.len() == total,
            rest@ == all.subrange(taken as int, all.len() as int),
            (tview(out@), any) == migrate_agents(tview(all).take(taken as int), tview(registry@)),
        decreases rest@.len(),
    {
        let (name, agent) = rest.remove(0);
        assert(all[taken as int] == (name, agent));
        let (a, changed) = inline_agent(agent, registry);
        let ghost prev = out@;
        let entry = (name, a);
        out.push(entry);
        proof {
            lemma_tview_push(prev, entry);
            let t2 = tview(all).take(taken as int + 1);
            assert(t2.drop_last() =~= tview(all).take(taken as int));
            assert(t2.last() == (all[taken as int].0@, doc_view(all[taken as int].1)));
        }
        any = any || changed;
        taken += 1;
    }
    assert(tview(all).take(total as int) =~= tview(all));
    (out, any)
}

/// The registry under a top-level `mcps` table (none when absent).
pub open spec fn registry_of(t: Seq<(Seq<char>, DocView)>) -> Seq<(Seq<char>, DocView)> {
    match tlookup(t, "mcps"@) {
        Some(DocView::Table(r)) => r,
        _ => Seq::empty(),
    }
}

/// Whether the top-level `mcps` is something other than a table.
pub open spec fn foreign_registry(t: Seq<(Seq<char>, DocView)>) -> bool {
    tlookup(t, "mcps"@) matches Some(v) && !(v is Table)
}

/// Take the `mcps` registry out of the settings; `None`, with nothing
/// changed, when it is not a table.
fn take_registry(table: &mut Vec<(String, Doc)>) -> (r: Option<Vec<(String, Doc)>>)
    ensures
        match r {
            None => foreign_registry(tview(old(table)@)) && final(table)@ == old(table)@,
            Some(reg) => !foreign_registry(tview(old(table)@)) && tview(final(table)@) == tremove(
                tview(old(table)@),
                "mcps"@,
            ) && tview(reg@) == registry_of(tview(old(table)@)),
        },
{
    match find_first(table, "mcps") {
        Some(i) => {
            let ghost before = table@;
            let (k, v) = table.remove(i);
            proof {
                lemma_tview_remove(before, i as int);
            }
            match v {
                Doc::Table(r) => {
                    proof {
                        lemma_table_view(r);
                    }
                    Some(r)
                },
                other => {
                    let entry = (k, other);
                    table.insert(i, entry);
                    assert(table@ =~= before);
                    None
                },
            }
        },
        None => Some(Vec::new()),
    }
}

/// Inline the named MCPs of every agent under `agents`; whether any agent
/// changed.
fn inline_in_agents(table: &mut Vec<(String, Doc)>, registry: &Vec<(String, Doc)>) -> (changed: bool)
    ensures
        match tlookup(tview(old(table)@), "agents"@) {
            Some(DocView::Table(agents)) => {
                let (m, any) = migrate_agents(agents, tview(registry@));
                tview(final(table)@) == tset(tview(old(table)@), "agents"@, DocView::Table(m)) && changed == any
            },
            _ => tview(final(table)@) == tview(old(table)@) && !changed,
        },
{
    let ai = match find_first(table, "agents") {
        Some(i) => i,
        None => {
            return false;
        },
    };
    let ghost before = table@;
    let ghost t1 = tview(before);
    let (ak, av) = table.remove(ai);
    match av {
        Doc::Table(agents) => {
            proof {
                lemma_table_view(agents);
            }
            let (migrated, any) = inline_agents(agents, registry);
            let entry = (ak, Doc::Table(migrated));
            table.insert(ai, entry);
            proof {
                lemma_table_view(migrated);
                assert(table@ =~= before.update(ai as int, entry));
                lemma_tview_update(before, ai as int, entry);
            }
            any
        },
        other => {
            let entry = (ak, other);
            table.insert(ai, entry);
            assert(table@ =~= before);
            false
        },
    }
}

/// Replace the legacy `agents.<n>.mcps = ["name", …]` form with inline
/// server tables drawn from the top-level `[mcps.<name>]` registry, which
/// is dropped afterwards. Returns whether the settings changed.
pub fn inline_agent_mcps(table: &mut Vec<(String, Doc)>) -> (changed: bool)
    ensures
        (tview(final(table)@), changed) == inlined_settings(tview(old(table)@)),
{
    match take_registry(table) {
        None => false,
        Some(registry) => {
            let any = inline_in_agents(table, &registry);
            registry.len() > 0 || any
        },
    }
}

// ── The migration is idempotent ─────────────────────────────────────

/// A migrated list holds no more names.
proof fn lemma_migrated_items_unnamed(items: Seq<DocView>, registry: Seq<(Seq<char>, DocView)>)
    ensures
        !has_name_item(migrate_items(items, registry)),
    decreases items.len(),
{
    if items.len() > 0 {
        lemma_migrated_items_unnamed(items.drop_last(), registry);
        let init = migrate_items(items.drop_last(), registry);
        let all = migrate_items(items, registry);
        assert forall|i: int| 0 <= i < all.len() implies !(#[trigger] all[i] is Str) by {
            if i < init.len() {
                assert(all[i] == init[i]);
            }
        }
    }
}

/// A migrated agent is left alone by a second migration.
proof fn lemma_migrated_agent_stable(
    agent: DocView,
    registry: Seq<(Seq<char>, DocView)>,
    again: Seq<(Seq<char>, DocView)>,
)
    ensures
        migrate_agent(migrate_agent(agent, registry).0, again) == (migrate_agent(agent, registry).0, false),
{
    match agent {
        DocView::Table(t) => match tlookup(t, "mcps"@) {
            Some(DocView::Array(items)) => if has_name_item(items) {
                let mi = migrate_items(items, registry);
                lemma_migrated_items_unnamed(items, registry);
                lemma_tset_lookup(t, "mcps"@, DocView::Array(mi));
            } else {
            },
            _ => {},
        },
        _ => {},
    }
}

/// Migrated agents are left alone by a second migration.
proof fn lemma_migrated_agents_stable(
    agents: Seq<(Seq<char>, DocView)>,
    registry: Seq<(Seq<char>, DocView)>,
    again: Seq<(Seq<char>, DocView)>,
)
    ensures
        migrate_agents(migrate_agents(agents, registry).0, again) == (migrate_agents(agents, registry).0, false),
    decreases agents.len(),
{
    if agents.len() > 0 {
        lemma_migrated_agents_stable(agents.drop_last(), registry, again);
        let (init, any) = migrate_agents(agents.drop_last(), registry);
        let (a, changed) = migrate_agent(agents.last().1, registry);
        let m = init.push((agents.last().0, a));
        assert(m.drop_last() =~= init);
        lemma_migrated_agent_stable(agents.last().1, registry, again);
    }
}

/// Running the settings migration on its own result changes nothing and
/// reports no change (the settings hold at most one top-level `mcps`).
pub proof fn lemma_inlining_is_idempotent(t: Seq<(Seq<char>, DocView)>)
    requires
        at_most_once(t, "mcps"@),
    ensures
        inlined_settings(inlined_settings(t).0) == (inlined_settings(t).0, false),
{
    if foreign_registry(t) {
    } else {
        let registry = registry_of(t);
        let t1 = tremove(t, "mcps"@);
        lemma_tremove_gone(t, "mcps"@);
        match tlookup(t1, "agents"@) {
            Some(DocView::Table(agents)) => {
                let (m, any) = migrate_agents(agents, registry);
                let out = tset(t1, "agents"@, DocView::Table(m));
                lemma_tset_keys(t1, "agents"@, DocView::Table(m), "mcps"@);
                assert(tlookup(out, "mcps"@) is None);
                assert(tremove(out, "mcps"@) == out);
                lemma_tset_lookup(t1, "agents"@, DocView::Table(m));
                lemma_migrated_agents_stable(agents, registry, Seq::empty());
                lemma_tset_same(out, "agents"@, DocView::Table(m));
            },
            _ => {
                assert(tlookup(t1, "mcps"@) is None);
                assert(tremove(t1, "mcps"@) == t1);
            },
        }
    }
}

} // verus!
