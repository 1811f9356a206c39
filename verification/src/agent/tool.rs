//! Tool registry: a schema-only store of named tools, kept in name order.
//!
//! The registry stores tool definitions (name, description, JSON schema)
//! keyed by name — no handlers. It is used to build the per-agent schema
//! snapshot an agent advertises to the model.

use crate::model::{copy_tool, str_eq, Tool};
use crate::text::{contains_str, views};
use vstd::prelude::*;

verus! {

/// `a` comes before `b` in lexicographic character order (the order of
/// their UTF-8 bytes).
pub open spec fn name_lt(a: Seq<char>, b: Seq<char>) -> bool
    decreases a.len(),
{
    if a.len() == 0 {
        b.len() > 0
    } else if b.len() == 0 {
        false
    } else if a[0] != b[0] {
        a[0] < b[0]
    } else {
        name_lt(a.drop_first(), b.drop_first())
    }
}

/// Exactly one of `a < b`, `a == b`, `b < a` holds.
pub proof fn lemma_name_order_total(a: Seq<char>, b: Seq<char>)
    ensures
        name_lt(a, b) || a == b || name_lt(b, a),
        !(name_lt(a, b) && name_lt(b, a)),
        !name_lt(a, a),
    decreases a.len(),
{
    if a.len() > 0 && b.len() > 0 && a[0] == b[0] {
        lemma_name_order_total(a.drop_first(), b.drop_first());
        if a.drop_first() == b.drop_first() {
            assert(a =~= seq![a[0]] + a.drop_first());
            assert(b =~= seq![b[0]] + b.drop_first());
        }
    }
    if a.len() > 0 {
        lemma_name_order_total(a.drop_first(), a.drop_first());
    }
    if a.len() == 0 && b.len() == 0 {
        assert(a =~= b);
    }
}

/// The order is transitive.
pub proof fn lemma_name_order_transitive(a: Seq<char>, b: Seq<char>, c: Seq<char>)
    requires
        name_lt(a, b),
        name_lt(b, c),
    ensures
        name_lt(a, c),
    decreases a.len(),
{
    if a.len() > 0 && b.len() > 0 && c.len() > 0 && a[0] == b[0] && b[0] == c[0] {
        lemma_name_order_transitive(a.drop_first(), b.drop_first(), c.drop_first());
    }
}

/// Whether `a` comes before `b`.
pub fn name_less(a: &str, b: &str) -> (r: bool)
    ensures
        r == name_lt(a@, b@),
{
    let x = crate::text::chars_of(a);
    let y = crate::text::chars_of(b);
    let mut i: usize = 0;
    assert(x@.skip(0) =~= x@);
    assert(y@.skip(0) =~= y@);
    while i < x.len() && i < y.len() && x[i] == y[i]
        invariant
            i <= x@.len(),
            i <= y@.len(),
            name_lt(a@, b@) == name_lt(x@.skip(i as int), y@.skip(i as int)),
            x@ == a@,
            y@ == b@,
        decreases x@.len() - i,
    {
        assert(x@.skip(i as int).drop_first() =~= x@.skip(i as int + 1));
        assert(y@.skip(i as int).drop_first() =~= y@.skip(i as int + 1));
        i += 1;
    }
    if i == x.len() {
        i < y.len()
    } else if i == y.len() {
        false
    } else {
        x[i] < y[i]
    }
}

/// Tools in strictly increasing name order.
pub open spec fn sorted_by_name(tools: Seq<Tool>) -> bool {
    forall|i: int, j: int| 0 <= i < j < tools.len() ==> name_lt(#[trigger] tools[i].name@, #[trigger] tools[j].name@)
}

/// The names of a list of tools.
pub open spec fn names_of(tools: Seq<Tool>) -> Seq<Seq<char>> {
    tools.map_values(|t: Tool| t.name@)
}

/// Schema-only registry of named tools, in name order.
pub struct ToolRegistry {
    tools: Vec<Tool>,
}

impl ToolRegistry {
    /// The registered tools, in name order.
    pub closed spec fn spec_tools(&self) -> Seq<Tool> {
        self.tools@
    }

    /// Names are unique and in order.
    pub open spec fn wf(&self) -> bool {
        sorted_by_name(self.spec_tools())
    }

    /// Whether a tool called `name` is registered.
    pub open spec fn has(&self, name: Seq<char>) -> bool {
        names_of(self.spec_tools()).contains(name)
    }

    /// Create an empty registry.
    pub fn new() -> (r: ToolRegistry)
        ensures
            r.wf(),
            r.spec_tools().len() == 0,
    {
        ToolRegistry { tools: Vec::new() }
    }

    /// Insert a tool schema, replacing one of the same name.
    pub fn insert(&mut self, tool: Tool)
        requires
            old(self).wf(),
        ensures
            final(self).wf(),
            final(self).spec_tools().contains(tool),
            forall|t: Tool| #[trigger] final(self).spec_tools().contains(t) <==> (t == tool || (old(
                self,
            ).spec_tools().contains(t) && t.name@ != tool.name@)),
    {
        let ghost old_tools = self.tools@;
        let mut i: usize = 0;
        while i < self.tools.len() && name_less(self.tools[i].name.as_str(), tool.name.as_str())
            invariant
                self.tools@ == old_tools,
                sorted_by_name(old_tools),
                i <= old_tools.len(),
                forall|j: int| 0 <= j < i ==> name_lt(#[trigger] old_tools[j].name@, tool.name@),
            decreases old_tools.len() - i,
        {
            i += 1;
        }
        let replace = i < self.tools.len() && str_eq(self.tools[i].name.as_str(), tool.name.as_str());
        proof {
            if i < old_tools.len() {
                lemma_name_order_total(old_tools[i as int].name@, tool.name@);
            }
            // Everything from `i` on comes after the new name (or equals it at `i`).
            assert forall|j: int| i < j < old_tools.len() implies name_lt(tool.name@, #[trigger] old_tools[j].name@) by {
                lemma_name_order_total(old_tools[i as int].name@, tool.name@);
                if !replace {
                    lemma_name_order_transitive(tool.name@, old_tools[i as int].name@, old_tools[j].name@);
                }
            }
        }
        if replace {
            let _ = self.tools.remove(i);
            self.tools.insert(i, tool);
            proof {
                let n = self.tools@;
                assert(n =~= old_tools.update(i as int, tool));
                assert forall|a: int, b: int| 0 <= a < b < n.len() implies name_lt(#[trigger] n[a].name@, #[trigger] n[b].name@) by {
                    if a == i as int {
                        assert(n[b] == old_tools[b]);
                    } else if b == i as int {
                        assert(n[a] == old_tools[a]);
                    } else {
                        assert(n[a] == old_tools[a] && n[b] == old_tools[b]);
                    }
                }
                assert forall|t: Tool| #[trigger] n.contains(t) <==> (t == tool || (old_tools.contains(t) && t.name@
                    != tool.name@)) by {
                    if n.contains(t) {
                        let w = choose|w: int| 0 <= w < n.len() && n[w] == t;
                        if w != i {
                            assert(old_tools[w] == t);
                            assert(name_lt(old_tools[w].name@, old_tools[i as int].name@) || name_lt(
                                old_tools[i as int].name@,
                                old_tools[w].name@,
                            ));
                            lemma_name_order_total(t.name@, t.name@);
                        }
                    }
                    if t == tool {
                        assert(n[i as int] == t);
                    }
                    if old_tools.contains(t) && t.name@ != tool.name@ {
                        let w = choose|w: int| 0 <= w < old_tools.len() && old_tools[w] == t;
                        assert(w != i);
                        assert(n[w] == t);
                    }
                }
            }
        } else {
            self.tools.insert(i, tool);
            proof {
                let n = self.tools@;
                assert forall|a: int, b: int| 0 <= a < b < n.len() implies name_lt(#[trigger] n[a].name@, #[trigger] n[b].name@) by {
                    if a < i && b < i {
                        assert(n[a] == old_tools[a] && n[b] == old_tools[b]);
                    } else if a < i && b == i {
                        assert(n[a] == old_tools[a]);
                    } else if a < i && b > i {
                        assert(n[a] == old_tools[a] && n[b] == old_tools[b - 1]);
                        lemma_name_order_total(old_tools[i as int].name@, tool.name@);
                        if b - 1 > i {
                            assert(name_lt(tool.name@, old_tools[b - 1].name@));
                        }
                        lemma_name_order_transitive(old_tools[a].name@, tool.name@, old_tools[b - 1].name@);
                    } else if a == i {
                        assert(n[b] == old_tools[b - 1]);
                        lemma_name_order_total(old_tools[i as int].name@, tool.name@);
                    } else {
                        assert(n[a] == old_tools[a - 1] && n[b] == old_tools[b - 1]);
                    }
                }
                assert forall|t: Tool| #[trigger] n.contains(t) <==> (t == tool || (old_tools.contains(t) && t.name@
                    != tool.name@)) by {
                    if n.contains(t) {
                        let w = choose|w: int| 0 <= w < n.len() && n[w] == t;
                        if w < i {
                            assert(old_tools[w] == t);
                            lemma_name_order_total(t.name@, tool.name@);
                        } else if w > i {
                            assert(old_tools[w - 1] == t);
                            lemma_name_order_total(old_tools[i as int].name@, tool.name@);
                            if w - 1 > i {
                                assert(name_lt(tool.name@, old_tools[w - 1].name@));
                            }
                            lemma_name_order_total(tool.name@, t.name@);
                        }
                    }
                    if t == tool {
                        assert(n[i as int] == t);
                    }
                    if old_tools.contains(t) && t.name@ != tool.name@ {
                        let w = choose|w: int| 0 <= w < old_tools.len() && old_tools[w] == t;
                        if w < i {
                            assert(n[w] == t);
                        } else {
                            assert(n[w + 1] == t);
                        }
                    }
                }
            }
        }
    }

    /// Remove a tool by name. Returns `true` if it existed.
    pub fn remove(&mut self, name: &str) -> (r: bool)
        requires
            old(self).wf(),
        ensures
            final(self).wf(),
            r == old(self).has(name@),
            forall|t: Tool| #[trigger] final(self).spec_tools().contains(t) <==> (old(self).spec_tools().contains(t)
                && t.name@ != name@),
    {
        let ghost old_tools = self.tools@;
        let mut i: usize = 0;
        while i < self.tools.len()
            invariant
                self.tools@ == old_tools,
                old(self).spec_tools() == old_tools,
                sorted_by_name(old_tools),
                i <= old_tools.len(),
                forall|j: int| 0 <= j < i ==> old_tools[j].name@ != name@,
            decreases old_tools.len() - i,
        {
            if str_eq(self.tools[i].name.as_str(), name) {
                let _ = self.tools.remove(i);
                proof {
                    let n = self.tools@;
                    assert(names_of(old_tools)[i as int] == name@);
                    assert forall|a: int, b: int| 0 <= a < b < n.len() implies name_lt(#[trigger] n[a].name@, #[trigger] n[b].name@) by {
                        let a1 = if a < i { a } else { a + 1 };
                        let b1 = if b < i { b } else { b + 1 };
                        assert(n[a] == old_tools[a1] && n[b] == old_tools[b1]);
                    }
                    assert forall|t: Tool| #[trigger] n.contains(t) <==> (old_tools.contains(t) && t.name@ != name@) by {
                        if n.contains(t) {
                            let w = choose|w: int| 0 <= w < n.len() && n[w] == t;
                            let w1 = if w < i { w } else { w + 1 };
                            assert(old_tools[w1] == t);
                            if w1 != i {
                                lemma_name_order_total(old_tools[w1].name@, old_tools[w1].name@);
                                if w1 < i {
                                    assert(name_lt(old_tools[w1].name@, old_tools[i as int].name@));
                                } else {
                                    assert(name_lt(old_tools[i as int].name@, old_tools[w1].name@));
                                }
                            }
                        }
                        if old_tools.contains(t) && t.name@ != name@ {
                            let w = choose|w: int| 0 <= w < old_tools.len() && old_tools[w] == t;
                            assert(w != i);
                            let w2 = if w < i { w } else { w - 1 };
                            assert(n[w2] == t);
                        }
                    }
                }
                return true;
            }
            i += 1;
        }
        proof {
            assert forall|k: int| 0 <= k < names_of(old_tools).len() implies names_of(old_tools)[k] != name@ by {}
        }
        false
    }

    /// Check if a tool is registered.
    pub fn contains(&self, name: &str) -> (r: bool)
        ensures
            r == self.has(name@),
    {
        let mut i: usize = 0;
        while i < self.tools.len()
            invariant
                i <= self.tools@.len(),
                forall|j: int| 0 <= j < i ==> self.tools@[j].name@ != name@,
            decreases self.tools@.len() - i,
        {
            if str_eq(self.tools[i].name.as_str(), name) {
                assert(names_of(self.tools@)[i as int] == name@);
                return true;
            }
            i += 1;
        }
        assert forall|k: int| 0 <= k < names_of(self.tools@).len() implies names_of(self.tools@)[k] != name@ by {}
        false
    }

    /// Number of registered tools.
    pub fn len(&self) -> (r: usize)
        ensures
            r == self.spec_tools().len(),
    {
        self.tools.len()
    }

    /// Whether the registry is empty.
    pub fn is_empty(&self) -> (r: bool)
        ensures
            r == (self.spec_tools().len() == 0),
    {
        self.tools.len() == 0
    }

    /// All tool schemas, in name order.
    pub fn tools(&self) -> (r: Vec<Tool>)
        ensures
            r@ == self.spec_tools(),
    {
        let mut out: Vec<Tool> = Vec::new();
        let mut i: usize = 0;
        while i < self.tools.len()
            invariant
                i <= self.tools@.len(),
                out@ == self.tools@.take(i as int),
            decreases self.tools@.len() - i,
        {
            out.push(copy_tool(&self.tools[i]));
            assert(out@ =~= self.tools@.take(i as int + 1));
            i += 1;
        }
        assert(self.tools@.take(i as int) =~= self.tools@);
        out
    }

    /// The tool schemas whose names are among `names` (all of them when
    /// `names` is empty), in name order.
    pub fn filtered_snapshot(&self, names: &Vec<String>) -> (r: Vec<Tool>)
        ensures
            r@ == if names@.len() == 0 {
                self.spec_tools()
            } else {
                self.spec_tools().filter(|t: Tool| views(names@).contains(t.name@))
            },
    {
        if names.len() == 0 {
            return self.tools();
        }
        let ghost pred = |t: Tool| views(names@).contains(t.name@);
        let mut out: Vec<Tool> = Vec::new();
        let mut i: usize = 0;
        proof {
            reveal(Seq::filter);
            assert(self.tools@.take(0).filter(pred) =~= Seq::<Tool>::empty());
        }
        while i < self.tools.len()
            invariant
                i <= self.tools@.len(),
                pred == (|t: Tool| views(names@).contains(t.name@)),
                out@ == self.tools@.take(i as int).filter(pred),
            decreases self.tools@.len() - i,
        {
            proof {
                self.tools@.take(i as int).lemma_filter_push(self.tools@[i as int], pred);
            }
            if contains_str(names, self.tools[i].name.as_str()) {
                out.push(copy_tool(&self.tools[i]));
            }
            assert(self.tools@.take(i as int).push(self.tools@[i as int]) =~= self.tools@.take(i as int + 1));
            i += 1;
        }
        assert(self.tools@.take(i as int) =~= self.tools@);
        out
    }
}

} // verus!
