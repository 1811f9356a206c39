//! Bash policy with interactive approval — allow / ask / deny command
//! classification.
//!
//! Each part of a compound command is classified on its own; the command's
//! verdict is the most restrictive of its parts: Deny over Ask over Allow.

use super::{any_match, any_pattern_matches, compound_parts, reason, split_compound, str_views};
use crate::text::{chars_of, join, push_joined, string_of, views};
use vstd::prelude::*;

verus! {

/// Result of a policy check on a command.
pub enum Verdict {
    /// Command matches an allow pattern — execute immediately.
    Allow,
    /// Command matches a deny pattern — reject, no override.
    Deny(String),
    /// Command matches an ask pattern, or doesn't match any allow pattern —
    /// prompt the user for approval.
    Ask(String),
}

/// A [`Verdict`] with its reason read as characters.
pub enum VerdictView {
    Allow,
    Deny(Seq<char>),
    Ask(Seq<char>),
}

impl Verdict {
    /// This verdict with its reason read as characters.
    pub open spec fn view_of(&self) -> VerdictView {
        match self {
            Verdict::Allow => VerdictView::Allow,
            Verdict::Deny(r) => VerdictView::Deny(r@),
            Verdict::Ask(r) => VerdictView::Ask(r@),
        }
    }
}

/// Bash policy loaded from `~/.crabtalk/config/bash.toml`.
pub struct BashConfig {
    /// Command prefix patterns that are allowed (e.g. `"cargo *"`, `"git *"`).
    pub allow: Vec<String>,
    /// Command prefix patterns that require interactive approval (e.g. `"git push *"`).
    pub ask: Vec<String>,
    /// Command prefix patterns that are denied (e.g. `"rm -rf *"`, `"sudo *"`).
    pub deny: Vec<String>,
}

/// The classification of one command: deny wins, then allow, then ask; with
/// neither allow nor ask rules everything else is allowed, otherwise it
/// needs approval.
pub open spec fn classify(
    allow: Seq<Seq<char>>,
    ask: Seq<Seq<char>>,
    deny: Seq<Seq<char>>,
    command: Seq<char>,
) -> VerdictView {
    if any_match(deny, command) {
        VerdictView::Deny("denied by policy: "@ + command)
    } else if any_match(allow, command) {
        VerdictView::Allow
    } else if any_match(ask, command) {
        VerdictView::Ask("requires approval: "@ + command)
    } else if allow.len() == 0 && ask.len() == 0 {
        VerdictView::Allow
    } else {
        VerdictView::Ask("not in allow list: "@ + command)
    }
}

/// The verdict on a list of parts: the first Deny if any part is denied,
/// else the last Ask if any part needs approval, else Allow.
pub open spec fn combine(
    allow: Seq<Seq<char>>,
    ask: Seq<Seq<char>>,
    deny: Seq<Seq<char>>,
    parts: Seq<Seq<char>>,
) -> VerdictView
    decreases parts.len(),
{
    if parts.len() == 0 {
        VerdictView::Allow
    } else {
        let rest = combine(allow, ask, deny, parts.drop_last());
        match rest {
            VerdictView::Deny(r) => VerdictView::Deny(r),
            _ => match classify(allow, ask, deny, parts.last()) {
                VerdictView::Allow => rest,
                v => v,
            },
        }
    }
}

impl BashConfig {
    /// The allow patterns as character sequences.
    pub open spec fn allow_view(&self) -> Seq<Seq<char>> {
        views(self.allow@)
    }

    /// The ask patterns as character sequences.
    pub open spec fn ask_view(&self) -> Seq<Seq<char>> {
        views(self.ask@)
    }

    /// The deny patterns as character sequences.
    pub open spec fn deny_view(&self) -> Seq<Seq<char>> {
        views(self.deny@)
    }

    /// Check a single command against the policy.
    pub fn check_command(&self, command: &str) -> (r: Verdict)
        ensures
            r.view_of() == classify(self.allow_view(), self.ask_view(), self.deny_view(), command@),
    {
        let c = chars_of(command);
        if any_pattern_matches(&self.deny, &c) {
            return Verdict::Deny(reason("denied by policy: ", command));
        }
        if any_pattern_matches(&self.allow, &c) {
            return Verdict::Allow;
        }
        if any_pattern_matches(&self.ask, &c) {
            return Verdict::Ask(reason("requires approval: ", command));
        }
        if self.allow.len() == 0 && self.ask.len() == 0 {
            return Verdict::Allow;
        }
        Verdict::Ask(reason("not in allow list: ", command))
    }

    /// Check a (possibly compound) command. Returns the most restrictive
    /// verdict across all subcommands: Deny > Ask > Allow.
    pub fn check(&self, command: &str) -> (r: Verdict)
        ensures
            r.view_of() == combine(
                self.allow_view(),
                self.ask_view(),
                self.deny_view(),
                compound_parts(command@),
            ),
    {
        let parts = split_compound(command);
        let ghost ps = str_views(parts@);
        let ghost (al, ak, dn) = (self.allow_view(), self.ask_view(), self.deny_view());
        let mut needs_ask: Option<String> = None;
        let mut k: usize = 0;
        assert(ps.take(0) =~= Seq::<Seq<char>>::empty());
        while k < parts.len()
            invariant
                ps == str_views(parts@),
                ps == compound_parts(command@),
                al == self.allow_view(),
                ak == self.ask_view(),
                dn == self.deny_view(),
                k <= parts@.len(),
                match combine(al, ak, dn, ps.take(k as int)) {
                    VerdictView::Allow => needs_ask is None,
                    VerdictView::Ask(r) => needs_ask matches Some(s) && s@ == r,
                    VerdictView::Deny(_) => false,
                },
            decreases parts@.len() - k,
        {
            let v = self.check_command(parts[k]);
            proof {
                let t = ps.take(k + 1);
                assert(t.drop_last() =~= ps.take(k as int));
                assert(t.last() == parts@[k as int]@);
            }
            match v {
                Verdict::Deny(reason) => {
                    proof {
                        lemma_deny_is_final(al, ak, dn, ps, (k + 1) as int);
                    }
                    assert(ps.take(ps.len() as int) =~= ps);
                    return Verdict::Deny(reason);
                },
                Verdict::Ask(reason) => {
                    needs_ask = Some(reason);
                },
                Verdict::Allow => {},
            }
            k += 1;
        }
        assert(ps.take(k as int) =~= ps);
        match needs_ask {
            Some(reason) => Verdict::Ask(reason),
            None => Verdict::Allow,
        }
    }

    /// The system prompt block describing this policy, if it has any rules.
    pub open spec fn spec_prompt_block(&self) -> Option<Seq<char>> {
        let allow = self.allow_view();
        let ask = self.ask_view();
        let deny = self.deny_view();
        if allow.len() == 0 && ask.len() == 0 && deny.len() == 0 {
            None
        } else {
            Some(
                "\n\n<bash-policy>\n"@ + (if allow.len() > 0 {
                    "allowed: "@ + join(allow, ", "@) + "\n"@
                } else {
                    Seq::empty()
                }) + (if ask.len() > 0 {
                    "requires approval: "@ + join(ask, ", "@) + "\n"@
                } else {
                    Seq::empty()
                }) + (if deny.len() > 0 {
                    "denied: "@ + join(deny, ", "@) + "\n"@
                } else {
                    Seq::empty()
                }) + (if allow.len() > 0 || ask.len() > 0 {
                    "Commands not matching the allow or ask list require interactive approval.\n"@
                } else {
                    Seq::empty()
                }) + "</bash-policy>"@,
            )
        }
    }

    /// Build a system prompt block describing the policy.
    pub fn prompt_block(&self) -> (r: Option<String>)
        ensures
            r matches Some(s) ==> self.spec_prompt_block() == Some(s@),
            r is None <==> self.spec_prompt_block() is None,
    {
        if self.allow.len() == 0 && self.ask.len() == 0 && self.deny.len() == 0 {
            return None;
        }
        let mut block = string_of("\n\n<bash-policy>\n");
        let ghost b0 = block@;
        if self.allow.len() > 0 {
            block.append("allowed: ");
            push_joined(&mut block, &self.allow, ", ");
            block.append("\n");
        }
        let ghost b1 = block@;
        if self.ask.len() > 0 {
            block.append("requires approval: ");
            push_joined(&mut block, &self.ask, ", ");
            block.append("\n");
        }
        let ghost b2 = block@;
        if self.deny.len() > 0 {
            block.append("denied: ");
            push_joined(&mut block, &self.deny, ", ");
            block.append("\n");
        }
        let ghost b3 = block@;
        if self.allow.len() > 0 || self.ask.len() > 0 {
            block.append(
                "Commands not matching the allow or ask list require interactive approval.\n",
            );
        }
        block.append("</bash-policy>");
        proof {
            let allow = self.allow_view();
            let ask = self.ask_view();
            let deny = self.deny_view();
            let x = if allow.len() > 0 {
                "allowed: "@ + join(allow, ", "@) + "\n"@
            } else {
                Seq::empty()
            };
            let y = if ask.len() > 0 {
                "requires approval: "@ + join(ask, ", "@) + "\n"@
            } else {
                Seq::empty()
            };
            let z = if deny.len() > 0 {
                "denied: "@ + join(deny, ", "@) + "\n"@
            } else {
                Seq::empty()
            };
            let w = if allow.len() > 0 || ask.len() > 0 {
                "Commands not matching the allow or ask list require interactive approval.\n"@
            } else {
                Seq::empty()
            };
            assert(b1 =~= b0 + x);
            assert(b2 =~= b0 + x + y);
            assert(b3 =~= b0 + x + y + z);
            assert(block@ =~= b0 + x + y + z + w + "</bash-policy>"@);
        }
        Some(block)
    }
}

/// Once a prefix of the parts is denied, every longer prefix is denied with
/// the same reason.
proof fn lemma_deny_is_final(
    allow: Seq<Seq<char>>,
    ask: Seq<Seq<char>>,
    deny: Seq<Seq<char>>,
    parts: Seq<Seq<char>>,
    k: int,
)
    requires
        0 <= k <= parts.len(),
        combine(allow, ask, deny, parts.take(k)) is Deny,
    ensures
        combine(allow, ask, deny, parts) == combine(allow, ask, deny, parts.take(k)),
    decreases parts.len() - k,
{
    if k < parts.len() {
        assert(parts.take(k + 1).drop_last() =~= parts.take(k));
        lemma_deny_is_final(allow, ask, deny, parts, k + 1);
    } else {
        assert(parts.take(k) =~= parts);
    }
}

// ── Laws ────────────────────────────────────────────────────────────

/// Deny > Ask > Allow: a command is denied exactly when some part is
/// denied, and allowed exactly when every part is allowed.
pub proof fn lemma_most_restrictive(
    allow: Seq<Seq<char>>,
    ask: Seq<Seq<char>>,
    deny: Seq<Seq<char>>,
    parts: Seq<Seq<char>>,
)
    ensures
        combine(allow, ask, deny, parts) is Deny <==> exists|i: int|
            0 <= i < parts.len() && #[trigger] classify(allow, ask, deny, parts[i]) is Deny,
        combine(allow, ask, deny, parts) is Allow <==> forall|i: int|
            0 <= i < parts.len() ==> #[trigger] classify(allow, ask, deny, parts[i]) is Allow,
    decreases parts.len(),
{
    if parts.len() > 0 {
        let init = parts.drop_last();
        lemma_most_restrictive(allow, ask, deny, init);
        let n = parts.len() - 1;
        assert forall|i: int| 0 <= i < init.len() implies init[i] == parts[i] by {}
        if exists|i: int| 0 <= i < parts.len() && #[trigger] classify(allow, ask, deny, parts[i]) is Deny {
            let i = choose|i: int|
                0 <= i < parts.len() && #[trigger] classify(allow, ask, deny, parts[i]) is Deny;
            if i < n {
                assert(classify(allow, ask, deny, init[i]) is Deny);
            }
        }
        if combine(allow, ask, deny, init) is Deny {
            let i = choose|i: int|
                0 <= i < init.len() && #[trigger] classify(allow, ask, deny, init[i]) is Deny;
            assert(classify(allow, ask, deny, parts[i]) is Deny);
        }
        if forall|i: int|
            0 <= i < parts.len() ==> #[trigger] classify(allow, ask, deny, parts[i]) is Allow {
            assert forall|i: int| 0 <= i < init.len() implies #[trigger] classify(
                allow,
                ask,
                deny,
                init[i],
            ) is Allow by {
                assert(classify(allow, ask, deny, parts[i]) is Allow);
            }
        }
        if combine(allow, ask, deny, parts) is Allow {
            assert forall|i: int| 0 <= i < parts.len() implies #[trigger] classify(
                allow,
                ask,
                deny,
                parts[i],
            ) is Allow by {
                if i < n {
                    assert(classify(allow, ask, deny, init[i]) is Allow);
                }
            }
        }
    }
}

/// A command is classified by the first rule list it matches, in the order
/// deny, allow, ask: a deny match refuses it; otherwise an allow match runs
/// it whatever the ask patterns say; otherwise an ask match needs approval.
pub proof fn lemma_allow_before_ask(
    allow: Seq<Seq<char>>,
    ask: Seq<Seq<char>>,
    deny: Seq<Seq<char>>,
    command: Seq<char>,
)
    ensures
        any_match(deny, command) ==> classify(allow, ask, deny, command) == VerdictView::Deny(
            "denied by policy: "@ + command,
        ),
        !any_match(deny, command) && any_match(allow, command) ==> classify(allow, ask, deny, command)
            == VerdictView::Allow,
        !any_match(deny, command) && !any_match(allow, command) && any_match(ask, command) ==> classify(
            allow,
            ask,
            deny,
            command,
        ) == VerdictView::Ask("requires approval: "@ + command),
{
}

/// A compound command whose every part matches an allow pattern and no deny
/// pattern runs, whatever the ask patterns say.
pub proof fn lemma_allowed_parts_run(
    allow: Seq<Seq<char>>,
    ask: Seq<Seq<char>>,
    deny: Seq<Seq<char>>,
    parts: Seq<Seq<char>>,
)
    requires
        forall|i: int| 0 <= i < parts.len() ==> !any_match(deny, #[trigger] parts[i]) && any_match(allow, parts[i]),
    ensures
        combine(allow, ask, deny, parts) is Allow,
{
    lemma_most_restrictive(allow, ask, deny, parts);
    assert forall|i: int| 0 <= i < parts.len() implies #[trigger] classify(allow, ask, deny, parts[i]) is Allow by {
        lemma_allow_before_ask(allow, ask, deny, parts[i]);
    }
}

/// With no rules at all, every command is allowed.
pub proof fn lemma_no_rules_allows(command: Seq<char>)
    ensures
        combine(Seq::empty(), Seq::empty(), Seq::empty(), compound_parts(command)) is Allow,
{
    let parts = compound_parts(command);
    lemma_most_restrictive(Seq::empty(), Seq::empty(), Seq::empty(), parts);
    assert forall|i: int| 0 <= i < parts.len() implies #[trigger] classify(
        Seq::empty(),
        Seq::empty(),
        Seq::empty(),
        parts[i],
    ) is Allow by {}
}

} // verus!
