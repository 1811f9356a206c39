//! Bash tool schema and the allow/deny command policy.
//!
//! A command is split on the shell operators `&&`, `||`, `|`, `;` and new
//! lines; every trimmed, non-empty part must pass the policy. Deny patterns
//! always win; a non-empty allow list must match; with no allow list,
//! anything not denied passes.

use crate::text::{
    chars_eq, chars_of, is_ws, join, push_char, push_joined, skip_ws_backward, string_of, trim, trim_bounds, trim_end,
    trim_start, views,
};
use std::collections::BTreeMap;
use vstd::prelude::*;

pub mod config;

verus! {

/// Run a shell command.
pub struct Bash {
    /// Shell command to run (e.g. `"ls -la"`, `"cat foo.txt | grep bar"`).
    pub command: String,
    /// Environment variables to set for the process.
    pub env: BTreeMap<String, String>,
}

impl Bash {
    /// The tool description advertised to the model.
    pub fn description() -> (r: &'static str)
        ensures
            r@ == "Run a shell command."@,
    {
        "Run a shell command."
    }
}

/// Bash policy loaded from `~/.crabtalk/config/bash.toml`.
pub struct BashConfig {
    /// Command prefix patterns that are allowed (e.g. `"cargo *"`, `"git *"`).
    pub allow: Vec<String>,
    /// Command prefix patterns that are denied (e.g. `"rm -rf *"`, `"sudo *"`).
    pub deny: Vec<String>,
}

// ── Pattern matching ────────────────────────────────────────────────

/// CC-style raw prefix matching of a pattern against a command:
/// `"*"` matches everything; `"cargo *"` matches a command that starts with
/// `"cargo "` or equals `"cargo"`; a pattern without a trailing `*` matches
/// only itself.
pub open spec fn pattern_matches(pattern: Seq<char>, command: Seq<char>) -> bool {
    if pattern == seq!['*'] {
        true
    } else if pattern.len() > 0 && pattern.last() == '*' {
        let prefix = pattern.drop_last();
        prefix.is_prefix_of(command) || command == trim_end(prefix)
    } else {
        command == pattern
    }
}

/// Some pattern of `patterns` matches `command`.
pub open spec fn any_match(patterns: Seq<Seq<char>>, command: Seq<char>) -> bool {
    exists|i: int| 0 <= i < patterns.len() && pattern_matches(#[trigger] patterns[i], command)
}

/// Whether `command` equals `p[0..hi]`.
fn equals_prefix_of(command: &Vec<char>, p: &Vec<char>, hi: usize) -> (r: bool)
    requires
        hi <= p@.len(),
    ensures
        r == (command@ == p@.subrange(0, hi as int)),
{
    if command.len() != hi {
        return false;
    }
    let mut i: usize = 0;
    while i < hi
        invariant
            command@.len() == hi <= p@.len(),
            i <= hi,
            forall|j: int| 0 <= j < i ==> command@[j] == p@[j],
        decreases hi - i,
    {
        if command[i] != p[i] {
            return false;
        }
        i += 1;
    }
    assert(command@ =~= p@.subrange(0, hi as int));
    true
}

/// Match a pattern against a command (see [`pattern_matches`]).
pub fn matches_pattern(pattern: &str, command: &str) -> (r: bool)
    ensures
        r == pattern_matches(pattern@, command@),
{
    let p = chars_of(pattern);
    let c = chars_of(command);
    matches_pattern_chars(&p, &c)
}

/// [`matches_pattern`] on characters.
pub fn matches_pattern_chars(p: &Vec<char>, c: &Vec<char>) -> (r: bool)
    ensures
        r == pattern_matches(p@, c@),
{
    if p.len() == 1 && p[0] == '*' {
        assert(p@ =~= seq!['*']);
        return true;
    }
    if p.len() > 0 && p[p.len() - 1] == '*' {
        assert(p@ != seq!['*']);
        let n = p.len() - 1;
        let ghost prefix = p@.drop_last();
        assert(prefix =~= p@.subrange(0, n as int));
        // `command.starts_with(prefix)`
        let mut starts = n <= c.len();
        let mut i: usize = 0;
        while starts && i < n
            invariant
                n == p@.len() - 1,
                prefix == p@.subrange(0, n as int),
                i <= n,
                starts ==> n <= c@.len(),
                starts ==> forall|j: int| 0 <= j < i ==> c@[j] == p@[j],
                !starts ==> !prefix.is_prefix_of(c@),
            decreases n - i,
        {
            if c[i] != p[i] {
                starts = false;
                assert(prefix[i as int] != c@[i as int]);
            }
            i += 1;
        }
        if starts {
            return true;
        }
        let b = skip_ws_backward(p, 0, n);
        equals_prefix_of(c, p, b)
    } else {
        assert(p@ != seq!['*']);
        chars_eq(c, p)
    }
}

// ── Splitting compound commands ─────────────────────────────────────

/// `[trim(seg)]` when that is non-empty, else nothing.
pub open spec fn keep_trimmed(seg: Seq<char>) -> Seq<Seq<char>> {
    if trim(seg).len() > 0 {
        seq![trim(seg)]
    } else {
        Seq::empty()
    }
}

/// `s[i..i + 2]` is `&&` or `||`.
pub open spec fn is_pair_op(s: Seq<char>, i: int) -> bool {
    (s[i] == '&' || s[i] == '|') && i + 1 < s.len() && s[i + 1] == s[i]
}

/// `s[i]` is `|`, `;` or a new line.
pub open spec fn is_single_op(s: Seq<char>, i: int) -> bool {
    s[i] == '|' || s[i] == ';' || s[i] == '\n'
}

/// The parts of `s[start..]`, scanning from `i`: operators are read left to
/// right, a doubled `&`/`|` before a single one; each part is trimmed and
/// empty parts are dropped.
pub open spec fn split_from(s: Seq<char>, start: int, i: int) -> Seq<Seq<char>>
    decreases s.len() - i,
{
    if i >= s.len() || i < 0 {
        if 0 <= start < s.len() {
            keep_trimmed(s.subrange(start, s.len() as int))
        } else {
            Seq::empty()
        }
    } else if is_pair_op(s, i) {
        keep_trimmed(s.subrange(start, i)) + split_from(s, i + 2, i + 2)
    } else if is_single_op(s, i) {
        keep_trimmed(s.subrange(start, i)) + split_from(s, i + 1, i + 1)
    } else {
        split_from(s, start, i + 1)
    }
}

/// The trimmed, non-empty sub-commands of `command`.
pub open spec fn compound_parts(command: Seq<char>) -> Seq<Seq<char>> {
    split_from(command, 0, 0)
}

/// The views of a list of string slices.
pub open spec fn str_views(parts: Seq<&str>) -> Seq<Seq<char>> {
    parts.map_values(|p: &str| p@)
}

/// Appends `trim(s[start..i])` to `parts` when it is non-empty.
fn push_part<'a>(command: &'a str, v: &Vec<char>, start: usize, i: usize, parts: &mut Vec<&'a str>)
    requires
        v@ == command@,
        start <= i <= v@.len(),
    ensures
        str_views(final(parts)@) == str_views(old(parts)@) + keep_trimmed(
            v@.subrange(start as int, i as int),
        ),
{
    let (a, b) = trim_bounds(v, start, i);
    if a < b {
        let part = command.substring_char(a, b);
        parts.push(part);
        assert(str_views(parts@) =~= str_views(old(parts)@) + seq![part@]);
    } else {
        assert(str_views(parts@) =~= str_views(old(parts)@));
    }
}

/// Split a compound command on shell operators (`&&`, `||`, `|`, `;`,
/// new line). Each part is trimmed; empty parts are dropped.
pub fn split_compound<'a>(command: &'a str) -> (parts: Vec<&'a str>)
    ensures
        str_views(parts@) == compound_parts(command@),
{
    let v = chars_of(command);
    let ghost s = v@;
    let mut parts: Vec<&'a str> = Vec::new();
    let mut start: usize = 0;
    let mut i: usize = 0;
    assert(str_views(parts@) =~= Seq::<Seq<char>>::empty());
    while i < v.len()
        invariant
            v@ == s,
            s == command@,
            start <= i <= s.len(),
            str_views(parts@) + split_from(s, start as int, i as int) == compound_parts(s),
        decreases s.len() - i,
    {
        let c = v[i];
        if (c == '&' || c == '|') && i + 1 < v.len() && v[i + 1] == c {
            let ghost before = str_views(parts@);
            push_part(command, &v, start, i, &mut parts);
            assert(before + (keep_trimmed(s.subrange(start as int, i as int)) + split_from(
                s,
                i + 2,
                i + 2,
            )) =~= str_views(parts@) + split_from(s, i + 2, i + 2));
            i += 2;
            start = i;
        } else if c == '|' || c == ';' || c == '\n' {
            let ghost before = str_views(parts@);
            push_part(command, &v, start, i, &mut parts);
            assert(before + (keep_trimmed(s.subrange(start as int, i as int)) + split_from(
                s,
                i + 1,
                i + 1,
            )) =~= str_views(parts@) + split_from(s, i + 1, i + 1));
            i += 1;
            start = i;
        } else {
            i += 1;
        }
    }
    if start < v.len() {
        push_part(command, &v, start, v.len(), &mut parts);
    } else {
        assert(split_from(s, start as int, i as int) =~= Seq::<Seq<char>>::empty());
    }
    parts
}

/// A sub-command as the split leaves it: non-empty, with no white space at
/// either end, and holding no `|`, `;`, new line or `&&`.
pub open spec fn clean_part(p: Seq<char>) -> bool {
    &&& p.len() > 0
    &&& !is_ws(p[0])
    &&& !is_ws(p.last())
    &&& forall|k: int| 0 <= k < p.len() ==> #[trigger] p[k] != '|' && p[k] != ';' && p[k] != '\n'
    &&& forall|k: int| 0 <= k < p.len() - 1 ==> !(#[trigger] p[k] == '&' && p[k + 1] == '&')
}

/// Trimming leaves a part of the input with no white space at either end.
proof fn lemma_trim_shape(s: Seq<char>)
    ensures
        exists|a: int, b: int| 0 <= a <= b <= s.len() && trim(s) == s.subrange(a, b),
        trim(s).len() > 0 ==> !is_ws(trim(s)[0]) && !is_ws(trim(s).last()),
{
    lemma_trim_start_shape(s);
    let t = trim_start(s);
    lemma_trim_end_shape(t);
    let a = choose|a: int| 0 <= a <= s.len() && t == s.subrange(a, s.len() as int);
    let b = choose|b: int| 0 <= b <= t.len() && trim_end(t) == t.subrange(0, b);
    assert(trim(s) =~= s.subrange(a, a + b));
    if trim(s).len() > 0 {
        assert(trim(s)[0] == t[0]);
    }
}

proof fn lemma_trim_start_shape(s: Seq<char>)
    ensures
        exists|a: int| 0 <= a <= s.len() && trim_start(s) == s.subrange(a, s.len() as int),
        trim_start(s).len() > 0 ==> !is_ws(trim_start(s)[0]),
    decreases s.len(),
{
    if s.len() > 0 && is_ws(s[0]) {
        lemma_trim_start_shape(s.drop_first());
        let a = choose|a: int| 0 <= a <= s.drop_first().len() && trim_start(s.drop_first()) == s.drop_first().subrange(a, s.drop_first().len() as int);
        assert(s.drop_first().subrange(a, s.drop_first().len() as int) =~= s.subrange(a + 1, s.len() as int));
    } else {
        assert(s.subrange(0, s.len() as int) =~= s);
    }
}

proof fn lemma_trim_end_shape(s: Seq<char>)
    ensures
        exists|b: int| 0 <= b <= s.len() && trim_end(s) == s.subrange(0, b),
        trim_end(s).len() > 0 ==> !is_ws(trim_end(s).last()),
    decreases s.len(),
{
    if s.len() > 0 && is_ws(s.last()) {
        lemma_trim_end_shape(s.drop_last());
        let b = choose|b: int| 0 <= b <= s.drop_last().len() && trim_end(s.drop_last()) == s.drop_last().subrange(0, b);
        assert(s.drop_last().subrange(0, b) =~= s.subrange(0, b));
    } else {
        assert(s.subrange(0, s.len() as int) =~= s);
    }
}

/// An operator starts at `s[k]`.
pub open spec fn operator_at(s: Seq<char>, k: int) -> bool {
    is_pair_op(s, k) || is_single_op(s, k)
}

/// No operator starts in `s[start..i]`.
pub open spec fn operator_free(s: Seq<char>, start: int, i: int) -> bool {
    forall|k: int| start <= k < i ==> !#[trigger] operator_at(s, k)
}

/// The trimmed part of an operator-free stretch is clean.
proof fn lemma_kept_part_clean(s: Seq<char>, start: int, i: int)
    requires
        0 <= start <= i <= s.len(),
        operator_free(s, start, i),
    ensures
        forall|j: int| 0 <= j < keep_trimmed(s.subrange(start, i)).len() ==> clean_part(
            #[trigger] keep_trimmed(s.subrange(start, i))[j],
        ),
{
    let seg = s.subrange(start, i);
    lemma_trim_shape(seg);
    if trim(seg).len() > 0 {
        let p = trim(seg);
        let (a, b) = choose|a: int, b: int| 0 <= a <= b <= seg.len() && p == seg.subrange(a, b);
        assert forall|k: int| 0 <= k < p.len() implies #[trigger] p[k] != '|' && p[k] != ';' && p[k] != '\n' by {
            assert(p[k] == s[start + a + k]);
            assert(!operator_at(s, start + a + k));
        }
        assert forall|k: int| 0 <= k < p.len() - 1 implies !(#[trigger] p[k] == '&' && p[k + 1] == '&') by {
            assert(p[k] == s[start + a + k]);
            assert(p[k + 1] == s[start + a + k + 1]);
            assert(!operator_at(s, start + a + k));
        }
        assert(keep_trimmed(seg) =~= seq![p]);
    }
}

proof fn lemma_split_from_clean(s: Seq<char>, start: int, i: int)
    requires
        0 <= start <= i <= s.len(),
        operator_free(s, start, i),
    ensures
        forall|j: int| 0 <= j < split_from(s, start, i).len() ==> clean_part(#[trigger] split_from(s, start, i)[j]),
    decreases s.len() - i,
{
    if i >= s.len() {
        if start < s.len() {
            lemma_kept_part_clean(s, start, s.len() as int);
            assert(split_from(s, start, i) == keep_trimmed(s.subrange(start, s.len() as int)));
        } else {
            assert(split_from(s, start, i).len() == 0);
        }
    } else if is_pair_op(s, i) {
        lemma_kept_part_clean(s, start, i);
        lemma_split_from_clean(s, i + 2, i + 2);
        let x = keep_trimmed(s.subrange(start, i));
        let y = split_from(s, i + 2, i + 2);
        assert(split_from(s, start, i) == x + y);
        assert forall|j: int| 0 <= j < (x + y).len() implies clean_part(#[trigger] (x + y)[j]) by {
            if j < x.len() {
                assert((x + y)[j] == x[j]);
            } else {
                assert((x + y)[j] == y[j - x.len()]);
            }
        }
    } else if is_single_op(s, i) {
        lemma_kept_part_clean(s, start, i);
        lemma_split_from_clean(s, i + 1, i + 1);
        let x = keep_trimmed(s.subrange(start, i));
        let y = split_from(s, i + 1, i + 1);
        assert(!is_pair_op(s, i));
        assert(split_from(s, start, i) == x + y);
        assert forall|j: int| 0 <= j < (x + y).len() implies clean_part(#[trigger] (x + y)[j]) by {
            if j < x.len() {
                assert((x + y)[j] == x[j]);
            } else {
                assert((x + y)[j] == y[j - x.len()]);
            }
        }
    } else {
        assert(!operator_at(s, i));
        lemma_split_from_clean(s, start, i + 1);
        assert(split_from(s, start, i) == split_from(s, start, i + 1));
    }
}

/// Every sub-command of a split is non-empty and trimmed, and holds none of
/// the operators it was split on.
pub proof fn lemma_parts_are_clean(command: Seq<char>)
    ensures
        forall|j: int| 0 <= j < compound_parts(command).len() ==> clean_part(#[trigger] compound_parts(command)[j]),
{
    lemma_split_from_clean(command, 0, 0);
}

// ── Policy ──────────────────────────────────────────────────────────

/// The policy's verdict on one command: `Err` carries the reason.
pub open spec fn command_verdict(
    allow: Seq<Seq<char>>,
    deny: Seq<Seq<char>>,
    command: Seq<char>,
) -> Result<(), Seq<char>> {
    if any_match(deny, command) {
        Err("denied by policy: "@ + command)
    } else if allow.len() > 0 {
        if any_match(allow, command) {
            Ok(())
        } else {
            Err("not in allow list: "@ + command)
        }
    } else {
        Ok(())
    }
}

/// The verdict on a list of parts: the first refusal, else `Ok`.
pub open spec fn first_refusal(
    allow: Seq<Seq<char>>,
    deny: Seq<Seq<char>>,
    parts: Seq<Seq<char>>,
) -> Result<(), Seq<char>>
    decreases parts.len(),
{
    if parts.len() == 0 {
        Ok(())
    } else {
        match command_verdict(allow, deny, parts[0]) {
            Err(e) => Err(e),
            Ok(_) => first_refusal(allow, deny, parts.drop_first()),
        }
    }
}

/// A `Result<(), String>` by its view.
pub open spec fn unit_result_view(r: Result<(), String>) -> Result<(), Seq<char>> {
    match r {
        Ok(_) => Ok(()),
        Err(e) => Err(e@),
    }
}

/// Whether some pattern of `patterns` matches `command`.
pub fn any_pattern_matches(patterns: &Vec<String>, command: &Vec<char>) -> (r: bool)
    ensures
        r == any_match(views(patterns@), command@),
{
    let mut i: usize = 0;
    while i < patterns.len()
        invariant
            i <= patterns@.len(),
            forall|j: int|
                0 <= j < i ==> !pattern_matches(#[trigger] views(patterns@)[j], command@),
        decreases patterns@.len() - i,
    {
        let p = chars_of(patterns[i].as_str());
        if matches_pattern_chars(&p, command) {
            assert(views(patterns@)[i as int] == p@);
            return true;
        }
        assert(views(patterns@)[i as int] == p@);
        i += 1;
    }
    false
}

/// `prefix` followed by the characters of `command`.
pub fn reason(prefix: &str, command: &str) -> (r: String)
    ensures
        r@ == prefix@ + command@,
{
    let mut r = string_of(prefix);
    r.append(command);
    r
}

impl BashConfig {
    /// The allow patterns as character sequences.
    pub open spec fn allow_view(&self) -> Seq<Seq<char>> {
        views(self.allow@)
    }

    /// The deny patterns as character sequences.
    pub open spec fn deny_view(&self) -> Seq<Seq<char>> {
        views(self.deny@)
    }

    /// Check a single command against the policy: deny always wins; a
    /// non-empty allow list must match; no allow list allows everything.
    pub fn check_command(&self, command: &str) -> (r: Result<(), String>)
        ensures
            unit_result_view(r) == command_verdict(self.allow_view(), self.deny_view(), command@),
    {
        let c = chars_of(command);
        if any_pattern_matches(&self.deny, &c) {
            return Err(reason("denied by policy: ", command));
        }
        if self.allow.len() > 0 {
            if any_pattern_matches(&self.allow, &c) {
                return Ok(());
            }
            return Err(reason("not in allow list: ", command));
        }
        Ok(())
    }

    /// Check a (possibly compound) command: every part must pass; the first
    /// refusal is returned.
    pub fn check(&self, command: &str) -> (r: Result<(), String>)
        ensures
            unit_result_view(r) == first_refusal(
                self.allow_view(),
                self.deny_view(),
                compound_parts(command@),
            ),
    {
        let parts = split_compound(command);
        let ghost ps = str_views(parts@);
        let mut k: usize = 0;
        assert(ps.skip(0) =~= ps);
        while k < parts.len()
            invariant
                ps == str_views(parts@),
                ps == compound_parts(command@),
                k <= parts@.len(),
                first_refusal(self.allow_view(), self.deny_view(), ps) == first_refusal(
                    self.allow_view(),
                    self.deny_view(),
                    ps.skip(k as int),
                ),
            decreases parts@.len() - k,
        {
            let r = self.check_command(parts[k]);
            assert(ps.skip(k as int)[0] == parts@[k as int]@);
            assert(ps.skip(k as int).drop_first() =~= ps.skip(k + 1));
            if r.is_err() {
                assert(first_refusal(self.allow_view(), self.deny_view(), ps.skip(k as int))
                    == unit_result_view(r));
                return r;
            }
            k += 1;
        }
        assert(ps.skip(k as int) =~= Seq::<Seq<char>>::empty());
        Ok(())
    }

    /// The system prompt block describing this policy, if it has any rules.
    pub open spec fn spec_prompt_block(&self) -> Option<Seq<char>> {
        let allow = self.allow_view();
        let deny = self.deny_view();
        if allow.len() == 0 && deny.len() == 0 {
            None
        } else {
            Some(
                "\n\n<bash-policy>\n"@ + (if allow.len() > 0 {
                    "allowed: "@ + join(allow, ", "@) + "\n"@
                } else {
                    Seq::empty()
                }) + (if deny.len() > 0 {
                    "denied: "@ + join(deny, ", "@) + "\n"@
                } else {
                    Seq::empty()
                }) + (if allow.len() > 0 {
                    "Commands not matching the allow list will be rejected.\n"@
                } else {
                    Seq::empty()
                }) + "</bash-policy>"@,
            )
        }
    }

    /// Build a system prompt block describing the policy.
    pub fn prompt_block(&self) -> (r: Option<String>)
        ensures
            r matches Some(s) ==> self.spec_prompt_block() == Some(s@),
            r is None <==> self.spec_prompt_block() is None,
    {
        if self.allow.len() == 0 && self.deny.len() == 0 {
            return None;
        }
        let mut block = string_of("\n\n<bash-policy>\n");
        let ghost b0 = block@;
        if self.allow.len() > 0 {
            block.append("allowed: ");
            push_joined(&mut block, &self.allow, ", ");
            block.append("\n");
        }
        let ghost b1 = block@;
        if self.deny.len() > 0 {
            block.append("denied: ");
            push_joined(&mut block, &self.deny, ", ");
            block.append("\n");
        }
        let ghost b2 = block@;
        if self.allow.len() > 0 {
            block.append("Commands not matching the allow list will be rejected.\n");
        }
        block.append("</bash-policy>");
        proof {
            let allow = self.allow_view();
            let deny = self.deny_view();
            let x = if allow.len() > 0 {
                "allowed: "@ + join(allow, ", "@) + "\n"@
            } else {
                Seq::empty()
            };
            let y = if deny.len() > 0 {
                "denied: "@ + join(deny, ", "@) + "\n"@
            } else {
                Seq::empty()
            };
            let z = if allow.len() > 0 {
                "Commands not matching the allow list will be rejected.\n"@
            } else {
                Seq::empty()
            };
            assert(b1 =~= b0 + x);
            assert(b2 =~= b0 + x + y);
            assert(block@ =~= b0 + x + y + z + "</bash-policy>"@);
        }
        Some(block)
    }
}

// ── Laws ────────────────────────────────────────────────────────────

/// Deny always wins: when some part of a compound command matches a deny
/// pattern, the whole command is refused.
pub proof fn lemma_deny_wins(allow: Seq<Seq<char>>, deny: Seq<Seq<char>>, parts: Seq<Seq<char>>, i: int)
    requires
        0 <= i < parts.len(),
        any_match(deny, parts[i]),
    ensures
        first_refusal(allow, deny, parts) is Err,
    decreases i,
{
    if i > 0 && command_verdict(allow, deny, parts[0]) is Ok {
        assert(parts.drop_first()[i - 1] == parts[i]);
        lemma_deny_wins(allow, deny, parts.drop_first(), i - 1);
    }
}

/// A command passes exactly when every part passes on its own.
pub proof fn lemma_passes_iff_every_part_passes(
    allow: Seq<Seq<char>>,
    deny: Seq<Seq<char>>,
    parts: Seq<Seq<char>>,
)
    ensures
        first_refusal(allow, deny, parts) is Ok <==> forall|i: int|
            0 <= i < parts.len() ==> #[trigger] command_verdict(allow, deny, parts[i]) is Ok,
    decreases parts.len(),
{
    if parts.len() > 0 {
        lemma_passes_iff_every_part_passes(allow, deny, parts.drop_first());
        if first_refusal(allow, deny, parts) is Ok {
            assert forall|i: int| 0 <= i < parts.len() implies #[trigger] command_verdict(
                allow,
                deny,
                parts[i],
            ) is Ok by {
                if i > 0 {
                    assert(parts.drop_first()[i - 1] == parts[i]);
                }
            }
        } else if command_verdict(allow, deny, parts[0]) is Ok {
            let j = choose|j: int|
                0 <= j < parts.drop_first().len() && !(#[trigger] command_verdict(
                    allow,
                    deny,
                    parts.drop_first()[j],
                ) is Ok);
            assert(parts.drop_first()[j] == parts[j + 1]);
        }
    }
}

/// With neither allow nor deny patterns, every command passes.
pub proof fn lemma_empty_policy_allows_everything(command: Seq<char>)
    ensures
        first_refusal(Seq::empty(), Seq::empty(), compound_parts(command)) is Ok,
{
    let parts = compound_parts(command);
    assert forall|i: int| 0 <= i < parts.len() implies #[trigger] command_verdict(
        Seq::empty(),
        Seq::empty(),
        parts[i],
    ) is Ok by {}
    lemma_passes_iff_every_part_passes(Seq::empty(), Seq::empty(), parts);
}

/// A passing command has no part matching a deny pattern, and every part
/// matches the allow list when there is one.
pub proof fn lemma_pass_means_permitted(
    allow: Seq<Seq<char>>,
    deny: Seq<Seq<char>>,
    command: Seq<char>,
)
    requires
        first_refusal(allow, deny, compound_parts(command)) is Ok,
    ensures
        forall|i: int|
            0 <= i < compound_parts(command).len() ==> {
                &&& !any_match(deny, #[trigger] compound_parts(command)[i])
                &&& allow.len() > 0 ==> any_match(allow, compound_parts(command)[i])
            },
{
    let parts = compound_parts(command);
    lemma_passes_iff_every_part_passes(allow, deny, parts);
    assert forall|i: int| 0 <= i < parts.len() implies {
        &&& !any_match(deny, #[trigger] parts[i])
        &&& allow.len() > 0 ==> any_match(allow, parts[i])
    } by {
        assert(command_verdict(allow, deny, parts[i]) is Ok);
    }
}

/// The pattern `*` matches every command.
pub proof fn lemma_star_matches_everything(command: Seq<char>)
    ensures
        pattern_matches(seq!['*'], command),
{
}

// ── Results ─────────────────────────────────────────────────────────

/// A lower-case hexadecimal digit.
pub open spec fn hex_digit(d: nat) -> char {
    if d < 10 {
        (('0' as u32) + d) as char
    } else {
        (('a' as u32) + d - 10) as char
    }
}

/// How a JSON string literal writes `c` (as `serde_json` does): `"` and
/// `\` behind a backslash, the control characters with short escapes as
/// `\b`, `\t`, `\n`, `\f`, `\r`, the other ones below U+0020 as
/// `\u00` and two lower-case hex digits, and anything else as itself.
pub open spec fn json_escape_char(c: char) -> Seq<char> {
    let n = c as u32;
    if c == '"' {
        seq!['\\', '"']
    } else if c == '\\' {
        seq!['\\', '\\']
    } else if n == 0x08 {
        seq!['\\', 'b']
    } else if n == 0x09 {
        seq!['\\', 't']
    } else if n == 0x0a {
        seq!['\\', 'n']
    } else if n == 0x0c {
        seq!['\\', 'f']
    } else if n == 0x0d {
        seq!['\\', 'r']
    } else if n < 0x20 {
        seq!['\\', 'u', '0', '0', hex_digit((n / 16) as nat), hex_digit((n % 16) as nat)]
    } else {
        seq![c]
    }
}

/// The escaped characters of `s`, in order.
pub open spec fn json_escaped(s: Seq<char>) -> Seq<char>
    decreases s.len(),
{
    if s.len() == 0 {
        Seq::empty()
    } else {
        json_escaped(s.drop_last()) + json_escape_char(s.last())
    }
}

/// The JSON string literal for `s`: quoted and escaped.
pub open spec fn json_string_literal(s: Seq<char>) -> Seq<char> {
    seq!['"'] + json_escaped(s) + seq!['"']
}

/// A hexadecimal digit below 16.
fn hex_char(d: u32) -> (r: char)
    requires
        d < 16,
    ensures
        r == hex_digit(d as nat),
{
    let b: u8 = d as u8;
    if b < 10 {
        (48u8 + b) as char
    } else {
        (87u8 + b) as char
    }
}

/// Append how a JSON string literal writes `c`.
fn push_escaped(out: &mut String, c: char)
    ensures
        final(out)@ == old(out)@ + json_escape_char(c),
{
    let n = c as u32;
    if c == '"' || c == '\\' {
        push_char(out, '\\');
        push_char(out, c);
    } else if n == 0x08 || n == 0x09 || n == 0x0a || n == 0x0c || n == 0x0d {
        push_char(out, '\\');
        let e = if n == 0x08 {
            'b'
        } else if n == 0x09 {
            't'
        } else if n == 0x0a {
            'n'
        } else if n == 0x0c {
            'f'
        } else {
            'r'
        };
        push_char(out, e);
    } else if n < 0x20 {
        push_char(out, '\\');
        push_char(out, 'u');
        push_char(out, '0');
        push_char(out, '0');
        push_char(out, hex_char(n / 16));
        push_char(out, hex_char(n % 16));
    } else {
        push_char(out, c);
    }
    assert(out@ =~= old(out)@ + json_escape_char(c));
}

/// `s` as a JSON string literal, as `serde_json::to_string` writes a `&str`.
fn json_quote(s: &str) -> (r: String)
    ensures
        r@ == json_string_literal(s@),
{
    let v = chars_of(s);
    let mut out = String::new();
    push_char(&mut out, '"');
    let mut i: usize = 0;
    while i < v.len()
        invariant
            i <= v@.len(),
            v@ == s@,
            out@ == seq!['"'] + json_escaped(v@.take(i as int)),
        decreases v@.len() - i,
    {
        assert(v@.take(i + 1).drop_last() =~= v@.take(i as int));
        push_escaped(&mut out, v[i]);
        i += 1;
        assert(out@ =~= seq!['"'] + json_escaped(v@.take(i as int)));
    }
    assert(v@.take(i as int) =~= v@);
    push_char(&mut out, '"');
    assert(out@ =~= json_string_literal(s@));
    out
}

/// The decimal digits of `n`, with a minus sign when it is negative.
pub open spec fn signed_decimal(n: int) -> Seq<char> {
    if n < 0 {
        seq!['-'] + crate::system::host::decimal((-n) as nat)
    } else {
        crate::system::host::decimal(n as nat)
    }
}

/// The tool result of a bash run: a JSON object whose keys come in order
/// (`exit_code`, `stderr`, `stdout`).
pub open spec fn bash_result_text(stdout: Seq<char>, stderr: Seq<char>, exit_code: int) -> Seq<char> {
    "{\"exit_code\":"@ + signed_decimal(exit_code) + ",\"stderr\":"@ + json_string_literal(stderr)
        + ",\"stdout\":"@ + json_string_literal(stdout) + "}"@
}

/// The tool result of a bash run with the given output and exit code.
pub fn bash_result(stdout: &str, stderr: &str, exit_code: i32) -> (r: String)
    ensures
        r@ == bash_result_text(stdout@, stderr@, exit_code as int),
{
    let mut r = string_of("{\"exit_code\":");
    let ghost head = r@;
    if exit_code < 0 {
        proof {
            reveal_strlit("-");
        }
        r.append("-");
        let magnitude: u64 = if exit_code == i32::MIN { 2147483648u64 } else { (-exit_code) as u64 };
        let d = crate::system::host::decimal_string(magnitude);
        r.append(d.as_str());
        assert(r@ =~= head + signed_decimal(exit_code as int));
    } else {
        let d = crate::system::host::decimal_string(exit_code as u64);
        r.append(d.as_str());
        assert(r@ =~= head + signed_decimal(exit_code as int));
    }
    r.append(",\"stderr\":");
    let e = json_quote(stderr);
    r.append(e.as_str());
    r.append(",\"stdout\":");
    let o = json_quote(stdout);
    r.append(o.as_str());
    r.append("}");
    r
}

/// The tool result when bash could not be run or awaited.
pub fn bash_failure(reason: &str) -> (r: String)
    ensures
        r@ == bash_result_text(Seq::empty(), "bash failed: "@ + reason@, -1),
{
    proof {
        reveal_strlit("");
        assert(""@ =~= Seq::<char>::empty());
    }
    let mut msg = string_of("bash failed: ");
    msg.append(reason);
    bash_result("", msg.as_str(), -1)
}

/// The tool result when bash ran past its time limit.
pub fn bash_timeout() -> (r: String)
    ensures
        r@ == bash_result_text(Seq::empty(), "bash timed out after 30 seconds"@, -1),
{
    proof {
        reveal_strlit("");
        assert(""@ =~= Seq::<char>::empty());
    }
    bash_result("", "bash timed out after 30 seconds", -1)
}

} // verus!
